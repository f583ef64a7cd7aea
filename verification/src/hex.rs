//! Hexadecimal digits and the numbers that runs of them denote.

use vstd::prelude::*;

verus! {

/// Whether `c` is one of `0-9`, `a-f`, `A-F`.
pub open spec fn is_hex_digit(c: char) -> bool {
    ('0' <= c && c <= '9') || ('a' <= c && c <= 'f') || ('A' <= c && c <= 'F')
}

/// Whether `c` is one of `0-9`, `a-f`.
pub open spec fn is_lower_hex_digit(c: char) -> bool {
    ('0' <= c && c <= '9') || ('a' <= c && c <= 'f')
}

/// The number a hexadecimal digit stands for; 0 for any other character.
pub open spec fn hex_digit_value(c: char) -> nat {
    if '0' <= c && c <= '9' {
        (c as nat - '0' as nat) as nat
    } else if 'a' <= c && c <= 'f' {
        (c as nat - 'a' as nat + 10) as nat
    } else if 'A' <= c && c <= 'F' {
        (c as nat - 'A' as nat + 10) as nat
    } else {
        0
    }
}

/// The lowercase digit that stands for `d`, for `d` below 16.
pub open spec fn lower_hex_digit(d: nat) -> char {
    if d < 10 {
        ('0' as nat + d) as char
    } else {
        ('a' as nat + d - 10) as char
    }
}

/// The number that a run of hexadecimal digits denotes, most significant
/// digit first. The empty run denotes 0.
pub open spec fn hex_value(s: Seq<char>) -> nat
    decreases s.len(),
{
    if s.len() == 0 {
        0
    } else {
        16 * hex_value(s.drop_last()) + hex_digit_value(s.last())
    }
}

/// Whether every character of `s` is a hexadecimal digit.
pub open spec fn all_hex_digits(s: Seq<char>) -> bool {
    forall|i: int| 0 <= i < s.len() ==> is_hex_digit(#[trigger] s[i])
}

/// Whether `s` is the text of a byte: at least one hexadecimal digit, nothing
/// else, and a value that fits in eight bits. Leading zeros are allowed.
pub open spec fn is_hex_byte(s: Seq<char>) -> bool {
    &&& s.len() > 0
    &&& all_hex_digits(s)
    &&& hex_value(s) <= 255
}

/// `c` with an ASCII capital letter replaced by its small letter.
pub open spec fn ascii_lower(c: char) -> char {
    if 'A' <= c && c <= 'Z' {
        (c as nat + 32) as char
    } else {
        c
    }
}

/// Whether `s` and `t` differ at most in the case of their ASCII letters.
pub open spec fn eq_ignore_ascii_case(s: Seq<char>, t: Seq<char>) -> bool {
    &&& s.len() == t.len()
    &&& forall|i: int| 0 <= i < s.len() ==> ascii_lower(#[trigger] s[i]) == ascii_lower(t[i])
}

/// A lowercase digit is a digit, and it stands for the number it was made from.
pub proof fn lemma_lower_hex_digit(d: nat)
    requires
        d < 16,
    ensures
        is_lower_hex_digit(lower_hex_digit(d)),
        is_hex_digit(lower_hex_digit(d)),
        hex_digit_value(lower_hex_digit(d)) == d,
        lower_hex_digit(d) != ':',
{
}

/// Case does not change whether a character is a digit, nor what it stands
/// for, nor whether it is a colon.
pub proof fn lemma_digit_ignores_case(c: char, d: char)
    requires
        ascii_lower(c) == ascii_lower(d),
    ensures
        is_hex_digit(c) == is_hex_digit(d),
        hex_digit_value(c) == hex_digit_value(d),
        (c == ':') == (d == ':'),
{
}

/// Appending a digit multiplies the value by 16 and adds the digit.
pub proof fn lemma_hex_value_push(s: Seq<char>, c: char)
    ensures
        hex_value(s.push(c)) == 16 * hex_value(s) + hex_digit_value(c),
{
    assert(s.push(c).drop_last() =~= s);
}

/// A run of digits denotes at least what any prefix of it denotes.
pub proof fn lemma_hex_value_prefix(s: Seq<char>, k: int)
    requires
        0 <= k <= s.len(),
    ensures
        hex_value(s.take(k)) <= hex_value(s),
    decreases s.len() - k,
{
    if k < s.len() {
        lemma_hex_value_prefix(s, k + 1);
        assert(s.take(k + 1).drop_last() =~= s.take(k));
    } else {
        assert(s.take(k) =~= s);
    }
}

/// Two digits `hi`, `lo` denote `16 * hi + lo`.
pub proof fn lemma_hex_value_pair(hi: char, lo: char)
    ensures
        hex_value(seq![hi, lo]) == 16 * hex_digit_value(hi) + hex_digit_value(lo),
{
    let s = seq![hi, lo];
    assert(s.drop_last() =~= seq![hi]);
    assert(seq![hi].drop_last() =~= Seq::<char>::empty());
    reveal_with_fuel(hex_value, 3);
}

/// Runs that differ only in case denote the same number, and are both made of
/// digits or neither is.
pub proof fn lemma_hex_value_ignores_case(s: Seq<char>, t: Seq<char>)
    requires
        eq_ignore_ascii_case(s, t),
    ensures
        all_hex_digits(s) == all_hex_digits(t),
        hex_value(s) == hex_value(t),
        is_hex_byte(s) == is_hex_byte(t),
    decreases s.len(),
{
    assert forall|i: int| 0 <= i < s.len() implies is_hex_digit(#[trigger] s[i]) == is_hex_digit(
        t[i],
    ) by {
        lemma_digit_ignores_case(s[i], t[i]);
    }
    assert(all_hex_digits(s) == all_hex_digits(t)) by {
        if all_hex_digits(s) {
            assert forall|i: int| 0 <= i < t.len() implies is_hex_digit(#[trigger] t[i]) by {
                assert(is_hex_digit(s[i]));
            }
        }
        if all_hex_digits(t) {
            assert forall|i: int| 0 <= i < s.len() implies is_hex_digit(#[trigger] s[i]) by {
                assert(is_hex_digit(t[i]));
            }
        }
    }
    if s.len() > 0 {
        let s0 = s.drop_last();
        let t0 = t.drop_last();
        assert(eq_ignore_ascii_case(s0, t0)) by {
            assert forall|i: int| 0 <= i < s0.len() implies ascii_lower(#[trigger] s0[i])
                == ascii_lower(t0[i]) by {
                assert(s0[i] == s[i]);
                assert(t0[i] == t[i]);
            }
        }
        lemma_hex_value_ignores_case(s0, t0);
        assert(ascii_lower(s[s.len() - 1]) == ascii_lower(t[s.len() - 1]));
        lemma_digit_ignores_case(s.last(), t.last());
    }
}

/// Reads one hexadecimal digit of either case.
pub fn parse_hex_digit(c: char) -> (r: Option<u8>)
    ensures
        r is Some <==> is_hex_digit(c),
        r matches Some(d) ==> d == hex_digit_value(c) && d < 16,
{
    if '0' <= c && c <= '9' {
        Some((c as u8) - 48u8)
    } else if 'a' <= c && c <= 'f' {
        Some((c as u8) - 87u8)
    } else if 'A' <= c && c <= 'F' {
        Some((c as u8) - 55u8)
    } else {
        None
    }
}

/// The lowercase hexadecimal digit for a number below 16, as a string of one
/// character.
pub fn lower_hex_str(d: u8) -> (s: &'static str)
    requires
        d < 16,
    ensures
        s@ == seq![lower_hex_digit(d as nat)],
{
    proof {
        reveal_strlit("0");
        reveal_strlit("1");
        reveal_strlit("2");
        reveal_strlit("3");
        reveal_strlit("4");
        reveal_strlit("5");
        reveal_strlit("6");
        reveal_strlit("7");
        reveal_strlit("8");
        reveal_strlit("9");
        reveal_strlit("a");
        reveal_strlit("b");
        reveal_strlit("c");
        reveal_strlit("d");
        reveal_strlit("e");
        reveal_strlit("f");
    }
    let s: &'static str = match d {
        0 => "0",
        1 => "1",
        2 => "2",
        3 => "3",
        4 => "4",
        5 => "5",
        6 => "6",
        7 => "7",
        8 => "8",
        9 => "9",
        10 => "a",
        11 => "b",
        12 => "c",
        13 => "d",
        14 => "e",
        _ => "f",
    };
    assert(s@ =~= seq![lower_hex_digit(d as nat)]);
    s
}

} // verus!
