//! The colon-separated text form of an address: what a text splits into, what
//! it parses to, and what an address is written as.

use crate::error::MacAddressErrors;
use crate::hex::{
    all_hex_digits, eq_ignore_ascii_case, hex_digit_value, hex_value, is_hex_byte,
    is_lower_hex_digit, lemma_digit_ignores_case, lemma_hex_value_ignores_case,
    lemma_hex_value_pair, lemma_lower_hex_digit, lower_hex_digit,
};
use vstd::prelude::*;

verus! {

/// Whether `s` holds no colon.
pub open spec fn no_colon(s: Seq<char>) -> bool {
    forall|i: int| 0 <= i < s.len() ==> #[trigger] s[i] != ':'
}

/// The length of the longest prefix of `s` that holds no colon.
pub open spec fn component_len(s: Seq<char>) -> nat
    decreases s.len(),
{
    if s.len() == 0 || s[0] == ':' {
        0
    } else {
        1 + component_len(s.drop_first())
    }
}

/// The components of `s`: the runs between its colons, in order. Nothing is
/// left out: a text with `n` colons has `n + 1` components, some of which may
/// be empty, and the empty text has the one empty component.
pub open spec fn split_colon(s: Seq<char>) -> Seq<Seq<char>>
    decreases s.len(),
{
    let k = component_len(s) as int;
    if k < s.len() {
        seq![s.take(k)] + split_colon(s.skip(k + 1))
    } else {
        seq![s]
    }
}

/// The components written one after the other with a colon between each two.
pub open spec fn join_colon(parts: Seq<Seq<char>>) -> Seq<char>
    decreases parts.len(),
{
    if parts.len() == 0 {
        Seq::empty()
    } else if parts.len() == 1 {
        parts[0]
    } else {
        parts[0] + seq![':'] + join_colon(parts.drop_first())
    }
}

/// What a text parses to. The first six components are judged from left to
/// right, and the first that is not the text of a byte makes the whole text an
/// invalid component. If they all pass, a seventh component (of whatever
/// form) makes the length 7 invalid, fewer than six components make their
/// number invalid, and exactly six give the six bytes.
pub open spec fn parse_spec(s: Seq<char>) -> Result<Seq<u8>, MacAddressErrors> {
    let parts = split_colon(s);
    if exists|i: int| 0 <= i < parts.len() && i < 6 && !is_hex_byte(#[trigger] parts[i]) {
        Err(MacAddressErrors::InvalidComponent)
    } else if parts.len() > 6 {
        Err(MacAddressErrors::InvalidLength(7))
    } else if parts.len() < 6 {
        Err(MacAddressErrors::InvalidLength(parts.len() as usize))
    } else {
        Ok(Seq::new(6, |i: int| hex_value(parts[i]) as u8))
    }
}

/// A byte as two lowercase hexadecimal digits.
pub open spec fn hex_pair(b: u8) -> Seq<char> {
    seq![lower_hex_digit(b as nat / 16), lower_hex_digit(b as nat % 16)]
}

/// The bytes as two-digit groups with a colon between each two.
pub open spec fn format_spec(bytes: Seq<u8>) -> Seq<char> {
    join_colon(Seq::new(bytes.len(), |i: int| hex_pair(bytes[i])))
}

/// The prefix that `component_len` measures holds no colon, and ends at a
/// colon or at the end of the text.
pub proof fn lemma_component_len(s: Seq<char>)
    ensures
        component_len(s) <= s.len(),
        no_colon(s.take(component_len(s) as int)),
        component_len(s) < s.len() ==> s[component_len(s) as int] == ':',
    decreases s.len(),
{
    if s.len() == 0 || s[0] == ':' {
    } else {
        let t = s.drop_first();
        lemma_component_len(t);
        let k = component_len(s) as int;
        assert forall|i: int| 0 <= i < k implies #[trigger] s.take(k)[i] != ':' by {
            if i > 0 {
                assert(t.take(k - 1)[i - 1] == s[i]);
            }
        }
        if k < s.len() {
            assert(t[k - 1] == s[k]);
        }
    }
}

/// A colon-free prefix is no longer than the first component.
pub proof fn lemma_component_len_at_least(s: Seq<char>, k: int)
    requires
        0 <= k <= s.len(),
        no_colon(s.take(k)),
    ensures
        component_len(s) >= k,
    decreases k,
{
    if k > 0 {
        assert(s.take(k)[0] == s[0]);
        let t = s.drop_first();
        assert forall|i: int| 0 <= i < k - 1 implies #[trigger] t.take(k - 1)[i] != ':' by {
            assert(s.take(k)[i + 1] == t[i]);
        }
        lemma_component_len_at_least(t, k - 1);
    }
}

/// A colon-free prefix that ends at a colon, or at the end of the text, is the
/// first component.
pub proof fn lemma_component_len_is(s: Seq<char>, k: int)
    requires
        0 <= k <= s.len(),
        no_colon(s.take(k)),
        k == s.len() || s[k] == ':',
    ensures
        component_len(s) == k,
{
    lemma_component_len_at_least(s, k);
    lemma_component_len(s);
    let c = component_len(s) as int;
    if c > k {
        assert(s.take(c)[k] == s[k]);
    }
}

/// A text has at least one component, and a colon-free prefix of the text is
/// a prefix of the first.
pub proof fn lemma_split_first(s: Seq<char>, k: int)
    requires
        0 <= k <= s.len(),
        no_colon(s.take(k)),
    ensures
        split_colon(s).len() >= 1,
        split_colon(s)[0].len() >= k,
        split_colon(s)[0].take(k) == s.take(k),
{
    lemma_component_len_at_least(s, k);
    lemma_component_len(s);
    let c = component_len(s) as int;
    if c < s.len() {
        assert(split_colon(s)[0] == s.take(c));
        assert(s.take(c).take(k) =~= s.take(k));
    } else {
        assert(split_colon(s)[0] == s);
    }
}

/// At its first colon a text splits into what stands before it and the
/// components of what stands behind it.
pub proof fn lemma_split_at_colon(s: Seq<char>, k: int)
    requires
        0 <= k < s.len(),
        no_colon(s.take(k)),
        s[k] == ':',
    ensures
        split_colon(s) == seq![s.take(k)] + split_colon(s.skip(k + 1)),
{
    lemma_component_len_is(s, k);
}

/// A text without a colon is its own single component.
pub proof fn lemma_split_no_colon(s: Seq<char>)
    requires
        no_colon(s),
    ensures
        split_colon(s) == seq![s],
{
    assert(s.take(s.len() as int) =~= s);
    lemma_component_len_is(s, s.len() as int);
}

/// No component holds a colon, and joining the components gives the text
/// back.
pub proof fn lemma_join_of_split(s: Seq<char>)
    ensures
        split_colon(s).len() >= 1,
        forall|i: int| 0 <= i < split_colon(s).len() ==> no_colon(#[trigger] split_colon(s)[i]),
        join_colon(split_colon(s)) == s,
    decreases s.len(),
{
    lemma_component_len(s);
    let k = component_len(s) as int;
    if k < s.len() {
        let rest = s.skip(k + 1);
        lemma_join_of_split(rest);
        let parts = split_colon(s);
        assert(parts == seq![s.take(k)] + split_colon(rest));
        assert(parts.drop_first() =~= split_colon(rest));
        assert forall|i: int| 0 <= i < parts.len() implies no_colon(#[trigger] parts[i]) by {
            if i > 0 {
                assert(parts[i] == split_colon(rest)[i - 1]);
            }
        }
        assert(join_colon(parts) =~= s);
    } else {
        assert(s.take(k) =~= s);
    }
}

/// Splitting undoes joining, for components that hold no colon.
pub proof fn lemma_split_of_join(parts: Seq<Seq<char>>)
    requires
        parts.len() >= 1,
        forall|i: int| 0 <= i < parts.len() ==> no_colon(#[trigger] parts[i]),
    ensures
        split_colon(join_colon(parts)) == parts,
    decreases parts.len(),
{
    if parts.len() == 1 {
        lemma_split_no_colon(parts[0]);
        assert(seq![parts[0]] =~= parts);
    } else {
        let rest = parts.drop_first();
        assert forall|i: int| 0 <= i < rest.len() implies no_colon(#[trigger] rest[i]) by {
            assert(rest[i] == parts[i + 1]);
        }
        lemma_split_of_join(rest);
        let s = join_colon(parts);
        let k = parts[0].len() as int;
        assert(s == parts[0] + seq![':'] + join_colon(rest));
        assert(s.take(k) =~= parts[0]);
        assert(s.skip(k + 1) =~= join_colon(rest));
        assert(no_colon(parts[0]));
        lemma_split_at_colon(s, k);
        assert(seq![parts[0]] + rest =~= parts);
    }
}

/// Two-character components, joined: the length is three for each component
/// less one, every third character is a colon, and the others are the
/// characters of the components in order.
pub proof fn lemma_join_pairs(parts: Seq<Seq<char>>)
    requires
        forall|i: int| 0 <= i < parts.len() ==> (#[trigger] parts[i]).len() == 2,
    ensures
        parts.len() == 0 ==> join_colon(parts).len() == 0,
        parts.len() >= 1 ==> join_colon(parts).len() == 3 * parts.len() - 1,
        forall|j: int|
            0 <= j < join_colon(parts).len() ==> #[trigger] join_colon(parts)[j] == (if j % 3
                == 2 {
                ':'
            } else {
                parts[j / 3][j % 3]
            }),
    decreases parts.len(),
{
    if parts.len() >= 2 {
        let rest = parts.drop_first();
        assert forall|i: int| 0 <= i < rest.len() implies (#[trigger] rest[i]).len() == 2 by {
            assert(rest[i] == parts[i + 1]);
        }
        lemma_join_pairs(rest);
        let s = join_colon(parts);
        let t = join_colon(rest);
        assert(s == parts[0] + seq![':'] + t);
        assert(parts[0].len() == 2);
        assert forall|j: int| 0 <= j < s.len() implies #[trigger] s[j] == (if j % 3 == 2 {
            ':'
        } else {
            parts[j / 3][j % 3]
        }) by {
            if j >= 3 {
                assert(s[j] == t[j - 3]);
                assert(rest[(j - 3) / 3] == parts[j / 3]);
            }
        }
    } else if parts.len() == 1 {
        assert(parts[0].len() == 2);
    }
}

/// The written form of six bytes has 17 characters. Every third is a colon,
/// the others are lowercase hexadecimal digits, and the two digits of each
/// group are the high and the low half of its byte.
pub proof fn lemma_format_shape(bytes: Seq<u8>)
    requires
        bytes.len() == 6,
    ensures
        format_spec(bytes).len() == 17,
        forall|j: int|
            0 <= j < 17 ==> #[trigger] format_spec(bytes)[j] == (if j % 3 == 2 {
                ':'
            } else if j % 3 == 0 {
                lower_hex_digit(bytes[j / 3] as nat / 16)
            } else {
                lower_hex_digit(bytes[j / 3] as nat % 16)
            }),
        forall|j: int|
            0 <= j < 17 && j % 3 != 2 ==> is_lower_hex_digit(#[trigger] format_spec(bytes)[j]),
        forall|k: int|
            0 <= k < 6 ==> 16 * hex_digit_value(format_spec(bytes)[3 * k]) + hex_digit_value(
                format_spec(bytes)[3 * k + 1],
            ) == #[trigger] bytes[k],
{
    let parts = Seq::new(6, |i: int| hex_pair(bytes[i]));
    let s = format_spec(bytes);
    assert(s == join_colon(parts));
    lemma_join_pairs(parts);
    assert forall|j: int| 0 <= j < 17 implies #[trigger] s[j] == (if j % 3 == 2 {
        ':'
    } else if j % 3 == 0 {
        lower_hex_digit(bytes[j / 3] as nat / 16)
    } else {
        lower_hex_digit(bytes[j / 3] as nat % 16)
    }) && (j % 3 != 2 ==> is_lower_hex_digit(s[j])) by {
        assert(parts[j / 3] == hex_pair(bytes[j / 3]));
        lemma_lower_hex_digit(bytes[j / 3] as nat / 16);
        lemma_lower_hex_digit(bytes[j / 3] as nat % 16);
    }
    assert forall|k: int| 0 <= k < 6 implies 16 * hex_digit_value(s[3 * k]) + hex_digit_value(
        s[3 * k + 1],
    ) == #[trigger] bytes[k] by {
        assert((3 * k) / 3 == k && (3 * k) % 3 == 0);
        assert((3 * k + 1) / 3 == k && (3 * k + 1) % 3 == 1);
        assert(s[3 * k] == lower_hex_digit(bytes[k] as nat / 16));
        assert(s[3 * k + 1] == lower_hex_digit(bytes[k] as nat % 16));
        lemma_lower_hex_digit(bytes[k] as nat / 16);
        lemma_lower_hex_digit(bytes[k] as nat % 16);
    }
}

/// Round trip: the written form of six bytes parses, and to those six bytes.
pub proof fn lemma_parse_format(bytes: Seq<u8>)
    requires
        bytes.len() == 6,
    ensures
        parse_spec(format_spec(bytes)) == Ok::<Seq<u8>, MacAddressErrors>(bytes),
{
    let parts = Seq::new(6, |i: int| hex_pair(bytes[i]));
    assert forall|i: int| 0 <= i < parts.len() implies no_colon(#[trigger] parts[i])
        && is_hex_byte(parts[i]) && hex_value(parts[i]) == bytes[i] by {
        let hi = lower_hex_digit(bytes[i] as nat / 16);
        let lo = lower_hex_digit(bytes[i] as nat % 16);
        lemma_lower_hex_digit(bytes[i] as nat / 16);
        lemma_lower_hex_digit(bytes[i] as nat % 16);
        lemma_hex_value_pair(hi, lo);
        assert(parts[i] == seq![hi, lo]);
    }
    lemma_split_of_join(parts);
    assert(split_colon(format_spec(bytes)) == parts);
    assert(Seq::new(6, |i: int| hex_value(parts[i]) as u8) =~= bytes);
}

/// Case-insensitivity: texts that differ at most in the case of their letters
/// split at the same places.
pub proof fn lemma_split_ignores_case(s: Seq<char>, t: Seq<char>)
    requires
        eq_ignore_ascii_case(s, t),
    ensures
        split_colon(s).len() == split_colon(t).len(),
        forall|i: int|
            0 <= i < split_colon(s).len() ==> eq_ignore_ascii_case(
                #[trigger] split_colon(s)[i],
                split_colon(t)[i],
            ),
    decreases s.len(),
{
    lemma_component_len(s);
    let k = component_len(s) as int;
    assert forall|i: int| 0 <= i < s.len() implies (#[trigger] s[i] == ':') == (t[i] == ':') by {
        lemma_digit_ignores_case(s[i], t[i]);
    }
    assert forall|i: int| 0 <= i < k implies #[trigger] t.take(k)[i] != ':' by {
        assert(s.take(k)[i] == s[i]);
    }
    lemma_component_len_is(t, k);
    if k < s.len() {
        let s1 = s.skip(k + 1);
        let t1 = t.skip(k + 1);
        assert(eq_ignore_ascii_case(s1, t1));
        lemma_split_ignores_case(s1, t1);
        let ps = split_colon(s);
        let pt = split_colon(t);
        assert(ps == seq![s.take(k)] + split_colon(s1));
        assert(pt == seq![t.take(k)] + split_colon(t1));
        assert forall|i: int| 0 <= i < ps.len() implies eq_ignore_ascii_case(
            #[trigger] ps[i],
            pt[i],
        ) by {
            if i == 0 {
                assert(eq_ignore_ascii_case(s.take(k), t.take(k)));
            } else {
                assert(ps[i] == split_colon(s1)[i - 1]);
                assert(pt[i] == split_colon(t1)[i - 1]);
            }
        }
    }
}

/// Case-insensitivity: texts that differ at most in the case of their letters
/// parse to the same result.
pub proof fn lemma_parse_ignores_case(s: Seq<char>, t: Seq<char>)
    requires
        eq_ignore_ascii_case(s, t),
    ensures
        parse_spec(s) == parse_spec(t),
{
    lemma_split_ignores_case(s, t);
    let ps = split_colon(s);
    let pt = split_colon(t);
    assert forall|i: int| 0 <= i < ps.len() implies is_hex_byte(#[trigger] ps[i]) == is_hex_byte(
        pt[i],
    ) && hex_value(ps[i]) == hex_value(pt[i]) by {
        lemma_hex_value_ignores_case(ps[i], pt[i]);
    }
    let bad_s = exists|i: int| 0 <= i < ps.len() && i < 6 && !is_hex_byte(#[trigger] ps[i]);
    let bad_t = exists|i: int| 0 <= i < pt.len() && i < 6 && !is_hex_byte(#[trigger] pt[i]);
    if bad_s {
        let i = choose|i: int| 0 <= i < ps.len() && i < 6 && !is_hex_byte(#[trigger] ps[i]);
        assert(!is_hex_byte(pt[i]));
    }
    if bad_t {
        let i = choose|i: int| 0 <= i < pt.len() && i < 6 && !is_hex_byte(#[trigger] pt[i]);
        assert(is_hex_byte(ps[i]) == is_hex_byte(pt[i]));
        assert(!is_hex_byte(ps[i]));
    }
    assert(bad_s == bad_t);
    if !bad_s && ps.len() == 6 {
        assert(Seq::new(6, |i: int| hex_value(ps[i]) as u8) =~= Seq::new(
            6,
            |i: int| hex_value(pt[i]) as u8,
        ));
    }
}

} // verus!
