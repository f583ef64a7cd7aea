//! Decimal notation for counts.

use crate::hex::{lower_hex_digit, lower_hex_str};
use vstd::prelude::*;

verus! {

/// The digit `0`..`9` that stands for `d`, for `d` below 10.
pub open spec fn decimal_digit(d: nat) -> char {
    ('0' as nat + d) as char
}

/// `n` in decimal notation: no sign, no leading zero, `"0"` for zero.
pub open spec fn decimal_digits(n: nat) -> Seq<char>
    decreases n,
{
    if n < 10 {
        seq![decimal_digit(n)]
    } else {
        decimal_digits(n / 10).push(decimal_digit(n % 10))
    }
}

/// The number that a run of decimal digits denotes.
pub open spec fn decimal_value(s: Seq<char>) -> nat
    decreases s.len(),
{
    if s.len() == 0 {
        0
    } else {
        (10 * decimal_value(s.drop_last()) + (s.last() as nat - '0' as nat)) as nat
    }
}

/// Decimal notation is read back as the number it was written for, is never
/// empty, and holds digits only.
pub proof fn lemma_decimal_digits(n: nat)
    ensures
        decimal_digits(n).len() >= 1,
        decimal_value(decimal_digits(n)) == n,
        forall|i: int|
            0 <= i < decimal_digits(n).len() ==> '0' <= #[trigger] decimal_digits(n)[i] <= '9',
        n >= 10 ==> decimal_digits(n)[0] != '0',
    decreases n,
{
    if n < 10 {
        let s = seq![decimal_digit(n)];
        assert(s.drop_last() =~= Seq::<char>::empty());
        reveal_with_fuel(decimal_value, 2);
    } else {
        lemma_decimal_digits(n / 10);
        let head = decimal_digits(n / 10);
        let s = head.push(decimal_digit(n % 10));
        assert(s.drop_last() =~= head);
        assert(s[0] == head[0]);
    }
}

/// Writes `n` in decimal notation.
pub fn decimal_string(n: usize) -> (s: String)
    ensures
        s@ == decimal_digits(n as nat),
    decreases n,
{
    if n < 10 {
        let d: u8 = n as u8;
        assert(lower_hex_digit(d as nat) == decimal_digit(n as nat));
        String::from_str(lower_hex_str(d))
    } else {
        let mut s: String = decimal_string(n / 10);
        let d: u8 = (n % 10) as u8;
        assert(lower_hex_digit(d as nat) == decimal_digit((n % 10) as nat));
        s.append(lower_hex_str(d));
        assert(s@ =~= decimal_digits(n as nat));
        s
    }
}

} // verus!
