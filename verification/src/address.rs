//! The address value type.

use crate::error::MacAddressErrors;
use crate::hex::{
    all_hex_digits, hex_value, is_hex_byte, lemma_hex_value_prefix, lemma_hex_value_push,
    lower_hex_str, parse_hex_digit,
};
use crate::text::{
    format_spec, hex_pair, join_colon, lemma_split_at_colon, lemma_split_first,
    lemma_split_no_colon, no_colon, parse_spec, split_colon,
};
use vstd::prelude::*;
use vstd::std_specs::convert::{FromSpecImpl, TryFromSpecImpl};

verus! {

/// Six bytes, as a tuple.
pub type MacByteTuple = (u8, u8, u8, u8, u8, u8);

/// A six-byte hardware address. Its view is the sequence of its six bytes.
#[derive(Clone, Copy, Debug, Eq, Hash)]
pub struct MacAddress {
    bytes: [u8; 6],
}

impl View for MacAddress {
    type V = Seq<u8>;

    closed spec fn view(&self) -> Seq<u8> {
        self.bytes@
    }
}

impl MacAddress {
    /// The address that holds the first six bytes of `bytes`.
    pub closed spec fn of(bytes: Seq<u8>) -> MacAddress {
        MacAddress { bytes: [bytes[0], bytes[1], bytes[2], bytes[3], bytes[4], bytes[5]] }
    }

    /// An address has six bytes.
    pub proof fn lemma_view_len(self)
        ensures
            self@.len() == 6,
    {
    }

    /// Addresses with the same bytes are the same address.
    pub proof fn lemma_view_injective(self, other: MacAddress)
        requires
            self@ == other@,
        ensures
            self == other,
    {
        assert(self.bytes =~= other.bytes);
    }

    /// `of` gives the address with the given six bytes.
    pub proof fn lemma_of(bytes: Seq<u8>)
        requires
            bytes.len() == 6,
        ensures
            MacAddress::of(bytes)@ == bytes,
    {
        assert(MacAddress::of(bytes).bytes@ =~= bytes);
    }

    /// An address is `of` its bytes.
    pub proof fn lemma_of_view(self)
        ensures
            MacAddress::of(self@) == self,
    {
        MacAddress::lemma_of(self@);
        MacAddress::of(self@).lemma_view_injective(self);
    }

    /// The all-zero address.
    pub fn new() -> (r: MacAddress)
        ensures
            r@ == seq![0u8, 0u8, 0u8, 0u8, 0u8, 0u8],
    {
        let r = MacAddress { bytes: [0, 0, 0, 0, 0, 0] };
        assert(r.bytes@ =~= seq![0u8, 0u8, 0u8, 0u8, 0u8, 0u8]);
        r
    }

    /// The address with the six given bytes, in the order given.
    pub fn from_bytes(a: u8, b: u8, c: u8, d: u8, e: u8, f: u8) -> (r: MacAddress)
        ensures
            r@ == seq![a, b, c, d, e, f],
    {
        let r = MacAddress { bytes: [a, b, c, d, e, f] };
        assert(r.bytes@ =~= seq![a, b, c, d, e, f]);
        r
    }

    /// The address with the six bytes of the tuple, in order.
    pub fn from_byte_tuple(bytes: MacByteTuple) -> (r: MacAddress)
        ensures
            r@ == seq![bytes.0, bytes.1, bytes.2, bytes.3, bytes.4, bytes.5],
    {
        MacAddress::from_bytes(bytes.0, bytes.1, bytes.2, bytes.3, bytes.4, bytes.5)
    }

    /// The address with the six bytes of the array, in order.
    pub fn from_byte_array(bytes: [u8; 6]) -> (r: MacAddress)
        ensures
            r@ == bytes@,
    {
        MacAddress { bytes }
    }

    /// The address with the bytes of the slice, if there are six of them;
    /// otherwise the length that was found.
    pub fn from_byte_slice(bytes: &[u8]) -> (r: Result<MacAddress, MacAddressErrors>)
        ensures
            bytes@.len() == 6 ==> (r matches Ok(m) && m@ == bytes@),
            bytes@.len() != 6 ==> r == Err::<MacAddress, MacAddressErrors>(
                MacAddressErrors::InvalidLength(bytes.len()),
            ),
    {
        let len: usize = bytes.len();
        if len == 6 {
            let m = MacAddress {
                bytes: [bytes[0], bytes[1], bytes[2], bytes[3], bytes[4], bytes[5]],
            };
            assert(m.bytes@ =~= bytes@);
            Ok(m)
        } else {
            Err(MacAddressErrors::InvalidLength(len))
        }
    }

    /// The six bytes, in order.
    pub(crate) fn to_byte_array(&self) -> (r: [u8; 6])
        ensures
            r@ == self@,
    {
        self.bytes
    }

    /// The address as text: six groups of two lowercase hexadecimal digits
    /// with a colon between each two.
    pub fn to_string(&self) -> (s: String)
        ensures
            s@ == format_spec(self@),
    {
        let ghost groups = Seq::new(6, |k: int| hex_pair(self@[k]));
        let mut s: String = String::new();
        let mut i: usize = 0;
        while i < 6
            invariant
                i <= 6,
                groups == Seq::new(6, |k: int| hex_pair(self@[k])),
                s@ == join_colon(groups.take(i as int)),
            decreases 6 - i,
        {
            let b: u8 = self.bytes[i];
            if i > 0 {
                proof {
                    reveal_strlit(":");
                }
                s.append(":");
            }
            s.append(lower_hex_str(b / 16));
            s.append(lower_hex_str(b % 16));
            proof {
                let head = groups.take(i as int);
                let next = groups.take(i + 1);
                assert(next =~= head.push(groups[i as int]));
                assert(groups[i as int] == hex_pair(b));
                lemma_join_push(head, hex_pair(b));
                assert(s@ =~= join_colon(next));
            }
            i += 1;
        }
        assert(groups.take(6) =~= groups);
        assert(self@.len() == 6);
        s
    }
}

/// Joining one more component appends a colon, unless it is the first, and
/// the component.
pub proof fn lemma_join_push(parts: Seq<Seq<char>>, last: Seq<char>)
    ensures
        join_colon(parts.push(last)) == if parts.len() == 0 {
            last
        } else {
            join_colon(parts) + seq![':'] + last
        },
    decreases parts.len(),
{
    let all = parts.push(last);
    if parts.len() == 0 {
        assert(all[0] == last);
    } else {
        let rest = parts.drop_first();
        assert(all.drop_first() =~= rest.push(last));
        lemma_join_push(rest, last);
        assert(all[0] == parts[0]);
        if parts.len() == 1 {
            assert(join_colon(rest) =~= Seq::<char>::empty());
            assert(join_colon(all) =~= parts[0] + seq![':'] + last);
        } else {
            assert(join_colon(all) =~= join_colon(parts) + seq![':'] + last);
        }
    }
}

impl PartialEq for MacAddress {
    /// Two addresses are equal when their six bytes are, in order.
    fn eq(&self, other: &MacAddress) -> (r: bool) {
        let mut i: usize = 0;
        while i < 6
            invariant
                i <= 6,
                forall|k: int| 0 <= k < i ==> self.bytes[k] == other.bytes[k],
            decreases 6 - i,
        {
            if self.bytes[i] != other.bytes[i] {
                return false;
            }
            i += 1;
        }
        assert(self.bytes@ =~= other.bytes@);
        true
    }
}

impl vstd::std_specs::cmp::PartialEqSpecImpl for MacAddress {
    open spec fn obeys_eq_spec() -> bool {
        true
    }

    open spec fn eq_spec(&self, other: &MacAddress) -> bool {
        self@ == other@
    }
}

impl From<MacByteTuple> for MacAddress {
    fn from(target: MacByteTuple) -> (r: MacAddress) {
        let r = MacAddress::from_byte_tuple(target);
        proof {
            r.lemma_of_view();
        }
        r
    }
}

impl FromSpecImpl<MacByteTuple> for MacAddress {
    open spec fn obeys_from_spec() -> bool {
        true
    }

    open spec fn from_spec(target: MacByteTuple) -> MacAddress {
        MacAddress::of(seq![target.0, target.1, target.2, target.3, target.4, target.5])
    }
}

impl From<[u8; 6]> for MacAddress {
    fn from(target: [u8; 6]) -> (r: MacAddress) {
        let r = MacAddress::from_byte_array(target);
        proof {
            r.lemma_of_view();
        }
        r
    }
}

impl FromSpecImpl<[u8; 6]> for MacAddress {
    open spec fn obeys_from_spec() -> bool {
        true
    }

    open spec fn from_spec(target: [u8; 6]) -> MacAddress {
        MacAddress::of(target@)
    }
}

impl<'a> TryFrom<&'a [u8]> for MacAddress {
    type Error = MacAddressErrors;

    fn try_from(target: &'a [u8]) -> (r: Result<MacAddress, MacAddressErrors>) {
        let r = MacAddress::from_byte_slice(target);
        proof {
            if let Ok(m) = r {
                m.lemma_of_view();
            }
        }
        r
    }
}

impl<'a> TryFromSpecImpl<&'a [u8]> for MacAddress {
    open spec fn obeys_try_from_spec() -> bool {
        true
    }

    open spec fn try_from_spec(target: &'a [u8]) -> Result<MacAddress, MacAddressErrors> {
        if target@.len() == 6 {
            Ok(MacAddress::of(target@))
        } else {
            Err(MacAddressErrors::InvalidLength(target.len()))
        }
    }
}

impl core::str::FromStr for MacAddress {
    type Err = MacAddressErrors;

    /// Reads an address from its text: six components with a colon between
    /// each two, each component the text of a byte in hexadecimal. The text
    /// is read once from left to right, so the first fault decides the error.
    fn from_str(s: &str) -> (r: Result<MacAddress, MacAddressErrors>)
        ensures
            match r {
                Ok(m) => parse_spec(s@) == Ok::<Seq<u8>, MacAddressErrors>(m@),
                Err(e) => parse_spec(s@) == Err::<Seq<u8>, MacAddressErrors>(e),
            },
    {
        let ghost text = s@;
        let ghost parts = split_colon(text);
        let ghost mut start: int = 0;
        let mut bytes: [u8; 6] = [0, 0, 0, 0, 0, 0];
        let mut i: usize = 0;
        let mut value: u8 = 0;
        let mut any: bool = false;
        proof {
            assert(text.skip(0) =~= text);
            assert(parts.skip(0) =~= parts);
            assert(text.take(0) =~= Seq::<char>::empty());
            lemma_split_first(text, 0);
            assert(text.subrange(0, 0) =~= Seq::<char>::empty());
        }
        for c in it: s.chars()
            invariant
                it.seq() == text,
                text == s@,
                parts == split_colon(text),
                i < 6,
                i < parts.len(),
                0 <= start <= it.index() <= text.len(),
                split_colon(text.skip(start)) == parts.skip(i as int),
                no_colon(text.subrange(start, it.index() as int)),
                all_hex_digits(text.subrange(start, it.index() as int)),
                value == hex_value(text.subrange(start, it.index() as int)),
                any == (it.index() > start),
                forall|k: int|
                    0 <= k < i ==> is_hex_byte(#[trigger] parts[k]) && bytes[k] == hex_value(
                        parts[k],
                    ),
        {
            let ghost pos = it.index() as int;
            let ghost rest = text.skip(start);
            let ghost run = text.subrange(start, pos);
            assert(c == text[pos]);
            assert(rest.take(pos - start) =~= run);
            assert(parts[i as int] == parts.skip(i as int)[0]);
            if c == ':' {
                proof {
                    lemma_split_at_colon(rest, pos - start);
                    assert(rest.skip(pos - start + 1) =~= text.skip(pos + 1));
                    assert(parts.skip(i as int)[0] == run);
                    assert(parts.skip(i as int).skip(1) =~= split_colon(text.skip(pos + 1)));
                    assert(parts.skip(i as int).skip(1) =~= parts.skip(i + 1));
                    lemma_split_first(text.skip(pos + 1), 0);
                }
                if !any {
                    assert(!is_hex_byte(parts[i as int]));
                    return Err(MacAddressErrors::InvalidComponent);
                }
                bytes[i] = value;
                i += 1;
                if i == 6 {
                    assert(parts.len() > 6);
                    return Err(MacAddressErrors::InvalidLength(i + 1));
                }
                value = 0;
                any = false;
                proof {
                    start = pos + 1;
                    assert(text.subrange(start, pos + 1) =~= Seq::<char>::empty());
                }
            } else {
                let ghost next = text.subrange(start, pos + 1);
                proof {
                    assert(next =~= run.push(c));
                    assert(rest.take(pos + 1 - start) =~= next);
                    assert(no_colon(next));
                    lemma_split_first(rest, pos + 1 - start);
                    lemma_hex_value_push(run, c);
                    lemma_hex_value_prefix(parts[i as int], pos + 1 - start);
                }
                match parse_hex_digit(c) {
                    Some(d) => {
                        let wide: u16 = (value as u16) * 16 + (d as u16);
                        if wide > 255 {
                            assert(hex_value(parts[i as int]) > 255);
                            return Err(MacAddressErrors::InvalidComponent);
                        }
                        value = wide as u8;
                        any = true;
                        assert(all_hex_digits(next));
                    },
                    None => {
                        assert(parts[i as int][pos - start] == c) by {
                            assert(parts[i as int].take(pos + 1 - start)[pos - start] == c);
                        }
                        assert(!all_hex_digits(parts[i as int]));
                        return Err(MacAddressErrors::InvalidComponent);
                    },
                }
            }
        }
        let ghost last = text.skip(start);
        proof {
            assert(text.subrange(start, text.len() as int) =~= last);
            lemma_split_no_colon(last);
            assert(parts.skip(i as int)[0] == last);
            assert(parts.len() == i + 1);
        }
        if !any {
            assert(!is_hex_byte(parts[i as int]));
            return Err(MacAddressErrors::InvalidComponent);
        }
        bytes[i] = value;
        i += 1;
        if i == 6 {
            let m = MacAddress { bytes };
            assert(m@ =~= Seq::new(6, |k: int| hex_value(parts[k]) as u8));
            Ok(m)
        } else {
            Err(MacAddressErrors::InvalidLength(i))
        }
    }
}

} // verus!
