use mac::{MacAddress, MacAddressErrors, MacByteTuple};
use std::collections::hash_map::DefaultHasher;
use std::collections::HashSet;
use std::convert::TryFrom;
use std::hash::{Hash, Hasher};

#[test]
fn mac_addr_from_str() {
    assert_eq!(
        "00:00:00:00:00:00".parse(),
        Ok(MacAddress::from_byte_array([0, 0, 0, 0, 0, 0]))
    );
    assert_eq!(
        "ff:ff:ff:ff:ff:ff".parse(),
        Ok(MacAddress::from_byte_array([0xFF, 0xFF, 0xFF, 0xFF, 0xFF, 0xFF]))
    );
    assert_eq!(
        "12:34:56:78:90:ab".parse(),
        Ok(MacAddress::from_byte_array([0x12, 0x34, 0x56, 0x78, 0x90, 0xAB]))
    );
    assert_eq!(
        "::::::".parse::<MacAddress>(),
        Err(MacAddressErrors::InvalidComponent)
    );
    assert_eq!(
        "0::::::".parse::<MacAddress>(),
        Err(MacAddressErrors::InvalidComponent)
    );
    assert_eq!(
        "::::0::".parse::<MacAddress>(),
        Err(MacAddressErrors::InvalidComponent)
    );
    assert_eq!(
        "12:34:56:78".parse::<MacAddress>(),
        Err(MacAddressErrors::InvalidLength(4))
    );
    assert_eq!(
        "12:34:56:78:".parse::<MacAddress>(),
        Err(MacAddressErrors::InvalidComponent)
    );
    assert_eq!(
        "12:34:56:78:90".parse::<MacAddress>(),
        Err(MacAddressErrors::InvalidLength(5))
    );
    assert_eq!(
        "12:34:56:78:90:".parse::<MacAddress>(),
        Err(MacAddressErrors::InvalidComponent)
    );
    assert_eq!(
        "12:34:56:78:90:00:00".parse::<MacAddress>(),
        Err(MacAddressErrors::InvalidLength(7))
    );
    assert_eq!(
        "xx:xx:xx:xx:xx:xx".parse::<MacAddress>(),
        Err(MacAddressErrors::InvalidComponent)
    );
}

#[test]
fn mac_addr_from_bytes() {
    assert_eq!(
        MacAddress::from_bytes(0, 0, 0, 0, 0, 0).to_string(),
        "00:00:00:00:00:00"
    );
    assert_eq!(
        MacAddress::from_bytes(0xFF, 0xFF, 0xFF, 0xFF, 0xFF, 0xFF).to_string(),
        "ff:ff:ff:ff:ff:ff"
    );
    assert_eq!(
        MacAddress::from_bytes(0x12, 0x34, 0x56, 0x78, 0x90, 0xAB).to_string(),
        "12:34:56:78:90:ab"
    );
}

#[test]
fn mac_addr_from_byte_tuple() {
    assert_eq!(
        MacAddress::from_byte_tuple((0, 0, 0, 0, 0, 0)).to_string(),
        "00:00:00:00:00:00"
    );
    assert_eq!(
        MacAddress::from_byte_tuple((0xFF, 0xFF, 0xFF, 0xFF, 0xFF, 0xFF)).to_string(),
        "ff:ff:ff:ff:ff:ff"
    );
    assert_eq!(
        MacAddress::from_byte_tuple((0x12, 0x34, 0x56, 0x78, 0x90, 0xAB)).to_string(),
        "12:34:56:78:90:ab"
    );
}

#[test]
fn mac_addr_from_byte_array() {
    assert_eq!(
        MacAddress::from_byte_array([0, 0, 0, 0, 0, 0]).to_string(),
        "00:00:00:00:00:00"
    );
    assert_eq!(
        MacAddress::from_byte_array([0xFF, 0xFF, 0xFF, 0xFF, 0xFF, 0xFF]).to_string(),
        "ff:ff:ff:ff:ff:ff"
    );
    assert_eq!(
        MacAddress::from_byte_array([0x12, 0x34, 0x56, 0x78, 0x90, 0xAB]).to_string(),
        "12:34:56:78:90:ab"
    );
}

#[test]
fn str_from_mac_addr() {
    assert_eq!(
        MacAddress::from_byte_array([0, 0, 0, 0, 0, 0]).to_string(),
        "00:00:00:00:00:00"
    );
    assert_eq!(
        MacAddress::from_byte_array([0xFF, 0xFF, 0xFF, 0xFF, 0xFF, 0xFF]).to_string(),
        "ff:ff:ff:ff:ff:ff"
    );
    assert_eq!(
        MacAddress::from_byte_array([0x12, 0x34, 0x56, 0x78, 0x09, 0xAB]).to_string(),
        "12:34:56:78:09:ab"
    );
}

fn parse(text: &str) -> Result<MacAddress, MacAddressErrors> {
    text.parse::<MacAddress>()
}

fn hash_of(m: &MacAddress) -> u64 {
    let mut h = DefaultHasher::new();
    m.hash(&mut h);
    h.finish()
}

#[test]
fn new_is_all_zero() {
    assert_eq!(MacAddress::new(), MacAddress::from_bytes(0, 0, 0, 0, 0, 0));
    assert_eq!(MacAddress::new().to_string(), "00:00:00:00:00:00");
    assert_eq!(parse("00:00:00:00:00:00"), Ok(MacAddress::new()));
}

#[test]
fn constructors_keep_the_order_of_the_bytes() {
    let a = MacAddress::from_bytes(1, 2, 3, 4, 5, 6);
    assert_eq!(a, MacAddress::from_byte_tuple((1, 2, 3, 4, 5, 6)));
    assert_eq!(a, MacAddress::from_byte_array([1, 2, 3, 4, 5, 6]));
    assert_eq!(MacAddress::from_byte_slice(&[1, 2, 3, 4, 5, 6]), Ok(a));
    assert_eq!(a.to_string(), "01:02:03:04:05:06");
    assert_ne!(a, MacAddress::from_bytes(6, 5, 4, 3, 2, 1));
}

#[test]
fn from_byte_slice_succeeds_only_on_six_bytes() {
    let data: [u8; 9] = [1, 2, 3, 4, 5, 6, 7, 8, 9];
    for len in 0..=9usize {
        let r = MacAddress::from_byte_slice(&data[..len]);
        if len == 6 {
            assert_eq!(r, Ok(MacAddress::from_bytes(1, 2, 3, 4, 5, 6)));
        } else {
            assert_eq!(r, Err(MacAddressErrors::InvalidLength(len)));
        }
    }
    let long = vec![0u8; 1000];
    assert_eq!(
        MacAddress::from_byte_slice(&long),
        Err(MacAddressErrors::InvalidLength(1000))
    );
}

#[test]
fn conversions_agree_with_the_constructors() {
    let t: MacByteTuple = (0x0a, 0x0b, 0x0c, 0x0d, 0x0e, 0x0f);
    let from_tuple: MacAddress = t.into();
    assert_eq!(from_tuple, MacAddress::from_byte_tuple(t));
    let from_array = MacAddress::from([0x0a, 0x0b, 0x0c, 0x0d, 0x0e, 0x0f]);
    assert_eq!(from_array, from_tuple);
    let slice: &[u8] = &[0x0a, 0x0b, 0x0c, 0x0d, 0x0e, 0x0f];
    assert_eq!(MacAddress::try_from(slice), Ok(from_tuple));
    let short: &[u8] = &[0x0a, 0x0b];
    assert_eq!(
        MacAddress::try_from(short),
        Err(MacAddressErrors::InvalidLength(2))
    );
    let none: &[u8] = &[];
    assert_eq!(
        MacAddress::try_from(none),
        Err(MacAddressErrors::InvalidLength(0))
    );
}

#[test]
fn equality_is_bytewise_and_hash_agrees() {
    let a = MacAddress::from_bytes(1, 2, 3, 4, 5, 6);
    let b = MacAddress::from_byte_array([1, 2, 3, 4, 5, 6]);
    assert!(a == b);
    assert_eq!(hash_of(&a), hash_of(&b));
    for i in 0..6 {
        let mut bytes = [1u8, 2, 3, 4, 5, 6];
        bytes[i] ^= 0x80;
        assert!(a != MacAddress::from_byte_array(bytes));
    }
    let mut set = HashSet::new();
    assert!(set.insert(a));
    assert!(!set.insert(b));
    assert!(set.insert(MacAddress::new()));
    let copy = a;
    assert_eq!(copy, a);
}

#[test]
fn format_is_seventeen_lowercase_characters() {
    let samples = [
        [0u8, 0, 0, 0, 0, 0],
        [0xff, 0xff, 0xff, 0xff, 0xff, 0xff],
        [0x0a, 0xb0, 0xCD, 0x01, 0x10, 0x9f],
        [0xDE, 0xAD, 0xBE, 0xEF, 0x00, 0x7f],
    ];
    for bytes in samples {
        let text = MacAddress::from_byte_array(bytes).to_string();
        assert_eq!(text.len(), 17);
        for (j, c) in text.chars().enumerate() {
            if j % 3 == 2 {
                assert_eq!(c, ':');
            } else {
                assert!(matches!(c, '0'..='9' | 'a'..='f'));
            }
        }
        for k in 0..6 {
            assert_eq!(u8::from_str_radix(&text[3 * k..3 * k + 2], 16), Ok(bytes[k]));
        }
    }
    assert_eq!(
        MacAddress::from_bytes(0x0a, 0xb0, 0xcd, 0x01, 0x10, 0x9f).to_string(),
        "0a:b0:cd:01:10:9f"
    );
    assert_eq!(
        MacAddress::from_bytes(0xde, 0xad, 0xbe, 0xef, 0x00, 0x7f).to_string(),
        "de:ad:be:ef:00:7f"
    );
}

#[test]
fn every_byte_value_formats_as_two_digits_and_parses_back() {
    for b in 0..=255u8 {
        let m = MacAddress::from_bytes(b, 255 - b, b, 0, 255, b);
        let text = m.to_string();
        assert_eq!(
            text,
            format!("{:02x}:{:02x}:{:02x}:00:ff:{:02x}", b, 255 - b, b, b)
        );
        assert_eq!(parse(&text), Ok(m));
    }
}

#[test]
fn parsing_ignores_case() {
    assert_eq!(parse("AA:BB:CC:DD:EE:FF"), parse("aa:bb:cc:dd:ee:ff"));
    assert_eq!(
        parse("AA:BB:CC:DD:EE:FF"),
        Ok(MacAddress::from_bytes(0xaa, 0xbb, 0xcc, 0xdd, 0xee, 0xff))
    );
    assert_eq!(
        parse("aB:Cd:eF:0A:a0:Ff"),
        Ok(MacAddress::from_bytes(0xab, 0xcd, 0xef, 0x0a, 0xa0, 0xff))
    );
    assert_eq!(parse("XX:12:34:56:78:90"), parse("xx:12:34:56:78:90"));
    assert_eq!(parse("AB:CD"), parse("ab:cd"));
    assert_eq!(
        MacAddress::from_bytes(0xaa, 0xbb, 0xcc, 0xdd, 0xee, 0xff).to_string(),
        "aa:bb:cc:dd:ee:ff"
    );
}

#[test]
fn components_of_one_digit_and_with_leading_zeros() {
    assert_eq!(
        parse("1:2:3:4:5:6"),
        Ok(MacAddress::from_bytes(1, 2, 3, 4, 5, 6))
    );
    assert_eq!(
        parse("0:a:B:f:10:0f"),
        Ok(MacAddress::from_bytes(0, 0x0a, 0x0b, 0x0f, 0x10, 0x0f))
    );
    assert_eq!(
        parse("000:0ff:00000000000000000001:0a:00:000"),
        Ok(MacAddress::from_bytes(0, 0xff, 1, 0x0a, 0, 0))
    );
}

#[test]
fn components_that_are_not_a_byte() {
    let invalid = Err(MacAddressErrors::InvalidComponent);
    assert_eq!(parse("100:00:00:00:00:00"), invalid);
    assert_eq!(parse("00:00:00:00:00:100"), invalid);
    assert_eq!(parse("fff:00:00:00:00:00"), invalid);
    assert_eq!(parse("0100:00:00:00:00:00"), invalid);
    assert_eq!(parse("00:0g:00:00:00:00"), invalid);
    assert_eq!(parse("00:00:0x1:00:00:00"), invalid);
    assert_eq!(parse("+1:00:00:00:00:00"), invalid);
    assert_eq!(parse("-1:00:00:00:00:00"), invalid);
    assert_eq!(parse("00:00:00:00:00:+f"), invalid);
    assert_eq!(parse(" 00:00:00:00:00:00"), invalid);
    assert_eq!(parse("00:00:00:00:00:00 "), invalid);
    assert_eq!(parse("00:00:00:00:00:00\n"), invalid);
    assert_eq!(parse("00-00-00-00-00-00"), invalid);
    assert_eq!(parse("0000.0000.0000"), invalid);
    assert_eq!(parse("00:00:00:00:00:\u{e9}"), invalid);
    assert_eq!(parse("\u{ff11}1:00:00:00:00:00"), invalid);
    assert_eq!(parse("not an address"), invalid);
}

#[test]
fn empty_text_and_lone_colons() {
    let invalid = Err(MacAddressErrors::InvalidComponent);
    assert_eq!(parse(""), invalid);
    assert_eq!(parse(":"), invalid);
    assert_eq!(parse("::"), invalid);
    assert_eq!(parse(":::::"), invalid);
    assert_eq!(parse(":::::::"), invalid);
    assert_eq!(parse(":00:00:00:00:00:00"), invalid);
    assert_eq!(parse("00::00:00:00:00"), invalid);
}

#[test]
fn the_number_of_components() {
    assert_eq!(parse("12"), Err(MacAddressErrors::InvalidLength(1)));
    assert_eq!(parse("000000000000"), Err(MacAddressErrors::InvalidLength(1)));
    assert_eq!(parse("12:34"), Err(MacAddressErrors::InvalidLength(2)));
    assert_eq!(parse("12:34:56"), Err(MacAddressErrors::InvalidLength(3)));
    assert_eq!(parse("12:34:56:78"), Err(MacAddressErrors::InvalidLength(4)));
    assert_eq!(
        parse("12:34:56:78:90"),
        Err(MacAddressErrors::InvalidLength(5))
    );
    assert_eq!(
        parse("12:34:56:78:90:ab:cd"),
        Err(MacAddressErrors::InvalidLength(7))
    );
    assert_eq!(
        parse("12:34:56:78:90:ab:cd:ef"),
        Err(MacAddressErrors::InvalidLength(7))
    );
    assert_eq!(
        parse("1:2:3:4:5:6:7:8:9:a:b:c:d:e:f"),
        Err(MacAddressErrors::InvalidLength(7))
    );
}

#[test]
fn the_first_fault_from_the_left_decides() {
    assert_eq!(
        parse("12:34:56:78:90:ab:"),
        Err(MacAddressErrors::InvalidLength(7))
    );
    assert_eq!(
        parse("12:34:56:78:90:ab:zz"),
        Err(MacAddressErrors::InvalidLength(7))
    );
    assert_eq!(
        parse("12:34:56:78:90:ab::"),
        Err(MacAddressErrors::InvalidLength(7))
    );
    assert_eq!(
        parse("12:34:56:78:90:zz:00"),
        Err(MacAddressErrors::InvalidComponent)
    );
    assert_eq!(
        parse("zz:34:56:78:90:ab:00"),
        Err(MacAddressErrors::InvalidComponent)
    );
    assert_eq!(
        parse("12:34:56:78:90::00"),
        Err(MacAddressErrors::InvalidComponent)
    );
    assert_eq!(parse("12:zz"), Err(MacAddressErrors::InvalidComponent));
    assert_eq!(
        parse("12:34:56:78:"),
        Err(MacAddressErrors::InvalidComponent)
    );
}

#[test]
fn error_messages() {
    assert_eq!(
        MacAddressErrors::InvalidComponent.to_string(),
        "Invalid component in a MAC address string"
    );
    assert_eq!(
        MacAddressErrors::InvalidLength(4).to_string(),
        "Expected 6 components but found 4"
    );
    assert_eq!(
        MacAddressErrors::InvalidLength(7).to_string(),
        "Expected 6 components but found 7"
    );
    assert_eq!(
        MacAddressErrors::InvalidLength(0).to_string(),
        "Expected 6 components but found 0"
    );
    assert_eq!(
        MacAddressErrors::InvalidLength(10).to_string(),
        "Expected 6 components but found 10"
    );
    assert_eq!(
        MacAddressErrors::InvalidLength(1000).to_string(),
        "Expected 6 components but found 1000"
    );
    assert_eq!(
        MacAddressErrors::InvalidLength(usize::MAX).to_string(),
        format!("Expected 6 components but found {}", usize::MAX)
    );
    assert_eq!(
        parse("12:34:56:78").unwrap_err().to_string(),
        "Expected 6 components but found 4"
    );
    assert_eq!(
        parse("xx:xx:xx:xx:xx:xx").unwrap_err().to_string(),
        "Invalid component in a MAC address string"
    );
}

#[test]
fn errors_compare_by_kind_and_count() {
    assert_eq!(
        MacAddressErrors::InvalidLength(4),
        MacAddressErrors::InvalidLength(4)
    );
    assert_ne!(
        MacAddressErrors::InvalidLength(4),
        MacAddressErrors::InvalidLength(5)
    );
    assert_ne!(
        MacAddressErrors::InvalidLength(0),
        MacAddressErrors::InvalidComponent
    );
    let e = MacAddressErrors::InvalidLength(3);
    let copy = e;
    assert_eq!(e, copy);
}
