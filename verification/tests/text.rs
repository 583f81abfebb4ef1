use kazoo_core::text::{parse_i16, parse_u32, push_decimal, push_zero_padded};

fn chars(s: &str) -> Vec<char> {
    s.chars().collect()
}

#[test]
fn decimal_renders_and_parses_back() {
    for n in [0u32, 7, 10, 4242, u32::MAX] {
        let mut s = String::new();
        push_decimal(&mut s, u64::from(n));
        assert_eq!(s, n.to_string());
        assert_eq!(parse_u32(&chars(&s)), Some(n));
    }
}

#[test]
fn zero_padding() {
    let mut s = String::new();
    push_zero_padded(&mut s, 5, 3);
    push_zero_padded(&mut s, 1234, 2);
    assert_eq!(s, "0051234");
}

#[test]
fn integer_parsing_matches_std() {
    for text in ["", "+", "-", "+12", "-12", "007", "4294967295", "4294967296", "1a", " 1", "32767", "32768", "-32768", "-32769", "+-1"] {
        assert_eq!(parse_u32(&chars(text)), text.parse::<u32>().ok(), "u32 {text:?}");
        assert_eq!(parse_i16(&chars(text)), text.parse::<i16>().ok(), "i16 {text:?}");
    }
}
