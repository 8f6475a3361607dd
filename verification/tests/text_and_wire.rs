use lightshow::text::{self, DigitsError};
use lightshow::wire;

fn chars(s: &str) -> Vec<char> {
    s.chars().collect()
}

#[test]
fn white_space_is_that_of_unicode() {
    for u in 0..=0x10FFFFu32 {
        if let Some(c) = char::from_u32(u) {
            assert_eq!(text::is_white_space(c), c.is_whitespace(), "U+{:04X}", u);
        }
    }
}

#[test]
fn ascii_capitals_are_those_of_std() {
    for u in 0..=0x3FFu32 {
        if let Some(c) = char::from_u32(u) {
            assert_eq!(text::to_ascii_upper(c), c.to_ascii_uppercase());
        }
    }
}

#[test]
fn unsigned_numbers_read_as_std_reads_them() {
    for s in ["0", "7", "007", "+7", "", "+", "++1", "-1", "ff", "FF", "1g", "256", "255", "+ff", " 1"] {
        let c = chars(s);
        assert_eq!(
            text::read_unsigned(&c, 0, c.len(), 16, 255),
            u8::from_str_radix(s, 16).ok().map(u64::from),
            "{:?}",
            s
        );
        assert_eq!(
            text::read_unsigned(&c, 0, c.len(), 10, usize::MAX as u64),
            s.parse::<usize>().ok().map(|v| v as u64),
            "{:?}",
            s
        );
    }
    let c = chars("18446744073709551616");
    assert_eq!(text::read_unsigned(&c, 0, c.len(), 10, u64::MAX), None);
    let c = chars("18446744073709551615");
    assert_eq!(text::read_unsigned(&c, 0, c.len(), 10, u64::MAX), Some(u64::MAX));
}

#[test]
fn digits_have_their_worth() {
    for u in 0..128u32 {
        let c = char::from_u32(u).unwrap();
        assert_eq!(text::digit_of(c), c.to_digit(36).unwrap_or(36));
    }
}

#[test]
fn numbers_are_written_as_std_writes_them() {
    for n in [0u64, 9, 10, 99, 100, 12345, u64::MAX] {
        let mut s = String::from("n=");
        text::push_decimal(&mut s, n);
        assert_eq!(s, format!("n={}", n));
    }
    for n in [0i32, -1, 42, i32::MIN, i32::MAX] {
        let mut s = String::new();
        text::push_signed(&mut s, n);
        assert_eq!(s, format!("{}", n));
    }
    for v in [0u32, 0xA, 0xFF, 0xCAFE, u32::MAX] {
        let mut s = String::new();
        text::push_hex(&mut s, v, 8, true);
        assert_eq!(s, format!("{:08X}", v));
        let mut s = String::new();
        text::push_hex(&mut s, v, 8, false);
        assert_eq!(s, format!("{:08x}", v));
    }
}

#[test]
fn written_numbers_read_back() {
    for n in [0u64, 1, 77, 4096, u64::MAX] {
        let mut s = String::new();
        text::push_decimal(&mut s, n);
        let c = chars(&s);
        assert_eq!(text::read_unsigned(&c, 0, c.len(), 10, u64::MAX), Some(n));
    }
    for v in [0u32, 0x39, 0xFFFF_FFFF] {
        let mut s = String::new();
        text::push_hex(&mut s, v, 8, false);
        let c = chars(&s);
        assert_eq!(text::read_unsigned(&c, 0, 8, 16, u32::MAX as u64), Some(v as u64));
    }
}

#[test]
fn padding_counts_characters() {
    for s in ["", "abc", "äöü", "exactly-10", "longer than ten"] {
        let mut out = String::from(">");
        text::push_padded(&mut out, s, 10);
        assert_eq!(out, format!(">{:<10}", s));
    }
}

#[test]
fn joining_puts_the_separator_between() {
    let none: Vec<String> = vec![];
    assert_eq!(text::join(&none, ", "), "");
    let one = vec!["a".to_string()];
    assert_eq!(text::join(&one, ", "), "a");
    let three = vec!["a".to_string(), "".to_string(), "c".to_string()];
    assert_eq!(text::join(&three, ", "), "a, , c");
}

#[test]
fn fragments_are_found_as_std_finds_them() {
    for (t, p) in [("", ""), ("abc", ""), ("abc", "abc"), ("aab", "ab"), ("abc", "d"), ("ab", "abc"), ("PIPID_", "PID_")] {
        assert_eq!(text::contains_text(t, p), t.contains(p), "{:?} {:?}", t, p);
        assert_eq!(text::find_fragment(&chars(t), &chars(p)), t.find(p));
        assert_eq!(text::starts_with(&chars(t), &chars(p)), t.starts_with(p));
        assert_eq!(text::same_text(t, p), t == p);
    }
}

#[test]
fn the_end_of_a_run_of_hex_digits() {
    assert_eq!(text::find_hex_run_end(&chars("xx5702&Col"), 2), 6);
    assert_eq!(text::find_hex_run_end(&chars("beef"), 0), 4);
    assert_eq!(text::find_hex_run_end(&chars("zz"), 0), 0);
}

#[test]
fn numbers_without_a_sign() {
    let read = |s: &str| {
        let c = chars(s);
        text::read_digits(&c, 0, c.len(), 16, 255)
    };
    assert_eq!(read("0"), Ok(0));
    assert_eq!(read("cC"), Ok(0xCC));
    assert_eq!(read("00ff"), Ok(255));
    assert_eq!(read(""), Err(DigitsError::Empty));
    assert_eq!(read("+1"), Err(DigitsError::InvalidDigit));
    assert_eq!(read("1g"), Err(DigitsError::InvalidDigit));
    assert_eq!(read("100"), Err(DigitsError::TooLarge));
    // The first fault counts, as it does in the standard library.
    for (s, e) in [
        ("", DigitsError::Empty),
        ("g", DigitsError::InvalidDigit),
        ("100", DigitsError::TooLarge),
        ("fffz", DigitsError::TooLarge),
        ("ffz", DigitsError::InvalidDigit),
        ("ffzf", DigitsError::InvalidDigit),
        ("00ffz", DigitsError::InvalidDigit),
        ("z100", DigitsError::InvalidDigit),
    ] {
        assert_eq!(read(s), Err(e));
        assert_eq!(u8::from_str_radix(s, 16).unwrap_err().to_string(), e.to_string());
    }
}

#[test]
fn pairs_of_hex_digits() {
    assert_eq!(text::read_hex_pair(b"x7F", 1), Some(0x7F));
    assert_eq!(text::read_hex_pair(b"fe", 0), Some(0xFE));
    assert_eq!(text::read_hex_pair(b"+f", 0), None);
    assert_eq!(text::read_hex_pair(b"f ", 0), None);
    assert_eq!(text::read_hex_pair("é".as_bytes(), 0), None);
    for high in 0..=255u8 {
        for low in 0..=255u8 {
            let digits = (high as char).to_digit(16).zip((low as char).to_digit(16));
            assert_eq!(text::read_hex_pair(&[high, low], 0), digits.map(|(h, l)| (16 * h + l) as u8));
        }
    }
}

#[test]
fn words_are_little_endian() {
    let bytes = [1u8, 2, 3, 4, 5, 6, 7, 8, 9];
    assert_eq!(wire::read_word(&bytes, 1), u64::from_le_bytes([2, 3, 4, 5, 6, 7, 8, 9]));
    let mut out = vec![0xEEu8];
    wire::push_word(&mut out, 0x0102_0304_0506_0708);
    assert_eq!(out, vec![0xEE, 8, 7, 6, 5, 4, 3, 2, 1]);
}

#[test]
fn swapping_twice_gives_the_value_back() {
    assert_eq!(wire::swap_bytes(0x8021), 0x2180);
    for v in [0u16, 1, 0x80F9, 0xFFFF] {
        assert_eq!(wire::swap_bytes(v), v.swap_bytes());
        assert_eq!(wire::swap_bytes(wire::swap_bytes(v)), v);
        // Little-endian on the wire, the swapped value is big-endian.
        assert_eq!(wire::swap_bytes(v).to_le_bytes(), v.to_be_bytes());
    }
}
