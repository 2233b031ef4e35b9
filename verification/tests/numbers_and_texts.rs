use ytdl::number::{decimal, parse_signed, parse_unsigned, NumberError};
use ytdl::size::human_readable_bytes;
use ytdl::text::{chars_of, contains, cut, same_text, stands_at, text_of, trim};

/// The same count by way of double-precision numbers.
fn in_doubles(bytes: u64) -> String {
    let units = ["B", "KB", "MB", "GB", "TB", "PB", "EB", "ZB", "YB"];
    let mut bytes = bytes as f64;
    let mut i = 0;
    while bytes >= 1024.0 && i < units.len() {
        bytes /= 1024.0;
        i += 1;
    }
    format!("{:.2} {}", bytes, units[i])
}

#[test]
fn sizes_of_small_counts() {
    assert_eq!(human_readable_bytes(0), "0.00 B");
    assert_eq!(human_readable_bytes(1), "1.00 B");
    assert_eq!(human_readable_bytes(1023), "1023.00 B");
    assert_eq!(human_readable_bytes(1024), "1.00 KB");
    assert_eq!(human_readable_bytes(1536), "1.50 KB");
    assert_eq!(human_readable_bytes(1048576), "1.00 MB");
    assert_eq!(human_readable_bytes(123456789), "117.74 MB");
}

#[test]
fn sizes_just_below_a_unit_round_up_to_1024() {
    assert_eq!(human_readable_bytes(1048575), "1024.00 KB");
    assert_eq!(human_readable_bytes(1073741823), "1024.00 MB");
}

#[test]
fn sizes_round_halves_to_even() {
    assert_eq!(human_readable_bytes(1152), "1.12 KB");
    assert_eq!(human_readable_bytes(1408), "1.38 KB");
}

#[test]
fn sizes_of_the_largest_counts() {
    assert_eq!(human_readable_bytes(u64::MAX), "16.00 EB");
    assert_eq!(human_readable_bytes(1 << 60), "1.00 EB");
}

#[test]
fn sizes_agree_with_doubles() {
    let mut n: u64 = 0;
    while n < 70000 {
        assert_eq!(human_readable_bytes(n), in_doubles(n));
        n += 1;
    }
    let mut seed: u64 = 0x9e37_79b9_7f4a_7c15;
    for round in 0..20000u32 {
        seed = seed.wrapping_mul(6364136223846793005).wrapping_add(1442695040888963407);
        let n = seed >> (round % 64);
        assert_eq!(human_readable_bytes(n), in_doubles(n), "{}", n);
    }
    for shift in 0..64u32 {
        for delta in 0..4000u64 {
            let n = (1u64 << shift).wrapping_add(delta).wrapping_sub(2000);
            assert_eq!(human_readable_bytes(n), in_doubles(n), "{}", n);
        }
    }
}

#[test]
fn decimal_texts() {
    assert_eq!(decimal(0), "0");
    assert_eq!(decimal(9), "9");
    assert_eq!(decimal(10), "10");
    assert_eq!(decimal(907), "907");
    assert_eq!(decimal(u64::MAX), "18446744073709551615");
}

#[test]
fn numbers_are_read_back() {
    for n in [0u64, 1, 10, 99, 100, 65535, 1 << 40, u64::MAX] {
        assert_eq!(parse_unsigned(&decimal(n), u64::MAX), Ok(n));
    }
}

#[test]
fn unsigned_numbers() {
    assert_eq!(parse_unsigned("8080", 65535), Ok(8080));
    assert_eq!(parse_unsigned("+8080", 65535), Ok(8080));
    assert_eq!(parse_unsigned("007", 65535), Ok(7));
    assert_eq!(parse_unsigned("65535", 65535), Ok(65535));
    assert_eq!(parse_unsigned("65536", 65535), Err(NumberError::TooLarge));
    assert_eq!(parse_unsigned("", 65535), Err(NumberError::Empty));
    assert_eq!(parse_unsigned("+", 65535), Err(NumberError::InvalidDigit));
    assert_eq!(parse_unsigned("-", 65535), Err(NumberError::InvalidDigit));
    assert_eq!(parse_unsigned("-1", 65535), Err(NumberError::InvalidDigit));
    assert_eq!(parse_unsigned("1x", 65535), Err(NumberError::InvalidDigit));
    assert_eq!(parse_unsigned("65536x", 65535), Err(NumberError::TooLarge));
}

#[test]
fn signed_numbers() {
    assert_eq!(parse_signed("-5"), Ok(-5));
    assert_eq!(parse_signed("-0"), Ok(0));
    assert_eq!(parse_signed("+5"), Ok(5));
    assert_eq!(parse_signed("-9223372036854775808"), Ok(i64::MIN));
    assert_eq!(parse_signed("9223372036854775807"), Ok(i64::MAX));
    assert_eq!(parse_signed("9223372036854775808"), Err(NumberError::TooLarge));
    assert_eq!(parse_signed("-9223372036854775809"), Err(NumberError::TooSmall));
    assert_eq!(parse_signed("--1"), Err(NumberError::InvalidDigit));
}

#[test]
fn numbers_and_their_errors_agree_with_std() {
    let texts = [
        "", "+", "-", "0", "-0", "+0", "00", "1", "-1", "+1", "12", "1 2", " 1", "1 ", "x", "1x",
        "x1", "--1", "+-1", "-+1", "1-", "1+", "18446744073709551615", "18446744073709551616",
        "18446744073709551616x", "18446744073709551615x", "99999999999999999999999999",
        "9223372036854775807", "9223372036854775808", "-9223372036854775808",
        "-9223372036854775809", "-9223372036854775809x", "1_000", "١", "65535", "65536", "65536x",
    ];
    for t in texts {
        match t.parse::<u64>() {
            Ok(n) => assert_eq!(parse_unsigned(t, u64::MAX), Ok(n), "{}", t),
            Err(e) => {
                let ours = parse_unsigned(t, u64::MAX).unwrap_err();
                assert_eq!(ours.message(), e.to_string(), "{}", t);
            }
        }
        match t.parse::<u16>() {
            Ok(n) => assert_eq!(parse_unsigned(t, 65535), Ok(n as u64), "{}", t),
            Err(e) => {
                let ours = parse_unsigned(t, 65535).unwrap_err();
                assert_eq!(ours.message(), e.to_string(), "{}", t);
            }
        }
        match t.parse::<i64>() {
            Ok(n) => assert_eq!(parse_signed(t), Ok(n), "{}", t),
            Err(e) => {
                let ours = parse_signed(t).unwrap_err();
                assert_eq!(ours.message(), e.to_string(), "{}", t);
            }
        }
    }
}

#[test]
fn trimming() {
    assert_eq!(trim(""), "");
    assert_eq!(trim(" \t\r\n "), "");
    assert_eq!(trim("  a b \n"), "a b");
    assert_eq!(trim("\u{3000}ä\u{2003}"), "ä");
    assert_eq!(trim(&trim("  a ")), "a");
}

#[test]
fn trimming_agrees_with_std_for_every_character() {
    let mut code: u32 = 0;
    while code < 0x11_0000 {
        if let Some(c) = char::from_u32(code) {
            if c.is_whitespace() || code % 97 == 0 {
                let mut s = String::new();
                s.push(c);
                s.push('x');
                s.push(c);
                assert_eq!(trim(&s), s.trim());
            }
        }
        code += 1;
    }
}

#[test]
fn searching() {
    assert!(contains("abcabd", "abd"));
    assert!(contains("abc", ""));
    assert!(contains("", ""));
    assert!(!contains("abc", "abcd"));
    assert!(!contains("abcab", "abd"));
    assert!(stands_at(&chars_of("abc"), &chars_of("bc"), 1));
    assert!(!stands_at(&chars_of("abc"), &chars_of("bc"), 2));
    assert!(!stands_at(&chars_of("abc"), &chars_of(""), 4));
    assert!(same_text("äb", "äb"));
    assert!(!same_text("äb", "ab"));
    assert_eq!(text_of(&chars_of("hällo"), 1, 3), "äl");
}

#[test]
fn cutting() {
    assert_eq!(cut("a b c", ' '), ("a".to_string(), Some("b c".to_string())));
    assert_eq!(cut("abc", ' '), ("abc".to_string(), None));
    assert_eq!(cut("abc ", ' '), ("abc".to_string(), Some(String::new())));
    assert_eq!(cut("", ' '), (String::new(), None));
}

#[test]
fn white_space_characters() {
    let spaces: Vec<char> = ('\u{0}'..=char::MAX)
        .filter(|c| trim(&c.to_string()).is_empty())
        .collect();
    let expected: Vec<char> = [
        0x09..=0x0d,
        0x20..=0x20,
        0x85..=0x85,
        0xa0..=0xa0,
        0x1680..=0x1680,
        0x2000..=0x200a,
        0x2028..=0x2029,
        0x202f..=0x202f,
        0x205f..=0x205f,
        0x3000..=0x3000,
    ]
    .into_iter()
    .flatten()
    .map(|n| char::from_u32(n).unwrap())
    .collect();
    assert_eq!(spaces, expected);
}
