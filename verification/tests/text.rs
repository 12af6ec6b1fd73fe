use math_test_backend::integer::{parse_integer, IntegerError};
use math_test_backend::path::{extension_of, parent_or_current};
use math_test_backend::text::{is_text_before, is_white_space, same_text, trim};
use std::path::Path;

#[test]
fn white_space_is_the_unicode_property() {
    for n in 0..=0x10ffffu32 {
        if let Some(c) = char::from_u32(n) {
            assert_eq!(is_white_space(c), c.is_whitespace(), "{:x}", n);
        }
    }
}

#[test]
fn trim_takes_white_space_off_both_ends() {
    assert_eq!(trim("  x + 1\t\n"), "x + 1");
    assert_eq!(trim("\u{3000}a b\u{a0}"), "a b");
    assert_eq!(trim("   "), "");
    assert_eq!(trim(""), "");
    assert_eq!(trim("plain"), "plain");
    for s in [" a", "b ", "\u{2028}c\u{85}", " \u{200b} ", "d\u{feff} "] {
        assert_eq!(trim(s), s.trim());
    }
}

#[test]
fn same_text_compares_characters() {
    assert!(same_text("", ""));
    assert!(same_text("héllo", "héllo"));
    assert!(!same_text("abc", "abd"));
    assert!(!same_text("abc", "ab"));
}

#[test]
fn text_order_is_that_of_strings() {
    let words = ["", "a", "A", "_x", "x", "x1", "x_1", "xy", "é", "\u{1f600}", "z", "Z9"];
    for a in words {
        for b in words {
            assert_eq!(is_text_before(a, b), a < b, "{a} {b}");
        }
    }
}

#[test]
fn integers_are_read_as_std_reads_them() {
    let cases = [
        "0", "7", "-7", "+7", "007", "-0", "9223372036854775807", "9223372036854775808",
        "-9223372036854775808", "-9223372036854775809", "99999999999999999999x",
        "9x9999999999999999999", "", "+", "-", "--1", "+-1", " 1", "1 ", "1_000", "abc", "12a",
        "٣", "-99999999999999999999", "922337203685477580", "9223372036854775806",
    ];
    for s in cases {
        match (parse_integer(s), s.parse::<i64>()) {
            (Ok(a), Ok(b)) => assert_eq!(a, b, "{s}"),
            (Err(a), Err(b)) => assert_eq!(a.message(), b.to_string(), "{s}"),
            (a, b) => panic!("{s}: {a:?} {b:?}"),
        }
    }
}

#[test]
fn each_integer_fault() {
    assert_eq!(parse_integer(""), Err(IntegerError::Empty));
    assert_eq!(parse_integer("3.5"), Err(IntegerError::InvalidDigit));
    assert_eq!(parse_integer("9223372036854775808"), Err(IntegerError::TooLarge));
    assert_eq!(parse_integer("-9223372036854775809"), Err(IntegerError::TooSmall));
    assert_eq!(parse_integer("-42"), Ok(-42));
}

fn paths() -> Vec<String> {
    let pieces = ["", "/", ".", "..", "a", "a.b", ".c", "d.", "e.f.g", "//", "/.", "..."];
    let mut all: Vec<String> = Vec::new();
    for x in pieces {
        for y in pieces {
            for z in pieces {
                all.push(format!("{x}{y}{z}"));
                all.push(format!("{x}/{y}/{z}"));
            }
        }
    }
    all
}

#[test]
fn extensions_are_those_of_std() {
    for p in paths() {
        let expected = Path::new(&p).extension().and_then(|e| e.to_str()).map(|e| e.to_string());
        assert_eq!(extension_of(&p), expected, "{p:?}");
    }
}

#[test]
fn parents_are_those_of_std() {
    for p in paths() {
        let expected = match Path::new(&p).parent() {
            Some(q) => q.to_str().unwrap().to_string(),
            None => ".".to_string(),
        };
        assert_eq!(parent_or_current(&p), expected, "{p:?}");
    }
}

#[test]
fn directory_of_the_database() {
    assert_eq!(parent_or_current("./data/app.db"), "./data");
    assert_eq!(parent_or_current("/var/lib/app.db"), "/var/lib");
    assert_eq!(parent_or_current("app.db"), "");
    assert_eq!(parent_or_current("/"), ".");
    assert_eq!(parent_or_current(""), ".");
}
