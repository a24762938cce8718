use queued_build_hook::clock::{nanos_of_secs, nanos_since, seconds_since};
use queued_build_hook::closure::{line_size, ClosureSize};
use queued_build_hook::decimal::{decimal, parse_i32, parse_u64};
use queued_build_hook::text::{
    is_white_space, join_with_spaces, same_text, split_fields, split_whitespace, text_before,
    trim_end, list_items, quote_all};

const SAMPLES: [&str; 16] = [
    "",
    " ",
    "a",
    " a",
    "a ",
    "a b",
    "\t a\u{a0}b\u{2003}c \n",
    "/nix/store/abc-foo /nix/store/def-bar",
    "/nix/store/abc\t4096",
    "ä\u{85}ö\u{3000}ü",
    "::",
    "a:b:",
    ":a",
    "enqueue:control",
    "x y  z   ",
    "\u{1680}\u{202f}",
];

#[test]
fn white_space_is_unicode_white_space() {
    for n in 0..=0x10ffffu32 {
        if let Some(c) = char::from_u32(n) {
            assert_eq!(is_white_space(c), c.is_whitespace(), "U+{n:04X}");
        }
    }
}

#[test]
fn words_are_those_of_std() {
    for s in SAMPLES {
        let expected: Vec<&str> = s.split_whitespace().collect();
        assert_eq!(split_whitespace(s), expected);
        assert_eq!(trim_end(s), s.trim_end());
    }
}

#[test]
fn fields_are_those_of_std() {
    for s in SAMPLES {
        let expected: Vec<&str> = s.split(':').collect();
        assert_eq!(split_fields(s, ':'), expected);
    }
}

#[test]
fn order_is_that_of_std() {
    for a in SAMPLES {
        for b in SAMPLES {
            assert_eq!(text_before(a, b), a < b, "{a:?} {b:?}");
            assert_eq!(same_text(a, b), a == b);
        }
    }
    assert!(text_before("\u{ffff}", "\u{10000}"));
}

#[test]
fn splitting_undoes_joining() {
    let paths: Vec<String> = vec!["/nix/store/a".into(), "/nix/store/b".into(), "c".into()];
    let text = join_with_spaces(&paths);
    assert_eq!(text, "/nix/store/a /nix/store/b c");
    assert_eq!(split_whitespace(&text), paths);
    assert_eq!(join_with_spaces(&Vec::new()), "");
}

#[test]
fn numbers_parse_as_in_std() {
    for s in [
        "", "+", "-", "0", "-0", "+0", "7", "+7", "-7", "++7", "+-7", " 7", "7 ", "007", "12a",
        "2147483647", "2147483648", "-2147483648", "-2147483649", "18446744073709551615",
        "18446744073709551616", "99999999999999999999999", "000000000000000000000000000000005",
        "٣",
    ] {
        assert_eq!(parse_u64(s), s.parse::<u64>().ok(), "{s:?}");
        assert_eq!(parse_i32(s), s.parse::<i32>().ok(), "{s:?}");
    }
}

#[test]
fn numbers_are_written_as_in_std() {
    for n in [0, 1, 9, 10, 11, 99, 100, 305, 2147483647, u32::MAX] {
        assert_eq!(decimal(n), n.to_string());
        assert_eq!(parse_u64(&decimal(n)), Some(n as u64));
    }
}

#[test]
fn closure_line_has_its_size_in_the_second_column() {
    assert_eq!(line_size("/nix/store/abc-foo\t4096"), Some(4096));
    assert_eq!(line_size("/nix/store/abc-foo   4096   9"), Some(4096));
    assert_eq!(line_size("/nix/store/abc-foo"), None);
    assert_eq!(line_size("/nix/store/abc-foo -1"), None);
    assert_eq!(line_size(""), None);
}

#[test]
fn closure_size_adds_up_and_saturates() {
    let mut size = ClosureSize::new();
    size.add_line("/nix/store/a 100");
    size.add_line("/nix/store/b\t23");
    assert_eq!(size.finish(true), Some(123));
    assert_eq!(size.finish(false), None);
    size.add_line("/nix/store/c 18446744073709551615");
    assert_eq!(size.finish(true), Some(u64::MAX));
    assert_eq!(ClosureSize::new().finish(true), Some(0));
}

#[test]
fn closure_size_is_unknown_after_a_line_without_one() {
    for lines in [
        ["/nix/store/a\tgarbage", "/nix/store/b\t200"],
        ["/nix/store/b\t200", "warning"],
        ["/nix/store/b\t200", ""],
    ] {
        let mut size = ClosureSize::new();
        for line in lines {
            size.add_line(line);
        }
        assert_eq!(size.finish(true), None);
    }
}

#[test]
fn closure_size_is_unknown_after_a_failed_read() {
    let mut size = ClosureSize::new();
    size.add_line("/nix/store/a 100");
    size.read_failed();
    assert_eq!(size.finish(true), None);
    size.add_line("/nix/store/b 1");
    assert_eq!(size.finish(true), None);
}

#[test]
fn lists_are_written_as_debug_does() {
    for names in [
        vec![],
        vec!["bar".to_string()],
        vec!["bar".to_string(), "foo".to_string()],
        vec!["a\"b".to_string(), "c\\d\n".to_string(), "é\u{7f}".to_string()],
    ] {
        assert_eq!(list_items(&quote_all(&names)), format!("{names:?}"));
    }
    assert_eq!(list_items(&vec!["1".to_string(), "2".to_string()]), "[1, 2]");
}

#[test]
fn times_never_run_backwards() {
    assert_eq!(nanos_since(5, 9), 4);
    assert_eq!(nanos_since(9, 5), 0);
    assert_eq!(seconds_since(0, 1_999_999_999), 1);
    assert_eq!(nanos_of_secs(30), 30_000_000_000);
    assert_eq!(nanos_of_secs(u64::MAX), u64::MAX as u128 * 1_000_000_000);
}
