use device_history::text::{
    bytes_prefix, chars_of, contains, decimal_chars, find, parse_u32, remove_char, rfind,
    same_text, split, str_contains, strip_leading, tail_after_last, text_before_or_same, text_of,
    trim, trim_leading,
};

fn cs(s: &str) -> Vec<char> {
    s.chars().collect()
}

#[test]
fn chars_and_text_round_trip() {
    assert_eq!(chars_of("héllo"), vec!['h', 'é', 'l', 'l', 'o']);
    assert_eq!(text_of(&cs("héllo")), "héllo");
    assert_eq!(chars_of(""), Vec::<char>::new());
}

#[test]
fn same_text_compares_characters() {
    assert!(same_text("theme", "theme"));
    assert!(!same_text("theme", "Theme"));
    assert!(!same_text("theme", "theme "));
    assert!(same_text("", ""));
}

#[test]
fn find_gives_the_leftmost_position() {
    assert_eq!(find(&cs("abcabc"), &cs("bc")), Some(1));
    assert_eq!(find(&cs("abcabc"), &cs("")), Some(0));
    assert_eq!(find(&cs("abc"), &cs("abcd")), None);
    assert_eq!(find(&cs("aaa"), &cs("aa")), Some(0));
    assert_eq!(find(&cs("xéy"), &cs("y")), Some(2));
}

#[test]
fn rfind_gives_the_rightmost_position() {
    assert_eq!(rfind(&cs("abcabc"), &cs("bc")), Some(4));
    assert_eq!(rfind(&cs("aaa"), &cs("aa")), Some(1));
    assert_eq!(rfind(&cs("abc"), &cs("x")), None);
    assert_eq!(rfind(&cs("abc"), &cs("")), Some(3));
}

#[test]
fn contains_agrees_with_std() {
    let hays = ["", "a", "USB Mass Storage Device", "Storage", "stor\u{e4}ge", "aab"];
    let needles = ["", "a", "Storage", "Mass Storage", "ab", "\u{e4}g", "b"];
    for h in hays {
        for n in needles {
            assert_eq!(contains(&cs(h), &cs(n)), h.contains(n), "{:?} in {:?}", n, h);
            assert_eq!(str_contains(h, n), h.contains(n), "{:?} in {:?}", n, h);
        }
    }
}

#[test]
fn tail_after_last_agrees_with_rsplit() {
    let cases = [
        ("USB\\VID_1\\ABC", "\\"),
        ("ABC", "\\"),
        ("ABC\\", "\\"),
        ("", "\\"),
        ("\\\\.\\PHYSICALDRIVE12", "PHYSICALDRIVE"),
        ("PHYSICALDRIVEPHYSICALDRIVE3", "PHYSICALDRIVE"),
        ("aaa", "aa"),
    ];
    for (hay, sep) in cases {
        let expected = hay.rsplit(sep).next().unwrap();
        assert_eq!(text_of(&tail_after_last(&cs(hay), &cs(sep))), expected, "{:?}", hay);
    }
}

#[test]
fn trim_agrees_with_std() {
    let cases = ["", " ", "  a b \t", "\u{a0}x\u{2003}", "\r\nkey \r", "no-space", " \u{feff} "];
    for c in cases {
        assert_eq!(trim(c), c.trim(), "{:?}", c);
        assert_eq!(text_of(&trim_leading(&cs(c))), c.trim_start(), "{:?}", c);
    }
}

#[test]
fn remove_char_drops_every_occurrence() {
    assert_eq!(text_of(&remove_char(&cs(" A B  C "), ' ')), "ABC");
    assert_eq!(text_of(&remove_char(&cs("ABC"), ' ')), "ABC");
    assert_eq!(text_of(&remove_char(&cs("   "), ' ')), "");
}

#[test]
fn text_order_agrees_with_string_order() {
    let words = ["", "a", "A", "ab", "b", "\u{e9}", "z", "zz", "\u{10000}", "\u{ffff}"];
    for a in words {
        for b in words {
            assert_eq!(text_before_or_same(&cs(a), &cs(b)), a <= b, "{:?} {:?}", a, b);
        }
    }
}

#[test]
fn bytes_prefix_counts_encoded_bytes() {
    assert_eq!(bytes_prefix(&cs("046D&PID"), 0, 4), Some("046D".to_string()));
    assert_eq!(bytes_prefix(&cs("xx046D"), 2, 4), Some("046D".to_string()));
    assert_eq!(bytes_prefix(&cs("abc"), 0, 4), None);
    assert_eq!(bytes_prefix(&cs("12\u{e9}4"), 0, 4), Some("12\u{e9}".to_string()));
    assert_eq!(bytes_prefix(&cs("123\u{e9}"), 0, 4), None);
    assert_eq!(bytes_prefix(&cs("\u{10000}z"), 0, 4), Some("\u{10000}".to_string()));
    assert_eq!(bytes_prefix(&cs("abc"), 3, 0), Some(String::new()));
}

#[test]
fn bytes_prefix_agrees_with_byte_ranges() {
    let texts = ["", "abcd", "a\u{e9}bcd", "\u{20ac}uro", "ab\u{10348}", "abc\u{e9}", "\u{e9}\u{e9}"];
    for t in texts {
        let v = cs(t);
        let mut byte_at = 0usize;
        for from in 0..=v.len() {
            for n in 0..=6usize {
                let expected = t.get(byte_at..byte_at + n).map(|s| s.to_string());
                assert_eq!(bytes_prefix(&v, from, n), expected, "{:?} from {} take {}", t, from, n);
            }
            if from < v.len() {
                byte_at += v[from].len_utf8();
            }
        }
    }
}

#[test]
fn parse_u32_agrees_with_std() {
    let cases = [
        "0", "42", "+7", "007", "4294967295", "4294967296", "99999999999999999999", "", "+",
        "-1", "-0", "1 ", " 1", "1a", "++1", "+-1", "١٢", "12.5", "0x10",
    ];
    for c in cases {
        assert_eq!(parse_u32(&cs(c)), c.parse::<u32>().ok(), "{:?}", c);
    }
}

#[test]
fn decimal_chars_writes_numbers() {
    for n in [0u64, 7, 10, 99, 100, 12345, u64::MAX] {
        assert_eq!(text_of(&decimal_chars(n)), n.to_string());
    }
}

#[test]
fn split_agrees_with_std() {
    let cases = ["", "a", "a.b", ".a", "a.", "..", "1.2.3", "a\nb\n"];
    for c in cases {
        for sep in ['.', '\n'] {
            let expected: Vec<String> = c.split(sep).map(|s| s.to_string()).collect();
            let got: Vec<String> = split(&cs(c), sep).iter().map(|p| text_of(p)).collect();
            assert_eq!(got, expected, "{:?}", c);
        }
    }
}

#[test]
fn strip_leading_drops_the_run_at_the_start() {
    let v = cs("vv1.2v");
    assert_eq!(text_of(&strip_leading(&v, 0, v.len(), 'v')), "1.2v");
    assert_eq!(text_of(&strip_leading(&v, 1, 4, 'v')), "1.");
    assert_eq!(text_of(&strip_leading(&cs("vvv"), 0, 3, 'v')), "");
}

#[test]
fn ascii_whitespace_is_the_blank_and_tab_to_carriage_return() {
    for code in 0u8..128 {
        let c = code as char;
        let blank = c == ' ' || ('\u{9}'..='\u{d}').contains(&c);
        assert_eq!(trim(&c.to_string()).is_empty(), blank, "code {}", code);
        assert_eq!(c.is_whitespace(), blank, "code {}", code);
    }
    assert_eq!(trim("   "), "");
    assert_eq!(trim("  Desk 2 "), "Desk 2");
    assert_eq!(trim("\t\n\u{b}\u{c}\r x\r\n"), "x");
}
