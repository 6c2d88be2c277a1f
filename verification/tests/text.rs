use od_get::text::{
    chars_of, clone_text, contains_part, contains_text, digit, last_component, parse_number, same_text,
    split_lines, strip_prefix, trim_suffix,
};

#[test]
fn chars_come_in_order() {
    assert_eq!(chars_of("héllo"), vec!['h', 'é', 'l', 'l', 'o']);
    assert!(chars_of("").is_empty());
}

#[test]
fn same_text_compares_characters() {
    assert!(same_text("  - ", "  - "));
    assert!(!same_text("  - ", " - "));
    assert!(same_text("", ""));
}

#[test]
fn contains_text_looks_up_whole_entries() {
    let list = vec!["http://a/x".to_owned(), "http://a/y".to_owned()];
    assert!(contains_text(&list, "http://a/y"));
    assert!(!contains_text(&list, "http://a/"));
    assert!(!contains_text(&Vec::new(), "http://a/y"));
}

#[test]
fn last_component_is_what_follows_the_last_separator() {
    assert_eq!(last_component("/data/sub", '/'), "sub");
    assert_eq!(last_component("/data", '/'), "data");
    assert_eq!(last_component("plain", '/'), "plain");
    assert_eq!(last_component("/data/", '/'), "");
    assert_eq!(last_component("", '/'), "");
    assert_eq!(last_component("a/b/ç", '/'), "ç");
}

#[test]
fn strip_prefix_needs_the_whole_prefix() {
    assert_eq!(strip_prefix("Index of /data/", "Index of "), Some("/data/".to_owned()));
    assert_eq!(strip_prefix("Index of ", "Index of "), Some(String::new()));
    assert_eq!(strip_prefix("Index of", "Index of "), None);
    assert_eq!(strip_prefix("index of /data/", "Index of "), None);
    assert_eq!(strip_prefix("anything", ""), Some("anything".to_owned()));
}

#[test]
fn split_lines_ends_lines_at_line_feeds() {
    assert_eq!(split_lines("a\nb\nc"), vec!["a", "b", "c"]);
    assert_eq!(split_lines("a\nb\n"), vec!["a", "b"]);
    assert_eq!(split_lines("a\n\nb"), vec!["a", "", "b"]);
    assert_eq!(split_lines("\n"), vec![""]);
    assert!(split_lines("").is_empty());
}

#[test]
fn split_lines_takes_a_carriage_return_before_a_line_feed() {
    assert_eq!(split_lines("a\r\nb\r\n"), vec!["a", "b"]);
    assert_eq!(split_lines("a\r"), vec!["a\r"]);
    assert_eq!(split_lines("a\rb\n"), vec!["a\rb"]);
    assert_eq!(split_lines("a\r\r\n"), vec!["a\r"]);
}

#[test]
fn split_lines_agrees_with_the_standard_library() {
    for text in ["", "x", "x\n", "\n\n", "a\r\nb", "a\n\rb\r", "é\nü\r\n\r\n"] {
        let expected: Vec<String> = text.lines().map(|line| line.to_owned()).collect();
        assert_eq!(split_lines(text), expected, "lines of {:?}", text);
    }
}

#[test]
fn digits_have_values() {
    for (i, c) in "0123456789".chars().enumerate() {
        assert_eq!(digit(c), Some(i as u64));
    }
    for c in ['a', ' ', '+', '-', '/', ':', '٣', '１'] {
        assert_eq!(digit(c), None);
    }
}

#[test]
fn numbers_are_read() {
    assert_eq!(parse_number("0"), Some(0));
    assert_eq!(parse_number("42"), Some(42));
    assert_eq!(parse_number("+42"), Some(42));
    assert_eq!(parse_number("000"), Some(0));
    assert_eq!(parse_number("0042"), Some(42));
    assert_eq!(parse_number("18446744073709551615"), Some(u64::MAX));
    assert_eq!(parse_number("+018446744073709551615"), Some(u64::MAX));
}

#[test]
fn what_is_no_number_is_not_read() {
    for text in [
        "", "+", "++1", "-1", "-0", "1-", "1+", " 1", "1 ", "1_000", "1e3", "0x1f", "١٢٣", "１",
        "18446744073709551616", "99999999999999999999", "184467440737095516150",
    ] {
        assert_eq!(parse_number(text), None, "{:?}", text);
    }
}

#[test]
fn numbers_are_read_as_the_standard_library_reads_them() {
    for text in ["", "+", "0", "+0", "-0", "7", "+7", "07", "7a", "a7", "18446744073709551615", "18446744073709551616", "٣"] {
        assert_eq!(parse_number(text), text.parse::<u64>().ok(), "{:?}", text);
    }
}

#[test]
fn a_text_that_may_be_absent_is_copied() {
    assert_eq!(clone_text(&None), None);
    assert_eq!(clone_text(&Some("ça".to_owned())), Some("ça".to_owned()));
}

#[test]
fn trim_suffix_takes_the_suffix_off_once() {
    assert_eq!(trim_suffix("2021  ", "  "), "2021");
    assert_eq!(trim_suffix("2021    ", "  "), "2021  ");
    assert_eq!(trim_suffix("2021 ", "  "), "2021 ");
    assert_eq!(trim_suffix("2021", ""), "2021");
    assert_eq!(trim_suffix("", "  "), "");
    assert_eq!(trim_suffix("  ", "  "), "");
    assert_eq!(trim_suffix("näïve", "ïve"), "nä");
    assert_eq!(trim_suffix("ve", "näïve"), "ve");
}

#[test]
fn a_part_is_found_wherever_it_stands() {
    assert!(contains_part("</td><td><a href=\"x\">", "<td><a href=\""));
    assert!(contains_part("abc", "abc"));
    assert!(contains_part("abc", "a"));
    assert!(contains_part("abc", "c"));
    assert!(contains_part("abc", "bc"));
    assert!(contains_part("abc", ""));
    assert!(contains_part("", ""));
    assert!(contains_part("aab", "ab"));
    assert!(contains_part("näïve", "ïv"));
    assert!(!contains_part("abc", "abcd"));
    assert!(!contains_part("abc", "ac"));
    assert!(!contains_part("", "a"));
    assert!(!contains_part("abab", "bb"));
    for (text, part) in [("hello world", "o w"), ("hello", "lo!"), ("ééé", "é"), ("x", "xx")] {
        assert_eq!(contains_part(text, part), text.contains(part));
    }
}
