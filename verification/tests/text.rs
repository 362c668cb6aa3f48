use lib::text::{
    i64_to_string, is_ascii_digit, is_ascii_graphic, is_whitespace, join_strings, parse_i64,
    parse_usize, split_lines, string_from_chars, usize_to_string, utf8_len,
};

fn strings(v: &[&str]) -> Vec<String> {
    v.iter().map(|s| s.to_string()).collect()
}

const NUMBER_TEXTS: [&str; 16] = [
    "0",
    "42",
    "+7",
    "-1",
    "-0",
    "",
    "+",
    "-",
    "007",
    "1a",
    " 1",
    "18446744073709551615",
    "18446744073709551616",
    "9223372036854775807",
    "9223372036854775808",
    "-9223372036854775808",
];

#[test]
fn parse_usize_agrees_with_std() {
    for t in NUMBER_TEXTS.iter() {
        let s = t.to_string();
        assert_eq!(parse_usize(&s), t.parse::<usize>().ok(), "text {:?}", t);
    }
}

#[test]
fn parse_i64_agrees_with_std() {
    for t in NUMBER_TEXTS.iter() {
        let s = t.to_string();
        assert_eq!(parse_i64(&s), t.parse::<i64>().ok(), "text {:?}", t);
    }
    assert_eq!(parse_i64(&"-9223372036854775809".to_string()), None);
}

#[test]
fn decimal_text_agrees_with_std() {
    for n in [0usize, 1, 9, 10, 99, 100, 12345, usize::MAX] {
        assert_eq!(usize_to_string(n), n.to_string());
    }
    for n in [0i64, 1, -1, 10, -10, 987654321, i64::MAX, i64::MIN] {
        assert_eq!(i64_to_string(n), n.to_string());
    }
}

#[test]
fn printed_numbers_read_back() {
    for n in [0usize, 7, 10, 4096, usize::MAX] {
        assert_eq!(parse_usize(&usize_to_string(n)), Some(n));
    }
    for n in [0i64, -7, 10, -4096, i64::MAX, i64::MIN] {
        assert_eq!(parse_i64(&i64_to_string(n)), Some(n));
    }
}

#[test]
fn char_classes_agree_with_std() {
    let cs = ['a', 'Z', '0', '9', ' ', '\t', '\n', '\r', '~', '!', '\u{7f}', 'é', '\u{a0}', '\u{3000}', '字', '\u{1F600}'];
    for c in cs {
        assert_eq!(is_ascii_digit(c), c.is_ascii_digit(), "{:?}", c);
        assert_eq!(is_whitespace(c), c.is_whitespace(), "{:?}", c);
        assert_eq!(is_ascii_graphic(c), c.is_ascii_graphic(), "{:?}", c);
        assert_eq!(utf8_len(c), c.len_utf8(), "{:?}", c);
    }
}

#[test]
fn split_lines_agrees_with_std() {
    let texts = ["", "a", "a\n", "a\r\nb", "a\rb", "\n\n", "x\r", "a\n\r\n", "\r\n", "one\ntwo\nthree"];
    for t in texts {
        let expected: Vec<String> = t.lines().map(|l| l.to_string()).collect();
        assert_eq!(split_lines(&t.to_string()), expected, "text {:?}", t);
    }
}

#[test]
fn join_agrees_with_std() {
    let cases = [vec![], vec!["a"], vec!["a", "b"], vec!["", "", ""], vec!["x", "", "y"]];
    for c in cases.iter() {
        let v = strings(c);
        assert_eq!(join_strings(&v, ", "), v.join(", "));
        assert_eq!(join_strings(&v, "\n"), v.join("\n"));
    }
}

#[test]
fn joined_lines_split_back() {
    let v = strings(&["module m ();", "", "    wire a;", "endmodule"]);
    assert_eq!(split_lines(&join_strings(&v, "\n")), v);
    let empty: Vec<String> = Vec::new();
    assert_eq!(split_lines(&join_strings(&empty, "\n")), empty);
}

#[test]
fn string_from_chars_keeps_characters() {
    let cs = ['h', 'é', '字', '!'];
    assert_eq!(string_from_chars(&cs), "hé字!".to_string());
}
