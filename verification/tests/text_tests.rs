use ai_desktop_assistant::text::{
    chars_equal, chars_of, find_char, is_whitespace_char, range_contains, range_has_prefix,
    trim_bounds, trim_string,
};

#[test]
fn whitespace_agrees_with_std_on_every_char() {
    for u in 0u32..=0x10ffff {
        if let Some(c) = char::from_u32(u) {
            assert_eq!(is_whitespace_char(c), c.is_whitespace(), "U+{:04X}", u);
        }
    }
}

#[test]
fn trim_agrees_with_std() {
    let cases = [
        "",
        "   ",
        "hello",
        "  hello  ",
        "\t\n hello world \r\n",
        "\u{3000}\u{a0}wide\u{2003}",
        "\u{200b}zero width is not white space\u{200b}",
        "\u{85}next line\u{2028}",
        " a b ",
    ];
    for s in cases {
        assert_eq!(trim_string(s), s.trim(), "{:?}", s);
    }
}

#[test]
fn trim_bounds_of_a_range() {
    let cs = chars_of("xx  ab c  yy");
    assert_eq!(trim_bounds(&cs, 2, 10), (4, 8));
    assert_eq!(trim_bounds(&cs, 2, 4), (4, 4));
}

#[test]
fn chars_of_keeps_every_char() {
    let s = "ä€𝄞x";
    assert_eq!(chars_of(s), s.chars().collect::<Vec<char>>());
    assert!(chars_equal(&chars_of("abc"), &vec!['a', 'b', 'c']));
    assert!(!chars_equal(&chars_of("abc"), &vec!['a', 'b']));
    assert!(!chars_equal(&chars_of("abc"), &vec!['a', 'b', 'd']));
}

#[test]
fn prefix_and_substring_search() {
    let cs = chars_of("[00:01 --> 00:02] hi");
    let n = cs.len();
    assert!(range_has_prefix(&cs, 0, n, &chars_of("[00")));
    assert!(!range_has_prefix(&cs, 1, n, &chars_of("[00")));
    assert!(range_has_prefix(&cs, 0, n, &vec![]));
    assert!(range_contains(&cs, 0, n, &chars_of("-->")));
    assert!(!range_contains(&cs, 0, 7, &chars_of("-->")));
    assert!(range_contains(&cs, 0, 0, &vec![]));
    assert!(!range_contains(&cs, 0, n, &chars_of("<--")));
    assert_eq!(find_char(&cs, 0, n, ']'), Some(16));
    assert_eq!(find_char(&cs, 0, 10, ']'), None);
}
