use winget_gate::text::{
    find_in, first_token_bounds, is_whitespace_char, join_strs, line_bounds, matches_at, range_is,
    starts_with_in, str_eq, to_chars, to_text, trim_bounds,
};

fn chars(s: &str) -> Vec<char> {
    s.chars().collect()
}

#[test]
fn to_chars_keeps_every_character() {
    assert_eq!(to_chars("a\u{2588}b"), vec!['a', '\u{2588}', 'b']);
    assert_eq!(to_chars(""), Vec::<char>::new());
}

#[test]
fn to_text_copies_the_range() {
    let c = chars("h\u{e9}llo world");
    assert_eq!(to_text(&c, 0, 5), "h\u{e9}llo");
    assert_eq!(to_text(&c, 6, 11), "world");
    assert_eq!(to_text(&c, 3, 3), "");
}

#[test]
fn str_eq_compares_text() {
    assert!(str_eq("list", "list"));
    assert!(!str_eq("list", "List"));
    assert!(!str_eq("list", "lists"));
    assert!(str_eq("", ""));
    assert!(!str_eq("\u{e9}", "e"));
}

#[test]
fn whitespace_agrees_with_the_standard_library_on_every_character() {
    let mut code: u32 = 0;
    while code <= 0x10FFFF {
        if let Some(c) = char::from_u32(code) {
            assert_eq!(is_whitespace_char(c), c.is_whitespace(), "U+{:04X}", code);
        }
        code += 1;
    }
}

#[test]
fn trim_bounds_strips_both_ends() {
    let c = chars("  \tfoo bar \r\n");
    assert_eq!(trim_bounds(&c, 0, c.len()), (3, 10));
    assert_eq!(to_text(&c, 3, 10), "foo bar");
}

#[test]
fn trim_bounds_of_blank_text_is_empty() {
    let c = chars(" \u{a0}\u{3000} ");
    let (a, b) = trim_bounds(&c, 0, c.len());
    assert_eq!(a, b);
}

#[test]
fn trim_bounds_stays_inside_the_range() {
    let c = chars("ab  cd  ef");
    assert_eq!(trim_bounds(&c, 2, 8), (4, 6));
}

#[test]
fn matches_at_checks_the_window() {
    let c = chars("Name  Id");
    assert!(matches_at(&c, 6, c.len(), &chars("Id")));
    assert!(!matches_at(&c, 7, c.len(), &chars("Id")));
    assert!(!matches_at(&c, 6, 7, &chars("Id")));
}

#[test]
fn starts_with_in_looks_at_the_range_start() {
    let c = chars("  ---");
    assert!(starts_with_in(&c, 2, 5, &chars("---")));
    assert!(!starts_with_in(&c, 0, 5, &chars("---")));
    assert!(!starts_with_in(&c, 3, 5, &chars("---")));
}

#[test]
fn find_in_gives_the_first_offset() {
    let c = chars("Name  Id  Version  Available");
    assert_eq!(find_in(&c, 0, c.len(), &chars("Id")), Some(6));
    assert_eq!(find_in(&c, 0, c.len(), &chars("Version")), Some(10));
    assert_eq!(find_in(&c, 0, c.len(), &chars("Available")), Some(19));
    assert_eq!(find_in(&c, 0, c.len(), &chars("Source")), None);
    assert_eq!(find_in(&c, 0, c.len(), &chars("e")), Some(3));
}

#[test]
fn find_in_counts_from_the_range_start() {
    let c = chars("xxId Id");
    assert_eq!(find_in(&c, 2, c.len(), &chars("Id")), Some(0));
    assert_eq!(find_in(&c, 3, c.len(), &chars("Id")), Some(2));
    assert_eq!(find_in(&c, 3, 6, &chars("Id")), None);
}

#[test]
fn range_is_compares_whole_ranges() {
    let c = chars("Name Id");
    assert!(range_is(&c, 0, 4, &chars("Name")));
    assert!(!range_is(&c, 0, 5, &chars("Name")));
    assert!(!range_is(&c, 0, 3, &chars("Name")));
}

#[test]
fn line_bounds_splits_at_line_feeds() {
    let c = chars("ab\ncd");
    assert_eq!(line_bounds(&c, 0), (2, 3));
    assert_eq!(line_bounds(&c, 3), (5, 5));
}

#[test]
fn line_bounds_drops_a_carriage_return_before_a_line_feed() {
    let c = chars("ab\r\ncd\r");
    assert_eq!(line_bounds(&c, 0), (2, 4));
    // the last line has no line feed: its carriage return stays
    assert_eq!(line_bounds(&c, 4), (7, 7));
}

#[test]
fn line_bounds_gives_empty_lines() {
    let c = chars("\n\nx\n");
    assert_eq!(line_bounds(&c, 0), (0, 1));
    assert_eq!(line_bounds(&c, 1), (1, 2));
    assert_eq!(line_bounds(&c, 2), (3, 4));
}

#[test]
fn first_token_bounds_skips_leading_blanks() {
    let c = chars("   2.0.1  extra");
    assert_eq!(first_token_bounds(&c, 0, c.len()), Some((3, 8)));
    assert_eq!(first_token_bounds(&c, 8, 10), None);
    assert_eq!(first_token_bounds(&c, 10, c.len()), Some((10, 15)));
}

#[test]
fn join_strs_puts_the_separator_between() {
    assert_eq!(join_strs(&["install", "--id", "Foo.App"], " "), "install --id Foo.App");
    assert_eq!(join_strs(&["list"], " "), "list");
    assert_eq!(join_strs(&[], " "), "");
    assert_eq!(join_strs(&["a", "", "b"], ", "), "a, , b");
}

/// Every text over `alphabet` with at most `max` characters.
fn texts_over(alphabet: &[char], max: usize) -> Vec<String> {
    let mut all = vec![String::new()];
    let mut last = vec![String::new()];
    for _ in 0..max {
        let mut next = Vec::new();
        for text in last.iter() {
            for c in alphabet.iter() {
                let mut longer = text.clone();
                longer.push(*c);
                next.push(longer);
            }
        }
        all.extend(next.iter().cloned());
        last = next;
    }
    all
}

#[test]
fn line_bounds_splits_like_the_standard_library() {
    for text in texts_over(&['a', '\r', '\n', ' '], 6) {
        let c = chars(&text);
        let mut found: Vec<String> = Vec::new();
        let mut pos = 0;
        while pos < c.len() {
            let (end, next) = line_bounds(&c, pos);
            found.push(to_text(&c, pos, end));
            assert!(next > pos);
            pos = next;
        }
        let expected: Vec<String> = text.lines().map(|l| l.to_string()).collect();
        assert_eq!(found, expected, "{:?}", text);
    }
}

#[test]
fn trim_bounds_trims_like_the_standard_library() {
    for text in texts_over(&['a', ' ', '\t', '\u{a0}', '\n'], 5) {
        let c = chars(&text);
        let (a, b) = trim_bounds(&c, 0, c.len());
        assert_eq!(to_text(&c, a, b), text.trim(), "{:?}", text);
    }
}

#[test]
fn first_token_is_the_first_word_of_the_standard_library() {
    for text in texts_over(&['a', 'b', ' ', '\t', '\r'], 5) {
        let c = chars(&text);
        let found = first_token_bounds(&c, 0, c.len()).map(|(a, b)| to_text(&c, a, b));
        let expected = text.split_whitespace().next().map(|w| w.to_string());
        assert_eq!(found, expected, "{:?}", text);
    }
}

#[test]
fn find_in_finds_like_the_standard_library() {
    for text in texts_over(&['I', 'd', ' '], 6) {
        let c = chars(&text);
        for pattern in ["Id", "d", "II", "dId", " I"] {
            assert_eq!(find_in(&c, 0, c.len(), &chars(pattern)), text.find(pattern), "{:?}", text);
            assert_eq!(
                starts_with_in(&c, 0, c.len(), &chars(pattern)),
                text.starts_with(pattern),
                "{:?}",
                text
            );
        }
    }
}
