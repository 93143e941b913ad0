//! Texts: cutting, searching, comparing.

use png_metadata_gui::text::{
    characters, decimal_text, excerpt, find_first, find_last, find_run, has_char,
    join_path, rank_texts, same_ignoring_ascii_case, same_text, single_line, split_words,
    starts_with, text_between, tooltip_excerpt, trim, white_space, Rank, TOOLTIP_CHARS,
};

#[test]
fn excerpt_marks_only_a_real_truncation() {
    // The ellipsis must track whether anything was actually cut, not
    // whether the text reached the cap.
    assert_eq!(excerpt("abcd", 4), "abcd");
    assert_eq!(excerpt("abcde", 4), "abcd…");
    assert_eq!(excerpt("", 0), "");
    assert_eq!(excerpt("a", 0), "…");
}

#[test]
fn single_line_flattens_line_breaks() {
    assert_eq!(single_line("a\r\nb", 10), "a  b");
}

#[test]
fn an_excerpt_counts_characters_and_not_bytes() {
    assert_eq!(excerpt("日本語", 2), "日本…");
    assert_eq!(excerpt("日本語", 3), "日本語");
    assert_eq!(single_line("日\n本語", 2), "日 …");
}

#[test]
fn a_tooltip_shows_a_cut_value_with_its_length() {
    let short = "x".repeat(TOOLTIP_CHARS);
    assert_eq!(tooltip_excerpt(&short), short);
    let long = "y".repeat(TOOLTIP_CHARS + 1);
    let shown = tooltip_excerpt(&long);
    assert_eq!(shown, format!("{}…\n\n(1 more characters)", "y".repeat(1200)));
}

#[test]
fn white_space_is_what_the_standard_library_calls_white_space() {
    for code in 0..=0x10FFFFu32 {
        if let Some(c) = char::from_u32(code) {
            assert_eq!(white_space(c), c.is_whitespace(), "character {code:x}");
        }
    }
}

#[test]
fn trimming_and_splitting_agree_with_the_standard_library() {
    for text in ["", " ", "a", " a b ", "\u{2003}日本\u{a0}x\t\n", "a\u{200b}b", "\u{85}q\u{1680}"] {
        assert_eq!(trim(text), text.trim());
        let words: Vec<String> = text.split_whitespace().map(str::to_string).collect();
        assert_eq!(split_words(text), words);
    }
}

#[test]
fn ascii_case_is_ignored_and_no_other() {
    assert!(same_ignoring_ascii_case("CFG", "cfg"));
    assert!(same_ignoring_ascii_case("aÉb", "AÉB"));
    assert!(!same_ignoring_ascii_case("é", "É"));
    assert!(!same_ignoring_ascii_case("a", "ab"));
    for code in 0..0x250u32 {
        let a = char::from_u32(code).expect("below the surrogates").to_string();
        for other in [code ^ 0x20, code, code + 1] {
            let b = char::from_u32(other).expect("below the surrogates").to_string();
            assert_eq!(same_ignoring_ascii_case(&a, &b), a.eq_ignore_ascii_case(&b));
        }
    }
}

#[test]
fn texts_rank_as_strings_compare() {
    let texts = ["", "a", "B", "b", "ab", "abc", "é", "日", "\u{ffff}", "\u{10000}", "z"];
    for a in texts {
        for b in texts {
            let expected = if a < b {
                Rank::Before
            } else if a == b {
                Rank::Same
            } else {
                Rank::After
            };
            assert_eq!(rank_texts(a, b), expected, "{a:?} and {b:?}");
            assert_eq!(rank_texts(b, a), expected.flip());
            assert_eq!(same_text(a, b), a == b);
            assert_eq!(starts_with(a, b), a.starts_with(b));
        }
    }
}

#[test]
fn numbers_are_written_in_decimal() {
    for n in [0, 7, 10, 99, 100, 1_234_567_890, u64::MAX] {
        assert_eq!(decimal_text(n), n.to_string());
    }
}

#[test]
fn parts_of_a_text_are_found_by_character() {
    let chars = characters("a.日.c");
    assert_eq!(chars, ['a', '.', '日', '.', 'c']);
    assert_eq!(text_between(&chars, 1, 4), ".日.");
    assert_eq!(find_first(&chars, '.'), 1);
    assert_eq!(find_first(&chars, 'x'), 5);
    assert_eq!(find_last(&chars, '.'), Some(3));
    assert_eq!(find_last(&chars, 'x'), None);
    assert_eq!(find_run(&chars, &characters("日.")), Some(2));
    assert_eq!(find_run(&chars, &characters(".x")), None);
    assert_eq!(find_run(&chars, &characters("")), Some(0));
    assert!(has_char("a.b", '.') && !has_char("ab", '.'));
    assert_eq!(join_path("a.b", "c"), "a.b.c");
}
