use nyado::text::{
    chars_of, clean_tag_str, contains_chars, decimal_string, fill_placeholder, is_blank, lex_less,
    same_text, split_lines, string_of, strip_prefix_str, trim_str,
};
use nyado::width::{
    split_by_width, truncate_by_width, truncate_text, truncate_text_by_width, visual_offset,
    visual_width,
};

fn lines(s: &str) -> Vec<String> {
    split_lines(s).iter().map(|l| l.iter().collect()).collect()
}

#[test]
fn truncate_by_width_cuts_and_marks() {
    assert_eq!(truncate_by_width("hello world", 5), "hello");
    assert_eq!(truncate_by_width("日本語", 5), "日本…");
    assert_eq!(truncate_by_width("hello", 5), "hello");
    assert_eq!(truncate_by_width("hello", 0), "");
    assert_eq!(truncate_by_width("日本語", 3), "日…");
    assert_eq!(truncate_by_width("日本語", 2), "日");
}

#[test]
fn truncate_text_by_width_gives_nothing_for_no_width() {
    assert_eq!(truncate_text_by_width("abc", 0), "");
    assert_eq!(truncate_text_by_width("abcdef", 4), "abcd");
    assert_eq!(truncate_text_by_width("日日", 3), "日…");
}

#[test]
fn truncate_text_counts_characters() {
    assert_eq!(truncate_text("abcdef", 3), "abc…");
    assert_eq!(truncate_text("abc", 3), "abc");
    assert_eq!(truncate_text("abc", 0), "");
    assert_eq!(truncate_text("日本語", 2), "日本…");
}

#[test]
fn widths_of_wide_and_narrow_text() {
    assert_eq!(visual_width("hello"), 5);
    assert_eq!(visual_width("日本"), 4);
    assert_eq!(visual_width(""), 0);
    assert_eq!(visual_offset("a日b", 2), 3);
    assert_eq!(visual_offset("a日b", 10), 4);
    assert_eq!(visual_offset("abc", 0), 0);
}

#[test]
fn split_by_width_keeps_at_least_one_character() {
    assert_eq!(split_by_width("hello", 3), ("hel".to_string(), "lo".to_string()));
    assert_eq!(split_by_width("日本語", 1), ("日".to_string(), "本語".to_string()));
    assert_eq!(split_by_width("ab", 5), ("ab".to_string(), "".to_string()));
    assert_eq!(split_by_width("abcdef", 4), ("abcd".to_string(), "ef".to_string()));
    assert_eq!(split_by_width("", 5), ("".to_string(), "".to_string()));
}

#[test]
fn split_lines_as_str_lines() {
    assert_eq!(lines("a\nb"), vec!["a", "b"]);
    assert_eq!(lines("a\r\nb\n"), vec!["a", "b"]);
    assert_eq!(lines(""), Vec::<String>::new());
    assert_eq!(lines("\n\nx"), vec!["", "", "x"]);
    assert_eq!(lines("x\r"), vec!["x\r"]);
}

#[test]
fn placeholders_and_numbers() {
    assert_eq!(fill_placeholder("Delete {}?", "milk"), "Delete milk?");
    assert_eq!(fill_placeholder("{} and {}", "x"), "x and x");
    assert_eq!(fill_placeholder("none", "x"), "none");
    assert_eq!(decimal_string(0), "0");
    assert_eq!(decimal_string(1234), "1234");
}

#[test]
fn trimming_and_blank() {
    assert_eq!(trim_str("  hi there \t"), "hi there");
    assert!(is_blank("  \t "));
    assert!(!is_blank(" a "));
}

#[test]
fn tags_are_cleaned() {
    assert_eq!(clean_tag_str(" Work Stuff "), "workstuff");
    assert_eq!(clean_tag_str("ÄB"), "äb");
    let long: String = std::iter::repeat('x').take(40).collect();
    assert_eq!(clean_tag_str(&long).chars().count(), 32);
}

#[test]
fn comparing_and_searching_text() {
    assert!(same_text("abc", "abc"));
    assert!(!same_text("abc", "abd"));
    assert!(lex_less("de", "en"));
    assert!(!lex_less("en", "en"));
    assert!(lex_less("ab", "abc"));
    assert_eq!(strip_prefix_str("pending.prefix", "pending."), Some("prefix".to_string()));
    assert_eq!(strip_prefix_str("done.x", "pending."), None);
    let hay = chars_of("buy milk");
    assert!(contains_chars(&hay, &chars_of("milk")));
    assert!(contains_chars(&hay, &chars_of("")));
    assert!(!contains_chars(&hay, &chars_of("bread")));
    assert_eq!(string_of(&chars_of("héllo")), "héllo");
}
