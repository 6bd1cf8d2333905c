use scie::rule::back_reference::{
    back_reference_index, capture_of, check_captures, escape_reg_exp_characters, escape_spans,
    resolve_back_references_in, substitute_captures,
};
use scie::rule::reg_exp_source::has_back_reference;
use scie::rule::RegExpSource;
use scie::scanner::scie_scanner::IOnigCaptureIndex;

fn capture(start: usize, end: usize) -> Option<IOnigCaptureIndex> {
    Some(IOnigCaptureIndex { start, end })
}

#[test]
fn back_reference_is_replaced_by_the_captured_text() {
    let source = RegExpSource::new(String::from("(>(<)/)(\\2)(>)"), 1);
    assert!(source.has_back_references);
    let line = "a<b";
    let captures = vec![capture(0, 3), capture(0, 1), capture(1, 2)];
    assert_eq!(
        "(>(<)/)(<)(>)",
        source.resolve_back_references(line, captures)
    );
    assert_eq!("(>(<)/)(\\2)(>)", source.source);
}

#[test]
fn every_back_reference_is_replaced() {
    let source = RegExpSource::new(String::from("\\1-\\2-\\1"), 1);
    let captures = vec![capture(0, 5), capture(0, 2), capture(3, 5)];
    assert_eq!(
        "ab-de-ab",
        source.resolve_back_references("ab de", captures)
    );
}

#[test]
fn captured_text_is_escaped() {
    let source = RegExpSource::new(String::from("</\\1>"), 1);
    let captures = vec![capture(0, 7), capture(1, 6)];
    assert_eq!(
        "</a\\.b\\*c>",
        source.resolve_back_references("<a.b*c>", captures)
    );
}

#[test]
fn missing_capture_gives_nothing() {
    let source = RegExpSource::new(String::from("x\\3y\\1z"), 1);
    let captures = vec![capture(0, 2), None];
    assert_eq!("xyz", source.resolve_back_references("ab", captures));
}

#[test]
fn group_zero_is_the_whole_match() {
    let source = RegExpSource::new(String::from("[\\0]"), 1);
    assert_eq!(
        "[ab]",
        source.resolve_back_references("ab", vec![capture(0, 2)])
    );
}

#[test]
fn number_too_large_for_the_machine_gives_nothing() {
    let source = RegExpSource::new(String::from("a\\99999999999999999999999999b"), 1);
    assert!(source.has_back_references);
    assert_eq!(
        "ab",
        source.resolve_back_references("xyz", vec![capture(0, 3)])
    );
}

#[test]
fn source_without_back_reference_stays() {
    let source = RegExpSource::new(String::from("(a|b)\\s+"), 1);
    assert!(!source.has_back_references);
    assert_eq!(
        "(a|b)\\s+",
        source.resolve_back_references("ab", vec![capture(0, 2)])
    );
}

#[test]
fn captures_beyond_ascii_are_cut_by_bytes() {
    let source = RegExpSource::new(String::from("é\\1ü"), 1);
    let line = "a💻b";
    let captures = vec![capture(0, 6), capture(1, 5)];
    assert_eq!("é💻ü", source.resolve_back_references(line, captures));
}

#[test]
fn has_back_reference_wants_a_backslash_and_a_digit() {
    assert!(has_back_reference("\\1"));
    assert!(has_back_reference("(a)\\12"));
    assert!(!has_back_reference("12"));
    assert!(!has_back_reference("\\d"));
    assert!(!has_back_reference(""));
    assert!(!has_back_reference("\\"));
}

#[test]
fn escape_writes_a_backslash_before_each_special_character() {
    assert_eq!("plain", escape_reg_exp_characters("plain"));
    assert_eq!("", escape_reg_exp_characters(""));
    assert_eq!("<", escape_reg_exp_characters("<"));
    assert_eq!("a\\.b", escape_reg_exp_characters("a.b"));
    assert_eq!(
        "\\-\\\\\\{\\}\\*\\+\\?\\|\\^\\$\\.\\,\\[\\]\\(\\)\\#",
        escape_reg_exp_characters("-\\{}*+?|^$.,[]()#")
    );
    assert_eq!("a\\ b\\\tc\\\n", escape_reg_exp_characters("a b\tc\n"));
    assert_eq!("é\\*💻", escape_reg_exp_characters("é*💻"));
}

#[test]
fn escape_spans_marks_the_given_spans() {
    let spans = vec![(1, 2), (3, 4)];
    assert_eq!("a\\.b\\*c", escape_spans("a.b*c", &spans));
    assert_eq!("abc", escape_spans("abc", &Vec::new()));
    assert_eq!("\\ab\\c", escape_spans("abc", &vec![(0, 1), (2, 3)]));
}

#[test]
fn back_reference_index_reads_the_digits() {
    assert_eq!(Some(2), back_reference_index("\\2"));
    assert_eq!(Some(12), back_reference_index("\\12"));
    assert_eq!(Some(0), back_reference_index("\\0"));
    assert_eq!(Some(7), back_reference_index("\\007"));
    assert_eq!(None, back_reference_index("\\"));
    assert_eq!(None, back_reference_index(""));
    assert_eq!(None, back_reference_index("12"));
    assert_eq!(None, back_reference_index("\\1a"));
    assert_eq!(None, back_reference_index("\\x"));
    assert_eq!(None, back_reference_index("\\٣"));
    assert_eq!(
        Some(usize::MAX),
        back_reference_index(&format!("\\{}", usize::MAX))
    );
    assert_eq!(None, back_reference_index(&format!("\\{}0", usize::MAX)));
    assert_eq!(None, back_reference_index("\\99999999999999999999999999"));
}

#[test]
fn capture_of_cuts_the_line() {
    let captures = vec![capture(0, 5), capture(1, 3), None];
    assert_eq!("bc", capture_of("\\1", "abcde", &captures));
    assert_eq!("abcde", capture_of("\\0", "abcde", &captures));
    assert_eq!("", capture_of("\\2", "abcde", &captures));
    assert_eq!("", capture_of("\\3", "abcde", &captures));
    assert_eq!("", capture_of("x", "abcde", &captures));
    assert_eq!("", capture_of("\\1", "abcde", &vec![capture(2, 2), capture(4, 4)]));
}

#[test]
fn check_captures_accepts_ranges_of_the_line() {
    assert!(check_captures("abc", &Vec::new()));
    assert!(check_captures("abc", &vec![capture(0, 3), None, capture(3, 3)]));
    assert!(check_captures("a💻b", &vec![capture(1, 5), capture(0, 6)]));
}

#[test]
fn check_captures_refuses_what_does_not_fit() {
    assert!(!check_captures("abc", &vec![capture(2, 1)]));
    assert!(!check_captures("abc", &vec![capture(0, 4)]));
    assert!(!check_captures("abc", &vec![None, capture(5, 6)]));
    assert!(!check_captures("a💻b", &vec![capture(1, 3)]));
    assert!(!check_captures("a💻b", &vec![capture(2, 5)]));
}

#[test]
fn substitute_captures_replaces_the_given_spans() {
    let captures = vec![capture(0, 3), capture(0, 1), capture(2, 3)];
    let spans = vec![(1, 3), (4, 6)];
    assert_eq!(
        "[a|\\.]",
        substitute_captures("[\\1|\\2]", &spans, "a-.", &captures)
    );
    assert_eq!(
        "[\\1|\\2]",
        substitute_captures("[\\1|\\2]", &Vec::new(), "a-.", &captures)
    );
}

#[test]
fn resolve_in_finds_and_replaces() {
    let captures = vec![capture(0, 3), capture(1, 2)];
    assert_eq!("^b$", resolve_back_references_in("^\\1$", "abc", &captures));
    assert_eq!("\\w+", resolve_back_references_in("\\w+", "abc", &captures));
    assert_eq!("", resolve_back_references_in("", "abc", &captures));
}
