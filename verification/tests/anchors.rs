use scie::rule::RegExpSource;

#[test]
fn fragment_without_anchor_resolves_to_itself() {
    let fragment = "(^[ ]*)([^\\s]+)\\s*(=|\\?=)";
    let source = RegExpSource::new(String::from(fragment), 7);
    assert!(!source.has_anchor);
    assert!(source._anchor_cache.is_none());
    assert_eq!(7, source.rule_id);
    for allow_a in [false, true] {
        for allow_g in [false, true] {
            assert_eq!(fragment, source.resolve_anchors(allow_a, allow_g));
        }
    }
}

#[test]
fn previous_match_anchor_follows_its_flag() {
    let source = RegExpSource::new(String::from("x\\Gy"), 1);
    assert!(source.has_anchor);
    assert_eq!("x\\\u{ffff}y", source.resolve_anchors(false, false));
    assert_eq!("x\\\u{ffff}y", source.resolve_anchors(true, false));
    assert_eq!("x\\Gy", source.resolve_anchors(false, true));
    assert_eq!("x\\Gy", source.resolve_anchors(true, true));
}

#[test]
fn start_of_scan_anchor_follows_its_flag() {
    let source = RegExpSource::new(String::from("\\Afoo"), 1);
    assert!(source.has_anchor);
    assert_eq!("\\\u{ffff}foo", source.resolve_anchors(false, false));
    assert_eq!("\\\u{ffff}foo", source.resolve_anchors(false, true));
    assert_eq!("\\Afoo", source.resolve_anchors(true, false));
    assert_eq!("\\Afoo", source.resolve_anchors(true, true));
}

#[test]
fn both_anchors_are_resolved_independently() {
    let source = RegExpSource::new(String::from("\\A|\\G"), 1);
    assert_eq!("\\\u{ffff}|\\\u{ffff}", source.resolve_anchors(false, false));
    assert_eq!("\\\u{ffff}|\\G", source.resolve_anchors(false, true));
    assert_eq!("\\A|\\\u{ffff}", source.resolve_anchors(true, false));
    assert_eq!("\\A|\\G", source.resolve_anchors(true, true));
}

#[test]
fn escaped_backslash_hides_the_letter_after_it() {
    let source = RegExpSource::new(String::from("\\\\G\\\\A\\\\z"), 1);
    assert!(!source.has_anchor);
    assert!(source._anchor_cache.is_none());
    assert_eq!("\\\\G\\\\A\\\\z", source.source);
    assert_eq!("\\\\G\\\\A\\\\z", source.resolve_anchors(false, false));
}

#[test]
fn backslash_at_the_end_stands_alone() {
    let source = RegExpSource::new(String::from("ab\\"), 1);
    assert!(!source.has_anchor);
    assert_eq!("ab\\", source.source);
    let anchored = RegExpSource::new(String::from("\\Gab\\"), 1);
    assert_eq!("\\\u{ffff}ab\\", anchored.resolve_anchors(false, false));
}

#[test]
fn end_anchor_is_written_out_everywhere() {
    let source = RegExpSource::new(String::from("a\\zb\\z"), 1);
    assert_eq!("a$(?!\n)(?<!\n)b$(?!\n)(?<!\n)", source.source);
    assert!(!source.has_anchor);
}

#[test]
fn end_anchor_and_anchor_together() {
    let source = RegExpSource::new(String::from("\\G.*\\z"), 3);
    assert!(source.has_anchor);
    assert_eq!("\\G.*$(?!\n)(?<!\n)", source.source);
    assert_eq!("\\\u{ffff}.*$(?!\n)(?<!\n)", source.resolve_anchors(true, false));
    assert_eq!("\\G.*$(?!\n)(?<!\n)", source.resolve_anchors(false, true));
}

#[test]
fn empty_fragment_gives_an_empty_source() {
    let source = RegExpSource::new(String::new(), 0);
    assert_eq!("", source.source);
    assert!(!source.has_anchor);
    assert!(!source.has_back_references);
    assert_eq!("", source.resolve_anchors(true, true));
}

#[test]
fn fragment_beyond_ascii_is_scanned_by_character() {
    let source = RegExpSource::new(String::from("é💻\\Gü\\z"), 1);
    assert!(source.has_anchor);
    assert_eq!("é💻\\Gü$(?!\n)(?<!\n)", source.source);
    assert_eq!("é💻\\\u{ffff}ü$(?!\n)(?<!\n)", source.resolve_anchors(true, false));
}

#[test]
fn build_anchor_cache_resolves_the_current_text() {
    let mut source = RegExpSource::new(String::from("\\G"), 1);
    source.source = String::from("a\\Ab");
    let cache = source.build_anchor_cache();
    assert_eq!("a\\\u{ffff}b", cache.a0_g0);
    assert_eq!("a\\\u{ffff}b", cache.a0_g1);
    assert_eq!("a\\Ab", cache.a1_g0);
    assert_eq!("a\\Ab", cache.a1_g1);
}

#[test]
fn set_source_with_the_same_text_changes_nothing() {
    let mut source = RegExpSource::new(String::from("\\Gx"), 4);
    source.set_source("\\Gx");
    assert_eq!("\\Gx", source.source);
    assert_eq!(4, source.rule_id);
    assert!(source.has_anchor);
    assert_eq!("\\\u{ffff}x", source.resolve_anchors(false, false));
}

#[test]
fn set_source_rebuilds_the_anchor_cache() {
    let mut source = RegExpSource::new(String::from("\\Gx"), 4);
    source.set_source("y\\A\\G");
    assert_eq!("y\\A\\G", source.source);
    assert!(source.has_anchor);
    assert_eq!("y\\\u{ffff}\\\u{ffff}", source.resolve_anchors(false, false));
    assert_eq!("y\\A\\\u{ffff}", source.resolve_anchors(true, false));
    assert_eq!("y\\\u{ffff}\\G", source.resolve_anchors(false, true));
    assert_eq!("y\\A\\G", source.resolve_anchors(true, true));
}

#[test]
fn set_source_without_anchor_keeps_no_cache() {
    let mut source = RegExpSource::new(String::from("abc"), 4);
    source.set_source("\\Gdef");
    assert_eq!("\\Gdef", source.source);
    assert!(!source.has_anchor);
    assert!(source._anchor_cache.is_none());
    assert_eq!("\\Gdef", source.resolve_anchors(false, false));
}

#[test]
fn clone_keeps_every_field() {
    let source = RegExpSource::new(String::from("\\G(\\1)"), 9);
    let copy = source.clone();
    assert_eq!(source.source, copy.source);
    assert_eq!(9, copy.rule_id);
    assert!(copy.has_anchor);
    assert!(copy.has_back_references);
    assert_eq!(
        source._anchor_cache.unwrap().a0_g0,
        copy._anchor_cache.unwrap().a0_g0
    );
}

#[test]
fn default_anchor_cache_is_empty() {
    let cache = scie::rule::AnchorCache::default();
    assert_eq!("", cache.a0_g0);
    assert_eq!("", cache.a0_g1);
    assert_eq!("", cache.a1_g0);
    assert_eq!("", cache.a1_g1);
}
