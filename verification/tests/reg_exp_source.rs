use scie::rule::RegExpSource;

#[test]
fn should_change_resource_for_g() {
    let source = RegExpSource::new(String::from("\\G"), 1);
    assert!(source.has_anchor);
}

#[test]
fn should_change_resource_for_z() {
    let source = RegExpSource::new(String::from("\\z"), 1);
    assert_eq!("$(?!\n)(?<!\n)", source.source);
}

#[test]
fn should_build_anchor_cache_for_g() {
    let source = RegExpSource::new(String::from("\\G"), 1);
    let cache = source._anchor_cache.unwrap();
    assert_eq!("\\\u{ffff}", cache.a0_g0);
    assert_eq!("\\G", cache.a0_g1);
    assert_eq!("\\\u{ffff}", cache.a1_g0);
    assert_eq!("\\G", cache.a1_g1);
}

#[test]
fn should_build_anchor_cache_for_g_source() {
    let source = RegExpSource::new(String::from("\\G(?!\n)"), 1);
    let cache = source._anchor_cache.unwrap();
    assert_eq!("\\\u{ffff}(?!\n)", cache.a0_g0);
    assert_eq!("\\G(?!\n)", cache.a0_g1);
    assert_eq!("\\\u{ffff}(?!\n)", cache.a1_g0);
    assert_eq!("\\G(?!\n)", cache.a1_g1);
}

#[test]
fn should_build_anchor_cache_for_long() {
    let source = RegExpSource::new(
        String::from("(^[ ]*|\\G\\s*)([^\\s]+)\\s*(=|\\?=|:=|\\+=)"),
        1,
    );
    let cache = source._anchor_cache.unwrap();
    assert_eq!(
        "(^[ ]*|\\\u{ffff}\\s*)([^\\s]+)\\s*(=|\\?=|:=|\\+=)",
        cache.a0_g0
    );
    assert_eq!("(^[ ]*|\\G\\s*)([^\\s]+)\\s*(=|\\?=|:=|\\+=)", cache.a0_g1);
    assert_eq!("(^[ ]*|\\￿\\s*)([^\\s]+)\\s*(=|\\?=|:=|\\+=)", cache.a1_g0);
    assert_eq!("(^[ ]*|\\G\\s*)([^\\s]+)\\s*(=|\\?=|:=|\\+=)", cache.a1_g1);
}

#[test]
fn should_return_true_when_has_back_refs() {
    let source = RegExpSource::new(String::from("(>(<)/)(\\2)(>)"), 1);
    assert_eq!(true, source.has_back_references);
}
