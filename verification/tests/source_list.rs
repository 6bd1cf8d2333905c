use scie::rule::{CompiledRule, IRegExpSourceListAnchorCache, RegExpSource, RegExpSourceList};

fn source(text: &str, rule_id: i32) -> RegExpSource {
    RegExpSource::new(String::from(text), rule_id)
}

fn texts(compiled: &CompiledRule) -> Vec<&str> {
    compiled.reg_exps.iter().map(|s| s.as_str()).collect()
}

#[test]
fn new_list_is_empty() {
    let list = RegExpSourceList::new();
    assert_eq!(0, list.length());
    assert!(!list._has_anchors);
    assert!(list._cached.is_none());
    assert!(list._anchor_cache.a0_g0.is_none());
    assert!(list._anchor_cache.a1_g1.is_none());
}

#[test]
fn default_list_cache_is_empty() {
    let cache = IRegExpSourceListAnchorCache::default();
    assert!(cache.a0_g0.is_none());
    assert!(cache.a0_g1.is_none());
    assert!(cache.a1_g0.is_none());
    assert!(cache.a1_g1.is_none());
}

#[test]
fn push_appends_and_unshift_prepends() {
    let mut list = RegExpSourceList::new();
    list.push(source("b", 2));
    list.push(source("c", 3));
    list.unshift(source("a", 1));
    assert_eq!(3, list.length());
    let compiled = list.compile(false, false);
    assert_eq!(vec!["a", "b", "c"], texts(&compiled));
    assert_eq!(vec![1, 2, 3], compiled.rules);
}

#[test]
fn has_anchors_follows_the_items() {
    let mut list = RegExpSourceList::new();
    list.push(source("a", 1));
    assert!(!list._has_anchors);
    list.unshift(source("\\Gb", 2));
    assert!(list._has_anchors);
    list.push(source("c", 3));
    assert!(list._has_anchors);
}

#[test]
fn compile_of_an_empty_list_is_empty() {
    let mut list = RegExpSourceList::new();
    let compiled = list.compile(true, true);
    assert!(compiled.reg_exps.is_empty());
    assert!(compiled.rules.is_empty());
}

#[test]
fn compile_without_anchor_uses_the_single_cache() {
    let mut list = RegExpSourceList::new();
    list.push(source("a\\z", 5));
    let first = list.compile(true, false);
    assert_eq!(vec!["a$(?!\n)(?<!\n)"], texts(&first));
    assert_eq!(vec![5], first.rules);
    assert!(list._cached.is_some());
    assert!(list._anchor_cache.a1_g0.is_none());
    let other = list.compile(false, true);
    assert_eq!(first.reg_exps, other.reg_exps);
    assert_eq!(first.rules, other.rules);
    assert!(list._anchor_cache.a0_g1.is_none());
}

#[test]
fn compile_with_anchor_caches_each_context() {
    let mut list = RegExpSourceList::new();
    list.push(source("\\Ga", 1));
    list.push(source("\\Ab", 2));
    list.push(source("c", 3));
    let none = list.compile(false, false);
    assert_eq!(vec!["\\\u{ffff}a", "\\\u{ffff}b", "c"], texts(&none));
    assert!(list._cached.is_none());
    assert!(list._anchor_cache.a0_g0.is_some());
    assert!(list._anchor_cache.a0_g1.is_none());
    let g = list.compile(false, true);
    assert_eq!(vec!["\\Ga", "\\\u{ffff}b", "c"], texts(&g));
    let a = list.compile(true, false);
    assert_eq!(vec!["\\\u{ffff}a", "\\Ab", "c"], texts(&a));
    let both = list.compile(true, true);
    assert_eq!(vec!["\\Ga", "\\Ab", "c"], texts(&both));
    assert_eq!(vec![1, 2, 3], both.rules);
    assert!(list._anchor_cache.a0_g1.is_some());
    assert!(list._anchor_cache.a1_g0.is_some());
    assert!(list._anchor_cache.a1_g1.is_some());
}

#[test]
fn compile_twice_gives_the_same() {
    let mut list = RegExpSourceList::new();
    list.push(source("\\Ga", 1));
    list.push(source("b", 2));
    for allow_a in [false, true] {
        for allow_g in [false, true] {
            let first = list.compile(allow_a, allow_g);
            let second = list.compile(allow_a, allow_g);
            assert_eq!(first.reg_exps, second.reg_exps);
            assert_eq!(first.rules, second.rules);
        }
    }
}

#[test]
fn compile_serves_the_cache_until_it_is_emptied() {
    let mut list = RegExpSourceList::new();
    list.push(source("a", 1));
    let first = list.compile(false, false);
    list.push(source("b", 2));
    let stale = list.compile(false, false);
    assert_eq!(first.reg_exps, stale.reg_exps);
    list.dispose_caches();
    let fresh = list.compile(false, false);
    assert_eq!(vec!["a", "b"], texts(&fresh));
    assert_eq!(vec![1, 2], fresh.rules);
}

#[test]
fn returned_pattern_set_is_a_copy() {
    let mut list = RegExpSourceList::new();
    list.push(source("a", 1));
    let mut first = list.compile(false, false);
    first.reg_exps.push(String::from("changed"));
    first.rules.push(99);
    let second = list.compile(false, false);
    assert_eq!(vec!["a"], texts(&second));
    assert_eq!(vec![1], second.rules);
}

#[test]
fn resolve_anchors_goes_past_the_cache() {
    let mut list = RegExpSourceList::new();
    list.push(source("\\Ga", 1));
    let _ = list.compile(false, false);
    list.push(source("b", 2));
    let fresh = list.resolve_anchors(false, false);
    assert_eq!(vec!["\\\u{ffff}a", "b"], texts(&fresh));
    assert_eq!(vec![1, 2], fresh.rules);
}

#[test]
fn dispose_caches_empties_every_cache() {
    let mut plain = RegExpSourceList::new();
    plain.push(source("a", 1));
    let _ = plain.compile(false, false);
    plain.dispose_caches();
    assert!(plain._cached.is_none());
    assert_eq!(1, plain.length());

    let mut anchored = RegExpSourceList::new();
    anchored.push(source("\\Ga", 1));
    for allow_a in [false, true] {
        for allow_g in [false, true] {
            let _ = anchored.compile(allow_a, allow_g);
        }
    }
    anchored.dispose_caches();
    assert!(anchored._anchor_cache.a0_g0.is_none());
    assert!(anchored._anchor_cache.a0_g1.is_none());
    assert!(anchored._anchor_cache.a1_g0.is_none());
    assert!(anchored._anchor_cache.a1_g1.is_none());
    assert!(anchored._has_anchors);
}

#[test]
fn set_source_with_the_same_text_keeps_the_caches() {
    let mut list = RegExpSourceList::new();
    list.push(source("a", 1));
    list.push(source("b", 2));
    let before = list.compile(false, false);
    list.set_source(1, "b");
    assert!(list._cached.is_some());
    let after = list.compile(false, false);
    assert_eq!(before.reg_exps, after.reg_exps);

    let mut anchored = RegExpSourceList::new();
    anchored.push(source("\\Ga", 1));
    let _ = anchored.compile(true, false);
    anchored.set_source(0, "\\Ga");
    assert!(anchored._anchor_cache.a1_g0.is_some());
}

#[test]
fn set_source_with_another_text_empties_the_caches() {
    let mut list = RegExpSourceList::new();
    list.push(source("a", 1));
    list.push(source("b", 2));
    let before = list.compile(false, false);
    list.set_source(1, "c");
    assert!(list._cached.is_none());
    let after = list.compile(false, false);
    assert_ne!(before.reg_exps, after.reg_exps);
    assert_eq!(vec!["a", "c"], texts(&after));
    assert_eq!(vec![1, 2], after.rules);
}

#[test]
fn set_source_with_anchor_rebuilds_the_item() {
    let mut list = RegExpSourceList::new();
    list.push(source("\\Ga", 1));
    let before = list.compile(false, false);
    assert_eq!(vec!["\\\u{ffff}a"], texts(&before));
    let _ = list.compile(true, true);
    list.set_source(0, "\\Ab");
    assert!(list._anchor_cache.a0_g0.is_none());
    assert!(list._anchor_cache.a1_g1.is_none());
    let after = list.compile(false, false);
    assert_eq!(vec!["\\\u{ffff}b"], texts(&after));
    let allowed = list.compile(true, false);
    assert_eq!(vec!["\\Ab"], texts(&allowed));
}

#[test]
fn compiled_rule_pairs_texts_with_rules() {
    let compiled = CompiledRule::new(vec![String::from("a"), String::from("b")], vec![4, 2]);
    assert_eq!(vec!["a", "b"], texts(&compiled));
    assert_eq!(vec![4, 2], compiled.rules);
    let copy = compiled.clone();
    assert_eq!(compiled.reg_exps, copy.reg_exps);
    assert_eq!(compiled.rules, copy.rules);
}
