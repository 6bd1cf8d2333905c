use scie::rule::{AbstractRule, RegExpSource, RegExpSourceList};

struct Grammar {
    compiled: usize,
}

struct MatchRule {
    id: i32,
}

impl AbstractRule for MatchRule {
    type Grammar = Grammar;

    fn id(&self) -> i32 {
        self.id
    }

    fn type_of(&self) -> String {
        String::from("MatchRule")
    }
}

struct IncludeOnlyRule {
    id: i32,
    missing: bool,
    patterns: Vec<String>,
}

impl AbstractRule for IncludeOnlyRule {
    type Grammar = Grammar;

    fn id(&self) -> i32 {
        self.id
    }

    fn type_of(&self) -> String {
        String::from("IncludeOnlyRule")
    }

    fn has_missing_pattern(&self) -> bool {
        self.missing
    }

    fn compile(
        &mut self,
        grammar: &mut Grammar,
        _end_regex_source: Option<String>,
        allow_a: bool,
        allow_g: bool,
    ) {
        let mut list = RegExpSourceList::new();
        for pattern in self.patterns.iter() {
            list.push(RegExpSource::new(pattern.clone(), self.id));
        }
        grammar.compiled = list.compile(allow_a, allow_g).reg_exps.len();
    }
}

#[test]
fn rule_without_patterns_reports_none_missing() {
    let rule = MatchRule { id: 3 };
    assert_eq!(3, rule.id());
    assert_eq!("MatchRule", rule.type_of());
    assert!(!rule.has_missing_pattern());
}

#[test]
fn rule_without_patterns_collects_and_compiles_nothing() {
    let mut rule = MatchRule { id: 3 };
    let mut grammar = Grammar { compiled: 0 };
    rule.collect_patterns_recursive(&mut grammar, Some(RegExpSourceList::new()), true);
    rule.compile(&mut grammar, None, true, false);
    assert_eq!(0, grammar.compiled);
    assert_eq!(3, rule.id());
}

#[test]
fn rule_with_patterns_reports_its_own_state() {
    let missing = IncludeOnlyRule { id: 4, missing: true, patterns: Vec::new() };
    assert!(missing.has_missing_pattern());
    let mut complete = IncludeOnlyRule {
        id: 5,
        missing: false,
        patterns: vec![String::from("a"), String::from("\\Gb")],
    };
    assert!(!complete.has_missing_pattern());
    let mut grammar = Grammar { compiled: 0 };
    complete.compile(&mut grammar, None, false, false);
    assert_eq!(2, grammar.compiled);
}
