use crate::rule::reg_exp_source_list::RegExpSourceList;
use vstd::prelude::*;

verus! {

/// What every kind of grammar rule offers: its identity, the tag of its
/// kind, and, where the kind has patterns, collecting and compiling them.
/// `Grammar` is the grammar that the rule belongs to.
pub trait AbstractRule {
    type Grammar;

    /// The number that identifies the rule.
    fn id(&self) -> i32;

    /// The tag of the kind of rule.
    fn type_of(&self) -> String;

    /// A pattern that the rule refers to is missing. A kind of rule that
    /// refers to no pattern has none missing; a kind that refers to patterns
    /// says here when one of them is.
    open spec fn missing_pattern(&self) -> bool {
        false
    }

    /// Whether a pattern that the rule refers to is missing. A missing
    /// pattern is reported only where there is one, so a kind that refers to
    /// no pattern reports none.
    fn has_missing_pattern(&self) -> (missing: bool)
        ensures
            missing ==> self.missing_pattern(),
    {
        false
    }

    /// Adds the patterns of the rule, and of the rules it includes, to
    /// `out`. A kind without patterns does nothing.
    fn collect_patterns_recursive(
        &mut self,
        grammar: &mut Self::Grammar,
        out: Option<RegExpSourceList>,
        is_first: bool,
    ) {
    }

    /// Compiles the patterns of the rule for one anchor context. A kind
    /// without patterns does nothing.
    fn compile(
        &mut self,
        grammar: &mut Self::Grammar,
        end_regex_source: Option<String>,
        allow_a: bool,
        allow_g: bool,
    ) {
    }
}

} // verus!
