use crate::text::text_views;
use vstd::prelude::*;

verus! {

/// What a compiled pattern set holds, as plain values: pattern `i` belongs
/// to rule `rules[i]`.
pub struct CompiledRuleView {
    pub reg_exps: Seq<Seq<char>>,
    pub rules: Seq<i32>,
}

/// The alternatives of one matching context, each resolved pattern text with
/// the rule it belongs to, in the order of their priority: what a
/// multi-pattern search is made from.
#[derive(Debug)]
pub struct CompiledRule {
    pub reg_exps: Vec<String>,
    pub rules: Vec<i32>,
}

impl View for CompiledRule {
    type V = CompiledRuleView;

    open spec fn view(&self) -> CompiledRuleView {
        CompiledRuleView { reg_exps: text_views(self.reg_exps@), rules: self.rules@ }
    }
}

impl CompiledRule {
    /// Pairs the pattern texts with the rules they belong to.
    pub fn new(reg_exps: Vec<String>, rules: Vec<i32>) -> (r: CompiledRule)
        ensures
            r@ == (CompiledRuleView { reg_exps: text_views(reg_exps@), rules: rules@ }),
    {
        CompiledRule { reg_exps, rules }
    }
}

impl Clone for CompiledRule {
    fn clone(&self) -> (r: Self)
        ensures
            r@ == self@,
    {
        let mut reg_exps: Vec<String> = Vec::new();
        let mut rules: Vec<i32> = Vec::new();
        let mut i: usize = 0;
        while i < self.reg_exps.len()
            invariant
                i <= self.reg_exps.len(),
                reg_exps@.len() == i,
                text_views(reg_exps@) == text_views(self.reg_exps@).take(i as int),
            decreases self.reg_exps.len() - i,
        {
            let ghost before = reg_exps@;
            reg_exps.push(self.reg_exps[i].clone());
            i = i + 1;
            proof {
                assert forall|k: int| 0 <= k < i implies text_views(reg_exps@)[k] == text_views(
                    self.reg_exps@,
                )[k] by {
                    if k < i - 1 {
                        assert(text_views(before)[k] == text_views(self.reg_exps@).take(i - 1)[k]);
                    }
                }
                assert(text_views(reg_exps@) =~= text_views(self.reg_exps@).take(i as int));
            }
        }
        let mut j: usize = 0;
        while j < self.rules.len()
            invariant
                j <= self.rules.len(),
                rules@ == self.rules@.take(j as int),
            decreases self.rules.len() - j,
        {
            rules.push(self.rules[j]);
            j = j + 1;
            proof {
                assert(rules@ =~= self.rules@.take(j as int));
            }
        }
        proof {
            assert(text_views(reg_exps@) =~= text_views(self.reg_exps@));
            assert(rules@ =~= self.rules@);
        }
        CompiledRule { reg_exps, rules }
    }
}

} // verus!
