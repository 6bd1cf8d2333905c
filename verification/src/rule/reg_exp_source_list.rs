use crate::rule::compiled_rule::{CompiledRule, CompiledRuleView};
use crate::rule::reg_exp_source::{RegExpSource, RegExpSourceView};
use crate::text::{same_text, text_views};
use vstd::prelude::*;

verus! {

/// The compiled pattern sets kept for the four anchor contexts.
pub struct ListAnchorCacheView {
    pub a0_g0: Option<CompiledRuleView>,
    pub a0_g1: Option<CompiledRuleView>,
    pub a1_g0: Option<CompiledRuleView>,
    pub a1_g1: Option<CompiledRuleView>,
}

impl ListAnchorCacheView {
    /// The four slots, empty.
    pub open spec fn empty() -> ListAnchorCacheView {
        ListAnchorCacheView { a0_g0: None, a0_g1: None, a1_g0: None, a1_g1: None }
    }

    /// The slot of one anchor context.
    pub open spec fn slot(self, allow_a: bool, allow_g: bool) -> Option<CompiledRuleView> {
        if allow_a {
            if allow_g {
                self.a1_g1
            } else {
                self.a1_g0
            }
        } else {
            if allow_g {
                self.a0_g1
            } else {
                self.a0_g0
            }
        }
    }

    /// The cache with the slot of one anchor context filled.
    pub open spec fn fill(
        self,
        allow_a: bool,
        allow_g: bool,
        compiled: CompiledRuleView,
    ) -> ListAnchorCacheView {
        if allow_a {
            if allow_g {
                ListAnchorCacheView { a1_g1: Some(compiled), ..self }
            } else {
                ListAnchorCacheView { a1_g0: Some(compiled), ..self }
            }
        } else {
            if allow_g {
                ListAnchorCacheView { a0_g1: Some(compiled), ..self }
            } else {
                ListAnchorCacheView { a0_g0: Some(compiled), ..self }
            }
        }
    }
}

/// What a slot of compiled patterns holds.
pub open spec fn slot_view(slot: Option<Box<CompiledRule>>) -> Option<CompiledRuleView> {
    match slot {
        Some(compiled) => Some(compiled@),
        None => None,
    }
}

/// One compiled pattern set for each of the four anchor contexts, each made
/// when it is first asked for: `a1` where a match may start at the start of
/// the scan, `g1` where it may start at the end of the previous match.
#[derive(Debug)]
pub struct IRegExpSourceListAnchorCache {
    pub a0_g0: Option<Box<CompiledRule>>,
    pub a0_g1: Option<Box<CompiledRule>>,
    pub a1_g0: Option<Box<CompiledRule>>,
    pub a1_g1: Option<Box<CompiledRule>>,
}

impl View for IRegExpSourceListAnchorCache {
    type V = ListAnchorCacheView;

    open spec fn view(&self) -> ListAnchorCacheView {
        ListAnchorCacheView {
            a0_g0: slot_view(self.a0_g0),
            a0_g1: slot_view(self.a0_g1),
            a1_g0: slot_view(self.a1_g0),
            a1_g1: slot_view(self.a1_g1),
        }
    }
}

impl Clone for IRegExpSourceListAnchorCache {
    fn clone(&self) -> (r: Self)
        ensures
            r@ == self@,
    {
        IRegExpSourceListAnchorCache {
            a0_g0: clone_slot(&self.a0_g0),
            a0_g1: clone_slot(&self.a0_g1),
            a1_g0: clone_slot(&self.a1_g0),
            a1_g1: clone_slot(&self.a1_g1),
        }
    }
}

/// A copy of what a slot holds.
fn clone_slot(slot: &Option<Box<CompiledRule>>) -> (r: Option<Box<CompiledRule>>)
    ensures
        slot_view(r) == slot_view(*slot),
{
    match slot {
        Some(compiled) => Some(compiled.clone()),
        None => None,
    }
}

impl Default for IRegExpSourceListAnchorCache {
    fn default() -> (r: Self)
        ensures
            r@ == ListAnchorCacheView::empty(),
    {
        IRegExpSourceListAnchorCache { a0_g0: None, a0_g1: None, a1_g0: None, a1_g1: None }
    }
}

/// What the sources of a list hold.
pub open spec fn source_views(items: Seq<RegExpSource>) -> Seq<RegExpSourceView> {
    items.map_values(|item: RegExpSource| item@)
}

/// What a pattern source list holds, as plain values.
pub struct RegExpSourceListView {
    pub has_anchors: bool,
    pub cached: Option<CompiledRuleView>,
    pub anchor_cache: ListAnchorCacheView,
    pub items: Seq<RegExpSourceView>,
}

impl RegExpSourceListView {
    /// A list without items and with empty caches.
    pub open spec fn empty() -> RegExpSourceListView {
        RegExpSourceListView {
            has_anchors: false,
            cached: None,
            anchor_cache: ListAnchorCacheView::empty(),
            items: Seq::empty(),
        }
    }

    /// Every item is well formed, the list knows of an anchor exactly where
    /// an item has one, and while no item has one the four context caches
    /// stay empty.
    pub open spec fn wf(self) -> bool {
        &&& forall|i: int| 0 <= i < self.items.len() ==> (#[trigger] self.items[i]).wf()
        &&& self.has_anchors <==> exists|i: int|
            0 <= i < self.items.len() && (#[trigger] self.items[i]).has_anchor
        &&& !self.has_anchors ==> self.anchor_cache == ListAnchorCacheView::empty()
    }

    /// The list with `item` as its last alternative.
    pub open spec fn push(self, item: RegExpSourceView) -> RegExpSourceListView {
        RegExpSourceListView {
            has_anchors: self.has_anchors || item.has_anchor,
            items: self.items.push(item),
            ..self
        }
    }

    /// The list with `item` as its first alternative.
    pub open spec fn unshift(self, item: RegExpSourceView) -> RegExpSourceListView {
        RegExpSourceListView {
            has_anchors: self.has_anchors || item.has_anchor,
            items: seq![item] + self.items,
            ..self
        }
    }

    /// The pattern set of the items as they are now, under one anchor
    /// context: each item's resolved text with its rule, in the items' order.
    pub open spec fn resolve_anchors(self, allow_a: bool, allow_g: bool) -> CompiledRuleView {
        CompiledRuleView {
            reg_exps: Seq::new(
                self.items.len(),
                |i: int| self.items[i].resolve_anchors(allow_a, allow_g),
            ),
            rules: Seq::new(self.items.len(), |i: int| self.items[i].rule_id),
        }
    }

    /// The cache that serves one anchor context: the single one while no item
    /// has an anchor, else the slot of that context.
    pub open spec fn cache_for(self, allow_a: bool, allow_g: bool) -> Option<CompiledRuleView> {
        if !self.has_anchors {
            self.cached
        } else {
            self.anchor_cache.slot(allow_a, allow_g)
        }
    }

    /// What `compile` gives for one anchor context: the cached pattern set
    /// where there is one, else the pattern set of the items as they are now.
    pub open spec fn compile(self, allow_a: bool, allow_g: bool) -> CompiledRuleView {
        match self.cache_for(allow_a, allow_g) {
            Some(compiled) => compiled,
            None => self.resolve_anchors(allow_a, allow_g),
        }
    }

    /// The list after `compile` for one anchor context: the cache that serves
    /// the context holds what was given.
    pub open spec fn after_compile(self, allow_a: bool, allow_g: bool) -> RegExpSourceListView {
        if !self.has_anchors {
            RegExpSourceListView { cached: Some(self.compile(allow_a, allow_g)), ..self }
        } else {
            RegExpSourceListView {
                anchor_cache: self.anchor_cache.fill(
                    allow_a,
                    allow_g,
                    self.compile(allow_a, allow_g),
                ),
                ..self
            }
        }
    }

    /// The list with every cache emptied.
    pub open spec fn dispose_caches(self) -> RegExpSourceListView {
        RegExpSourceListView { cached: None, anchor_cache: ListAnchorCacheView::empty(), ..self }
    }

    /// The list after the text of item `index` is set to `text`: unchanged
    /// for the same text; else every cache is emptied and the item takes the
    /// text.
    pub open spec fn set_source(self, index: int, text: Seq<char>) -> RegExpSourceListView {
        if self.items[index].source == text {
            self
        } else {
            RegExpSourceListView {
                items: self.items.update(index, self.items[index].set_source(text)),
                ..self.dispose_caches()
            }
        }
    }
}

/// Compiling twice for the same anchor context, with nothing changed in
/// between, gives the same pattern set both times, and the second call
/// leaves the list as the first left it.
pub proof fn lemma_compile_twice(list: RegExpSourceListView, allow_a: bool, allow_g: bool)
    ensures
        list.after_compile(allow_a, allow_g).compile(allow_a, allow_g) == list.compile(
            allow_a,
            allow_g,
        ),
        list.after_compile(allow_a, allow_g).after_compile(allow_a, allow_g) == list.after_compile(
            allow_a,
            allow_g,
        ),
{
}

/// Compiling for one anchor context leaves what is cached for every other
/// context as it was.
pub proof fn lemma_compile_keeps_other_contexts(
    list: RegExpSourceListView,
    allow_a: bool,
    allow_g: bool,
    other_a: bool,
    other_g: bool,
)
    requires
        list.has_anchors,
        allow_a != other_a || allow_g != other_g,
    ensures
        list.after_compile(allow_a, allow_g).cache_for(other_a, other_g) == list.cache_for(
            other_a,
            other_g,
        ),
{
}

/// Setting the text of an item to the text it has changes nothing, the
/// caches included.
pub proof fn lemma_set_same_source(list: RegExpSourceListView, index: int)
    requires
        0 <= index < list.items.len(),
    ensures
        list.set_source(index, list.items[index].source) == list,
{
}

/// After the text of an item is set to another text no cache is left, and
/// `compile` gives, for every anchor context, the pattern set of the items
/// as they are then: what was compiled before the change is never given
/// again.
pub proof fn lemma_set_source_invalidates(
    list: RegExpSourceListView,
    index: int,
    text: Seq<char>,
    allow_a: bool,
    allow_g: bool,
)
    requires
        0 <= index < list.items.len(),
        list.items[index].source != text,
    ensures
        list.set_source(index, text).cached is None,
        list.set_source(index, text).anchor_cache == ListAnchorCacheView::empty(),
        list.set_source(index, text).items[index].source == text,
        list.set_source(index, text).compile(allow_a, allow_g) == list.set_source(
            index,
            text,
        ).resolve_anchors(allow_a, allow_g),
{
}

/// The alternatives that are active in one matching context, in the order of
/// their priority, with the pattern sets compiled from them so far.
#[derive(Debug)]
pub struct RegExpSourceList {
    pub _has_anchors: bool,
    pub _cached: Option<CompiledRule>,
    pub _anchor_cache: IRegExpSourceListAnchorCache,
    pub _items: Vec<RegExpSource>,
}

impl View for RegExpSourceList {
    type V = RegExpSourceListView;

    open spec fn view(&self) -> RegExpSourceListView {
        RegExpSourceListView {
            has_anchors: self._has_anchors,
            cached: match self._cached {
                Some(compiled) => Some(compiled@),
                None => None,
            },
            anchor_cache: self._anchor_cache@,
            items: source_views(self._items@),
        }
    }
}

impl Clone for RegExpSourceList {
    fn clone(&self) -> (r: Self)
        ensures
            r@ == self@,
    {
        let mut items: Vec<RegExpSource> = Vec::new();
        let mut i: usize = 0;
        while i < self._items.len()
            invariant
                i <= self._items.len(),
                items@.len() == i,
                forall|k: int| 0 <= k < i ==> (#[trigger] items@[k])@ == self._items@[k]@,
            decreases self._items.len() - i,
        {
            items.push(self._items[i].clone());
            i = i + 1;
        }
        proof {
            assert(source_views(items@) =~= source_views(self._items@));
        }
        RegExpSourceList {
            _has_anchors: self._has_anchors,
            _cached: match &self._cached {
                Some(compiled) => Some(compiled.clone()),
                None => None,
            },
            _anchor_cache: self._anchor_cache.clone(),
            _items: items,
        }
    }
}

impl RegExpSourceList {
    /// A list without items.
    pub fn new() -> (r: Self)
        ensures
            r@ == RegExpSourceListView::empty(),
            r@.wf(),
    {
        let r = RegExpSourceList {
            _has_anchors: false,
            _cached: None,
            _anchor_cache: IRegExpSourceListAnchorCache::default(),
            _items: Vec::new(),
        };
        proof {
            assert(source_views(r._items@) =~= Seq::<RegExpSourceView>::empty());
        }
        r
    }

    /// Adds `item` as the last alternative.
    pub fn push(&mut self, item: RegExpSource)
        ensures
            final(self)@ == old(self)@.push(item@),
            old(self)@.wf() && item@.wf() ==> final(self)@.wf(),
    {
        let item_has_anchor = item.has_anchor;
        self._items.push(item);
        self._has_anchors = self._has_anchors || item_has_anchor;
        proof {
            let before = old(self)@;
            let after = self@;
            assert(after.items =~= before.items.push(item@));
            if before.wf() && item@.wf() {
                assert(after.items[before.items.len() as int] == item@);
                if before.has_anchors {
                    let i = choose|i: int|
                        0 <= i < before.items.len() && (#[trigger] before.items[i]).has_anchor;
                    assert(after.items[i].has_anchor);
                }
            }
        }
    }

    /// Adds `item` as the first alternative, before all that are there.
    pub fn unshift(&mut self, item: RegExpSource)
        ensures
            final(self)@ == old(self)@.unshift(item@),
            old(self)@.wf() && item@.wf() ==> final(self)@.wf(),
    {
        let item_has_anchor = item.has_anchor;
        self._items.insert(0, item);
        self._has_anchors = self._has_anchors || item_has_anchor;
        proof {
            let before = old(self)@;
            let after = self@;
            assert(after.items =~= seq![item@] + before.items);
            if before.wf() && item@.wf() {
                assert(after.items[0] == item@);
                assert forall|i: int| 0 <= i < after.items.len() implies (
                #[trigger] after.items[i]).wf() by {
                    if i > 0 {
                        assert(after.items[i] == before.items[i - 1]);
                    }
                }
                if before.has_anchors {
                    let i = choose|i: int|
                        0 <= i < before.items.len() && (#[trigger] before.items[i]).has_anchor;
                    assert(after.items[i + 1] == before.items[i]);
                }
                if after.has_anchors && !before.has_anchors && !item_has_anchor {
                    let i = choose|i: int|
                        0 <= i < after.items.len() && (#[trigger] after.items[i]).has_anchor;
                    assert(after.items[i] == before.items[i - 1]);
                }
            }
        }
    }

    /// The pattern set for one anchor context, made at most once until the
    /// caches are emptied. While no item has an anchor a single cache serves
    /// every context; else each of the four contexts has its own. What is
    /// returned is a copy of its own.
    pub fn compile(&mut self, allow_a: bool, allow_g: bool) -> (r: Box<CompiledRule>)
        ensures
            r@ == old(self)@.compile(allow_a, allow_g),
            final(self)@ == old(self)@.after_compile(allow_a, allow_g),
            old(self)@.wf() ==> final(self)@.wf(),
    {
        if !self._has_anchors {
            let compiled: CompiledRule = match self._cached.take() {
                Some(cached) => cached,
                None => *self.resolve_anchors(allow_a, allow_g),
            };
            self._cached = Some(compiled.clone());
            Box::new(compiled)
        } else {
            if allow_a {
                if allow_g {
                    let compiled: Box<CompiledRule> = match self._anchor_cache.a1_g1.take() {
                        Some(cached) => cached,
                        None => self.resolve_anchors(allow_a, allow_g),
                    };
                    self._anchor_cache.a1_g1 = Some(compiled.clone());
                    compiled
                } else {
                    let compiled: Box<CompiledRule> = match self._anchor_cache.a1_g0.take() {
                        Some(cached) => cached,
                        None => self.resolve_anchors(allow_a, allow_g),
                    };
                    self._anchor_cache.a1_g0 = Some(compiled.clone());
                    compiled
                }
            } else {
                if allow_g {
                    let compiled: Box<CompiledRule> = match self._anchor_cache.a0_g1.take() {
                        Some(cached) => cached,
                        None => self.resolve_anchors(allow_a, allow_g),
                    };
                    self._anchor_cache.a0_g1 = Some(compiled.clone());
                    compiled
                } else {
                    let compiled: Box<CompiledRule> = match self._anchor_cache.a0_g0.take() {
                        Some(cached) => cached,
                        None => self.resolve_anchors(allow_a, allow_g),
                    };
                    self._anchor_cache.a0_g0 = Some(compiled.clone());
                    compiled
                }
            }
        }
    }

    /// The pattern set of the items as they are now, under one anchor
    /// context, past every cache.
    pub fn resolve_anchors(&self, allow_a: bool, allow_g: bool) -> (r: Box<CompiledRule>)
        ensures
            r@ == self@.resolve_anchors(allow_a, allow_g),
    {
        let mut reg_exps: Vec<String> = Vec::new();
        let mut rules: Vec<i32> = Vec::new();
        let mut i: usize = 0;
        while i < self._items.len()
            invariant
                i <= self._items.len(),
                reg_exps@.len() == i,
                text_views(reg_exps@) == self@.resolve_anchors(allow_a, allow_g).reg_exps.take(
                    i as int,
                ),
                rules@ == self@.resolve_anchors(allow_a, allow_g).rules.take(i as int),
            decreases self._items.len() - i,
        {
            let ghost before = reg_exps@;
            let x = &self._items[i];
            reg_exps.push(x.resolve_anchors(allow_a, allow_g));
            rules.push(x.rule_id);
            i = i + 1;
            proof {
                let all = self@.resolve_anchors(allow_a, allow_g);
                assert(self@.items[i - 1] == self._items@[i - 1]@);
                assert forall|k: int| 0 <= k < i implies text_views(reg_exps@)[k]
                    == all.reg_exps[k] by {
                    if k < i - 1 {
                        assert(text_views(before)[k] == all.reg_exps.take(i - 1)[k]);
                    }
                }
                assert(text_views(reg_exps@) =~= all.reg_exps.take(i as int));
                assert(rules@ =~= all.rules.take(i as int));
            }
        }
        proof {
            let all = self@.resolve_anchors(allow_a, allow_g);
            assert(all.reg_exps.take(i as int) =~= all.reg_exps);
            assert(all.rules.take(i as int) =~= all.rules);
        }
        Box::new(CompiledRule::new(reg_exps, rules))
    }

    /// The number of alternatives.
    pub fn length(&self) -> (n: usize)
        ensures
            n == self@.items.len(),
    {
        self._items.len()
    }

    /// Empties every cache, so that the next `compile` starts from the items
    /// as they are then.
    pub fn dispose_caches(&mut self)
        ensures
            final(self)@ == old(self)@.dispose_caches(),
            old(self)@.wf() ==> final(self)@.wf(),
    {
        if self._cached.is_some() {
            self._cached = None;
        }
        if self._anchor_cache.a0_g0.is_some() {
            self._anchor_cache.a0_g0 = None;
        }
        if self._anchor_cache.a0_g1.is_some() {
            self._anchor_cache.a0_g1 = None;
        }
        if self._anchor_cache.a1_g0.is_some() {
            self._anchor_cache.a1_g0 = None;
        }
        if self._anchor_cache.a1_g1.is_some() {
            self._anchor_cache.a1_g1 = None;
        }
    }

    /// Sets the text of item `index`. The same text changes nothing, the
    /// caches included; another text first empties every cache and then
    /// takes the place of the item's text.
    pub fn set_source(&mut self, index: usize, new_source: &str)
        requires
            index < old(self)@.items.len(),
        ensures
            final(self)@ == old(self)@.set_source(index as int, new_source@),
            old(self)@.wf() ==> final(self)@.wf(),
    {
        if !same_text(self._items[index].source.as_str(), new_source) {
            self.dispose_caches();
            self._items[index].set_source(new_source);
            proof {
                let before = old(self)@;
                let after = self@;
                assert(before.items[index as int] == old(self)._items@[index as int]@);
                assert(after.items =~= before.items.update(
                    index as int,
                    before.items[index as int].set_source(new_source@),
                ));
                if before.wf() {
                    assert forall|i: int| 0 <= i < after.items.len() implies (
                    #[trigger] after.items[i]).wf() by {
                        assert(before.items[i].wf());
                    }
                    assert forall|i: int| 0 <= i < after.items.len() implies (
                    #[trigger] after.items[i]).has_anchor == before.items[i].has_anchor by {}
                    if before.has_anchors {
                        let i = choose|i: int|
                            0 <= i < before.items.len() && (#[trigger] before.items[i]).has_anchor;
                        assert(after.items[i].has_anchor);
                    }
                    if exists|i: int|
                        0 <= i < after.items.len() && (#[trigger] after.items[i]).has_anchor {
                        let i = choose|i: int|
                            0 <= i < after.items.len() && (#[trigger] after.items[i]).has_anchor;
                        assert(before.items[i].has_anchor);
                    }
                }
            }
        } else {
            proof {
                assert(old(self)@.items[index as int] == old(self)._items@[index as int]@);
            }
        }
    }
}

} // verus!
