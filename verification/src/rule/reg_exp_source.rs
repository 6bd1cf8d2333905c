use crate::rule::back_reference::{
    back_reference_pattern, captures_fit, resolve_back_references_in, resolved_back_references,
};
use crate::rule::matcher::{compile_regex, is_match, regex_compiles, regex_matches};
use crate::scanner::scie_scanner::IOnigCaptureIndex;
use crate::text::{collect_chars, push_chars, same_text};
use vstd::prelude::*;

verus! {

/// The character at `i` is the payload of an escape: it follows a backslash
/// that is not itself the payload of an escape.
pub open spec fn is_escaped(text: Seq<char>, i: int) -> bool
    decreases i,
{
    0 < i < text.len() && text[i - 1] == '\\' && !is_escaped(text, i - 1)
}

/// The escape at `i` is `\A` or `\G`.
pub open spec fn is_anchor_escape(text: Seq<char>, i: int) -> bool {
    is_escaped(text, i) && (text[i] == 'A' || text[i] == 'G')
}

/// The text holds `\A` or `\G`.
pub open spec fn has_anchor_escape(text: Seq<char>) -> bool {
    exists|i: int| is_anchor_escape(text, i)
}

/// The escape at `i` is `\z`.
pub open spec fn is_end_escape(text: Seq<char>, i: int) -> bool {
    is_escaped(text, i) && text[i] == 'z'
}

/// What stands for `\z`: an end of line with no line terminator before or
/// after it.
pub open spec fn end_anchor() -> Seq<char> {
    "$(?!\n)(?<!\n)"@
}

/// What the character at `i` becomes when each `\z` is written out: the
/// backslash of a `\z` becomes the whole substitute, its `z` nothing, and any
/// other character stays.
pub open spec fn rewritten_char(text: Seq<char>, i: int) -> Seq<char> {
    if is_end_escape(text, i) {
        Seq::empty()
    } else if is_end_escape(text, i + 1) {
        end_anchor()
    } else {
        seq![text[i]]
    }
}

/// The first `n` characters of `text` with each `\z` written out.
pub open spec fn rewrite_end_anchors_upto(text: Seq<char>, n: int) -> Seq<char>
    decreases n,
{
    if n <= 0 {
        Seq::empty()
    } else {
        rewrite_end_anchors_upto(text, n - 1) + rewritten_char(text, n - 1)
    }
}

/// `text` with each `\z` written out.
pub open spec fn rewrite_end_anchors(text: Seq<char>) -> Seq<char> {
    rewrite_end_anchors_upto(text, text.len() as int)
}

/// The character that can stand in no pattern text: it takes the place of an
/// anchor letter where the anchor is not allowed, so that the branch cannot
/// match.
pub open spec fn unmatchable() -> char {
    '\u{FFFF}'
}

/// The character at `i` under one anchor context: the `A` of `\A` is kept
/// only where a match may start at the start of the scan, the `G` of `\G`
/// only where it may start at the end of the previous match.
pub open spec fn resolve_char(text: Seq<char>, i: int, allow_a: bool, allow_g: bool) -> char {
    if is_escaped(text, i) && text[i] == 'A' && !allow_a {
        unmatchable()
    } else if is_escaped(text, i) && text[i] == 'G' && !allow_g {
        unmatchable()
    } else {
        text[i]
    }
}

/// `text` under one anchor context.
pub open spec fn resolve_text(text: Seq<char>, allow_a: bool, allow_g: bool) -> Seq<char> {
    Seq::new(text.len(), |i: int| resolve_char(text, i, allow_a, allow_g))
}

/// `source` holds a back-reference, as the regex crate finds it.
pub open spec fn mentions_back_reference(source: Seq<char>) -> bool {
    regex_compiles(back_reference_pattern()) && regex_matches(
        back_reference_pattern(),
        source,
    ).len() > 0
}

/// The four texts of an anchor cache.
pub struct AnchorCacheView {
    pub a0_g0: Seq<char>,
    pub a0_g1: Seq<char>,
    pub a1_g0: Seq<char>,
    pub a1_g1: Seq<char>,
}

impl AnchorCacheView {
    /// The text kept for one anchor context.
    pub open spec fn variant(self, allow_a: bool, allow_g: bool) -> Seq<char> {
        if allow_a {
            if allow_g {
                self.a1_g1
            } else {
                self.a1_g0
            }
        } else {
            if allow_g {
                self.a0_g1
            } else {
                self.a0_g0
            }
        }
    }
}

/// The four anchor contexts of `text`, resolved.
pub open spec fn anchor_variants(text: Seq<char>) -> AnchorCacheView {
    AnchorCacheView {
        a0_g0: resolve_text(text, false, false),
        a0_g1: resolve_text(text, false, true),
        a1_g0: resolve_text(text, true, false),
        a1_g1: resolve_text(text, true, true),
    }
}

/// A pattern text resolved for each of the four anchor contexts: `a1` where a
/// match may start at the start of the scan, `g1` where it may start at the
/// end of the previous match.
#[derive(Debug)]
pub struct AnchorCache {
    pub a0_g0: String,
    pub a0_g1: String,
    pub a1_g0: String,
    pub a1_g1: String,
}

impl View for AnchorCache {
    type V = AnchorCacheView;

    open spec fn view(&self) -> AnchorCacheView {
        AnchorCacheView {
            a0_g0: self.a0_g0@,
            a0_g1: self.a0_g1@,
            a1_g0: self.a1_g0@,
            a1_g1: self.a1_g1@,
        }
    }
}

impl Clone for AnchorCache {
    fn clone(&self) -> (r: Self)
        ensures
            r@ == self@,
    {
        AnchorCache {
            a0_g0: self.a0_g0.clone(),
            a0_g1: self.a0_g1.clone(),
            a1_g0: self.a1_g0.clone(),
            a1_g1: self.a1_g1.clone(),
        }
    }
}

impl Default for AnchorCache {
    fn default() -> (r: Self)
        ensures
            r@ == (AnchorCacheView {
                a0_g0: Seq::empty(),
                a0_g1: Seq::empty(),
                a1_g0: Seq::empty(),
                a1_g1: Seq::empty(),
            }),
    {
        AnchorCache {
            a0_g0: String::new(),
            a0_g1: String::new(),
            a1_g0: String::new(),
            a1_g1: String::new(),
        }
    }
}

/// What a pattern source holds, as plain values.
pub struct RegExpSourceView {
    pub source: Seq<char>,
    pub rule_id: i32,
    pub has_anchor: bool,
    pub anchor_cache: Option<AnchorCacheView>,
    pub has_back_references: bool,
}

impl RegExpSourceView {
    /// The cache is there exactly where the source was found to hold an
    /// anchor, and then it holds the four resolved forms of the source text.
    pub open spec fn wf(self) -> bool {
        &&& self.anchor_cache is Some <==> self.has_anchor
        &&& self.anchor_cache matches Some(cache) ==> cache == anchor_variants(self.source)
    }

    /// The source text for one anchor context: the text itself without an
    /// anchor, else the entry of the cache.
    pub open spec fn resolve_anchors(self, allow_a: bool, allow_g: bool) -> Seq<char> {
        if !self.has_anchor || self.anchor_cache is None {
            self.source
        } else {
            self.anchor_cache->0.variant(allow_a, allow_g)
        }
    }

    /// The source after its text is set to `text`: unchanged for the same
    /// text; else the text is replaced and, with an anchor, the cache rebuilt.
    pub open spec fn set_source(self, text: Seq<char>) -> RegExpSourceView {
        if self.source == text {
            self
        } else {
            RegExpSourceView {
                source: text,
                anchor_cache: if self.has_anchor {
                    Some(anchor_variants(text))
                } else {
                    self.anchor_cache
                },
                ..self
            }
        }
    }
}

/// The pattern source that is made from `fragment` for the rule `rule_id`.
pub open spec fn source_of_fragment(fragment: Seq<char>, rule_id: i32) -> RegExpSourceView {
    let source = rewrite_end_anchors(fragment);
    RegExpSourceView {
        source,
        rule_id,
        has_anchor: has_anchor_escape(fragment),
        anchor_cache: if has_anchor_escape(fragment) {
            Some(anchor_variants(source))
        } else {
            None
        },
        has_back_references: mentions_back_reference(source),
    }
}

/// One regular-expression fragment of a grammar rule, with what is needed to
/// resolve its anchors and back-references.
#[derive(Debug)]
pub struct RegExpSource {
    pub source: String,
    pub rule_id: i32,
    pub has_anchor: bool,
    pub _anchor_cache: Option<AnchorCache>,
    pub has_back_references: bool,
}

impl View for RegExpSource {
    type V = RegExpSourceView;

    open spec fn view(&self) -> RegExpSourceView {
        RegExpSourceView {
            source: self.source@,
            rule_id: self.rule_id,
            has_anchor: self.has_anchor,
            anchor_cache: match self._anchor_cache {
                Some(cache) => Some(cache@),
                None => None,
            },
            has_back_references: self.has_back_references,
        }
    }
}

impl Clone for RegExpSource {
    fn clone(&self) -> (r: Self)
        ensures
            r@ == self@,
    {
        RegExpSource {
            source: self.source.clone(),
            rule_id: self.rule_id,
            has_anchor: self.has_anchor,
            _anchor_cache: match &self._anchor_cache {
                Some(cache) => Some(cache.clone()),
                None => None,
            },
            has_back_references: self.has_back_references,
        }
    }
}

/// Whether `source` holds a back-reference: a backslash and digits, as the
/// regex crate finds them. Without a compiled pattern nothing is found.
pub fn has_back_reference(source: &str) -> (found: bool)
    ensures
        found == mentions_back_reference(source@),
{
    match compile_regex(r"\\(\d+)") {
        Ok(re) => is_match(&re, source),
        Err(_) => false,
    }
}

impl RegExpSource {
    /// Makes the pattern source of `exp_source` for the rule `rule_id`. Each
    /// `\z` is written out as an end of line with no line terminator next to
    /// it; `\A` and `\G` are noted and, where there is one, the four anchor
    /// contexts are resolved at once.
    pub fn new(exp_source: String, rule_id: i32) -> (r: RegExpSource)
        ensures
            r@ == source_of_fragment(exp_source@, rule_id),
            r@.wf(),
    {
        let chars = collect_chars(exp_source.as_str());
        let length: usize = chars.len();
        let mut has_anchor = false;
        let mut output = String::new();
        let mut last_pushed_pos: usize = 0;
        let mut pos: usize = 0;
        proof {
            assert(output@ + chars@.subrange(0, 0) =~= rewrite_end_anchors_upto(chars@, 0));
        }
        while pos < length
            invariant
                chars@ == exp_source@,
                length == chars.len(),
                last_pushed_pos <= pos <= length,
                pos < length ==> !is_escaped(chars@, pos as int),
                output@ + chars@.subrange(last_pushed_pos as int, pos as int)
                    == rewrite_end_anchors_upto(chars@, pos as int),
                last_pushed_pos == 0 ==> output@.len() == 0,
                has_anchor == exists|i: int| 0 <= i < pos && is_anchor_escape(chars@, i),
            decreases length - pos,
        {
            let ghost text = chars@;
            let ghost before = output@;
            let ghost p = pos as int;
            let ghost last = last_pushed_pos as int;
            let ch = chars[pos];
            assert(rewrite_end_anchors_upto(text, p + 1) == rewrite_end_anchors_upto(text, p)
                + rewritten_char(text, p));
            if ch == '\\' && pos + 1 < length {
                assert(is_escaped(text, p + 1));
                assert(!is_escaped(text, p + 2));
                assert(rewrite_end_anchors_upto(text, p + 2) == rewrite_end_anchors_upto(
                    text,
                    p + 1,
                ) + rewritten_char(text, p + 1));
                let next_char = chars[pos + 1];
                if next_char == 'z' {
                    push_chars(&mut output, &chars, last_pushed_pos, pos);
                    output.append("$(?!\n)(?<!\n)");
                    last_pushed_pos = pos + 2;
                    assert(output@ + text.subrange(p + 2, p + 2) =~= before + text.subrange(last, p)
                        + end_anchor() + Seq::<char>::empty());
                } else {
                    if next_char == 'G' || next_char == 'A' {
                        has_anchor = true;
                        assert(is_anchor_escape(text, p + 1));
                    }
                    assert(before + text.subrange(last, p + 2) =~= before + text.subrange(last, p)
                        + seq![text[p]] + seq![text[p + 1]]);
                }
                assert forall|i: int| 0 <= i < p + 2 && is_anchor_escape(text, i) implies (0 <= i
                    < p && is_anchor_escape(text, i)) || (i == p + 1 && (next_char == 'G'
                    || next_char == 'A')) by {}
                pos = pos + 1;
            } else {
                assert(!is_escaped(text, p + 1));
                assert(before + text.subrange(last, p + 1) =~= before + text.subrange(last, p)
                    + seq![text[p]]);
            }
            pos = pos + 1;
        }
        let result = if last_pushed_pos == 0 {
            proof {
                assert(output@ + chars@.subrange(0, length as int) =~= exp_source@);
            }
            exp_source
        } else {
            push_chars(&mut output, &chars, last_pushed_pos, length);
            output
        };
        proof {
            assert(has_anchor == has_anchor_escape(exp_source@));
        }
        let has_back_references = has_back_reference(result.as_str());
        let mut reg_exp_source = RegExpSource {
            source: result,
            rule_id,
            has_anchor,
            _anchor_cache: None,
            has_back_references,
        };
        if has_anchor {
            reg_exp_source._anchor_cache = Some(reg_exp_source.build_anchor_cache());
        }
        reg_exp_source
    }

    /// Resolves the source text for the four anchor contexts in one pass:
    /// after a backslash, `A` and `G` stay where the context allows the anchor
    /// and else give way to a character that matches nothing.
    pub fn build_anchor_cache(&self) -> (cache: AnchorCache)
        ensures
            cache@ == anchor_variants(self.source@),
    {
        let chars = collect_chars(self.source.as_str());
        let length: usize = chars.len();
        let mut a0_g0 = String::new();
        let mut a0_g1 = String::new();
        let mut a1_g0 = String::new();
        let mut a1_g1 = String::new();
        let mut pos: usize = 0;
        proof {
            assert(a0_g0@ =~= resolve_text(chars@, false, false).take(0));
            assert(a0_g1@ =~= resolve_text(chars@, false, true).take(0));
            assert(a1_g0@ =~= resolve_text(chars@, true, false).take(0));
            assert(a1_g1@ =~= resolve_text(chars@, true, true).take(0));
        }
        while pos < length
            invariant
                chars@ == self.source@,
                length == chars.len(),
                pos <= length,
                pos < length ==> !is_escaped(chars@, pos as int),
                a0_g0@ == resolve_text(chars@, false, false).take(pos as int),
                a0_g1@ == resolve_text(chars@, false, true).take(pos as int),
                a1_g0@ == resolve_text(chars@, true, false).take(pos as int),
                a1_g1@ == resolve_text(chars@, true, true).take(pos as int),
            decreases length - pos,
        {
            let ghost text = chars@;
            let ghost p = pos as int;
            let ch = chars[pos];
            a0_g0.push(ch);
            a0_g1.push(ch);
            a1_g0.push(ch);
            a1_g1.push(ch);
            proof {
                assert(a0_g0@ =~= resolve_text(text, false, false).take(p + 1));
                assert(a0_g1@ =~= resolve_text(text, false, true).take(p + 1));
                assert(a1_g0@ =~= resolve_text(text, true, false).take(p + 1));
                assert(a1_g1@ =~= resolve_text(text, true, true).take(p + 1));
            }
            if ch == '\\' && pos + 1 < length {
                assert(is_escaped(text, p + 1));
                assert(!is_escaped(text, p + 2));
                let next_char = chars[pos + 1];
                if next_char == 'A' {
                    a0_g0.push('\u{FFFF}');
                    a0_g1.push('\u{FFFF}');
                    a1_g0.push('A');
                    a1_g1.push('A');
                } else if next_char == 'G' {
                    a0_g0.push('\u{FFFF}');
                    a0_g1.push('G');
                    a1_g0.push('\u{FFFF}');
                    a1_g1.push('G');
                } else {
                    a0_g0.push(next_char);
                    a0_g1.push(next_char);
                    a1_g0.push(next_char);
                    a1_g1.push(next_char);
                }
                proof {
                    assert(a0_g0@ =~= resolve_text(text, false, false).take(p + 2));
                    assert(a0_g1@ =~= resolve_text(text, false, true).take(p + 2));
                    assert(a1_g0@ =~= resolve_text(text, true, false).take(p + 2));
                    assert(a1_g1@ =~= resolve_text(text, true, true).take(p + 2));
                }
                pos = pos + 1;
            } else {
                assert(!is_escaped(text, p + 1));
            }
            pos = pos + 1;
        }
        proof {
            assert(a0_g0@ =~= resolve_text(chars@, false, false));
            assert(a0_g1@ =~= resolve_text(chars@, false, true));
            assert(a1_g0@ =~= resolve_text(chars@, true, false));
            assert(a1_g1@ =~= resolve_text(chars@, true, true));
        }
        AnchorCache { a0_g0, a0_g1, a1_g0, a1_g1 }
    }

    /// The source text for one anchor context. A source without an anchor
    /// gives its text as it is; one with an anchor gives the entry that was
    /// resolved beforehand for that context.
    pub fn resolve_anchors(&self, allow_a: bool, allow_g: bool) -> (text: String)
        ensures
            text@ == self@.resolve_anchors(allow_a, allow_g),
    {
        if !self.has_anchor {
            return self.source.clone();
        }
        match &self._anchor_cache {
            None => self.source.clone(),
            Some(cached) => {
                if allow_a {
                    if allow_g {
                        cached.a1_g1.clone()
                    } else {
                        cached.a1_g0.clone()
                    }
                } else {
                    if allow_g {
                        cached.a0_g1.clone()
                    } else {
                        cached.a0_g0.clone()
                    }
                }
            },
        }
    }

    /// The source text with each back-reference replaced by what the group it
    /// names captured in `line_text`, escaped so that it can stand in a
    /// pattern. A group that is not in the list or took no part in the match
    /// gives nothing. The source itself stays as it is.
    pub fn resolve_back_references(
        &self,
        line_text: &str,
        capture_indices: Vec<Option<IOnigCaptureIndex>>,
    ) -> (text: String)
        requires
            captures_fit(line_text@, capture_indices@),
        ensures
            text@ == resolved_back_references(self.source@, line_text@, capture_indices@),
    {
        resolve_back_references_in(self.source.as_str(), line_text, &capture_indices)
    }

    /// Replaces the source text. The same text changes nothing; another text
    /// takes its place and, where the source has an anchor, the four anchor
    /// contexts are resolved anew.
    pub fn set_source(&mut self, new_source: &str)
        ensures
            final(self)@ == old(self)@.set_source(new_source@),
            old(self)@.wf() ==> final(self)@.wf(),
    {
        if same_text(self.source.as_str(), new_source) {
            return ;
        }
        self.source = new_source.to_owned();
        if self.has_anchor {
            self._anchor_cache = Some(self.build_anchor_cache());
        }
    }
}

} // verus!
