use crate::rule::reg_exp_source::{
    end_anchor, has_anchor_escape, is_anchor_escape, is_end_escape, is_escaped, resolve_char,
    resolve_text, rewrite_end_anchors, rewrite_end_anchors_upto, rewritten_char,
    source_of_fragment, unmatchable, RegExpSourceView,
};
use vstd::prelude::*;

verus! {

/// A text without `\z` is rewritten to itself.
pub proof fn lemma_rewrite_without_end_escape(text: Seq<char>, n: int)
    requires
        0 <= n <= text.len(),
        forall|i: int| !is_end_escape(text, i),
    ensures
        rewrite_end_anchors_upto(text, n) == text.take(n),
    decreases n,
{
    if n > 0 {
        lemma_rewrite_without_end_escape(text, n - 1);
        assert(!is_end_escape(text, n - 1));
        assert(!is_end_escape(text, n));
        assert(text.take(n) =~= text.take(n - 1) + seq![text[n - 1]]);
    } else {
        assert(text.take(0) =~= Seq::<char>::empty());
    }
}

/// A text without `\A` and `\G` is the same under every anchor context.
pub proof fn lemma_resolve_text_without_anchor(text: Seq<char>, allow_a: bool, allow_g: bool)
    requires
        !has_anchor_escape(text),
    ensures
        resolve_text(text, allow_a, allow_g) == text,
{
    assert forall|i: int| 0 <= i < text.len() implies resolve_char(text, i, allow_a, allow_g)
        == text[i] by {
        assert(!is_anchor_escape(text, i));
    }
    assert(resolve_text(text, allow_a, allow_g) =~= text);
}

/// A fragment without `\A` and `\G` resolves to its own source under every
/// anchor context: to the fragment with each `\z` written out, and so to the
/// fragment itself where it holds no `\z` either.
pub proof fn lemma_resolve_without_anchor(
    fragment: Seq<char>,
    rule_id: i32,
    allow_a: bool,
    allow_g: bool,
)
    requires
        !has_anchor_escape(fragment),
    ensures
        source_of_fragment(fragment, rule_id).resolve_anchors(allow_a, allow_g)
            == rewrite_end_anchors(fragment),
        (forall|i: int| !is_end_escape(fragment, i)) ==> source_of_fragment(
            fragment,
            rule_id,
        ).resolve_anchors(allow_a, allow_g) == fragment,
{
    if forall|i: int| !is_end_escape(fragment, i) {
        lemma_rewrite_without_end_escape(fragment, fragment.len() as int);
        assert(fragment.take(fragment.len() as int) =~= fragment);
    }
}

/// A well-formed source with an anchor resolves to its text under the
/// context asked for.
pub proof fn lemma_resolve_with_anchor(source: RegExpSourceView, allow_a: bool, allow_g: bool)
    requires
        source.wf(),
        source.has_anchor,
    ensures
        source.resolve_anchors(allow_a, allow_g) == resolve_text(source.source, allow_a, allow_g),
{
}

/// What a context does to the anchors of a text. Where `\G` stands, the
/// place of the `G` holds the character that matches nothing if a match may
/// not start at the end of the previous match, and the `G` itself if it
/// may; the same holds of `\A` and the start of the scan. Every other
/// character stays, and with both allowed the text is unchanged.
pub proof fn lemma_anchor_resolution(text: Seq<char>, i: int, allow_a: bool, allow_g: bool)
    requires
        0 <= i < text.len(),
    ensures
        resolve_text(text, allow_a, allow_g).len() == text.len(),
        is_escaped(text, i) && text[i] == 'G' ==> resolve_text(text, allow_a, false)[i]
            == unmatchable() && resolve_text(text, allow_a, true)[i] == 'G',
        is_escaped(text, i) && text[i] == 'A' ==> resolve_text(text, false, allow_g)[i]
            == unmatchable() && resolve_text(text, true, allow_g)[i] == 'A',
        !is_anchor_escape(text, i) ==> resolve_text(text, allow_a, allow_g)[i] == text[i],
        resolve_text(text, true, true) == text,
{
    assert(resolve_text(text, true, true) =~= text);
}

/// Whether a character is the payload of an escape depends only on the
/// characters before it.
pub proof fn lemma_escape_in_prefix(head: Seq<char>, tail: Seq<char>, m: int)
    requires
        0 <= m < head.len(),
    ensures
        is_escaped(head + tail, m) == is_escaped(head, m),
    decreases m,
{
    if m > 0 {
        lemma_escape_in_prefix(head, tail, m - 1);
    }
}

/// The text ends in a backslash that starts an escape.
pub open spec fn ends_in_open_escape(text: Seq<char>) -> bool {
    text.len() > 0 && text.last() == '\\' && !is_escaped(text, text.len() - 1)
}

/// The character before `n` is a backslash that starts an escape.
pub open spec fn follows_open_escape(text: Seq<char>, n: int) -> bool {
    1 <= n <= text.len() && text[n - 1] == '\\' && !is_escaped(text, n - 1)
}

/// One of the first `n` characters is the payload `letter` of an escape.
pub open spec fn holds_escape_before(text: Seq<char>, letter: char, n: int) -> bool {
    exists|i: int| 0 <= i < n && is_escaped(text, i) && text[i] == letter
}

/// The text holds the escape of `letter`.
pub open spec fn holds_escape(text: Seq<char>, letter: char) -> bool {
    holds_escape_before(text, letter, text.len() as int)
}

proof fn lemma_holds_escape_step(text: Seq<char>, letter: char, n: int)
    requires
        1 <= n,
    ensures
        holds_escape_before(text, letter, n) == (holds_escape_before(text, letter, n - 1) || (
        is_escaped(text, n - 1) && text[n - 1] == letter)),
{
    if holds_escape_before(text, letter, n) {
        let i = choose|i: int| 0 <= i < n && is_escaped(text, i) && text[i] == letter;
        if i < n - 1 {
            assert(holds_escape_before(text, letter, n - 1));
        }
    }
    if holds_escape_before(text, letter, n - 1) {
        let i = choose|i: int| 0 <= i < n - 1 && is_escaped(text, i) && text[i] == letter;
        assert(0 <= i < n && is_escaped(text, i) && text[i] == letter);
    }
}

proof fn lemma_holds_escape_prefix(head: Seq<char>, tail: Seq<char>, letter: char)
    ensures
        holds_escape_before(head + tail, letter, head.len() as int) == holds_escape(head, letter),
{
    let all = head + tail;
    let n = head.len() as int;
    if holds_escape_before(all, letter, n) {
        let i = choose|i: int| 0 <= i < n && is_escaped(all, i) && all[i] == letter;
        lemma_escape_in_prefix(head, tail, i);
        assert(0 <= i < n && is_escaped(head, i) && head[i] == letter);
    }
    if holds_escape(head, letter) {
        let i = choose|i: int| 0 <= i < n && is_escaped(head, i) && head[i] == letter;
        lemma_escape_in_prefix(head, tail, i);
        assert(0 <= i < n && is_escaped(all, i) && all[i] == letter);
    }
}

/// One more character after `head`: it is the payload of an escape exactly
/// where `head` ends in a backslash that starts one.
proof fn lemma_escape_after_push(head: Seq<char>, c: char, letter: char)
    ensures
        is_escaped(head.push(c), head.len() as int) == ends_in_open_escape(head),
        holds_escape(head.push(c), letter) == (holds_escape(head, letter) || (ends_in_open_escape(
            head,
        ) && c == letter)),
        ends_in_open_escape(head.push(c)) == (c == '\\' && !ends_in_open_escape(head)),
{
    let all = head.push(c);
    let n = head.len() as int;
    assert(all =~= head + seq![c]);
    if n > 0 {
        lemma_escape_in_prefix(head, seq![c], n - 1);
    }
    lemma_holds_escape_step(all, letter, n + 1);
    lemma_holds_escape_prefix(head, seq![c], letter);
}

/// The substitute for `\z` after `head`: it holds no backslash, so it adds no
/// escape, and the text does not end in an open escape.
proof fn lemma_escape_after_end_anchor(head: Seq<char>, letter: char)
    requires
        !ends_in_open_escape(head),
    ensures
        holds_escape(head + end_anchor(), letter) == holds_escape(head, letter),
        !ends_in_open_escape(head + end_anchor()),
{
    reveal_strlit("$(?!\n)(?<!\n)");
    let tail = end_anchor();
    let all = head + tail;
    let n = head.len() as int;
    assert(tail.len() == 12);
    assert forall|j: int| 0 <= j < 12 implies tail[j] != '\\' by {}
    if n > 0 {
        lemma_escape_in_prefix(head, tail, n - 1);
    }
    assert(!is_escaped(all, n));
    assert forall|m: int| n < m < all.len() implies !is_escaped(all, m) by {
        assert(all[m - 1] == tail[m - 1 - n]);
    }
    lemma_holds_escape_prefix(head, tail, letter);
    if holds_escape(all, letter) {
        let i = choose|i: int| 0 <= i < all.len() && is_escaped(all, i) && all[i] == letter;
        assert(i < n);
        assert(holds_escape_before(all, letter, n));
    }
    if holds_escape_before(all, letter, n) {
        let i = choose|i: int| 0 <= i < n && is_escaped(all, i) && all[i] == letter;
        assert(0 <= i < all.len() && is_escaped(all, i) && all[i] == letter);
    }
    assert(all.last() == tail[11]);
}

/// Writing out `\z` in the first `n` characters keeps every other escape
/// and adds none.
proof fn lemma_rewrite_keeps_escapes_upto(text: Seq<char>, letter: char, n: int)
    requires
        0 <= n <= text.len(),
        letter != 'z',
    ensures
        holds_escape(rewrite_end_anchors_upto(text, n), letter) == holds_escape_before(
            text,
            letter,
            n,
        ),
        ends_in_open_escape(rewrite_end_anchors_upto(text, n)) == (follows_open_escape(text, n)
            && !is_end_escape(text, n)),
    decreases n,
{
    let out = rewrite_end_anchors_upto(text, n);
    if n == 0 {
        assert(out =~= Seq::<char>::empty());
    } else {
        let before = rewrite_end_anchors_upto(text, n - 1);
        let c = text[n - 1];
        lemma_rewrite_keeps_escapes_upto(text, letter, n - 1);
        lemma_holds_escape_step(text, letter, n);
        assert(out == before + rewritten_char(text, n - 1));
        if is_end_escape(text, n - 1) {
            assert(out =~= before);
            assert(follows_open_escape(text, n - 1));
        } else if is_end_escape(text, n) {
            assert(!is_escaped(text, n - 1));
            assert(!follows_open_escape(text, n - 1));
            lemma_escape_after_end_anchor(before, letter);
        } else {
            assert(out =~= before.push(c));
            lemma_escape_after_push(before, c, letter);
            if is_escaped(text, n - 1) {
                assert(follows_open_escape(text, n - 1));
            } else {
                assert(!follows_open_escape(text, n - 1));
            }
        }
    }
}

/// Writing out `\z` keeps every other escape and adds none: the source of
/// a fragment holds `\A`, `\G` or any other escape but `\z` exactly where the
/// fragment holds it.
pub proof fn lemma_rewrite_keeps_escapes(fragment: Seq<char>, letter: char)
    requires
        letter != 'z',
    ensures
        holds_escape(rewrite_end_anchors(fragment), letter) == holds_escape(fragment, letter),
{
    lemma_rewrite_keeps_escapes_upto(fragment, letter, fragment.len() as int);
}

/// A text holds an anchor exactly where it holds `\A` or `\G`.
pub proof fn lemma_anchor_is_escape(text: Seq<char>)
    ensures
        has_anchor_escape(text) == (holds_escape(text, 'A') || holds_escape(text, 'G')),
{
    if has_anchor_escape(text) {
        let i = choose|i: int| is_anchor_escape(text, i);
        assert(0 <= i < text.len() && is_escaped(text, i));
        if text[i] == 'A' {
            assert(holds_escape(text, 'A'));
        } else {
            assert(holds_escape(text, 'G'));
        }
    }
    if holds_escape(text, 'A') {
        let i = choose|i: int| 0 <= i < text.len() && is_escaped(text, i) && text[i] == 'A';
        assert(is_anchor_escape(text, i));
    }
    if holds_escape(text, 'G') {
        let i = choose|i: int| 0 <= i < text.len() && is_escaped(text, i) && text[i] == 'G';
        assert(is_anchor_escape(text, i));
    }
}

/// A fragment that holds `\G` gives a source with an anchor whose text
/// holds `\G` too. Resolved for a context in which a match may not start at
/// the end of the previous match, the text holds the character that matches
/// nothing in the place of that `G`; resolved for one in which it may, it
/// holds the `G`. The same is true of `\A` and the start of the scan.
pub proof fn lemma_fragment_anchor_resolution(
    fragment: Seq<char>,
    rule_id: i32,
    letter: char,
    allow_a: bool,
    allow_g: bool,
) -> (i: int)
    requires
        letter == 'A' || letter == 'G',
        holds_escape(fragment, letter),
    ensures
        source_of_fragment(fragment, rule_id).has_anchor,
        source_of_fragment(fragment, rule_id).wf(),
        0 <= i < source_of_fragment(fragment, rule_id).source.len(),
        is_escaped(source_of_fragment(fragment, rule_id).source, i),
        source_of_fragment(fragment, rule_id).source[i] == letter,
        source_of_fragment(fragment, rule_id).resolve_anchors(allow_a, allow_g).len()
            == source_of_fragment(fragment, rule_id).source.len(),
        letter == 'G' ==> source_of_fragment(fragment, rule_id).resolve_anchors(allow_a, false)[i]
            == unmatchable() && source_of_fragment(fragment, rule_id).resolve_anchors(
            allow_a,
            true,
        )[i] == 'G',
        letter == 'A' ==> source_of_fragment(fragment, rule_id).resolve_anchors(false, allow_g)[i]
            == unmatchable() && source_of_fragment(fragment, rule_id).resolve_anchors(
            true,
            allow_g,
        )[i] == 'A',
{
    let source = rewrite_end_anchors(fragment);
    lemma_anchor_is_escape(fragment);
    lemma_rewrite_keeps_escapes(fragment, letter);
    let i = choose|i: int| 0 <= i < source.len() && is_escaped(source, i) && source[i] == letter;
    lemma_anchor_resolution(source, i, allow_a, allow_g);
    i
}

} // verus!
