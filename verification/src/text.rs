use vstd::prelude::*;
use vstd::std_specs::iter::IteratorSpec;
use vstd::string::StringSliceAdditionalSpecFns;
use vstd::utf8::*;

verus! {

/// `String::push` of std appends one character to the string and leaves the
/// characters before it as they were.
pub assume_specification[ String::push ](s: &mut String, c: char)
    ensures
        final(s)@ == old(s)@.push(c),
;

/// The characters of `text` between two byte offsets of its UTF-8 encoding.
pub open spec fn text_slice(text: Seq<char>, from: int, to: int) -> Seq<char> {
    decode_utf8(encode_utf8(text).subrange(from, to))
}

/// `from..to` is a range of byte offsets of `text` that cuts no character.
pub open spec fn is_text_range(text: Seq<char>, from: int, to: int) -> bool {
    &&& 0 <= from <= to <= encode_utf8(text).len()
    &&& is_char_boundary(encode_utf8(text), from)
    &&& is_char_boundary(encode_utf8(text), to)
}

/// The characters of `text`, in order.
pub fn collect_chars(text: &str) -> (chars: Vec<char>)
    ensures
        chars@ == text@,
{
    let mut chars: Vec<char> = Vec::new();
    for c in it: text.chars()
        invariant
            it.seq() == text@,
            chars@ == text@.take(it.index() as int),
    {
        chars.push(c);
    }
    proof {
        assert(text@.take(text@.len() as int) =~= text@);
    }
    chars
}

/// Appends the characters `chars[from..to]` to `out`.
pub fn push_chars(out: &mut String, chars: &Vec<char>, from: usize, to: usize)
    requires
        from <= to <= chars.len(),
    ensures
        final(out)@ == old(out)@ + chars@.subrange(from as int, to as int),
{
    let mut i: usize = from;
    proof {
        assert(out@ =~= old(out)@ + chars@.subrange(from as int, from as int));
    }
    while i < to
        invariant
            from <= i <= to <= chars.len(),
            out@ == old(out)@ + chars@.subrange(from as int, i as int),
        decreases to - i,
    {
        out.push(chars[i]);
        i = i + 1;
        proof {
            assert(out@ =~= old(out)@ + chars@.subrange(from as int, i as int));
        }
    }
}

/// Two texts have the same encoding only if they are the same text.
pub proof fn lemma_encode_utf8_injective(a: Seq<char>, b: Seq<char>)
    requires
        encode_utf8(a) == encode_utf8(b),
    ensures
        a == b,
{
    encode_utf8_decode_utf8(a);
    encode_utf8_decode_utf8(b);
}

/// Whether two texts are the same, character for character.
pub fn same_text(a: &str, b: &str) -> (same: bool)
    ensures
        same == (a@ == b@),
{
    let x = a.as_bytes();
    let y = b.as_bytes();
    if x.len() != y.len() {
        return false;
    }
    let mut i: usize = 0;
    while i < x.len()
        invariant
            x@ == encode_utf8(a@),
            y@ == encode_utf8(b@),
            x@.len() == y@.len(),
            i <= x@.len(),
            x@.take(i as int) == y@.take(i as int),
        decreases x@.len() - i,
    {
        if x[i] != y[i] {
            return false;
        }
        i = i + 1;
        proof {
            assert(x@.take(i as int) =~= x@.take(i - 1).push(x@[i - 1]));
            assert(y@.take(i as int) =~= y@.take(i - 1).push(y@[i - 1]));
        }
    }
    proof {
        assert(x@ =~= x@.take(i as int));
        assert(y@ =~= y@.take(i as int));
        lemma_encode_utf8_injective(a@, b@);
    }
    true
}

/// A character boundary of a text is one of each of its prefixes that reach
/// it.
pub proof fn lemma_boundary_in_prefix(bytes: Seq<u8>, from: int, to: int)
    requires
        valid_utf8(bytes),
        0 <= from <= to <= bytes.len(),
        is_char_boundary(bytes, from),
        is_char_boundary(bytes, to),
    ensures
        valid_utf8(bytes.subrange(0, to)),
        is_char_boundary(bytes.subrange(0, to), from),
{
    let head = bytes.subrange(0, to);
    valid_utf8_split(bytes, to);
    if from == to {
        is_char_boundary_start_end_of_seq(head);
    } else {
        is_char_boundary_iff_not_is_continuation_byte(bytes, from);
        is_char_boundary_iff_not_is_continuation_byte(head, from);
    }
}

/// The part of `text` between two byte offsets that cut no character.
pub fn slice_text(text: &str, from: usize, to: usize) -> (part: &str)
    requires
        is_text_range(text@, from as int, to as int),
    ensures
        part@ == text_slice(text@, from as int, to as int),
        encode_utf8(part@) == encode_utf8(text@).subrange(from as int, to as int),
{
    proof {
        encode_utf8_valid_utf8(text@);
        lemma_boundary_in_prefix(encode_utf8(text@), from as int, to as int);
    }
    let (head, _) = text.split_at(to);
    let (_, part) = head.split_at(from);
    proof {
        assert(part.spec_bytes() =~= encode_utf8(text@).subrange(from as int, to as int));
        encode_utf8_decode_utf8(part@);
    }
    part
}


/// Each span is a byte range of `text` that cuts no character, and each span
/// starts at or after the end of the one before it.
pub open spec fn spans_fit(text: Seq<char>, spans: Seq<(usize, usize)>) -> bool {
    &&& forall|i: int|
        0 <= i < spans.len() ==> is_text_range(
            text,
            (#[trigger] spans[i]).0 as int,
            spans[i].1 as int,
        )
    &&& forall|i: int, j: int|
        0 <= i < j < spans.len() ==> (#[trigger] spans[i]).1 <= (#[trigger] spans[j]).0
}

/// Where the text between span `n - 1` and span `n` starts: at the end of
/// span `n - 1`, or at the start of the text before the first span.
pub open spec fn gap_start(spans: Seq<(usize, usize)>, n: int) -> int {
    if n <= 0 {
        0
    } else {
        spans[n - 1].1 as int
    }
}

/// The text up to the end of span `n - 1`, with each of the first `n` spans
/// replaced by its replacement.
pub open spec fn spliced_upto(
    text: Seq<char>,
    spans: Seq<(usize, usize)>,
    replacements: Seq<Seq<char>>,
    n: int,
) -> Seq<char>
    decreases n,
{
    if n <= 0 {
        Seq::empty()
    } else {
        spliced_upto(text, spans, replacements, n - 1) + text_slice(
            text,
            gap_start(spans, n - 1),
            spans[n - 1].0 as int,
        ) + replacements[n - 1]
    }
}

/// `text` with span `i` replaced by `replacements[i]`, for every span, and
/// all that lies between the spans kept.
pub open spec fn spliced(
    text: Seq<char>,
    spans: Seq<(usize, usize)>,
    replacements: Seq<Seq<char>>,
) -> Seq<char> {
    spliced_upto(text, spans, replacements, spans.len() as int) + text_slice(
        text,
        gap_start(spans, spans.len() as int),
        encode_utf8(text).len() as int,
    )
}

/// The texts of a list of strings.
pub open spec fn text_views(texts: Seq<String>) -> Seq<Seq<char>> {
    texts.map_values(|text: String| text@)
}

/// Replaces span `i` of `text` by `replacements[i]`, for every span, and
/// keeps all that lies between the spans.
pub fn splice(text: &str, spans: &Vec<(usize, usize)>, replacements: &Vec<String>) -> (out: String)
    requires
        spans_fit(text@, spans@),
        replacements.len() == spans.len(),
    ensures
        out@ == spliced(text@, spans@, text_views(replacements@)),
{
    let length: usize = text.as_bytes().len();
    let mut out = String::new();
    let mut pos: usize = 0;
    let mut i: usize = 0;
    proof {
        encode_utf8_valid_utf8(text@);
        is_char_boundary_start_end_of_seq(encode_utf8(text@));
    }
    while i < spans.len()
        invariant
            spans_fit(text@, spans@),
            replacements.len() == spans.len(),
            length == encode_utf8(text@).len(),
            i <= spans.len(),
            pos == gap_start(spans@, i as int),
            pos <= length,
            is_char_boundary(encode_utf8(text@), pos as int),
            out@ == spliced_upto(text@, spans@, text_views(replacements@), i as int),
        decreases spans.len() - i,
    {
        let span = spans[i];
        proof {
            if i > 0 {
                assert(spans@[i - 1].1 <= spans@[i as int].0);
            }
            assert(is_text_range(text@, spans@[i as int].0 as int, spans@[i as int].1 as int));
        }
        out.append(slice_text(text, pos, span.0));
        out.append(replacements[i].as_str());
        pos = span.1;
        i = i + 1;
    }
    out.append(slice_text(text, pos, length));
    out
}

} // verus!
