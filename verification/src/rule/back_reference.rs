use crate::rule::matcher::{compile_regex, find_all, regex_compiles, regex_matches};
use crate::scanner::scie_scanner::IOnigCaptureIndex;
use crate::text::{
    collect_chars, is_text_range, slice_text, spans_fit, splice, spliced, text_slice, text_views,
};
use vstd::prelude::*;
use vstd::utf8::*;

verus! {

/// The pattern that finds a back-reference: a backslash and digits.
pub open spec fn back_reference_pattern() -> Seq<char> {
    r"\\(\d+)"@
}

/// The pattern that finds a character with a meaning of its own in a
/// regular expression.
pub open spec fn reg_exp_characters_pattern() -> Seq<char> {
    r"[\-\\\{\}\*\+\?\|\^\$.,\[\]\(\)\#\s]"@
}

/// Every capture that took part in the match is a range of the line that cuts
/// no character.
pub open spec fn captures_fit(line: Seq<char>, captures: Seq<Option<IOnigCaptureIndex>>) -> bool {
    forall|k: int|
        0 <= k < captures.len() ==> ((#[trigger] captures[k]) matches Some(capture)
            ==> is_text_range(line, capture.start as int, capture.end as int))
}

/// One of the digits `0` to `9`.
pub open spec fn is_digit(c: char) -> bool {
    '0' <= c <= '9'
}

/// The number that a row of digits writes in base ten.
pub open spec fn decimal_value(digits: Seq<char>) -> nat
    decreases digits.len(),
{
    if digits.len() == 0 {
        0
    } else {
        (decimal_value(digits.drop_last()) * 10 + (digits.last() as u32 - '0' as u32)) as nat
    }
}

/// The number of the group that a back-reference names: the token is a
/// backslash and after it one digit or more, all of them `0` to `9`.
pub open spec fn group_number(token: Seq<char>) -> Option<nat> {
    if token.len() >= 2 && token[0] == '\\' && (forall|i: int|
        1 <= i < token.len() ==> is_digit(#[trigger] token[i])) {
        Some(decimal_value(token.skip(1)))
    } else {
        None
    }
}

/// The text that a back-reference stands for: what the group it names
/// captured in the line, and nothing where the token names no group, the
/// group is not in the list or it took no part in the match.
pub open spec fn captured_text(
    token: Seq<char>,
    line: Seq<char>,
    captures: Seq<Option<IOnigCaptureIndex>>,
) -> Seq<char> {
    match group_number(token) {
        Some(k) => if k < captures.len() {
            match captures[k as int] {
                Some(capture) => text_slice(line, capture.start as int, capture.end as int),
                None => Seq::empty(),
            }
        } else {
            Seq::empty()
        },
        None => Seq::empty(),
    }
}

/// For each span of `value`, a backslash and the text of the span.
pub open spec fn escaped_spans(value: Seq<char>, spans: Seq<(usize, usize)>) -> Seq<Seq<char>> {
    Seq::new(
        spans.len(),
        |i: int| seq!['\\'] + text_slice(value, spans[i].0 as int, spans[i].1 as int),
    )
}

/// `value` made safe to stand in a pattern: a backslash before each
/// character that the regex crate finds for the pattern of characters with a
/// meaning of their own. Without a compiled pattern the value is kept.
pub open spec fn escaped_text(value: Seq<char>) -> Seq<char> {
    if regex_compiles(reg_exp_characters_pattern()) {
        let spans = regex_matches(reg_exp_characters_pattern(), value);
        spliced(value, spans, escaped_spans(value, spans))
    } else {
        value
    }
}

/// For each span of `source`, taken as a back-reference, the escaped text
/// that it stands for.
pub open spec fn substitutes(
    source: Seq<char>,
    spans: Seq<(usize, usize)>,
    line: Seq<char>,
    captures: Seq<Option<IOnigCaptureIndex>>,
) -> Seq<Seq<char>> {
    Seq::new(
        spans.len(),
        |i: int|
            escaped_text(
                captured_text(
                    text_slice(source, spans[i].0 as int, spans[i].1 as int),
                    line,
                    captures,
                ),
            ),
    )
}

/// `source` with each back-reference that the regex crate finds in it
/// replaced by the escaped text that it stands for. Without a compiled
/// pattern the source is kept.
pub open spec fn resolved_back_references(
    source: Seq<char>,
    line: Seq<char>,
    captures: Seq<Option<IOnigCaptureIndex>>,
) -> Seq<char> {
    if regex_compiles(back_reference_pattern()) {
        let spans = regex_matches(back_reference_pattern(), source);
        spliced(source, spans, substitutes(source, spans, line, captures))
    } else {
        source
    }
}

/// Whether every capture that took part in the match is a range of the line
/// that cuts no character.
pub fn check_captures(line_text: &str, captures: &Vec<Option<IOnigCaptureIndex>>) -> (ok: bool)
    ensures
        ok == captures_fit(line_text@, captures@),
{
    let length: usize = line_text.as_bytes().len();
    let mut k: usize = 0;
    while k < captures.len()
        invariant
            k <= captures.len(),
            length == encode_utf8(line_text@).len(),
            forall|j: int|
                0 <= j < k ==> ((#[trigger] captures@[j]) matches Some(capture) ==> is_text_range(
                    line_text@,
                    capture.start as int,
                    capture.end as int,
                )),
        decreases captures.len() - k,
    {
        match captures[k] {
            Some(capture) => {
                if !(capture.start <= capture.end && capture.end <= length
                    && line_text.is_char_boundary(capture.start) && line_text.is_char_boundary(
                    capture.end,
                )) {
                    assert(!is_text_range(
                        line_text@,
                        capture.start as int,
                        capture.end as int,
                    ));
                    assert(captures@[k as int] == Some(capture));
                    return false;
                }
            },
            None => {},
        }
        k = k + 1;
    }
    true
}

/// The number of the group that a back-reference names, where the token is
/// a backslash and digits and the number fits the machine.
pub fn back_reference_index(token: &str) -> (index: Option<usize>)
    ensures
        index == match group_number(token@) {
            Some(k) => if k <= usize::MAX {
                Some(k as usize)
            } else {
                None
            },
            None => None,
        },
{
    let chars = collect_chars(token);
    if chars.len() < 2 || chars[0] != '\\' {
        return None;
    }
    let mut value: usize = 0;
    let mut too_large = false;
    let mut i: usize = 1;
    proof {
        assert(chars@.subrange(1, 1) =~= Seq::<char>::empty());
    }
    while i < chars.len()
        invariant
            chars@ == token@,
            1 <= i <= chars.len(),
            forall|j: int| 1 <= j < i ==> is_digit(#[trigger] chars@[j]),
            !too_large ==> value == decimal_value(chars@.subrange(1, i as int)),
            too_large ==> decimal_value(chars@.subrange(1, i as int)) > usize::MAX,
        decreases chars.len() - i,
    {
        let c = chars[i];
        if !(c >= '0' && c <= '9') {
            return None;
        }
        let digit: usize = (c as u32 - '0' as u32) as usize;
        proof {
            assert(chars@.subrange(1, i + 1).drop_last() =~= chars@.subrange(1, i as int));
        }
        if !too_large {
            if value > (usize::MAX - digit) / 10 {
                too_large = true;
            } else {
                value = value * 10 + digit;
            }
        }
        i = i + 1;
    }
    proof {
        assert(chars@.subrange(1, chars@.len() as int) =~= token@.skip(1));
    }
    if too_large {
        None
    } else {
        Some(value)
    }
}

/// The text that a back-reference stands for: what the group it names
/// captured in the line, and nothing where there is no such capture.
pub fn capture_of<'a>(
    token: &str,
    line_text: &'a str,
    captures: &Vec<Option<IOnigCaptureIndex>>,
) -> (text: &'a str)
    requires
        captures_fit(line_text@, captures@),
    ensures
        text@ == captured_text(token@, line_text@, captures@),
{
    proof {
        reveal_strlit("");
        assert(""@ =~= Seq::<char>::empty());
    }
    let count: usize = captures.len();
    match back_reference_index(token) {
        Some(k) => {
            if k < count {
                match captures[k] {
                    Some(capture) => slice_text(line_text, capture.start, capture.end),
                    None => "",
                }
            } else {
                ""
            }
        },
        None => "",
    }
}

/// Writes a backslash before each of the spans of `value`.
pub fn escape_spans(value: &str, spans: &Vec<(usize, usize)>) -> (out: String)
    requires
        spans_fit(value@, spans@),
    ensures
        out@ == spliced(value@, spans@, escaped_spans(value@, spans@)),
{
    let mut replacements: Vec<String> = Vec::new();
    let mut i: usize = 0;
    while i < spans.len()
        invariant
            spans_fit(value@, spans@),
            i <= spans.len(),
            replacements.len() == i,
            forall|j: int|
                0 <= j < i ==> (#[trigger] replacements@[j])@ == escaped_spans(value@, spans@)[j],
        decreases spans.len() - i,
    {
        let span = spans[i];
        proof {
            assert(is_text_range(value@, spans@[i as int].0 as int, spans@[i as int].1 as int));
            reveal_strlit("\\");
            assert("\\"@ =~= seq!['\\']);
        }
        let mut escaped = String::new();
        escaped.append("\\");
        escaped.append(slice_text(value, span.0, span.1));
        proof {
            assert(escaped@ =~= escaped_spans(value@, spans@)[i as int]);
        }
        replacements.push(escaped);
        i = i + 1;
    }
    proof {
        assert(text_views(replacements@) =~= escaped_spans(value@, spans@));
    }
    splice(value, spans, &replacements)
}

/// Makes `value` safe to stand in a pattern: writes a backslash before each
/// character that has a meaning of its own in a regular expression.
pub fn escape_reg_exp_characters(value: &str) -> (out: String)
    ensures
        out@ == escaped_text(value@),
{
    match compile_regex(r"[\-\\\{\}\*\+\?\|\^\$.,\[\]\(\)\#\s]") {
        Ok(re) => {
            let spans = find_all(&re, value);
            escape_spans(value, &spans)
        },
        Err(_) => value.to_owned(),
    }
}

/// Replaces each of the spans of `source`, taken as a back-reference, by
/// the escaped text that the group it names captured in the line.
pub fn substitute_captures(
    source: &str,
    spans: &Vec<(usize, usize)>,
    line_text: &str,
    captures: &Vec<Option<IOnigCaptureIndex>>,
) -> (out: String)
    requires
        spans_fit(source@, spans@),
        captures_fit(line_text@, captures@),
    ensures
        out@ == spliced(source@, spans@, substitutes(source@, spans@, line_text@, captures@)),
{
    let mut replacements: Vec<String> = Vec::new();
    let mut i: usize = 0;
    while i < spans.len()
        invariant
            spans_fit(source@, spans@),
            captures_fit(line_text@, captures@),
            i <= spans.len(),
            replacements.len() == i,
            forall|j: int|
                0 <= j < i ==> (#[trigger] replacements@[j])@ == substitutes(
                    source@,
                    spans@,
                    line_text@,
                    captures@,
                )[j],
        decreases spans.len() - i,
    {
        let span = spans[i];
        proof {
            assert(is_text_range(source@, spans@[i as int].0 as int, spans@[i as int].1 as int));
        }
        let token = slice_text(source, span.0, span.1);
        let value = capture_of(token, line_text, captures);
        replacements.push(escape_reg_exp_characters(value));
        i = i + 1;
    }
    proof {
        assert(text_views(replacements@) =~= substitutes(
            source@,
            spans@,
            line_text@,
            captures@,
        ));
    }
    splice(source, spans, &replacements)
}

/// Replaces each back-reference in `source` by the escaped text that the
/// group it names captured in the line.
pub fn resolve_back_references_in(
    source: &str,
    line_text: &str,
    captures: &Vec<Option<IOnigCaptureIndex>>,
) -> (out: String)
    requires
        captures_fit(line_text@, captures@),
    ensures
        out@ == resolved_back_references(source@, line_text@, captures@),
{
    match compile_regex(r"\\(\d+)") {
        Ok(re) => {
            let spans = find_all(&re, source);
            substitute_captures(source, &spans, line_text, captures)
        },
        Err(_) => source.to_owned(),
    }
}

} // verus!
