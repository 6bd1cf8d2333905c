use vstd::prelude::*;
use vstd::std_specs::iter::IteratorSpec;
use vstd::string::StrSliceExecFns;
use vstd::utf8::*;

verus! {

/// Number of 16-bit code units that UTF-16 needs for `c`.
pub open spec fn utf16_width(c: char) -> nat {
    if (c as u32) < 0x10000 {
        1
    } else {
        2
    }
}

/// Number of bytes that UTF-8 needs for `c`.
pub open spec fn utf8_width(c: char) -> nat {
    let v = c as u32;
    if v <= 0x7F {
        1
    } else if v <= 0x7FF {
        2
    } else if v <= 0xFFFF {
        3
    } else {
        4
    }
}

/// True for the first code unit of a surrogate pair.
pub open spec fn is_leading_surrogate(unit: u16) -> bool {
    0xD800 <= unit <= 0xDBFF
}

/// True for the second code unit of a surrogate pair.
pub open spec fn is_trailing_surrogate(unit: u16) -> bool {
    0xDC00 <= unit <= 0xDFFF
}

/// The UTF-16 code units of one character: the character itself inside the
/// basic plane, a surrogate pair above it.
pub open spec fn utf16_units(c: char) -> Seq<u16> {
    let v = c as u32;
    if v < 0x10000 {
        seq![v as u16]
    } else {
        seq![
            (0xD800 + (v - 0x10000) / 0x400) as u16,
            (0xDC00 + (v - 0x10000) % 0x400) as u16,
        ]
    }
}

/// The UTF-16 encoding of a text.
pub open spec fn encode_utf16(chars: Seq<char>) -> Seq<u16>
    decreases chars.len(),
{
    if chars.len() == 0 {
        seq![]
    } else {
        utf16_units(chars[0]) + encode_utf16(chars.drop_first())
    }
}

/// The code point that a surrogate pair stands for.
pub open spec fn combine_surrogates(leading: u16, trailing: u16) -> int {
    0x10000 + (leading - 0xD800) * 0x400 + (trailing - 0xDC00)
}

/// Code-unit index at which character `k` of `chars` starts.
pub open spec fn unit_offset(chars: Seq<char>, k: int) -> nat {
    encode_utf16(chars.take(k)).len()
}

/// Byte offset at which character `k` of `chars` starts.
pub open spec fn byte_offset(chars: Seq<char>, k: int) -> nat {
    encode_utf8(chars.take(k)).len()
}

/// Byte offset of the character that owns code unit `i`; both units of a
/// surrogate pair give the offset of the first byte of its four-byte sequence.
/// One past the last code unit gives the length in bytes.
pub open spec fn byte_of_unit(chars: Seq<char>, i: int) -> int
    decreases chars.len(),
{
    if chars.len() == 0 || i < utf16_width(chars[0]) {
        0
    } else {
        utf8_width(chars[0]) + byte_of_unit(chars.drop_first(), i - utf16_width(chars[0]))
    }
}

/// Code-unit index of the character that owns byte `j`: each byte of a
/// multi-byte sequence gives the index of the character's first code unit.
/// One past the last byte gives the length in code units.
pub open spec fn unit_of_byte(chars: Seq<char>, j: int) -> int
    decreases chars.len(),
{
    if chars.len() == 0 || j < utf8_width(chars[0]) {
        0
    } else {
        utf16_width(chars[0]) + unit_of_byte(chars.drop_first(), j - utf8_width(chars[0]))
    }
}

/// An offset as a table holds it: cut to 32 bits.
pub open spec fn offset_entry(offset: int) -> u32 {
    (offset as usize) as u32
}

/// A length as a length field holds it: cut to 32 bits.
pub open spec fn length_entry(len: nat) -> i32 {
    (len as usize) as i32
}

/// The table from code-unit index to byte offset: empty where both encodings
/// have the same length, else one entry per code unit and one for the end.
pub open spec fn unit_to_byte_table(chars: Seq<char>) -> Seq<u32> {
    if encode_utf16(chars).len() == encode_utf8(chars).len() {
        Seq::empty()
    } else {
        Seq::new(encode_utf16(chars).len() + 1, |i: int| offset_entry(byte_of_unit(chars, i)))
    }
}

/// The table from byte offset to code-unit index: empty where both encodings
/// have the same length, else one entry per byte and one for the end.
pub open spec fn byte_to_unit_table(chars: Seq<char>) -> Seq<u32> {
    if encode_utf16(chars).len() == encode_utf8(chars).len() {
        Seq::empty()
    } else {
        Seq::new(encode_utf8(chars).len() + 1, |j: int| offset_entry(unit_of_byte(chars, j)))
    }
}

/// The UTF-8 encoding of a character has the width that its code point
/// asks for, one byte to four.
pub proof fn lemma_utf8_width(c: char)
    ensures
        encode_scalar(c as u32).len() == utf8_width(c),
        1 <= utf8_width(c) <= 4,
{
}

/// The UTF-16 encoding of two texts in a row is their encodings in a row.
pub proof fn lemma_encode_utf16_concat(a: Seq<char>, b: Seq<char>)
    ensures
        encode_utf16(a + b) == encode_utf16(a) + encode_utf16(b),
    decreases a.len(),
{
    if a.len() == 0 {
        assert(a + b =~= b);
        assert(encode_utf16(a) + encode_utf16(b) =~= encode_utf16(b));
    } else {
        assert((a + b).drop_first() =~= a.drop_first() + b);
        lemma_encode_utf16_concat(a.drop_first(), b);
        assert(encode_utf16(a + b) =~= encode_utf16(a) + encode_utf16(b));
    }
}

/// The UTF-8 encoding of two texts in a row is their encodings in a row.
pub proof fn lemma_encode_utf8_concat(a: Seq<char>, b: Seq<char>)
    ensures
        encode_utf8(a + b) == encode_utf8(a) + encode_utf8(b),
    decreases a.len(),
{
    if a.len() == 0 {
        assert(a + b =~= b);
        assert(encode_utf8(a) + encode_utf8(b) =~= encode_utf8(b));
    } else {
        assert((a + b).drop_first() =~= a.drop_first() + b);
        lemma_encode_utf8_concat(a.drop_first(), b);
        assert(encode_utf8(a + b) =~= encode_utf8(a) + encode_utf8(b));
    }
}

proof fn lemma_encode_single(c: char)
    ensures
        encode_utf16(seq![c]) == utf16_units(c),
        encode_utf8(seq![c]) == encode_scalar(c as u32),
{
    let s = seq![c];
    assert(s.drop_first() =~= Seq::<char>::empty());
    assert(encode_utf16(s.drop_first()) =~= Seq::<u16>::empty());
    assert(encode_utf8(s.drop_first()) =~= Seq::<u8>::empty());
    assert(encode_utf16(s) =~= utf16_units(c));
    assert(encode_utf8(s) =~= encode_scalar(c as u32));
}

/// Character `k` starts where the characters before it end, in both
/// encodings, and its code units stand at its code-unit offset.
pub proof fn lemma_offset_step(chars: Seq<char>, k: int)
    requires
        0 <= k < chars.len(),
    ensures
        unit_offset(chars, k + 1) == unit_offset(chars, k) + utf16_width(chars[k]),
        byte_offset(chars, k + 1) == byte_offset(chars, k) + utf8_width(chars[k]),
        unit_offset(chars, k + 1) <= encode_utf16(chars).len(),
        byte_offset(chars, k + 1) <= encode_utf8(chars).len(),
        encode_utf16(chars).subrange(
            unit_offset(chars, k) as int,
            unit_offset(chars, k + 1) as int,
        ) == utf16_units(chars[k]),
{
    let head = chars.take(k);
    let one = seq![chars[k]];
    let tail = chars.skip(k + 1);
    assert(chars.take(k + 1) =~= head + one);
    assert(chars =~= chars.take(k + 1) + tail);
    lemma_encode_single(chars[k]);
    lemma_utf8_width(chars[k]);
    lemma_encode_utf16_concat(head, one);
    lemma_encode_utf8_concat(head, one);
    lemma_encode_utf16_concat(chars.take(k + 1), tail);
    lemma_encode_utf8_concat(chars.take(k + 1), tail);
    assert(encode_utf16(chars).subrange(
        unit_offset(chars, k) as int,
        unit_offset(chars, k + 1) as int,
    ) =~= utf16_units(chars[k]));
}

/// The offsets of the end of the text are the lengths of its encodings.
pub proof fn lemma_offset_end(chars: Seq<char>)
    ensures
        unit_offset(chars, chars.len() as int) == encode_utf16(chars).len(),
        byte_offset(chars, chars.len() as int) == encode_utf8(chars).len(),
{
    assert(chars.take(chars.len() as int) =~= chars);
}


proof fn lemma_offset_unfold(chars: Seq<char>, k: int)
    requires
        0 < k <= chars.len(),
    ensures
        unit_offset(chars, k) == utf16_width(chars[0]) + unit_offset(chars.drop_first(), k - 1),
        byte_offset(chars, k) == utf8_width(chars[0]) + byte_offset(chars.drop_first(), k - 1),
{
    assert(chars.take(k).drop_first() =~= chars.drop_first().take(k - 1));
    lemma_utf8_width(chars[0]);
}

/// Every code unit of character `k` maps to the byte offset of character `k`,
/// and the end of the code units maps to the end of the bytes.
pub proof fn lemma_byte_of_unit(chars: Seq<char>, k: int, j: int)
    requires
        0 <= k <= chars.len(),
        k < chars.len() ==> 0 <= j < utf16_width(chars[k]),
        k == chars.len() ==> j == 0,
    ensures
        byte_of_unit(chars, unit_offset(chars, k) + j) == byte_offset(chars, k),
    decreases k,
{
    if k == 0 {
        assert(chars.take(0) =~= Seq::<char>::empty());
    } else {
        lemma_offset_unfold(chars, k);
        lemma_byte_of_unit(chars.drop_first(), k - 1, j);
    }
}

/// Every byte of character `k` maps to the code-unit index of character `k`,
/// and the end of the bytes maps to the end of the code units.
pub proof fn lemma_unit_of_byte(chars: Seq<char>, k: int, j: int)
    requires
        0 <= k <= chars.len(),
        k < chars.len() ==> 0 <= j < utf8_width(chars[k]),
        k == chars.len() ==> j == 0,
    ensures
        unit_of_byte(chars, byte_offset(chars, k) + j) == unit_offset(chars, k),
    decreases k,
{
    if k == 0 {
        assert(chars.take(0) =~= Seq::<char>::empty());
    } else {
        lemma_offset_unfold(chars, k);
        lemma_unit_of_byte(chars.drop_first(), k - 1, j);
    }
}

/// A text held in both encodings: as 16-bit code units, the form in which
/// offsets are reported, and as UTF-8 bytes, the form that is searched.
#[derive(Debug)]
pub struct UtfString {
    pub utf16length: i32,
    pub utf8length: i32,
    pub utf16value: String,
    pub utf8value: Vec<u8>,
    pub utf16offset_to_utf8: Vec<u32>,
    pub utf8offset_to_utf16: Vec<u32>,
}

impl Clone for UtfString {
    fn clone(&self) -> (r: Self)
        ensures
            r.utf16length == self.utf16length,
            r.utf8length == self.utf8length,
            r.utf16value@ == self.utf16value@,
            r.utf8value@ == self.utf8value@,
            r.utf16offset_to_utf8@ == self.utf16offset_to_utf8@,
            r.utf8offset_to_utf16@ == self.utf8offset_to_utf16@,
    {
        UtfString {
            utf16length: self.utf16length,
            utf8length: self.utf8length,
            utf16value: self.utf16value.clone(),
            utf8value: self.utf8value.clone(),
            utf16offset_to_utf8: self.utf16offset_to_utf8.clone(),
            utf8offset_to_utf16: self.utf8offset_to_utf16.clone(),
        }
    }
}

impl UtfString {
    /// The value is the dual encoding of `text`.
    pub open spec fn is_encoding_of(&self, text: Seq<char>) -> bool {
        &&& self.utf16value@ == text
        &&& self.utf8value@ == encode_utf8(text)
        &&& self.utf16length == length_entry(encode_utf16(text).len())
        &&& self.utf8length == length_entry(encode_utf8(text).len())
        &&& self.utf16offset_to_utf8@ == unit_to_byte_table(text)
        &&& self.utf8offset_to_utf16@ == byte_to_unit_table(text)
    }

    /// The lengths, the bytes and the tables belong to the text held.
    pub open spec fn wf(&self) -> bool {
        self.is_encoding_of(self.utf16value@)
    }

    /// Holds `text` in both encodings. The two offset tables are filled only
    /// where the encodings differ in length; for a text of ASCII alone every
    /// offset is the same in both and the tables stay empty.
    pub fn new(text: &str) -> (r: UtfString)
        ensures
            r.is_encoding_of(text@),
    {
        let units = utf16_code_units(text);
        let utf16length: usize = units.len();
        let utf8value = text.as_bytes_vec();
        let utf8length: usize = utf8value.len();
        let mut unit_to_byte: Vec<u32> = Vec::new();
        let mut byte_to_unit: Vec<u32> = Vec::new();
        if utf8length != utf16length {
            let ghost chars = text@;
            let ghost mut k: int = 0;
            let mut i16: usize = 0;
            let mut i8: usize = 0;
            proof {
                assert(chars.take(0) =~= Seq::<char>::empty());
            }
            while i16 < utf16length
                invariant
                    chars == text@,
                    units@ == encode_utf16(chars),
                    utf16length == units.len(),
                    utf8length == encode_utf8(chars).len(),
                    0 <= k <= chars.len(),
                    i16 == unit_offset(chars, k),
                    i8 == byte_offset(chars, k),
                    unit_to_byte@.len() == i16,
                    byte_to_unit@.len() == i8,
                    forall|i: int|
                        0 <= i < i16 ==> unit_to_byte@[i] == offset_entry(
                            #[trigger] byte_of_unit(chars, i),
                        ),
                    forall|j: int|
                        0 <= j < i8 ==> byte_to_unit@[j] == offset_entry(
                            #[trigger] unit_of_byte(chars, j),
                        ),
                decreases utf16length - i16,
            {
                proof {
                    if k == chars.len() {
                        lemma_offset_end(chars);
                    }
                    lemma_offset_step(chars, k);
                    lemma_surrogates(chars[k]);
                    let pair = encode_utf16(chars).subrange(
                        unit_offset(chars, k) as int,
                        unit_offset(chars, k + 1) as int,
                    );
                    assert(pair[0] == units@[i16 as int]);
                    if utf16_width(chars[k]) == 2 {
                        assert(pair[1] == units@[i16 + 1]);
                    }
                }
                let (code_point, was_surrogate_pair) = code_point_at(&units, i16);
                let width: usize = utf8_length_of(code_point);
                let ghost before_units = unit_to_byte@;
                let ghost before_bytes = byte_to_unit@;
                let byte_entry = #[verifier::truncate] (i8 as u32);
                let unit_entry = #[verifier::truncate] (i16 as u32);
                unit_to_byte.push(byte_entry);
                if was_surrogate_pair {
                    unit_to_byte.push(byte_entry);
                }
                let mut b: usize = 0;
                while b < width
                    invariant
                        b <= width,
                        byte_to_unit@.len() == i8 + b,
                        byte_to_unit@.take(i8 as int) == before_bytes,
                        forall|j: int| i8 <= j < i8 + b ==> byte_to_unit@[j] == unit_entry,
                        i8 + width <= usize::MAX,
                    decreases width - b,
                {
                    byte_to_unit.push(unit_entry);
                    b = b + 1;
                }
                proof {
                    assert forall|i: int| 0 <= i < i16 + utf16_width(chars[k]) implies
                        unit_to_byte@[i] == offset_entry(#[trigger] byte_of_unit(chars, i)) by {
                        if i < i16 {
                            assert(unit_to_byte@[i] == before_units[i]);
                        } else {
                            lemma_byte_of_unit(chars, k, i - i16);
                        }
                    }
                    assert forall|j: int| 0 <= j < i8 + width implies byte_to_unit@[j]
                        == offset_entry(#[trigger] unit_of_byte(chars, j)) by {
                        if j < i8 {
                            assert(byte_to_unit@[j] == byte_to_unit@.take(i8 as int)[j]);
                        } else {
                            lemma_unit_of_byte(chars, k, j - i8);
                        }
                    }
                    k = k + 1;
                }
                i8 = i8 + width;
                i16 = if was_surrogate_pair {
                    i16 + 2
                } else {
                    i16 + 1
                };
            }
            proof {
                lemma_offset_end(chars);
                if k < chars.len() {
                    lemma_offset_step(chars, k);
                    lemma_offset_grows(chars, k + 1, chars.len() as int);
                }
                lemma_byte_of_unit(chars, k, 0);
                lemma_unit_of_byte(chars, k, 0);
            }
            unit_to_byte.push(#[verifier::truncate] (utf8length as u32));
            byte_to_unit.push(#[verifier::truncate] (utf16length as u32));
            proof {
                assert(unit_to_byte@ =~= unit_to_byte_table(chars));
                assert(byte_to_unit@ =~= byte_to_unit_table(chars));
            }
        }
        UtfString {
            utf16length: #[verifier::truncate] (utf16length as i32),
            utf8length: #[verifier::truncate] (utf8length as i32),
            utf16value: text.to_owned(),
            utf8value,
            utf16offset_to_utf8: unit_to_byte,
            utf8offset_to_utf16: byte_to_unit,
        }
    }
}

/// Offsets do not shrink from one character to a later one.
pub proof fn lemma_offset_grows(chars: Seq<char>, k: int, m: int)
    requires
        0 <= k <= m <= chars.len(),
    ensures
        unit_offset(chars, k) <= unit_offset(chars, m),
        byte_offset(chars, k) <= byte_offset(chars, m),
    decreases m - k,
{
    if k < m {
        lemma_offset_step(chars, k);
        lemma_offset_grows(chars, k + 1, m);
    }
}

/// Inside the basic plane a character is its own code unit and no
/// surrogate; above it, its two code units are a leading and a trailing
/// surrogate that combine to the character again.
pub proof fn lemma_surrogates(c: char)
    ensures
        utf16_units(c).len() == utf16_width(c),
        utf16_width(c) == 1 ==> utf16_units(c)[0] == c as u32 && !is_leading_surrogate(
            utf16_units(c)[0],
        ) && !is_trailing_surrogate(utf16_units(c)[0]),
        utf16_width(c) == 2 ==> is_leading_surrogate(utf16_units(c)[0]) && is_trailing_surrogate(
            utf16_units(c)[1],
        ) && combine_surrogates(utf16_units(c)[0], utf16_units(c)[1]) == c as u32,
{
}

/// A text takes no more code units than bytes.
pub proof fn lemma_units_within_bytes(chars: Seq<char>)
    ensures
        encode_utf16(chars).len() <= encode_utf8(chars).len(),
    decreases chars.len(),
{
    if chars.len() > 0 {
        lemma_utf8_width(chars[0]);
        lemma_surrogates(chars[0]);
        lemma_units_within_bytes(chars.drop_first());
    }
}

/// Both tables stay inside the other encoding: a code-unit index maps to a
/// byte offset of the text, a byte offset to a code-unit index of the text.
pub proof fn lemma_offsets_in_range(chars: Seq<char>, i: int)
    requires
        0 <= i,
    ensures
        i <= encode_utf16(chars).len() ==> 0 <= byte_of_unit(chars, i) <= encode_utf8(chars).len(),
        i <= encode_utf8(chars).len() ==> 0 <= unit_of_byte(chars, i) <= encode_utf16(chars).len(),
    decreases chars.len(),
{
    if chars.len() > 0 {
        lemma_utf8_width(chars[0]);
        lemma_surrogates(chars[0]);
        if i >= utf16_width(chars[0]) {
            lemma_offsets_in_range(chars.drop_first(), i - utf16_width(chars[0]));
        }
        if i >= utf8_width(chars[0]) {
            lemma_offsets_in_range(chars.drop_first(), i - utf8_width(chars[0]));
        }
    }
}

/// From a code unit to its byte offset and back: every code-unit index that
/// is not the second unit of a surrogate pair, the end of the text included,
/// is found again from the byte offset it maps to.
pub proof fn lemma_unit_byte_round_trip(chars: Seq<char>, i: int)
    requires
        0 <= i <= encode_utf16(chars).len(),
        i < encode_utf16(chars).len() ==> !is_trailing_surrogate(encode_utf16(chars)[i]),
    ensures
        0 <= byte_of_unit(chars, i) <= encode_utf8(chars).len(),
        unit_of_byte(chars, byte_of_unit(chars, i)) == i,
    decreases chars.len(),
{
    lemma_offsets_in_range(chars, i);
    if chars.len() > 0 {
        let rest = chars.drop_first();
        lemma_utf8_width(chars[0]);
        lemma_surrogates(chars[0]);
        if i >= utf16_width(chars[0]) {
            let rest_i = i - utf16_width(chars[0]);
            if rest_i < encode_utf16(rest).len() {
                assert(encode_utf16(chars)[i] == encode_utf16(rest)[rest_i]);
            }
            lemma_unit_byte_round_trip(rest, rest_i);
            lemma_offsets_in_range(rest, rest_i);
        } else if i == 1 {
            assert(encode_utf16(chars)[1] == utf16_units(chars[0])[1]);
        }
    }
}

impl UtfString {
    /// The round trip through the two tables. Where the tables are filled
    /// (the encodings differ in length) and every offset fits an entry of 32
    /// bits, a code-unit index that is not the second unit of a surrogate
    /// pair maps to a byte offset that maps back to it; the entry after the
    /// last code unit is the length in bytes, and the entry after the last
    /// byte is the length in code units.
    pub proof fn lemma_round_trip(&self, i: int)
        requires
            self.wf(),
            encode_utf16(self.utf16value@).len() != encode_utf8(self.utf16value@).len(),
            encode_utf8(self.utf16value@).len() <= u32::MAX,
            0 <= i <= encode_utf16(self.utf16value@).len(),
            i < encode_utf16(self.utf16value@).len() ==> !is_trailing_surrogate(
                encode_utf16(self.utf16value@)[i],
            ),
        ensures
            self.utf16offset_to_utf8@.len() == encode_utf16(self.utf16value@).len() + 1,
            self.utf8offset_to_utf16@.len() == encode_utf8(self.utf16value@).len() + 1,
            self.utf16offset_to_utf8@[i] <= encode_utf8(self.utf16value@).len(),
            self.utf8offset_to_utf16@[self.utf16offset_to_utf8@[i] as int] == i,
            self.utf16offset_to_utf8@[encode_utf16(self.utf16value@).len() as int] == encode_utf8(
                self.utf16value@,
            ).len(),
            self.utf8offset_to_utf16@[encode_utf8(self.utf16value@).len() as int] == encode_utf16(
                self.utf16value@,
            ).len(),
    {
        let chars = self.utf16value@;
        let units = encode_utf16(chars).len() as int;
        let bytes = encode_utf8(chars).len() as int;
        lemma_units_within_bytes(chars);
        lemma_unit_byte_round_trip(chars, i);
        lemma_offsets_in_range(chars, byte_of_unit(chars, i));
        lemma_offset_end(chars);
        lemma_byte_of_unit(chars, chars.len() as int, 0);
        lemma_unit_of_byte(chars, chars.len() as int, 0);
    }
}

/// The UTF-16 code units of `text`, in order.
pub fn utf16_code_units(text: &str) -> (units: Vec<u16>)
    ensures
        units@ == encode_utf16(text@),
{
    let mut units: Vec<u16> = Vec::new();
    proof {
        assert(text@.take(0) =~= Seq::<char>::empty());
    }
    for c in it: text.chars()
        invariant
            it.seq() == text@,
            units@ == encode_utf16(text@.take(it.index() as int)),
    {
        proof {
            let k = it.index() as int;
            lemma_offset_step(text@, k);
            lemma_encode_single(c);
            lemma_encode_utf16_concat(text@.take(k), seq![c]);
            assert(text@.take(k + 1) =~= text@.take(k) + seq![c]);
        }
        let v: u32 = c as u32;
        let ghost before = units@;
        if v < 0x10000 {
            units.push(v as u16);
            assert(units@ =~= before + utf16_units(c));
        } else {
            let w: u32 = v - 0x10000;
            units.push((0xD800 + w / 0x400) as u16);
            units.push((0xDC00 + w % 0x400) as u16);
            assert(units@ =~= before + utf16_units(c));
        }
    }
    proof {
        assert(text@.take(text@.len() as int) =~= text@);
    }
    units
}

/// The code point that starts at code unit `i`, and whether it takes two
/// code units: a leading surrogate directly followed by a trailing one is
/// combined, any other code unit stands for itself.
pub fn code_point_at(units: &Vec<u16>, i: usize) -> (r: (u32, bool))
    requires
        i < units.len(),
    ensures
        r.1 == (is_leading_surrogate(units[i as int]) && i + 1 < units.len()
            && is_trailing_surrogate(units[i + 1])),
        r.1 ==> r.0 == combine_surrogates(units[i as int], units[i + 1]),
        !r.1 ==> r.0 == units[i as int],
{
    let unit: u16 = units[i];
    if unit >= 0xD800 && unit <= 0xDBFF && i + 1 < units.len() {
        let next: u16 = units[i + 1];
        if next >= 0xDC00 && next <= 0xDFFF {
            let high: u32 = (unit - 0xD800) as u32;
            let low: u32 = (next - 0xDC00) as u32;
            return (0x10000 + high * 0x400 + low, true);
        }
    }
    (unit as u32, false)
}

/// Number of bytes that UTF-8 needs for a code point.
pub fn utf8_length_of(code_point: u32) -> (width: usize)
    ensures
        width == if code_point <= 0x7F {
            1int
        } else if code_point <= 0x7FF {
            2int
        } else if code_point <= 0xFFFF {
            3int
        } else {
            4int
        },
{
    if code_point <= 0x7F {
        1
    } else if code_point <= 0x7FF {
        2
    } else if code_point <= 0xFFFF {
        3
    } else {
        4
    }
}

} // verus!
