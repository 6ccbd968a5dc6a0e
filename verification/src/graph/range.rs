//! Range normalization: mapping a semantic occurrence's `(line, character)` range, counted in the
//! document's declared position encoding, onto byte offsets into the source.

use vstd::prelude::*;

use vstd::string::StringSliceAdditionalSpecFns;

use crate::model::{PositionEncoding, SourceRange};
use crate::text::chars_of;
use crate::utf::{
    bytes_len, lemma_bytes_len_concat, lemma_bytes_len_is_encoded_len, lemma_bytes_len_take_mono, utf16_width,
    utf16_width_of, utf8_width, utf8_width_of,
};

verus! {

/// A half-open byte span `[start, end)` into a source document.
#[derive(Debug, Clone, Copy, PartialEq, Eq, Hash)]
pub struct ByteSpan {
    /// Inclusive start byte offset.
    pub start: usize,
    /// Exclusive end byte offset.
    pub end: usize,
}

impl ByteSpan {
    /// Whether this span fully contains `other`.
    pub fn contains(&self, other: &ByteSpan) -> (r: bool)
        ensures
            r == (self.start <= other.start && other.end <= self.end),
    {
        self.start <= other.start && other.end <= self.end
    }

    /// Whether two spans are the same.
    pub fn same_as(&self, other: &ByteSpan) -> (r: bool)
        ensures
            r == (*self == *other),
    {
        self.start == other.start && self.end == other.end
    }
}

/// The character index at which each line starts: `0`, then the index just past every newline.
pub open spec fn line_char_starts(s: Seq<char>) -> Seq<int>
    decreases s.len(),
{
    if s.len() == 0 {
        seq![0int]
    } else {
        let p = line_char_starts(s.drop_last());
        if s.last() == '\n' {
            p.push(s.len() as int)
        } else {
            p
        }
    }
}

/// The byte offset of character index `k`.
pub open spec fn byte_offset(s: Seq<char>, k: int) -> nat {
    bytes_len(s.take(k))
}

/// The character range `[start, end)` of line `line`'s content (its newline excluded), or `None`
/// when the document has no such line.
pub open spec fn line_bounds(s: Seq<char>, line: int) -> Option<(int, int)> {
    let st = line_char_starts(s);
    if 0 <= line && line + 1 < st.len() {
        Some((st[line], st[line + 1] - 1))
    } else if 0 <= line && line < st.len() {
        Some((st[line], s.len() as int))
    } else {
        None
    }
}

/// The width of `c` in `encoding`'s units.
pub open spec fn units_of(c: char, encoding: PositionEncoding) -> nat {
    match encoding {
        PositionEncoding::Utf8 => utf8_width(c),
        PositionEncoding::Utf16 => utf16_width(c),
        PositionEncoding::Utf32 => 1,
    }
}

/// The width of a character sequence in `encoding`'s units.
pub open spec fn units_len(s: Seq<char>, encoding: PositionEncoding) -> nat
    decreases s.len(),
{
    if s.len() == 0 {
        0
    } else {
        units_len(s.drop_last(), encoding) + units_of(s.last(), encoding)
    }
}

/// The first character index `k >= from` of `text` at which the units before `k` reach
/// `character`, or the end of `text` when they never do.
pub open spec fn reach_from(
    text: Seq<char>,
    character: nat,
    encoding: PositionEncoding,
    from: int,
) -> int
    decreases text.len() - from,
{
    if from >= text.len() {
        text.len() as int
    } else if units_len(text.take(from), encoding) >= character {
        from
    } else {
        reach_from(text, character, encoding, from + 1)
    }
}

/// The byte offset of position `(line, character)`: the start of the line plus the bytes of the
/// line's characters before the first character boundary at which `character` units have been
/// counted, clamped to the end of the line's content; `None` when the document has no such line.
pub open spec fn position_byte(
    s: Seq<char>,
    line: int,
    character: nat,
    encoding: PositionEncoding,
) -> Option<nat> {
    match line_bounds(s, line) {
        None => None,
        Some((a, b)) => {
            let text = s.subrange(a, b);
            Some(byte_offset(s, a) + bytes_len(text.take(reach_from(text, character, encoding, 0))))
        },
    }
}

/// Precomputed line starts of one document, for direct line lookup.
pub struct LineIndex {
    line_starts: Vec<usize>,
    len: usize,
    chars: Vec<char>,
    char_starts: Vec<usize>,
}

impl LineIndex {
    /// Whether this index describes the document whose characters are `s`.
    pub closed spec fn describes(&self, s: Seq<char>) -> bool {
        &&& self.chars@ == s
        &&& self.char_starts@.len() == line_char_starts(s).len()
        &&& forall|l: int|
            0 <= l < self.char_starts@.len() ==> self.char_starts@[l] as int == line_char_starts(
                s,
            )[l]
        &&& self.line_starts@.len() == self.char_starts@.len()
        &&& forall|l: int|
            0 <= l < self.line_starts@.len() ==> self.line_starts@[l] as nat == byte_offset(
                s,
                line_char_starts(s)[l],
            )
        &&& self.len as nat == bytes_len(s)
    }

    /// The byte offset at which each line starts: `0`, then the offset just past every newline.
    pub closed spec fn line_starts_view(&self) -> Seq<usize> {
        self.line_starts@
    }

    /// Build a line index over source text.
    pub fn new(source: &str) -> (r: Self)
        ensures
            r.describes(source@),
    {
        let total = source.as_bytes().len();
        proof {
            lemma_bytes_len_is_encoded_len(source@);
        }
        let chars = chars_of(source);
        let ghost s = source@;
        let mut line_starts: Vec<usize> = Vec::new();
        let mut char_starts: Vec<usize> = Vec::new();
        line_starts.push(0);
        char_starts.push(0);
        let mut offset: usize = 0;
        let mut k: usize = 0;
        proof {
            assert(s.take(0) =~= Seq::<char>::empty());
            assert(line_char_starts(s.take(0)) == seq![0int]);
        }
        while k < chars.len()
            invariant
                chars@ == s,
                total as nat == bytes_len(s),
                k <= chars.len(),
                offset as nat == bytes_len(s.take(k as int)),
                char_starts@.len() == line_char_starts(s.take(k as int)).len(),
                forall|l: int|
                    0 <= l < char_starts@.len() ==> #[trigger] char_starts@[l] as int
                        == line_char_starts(s.take(k as int))[l],
                line_starts@.len() == char_starts@.len(),
                forall|l: int|
                    0 <= l < line_starts@.len() ==> #[trigger] line_starts@[l] as nat
                        == byte_offset(s, line_char_starts(s.take(k as int))[l]),
                forall|l: int|
                    0 <= l < char_starts@.len() ==> line_char_starts(s.take(k as int))[l] <= k,
            decreases chars.len() - k,
        {
            let c = chars[k];
            proof {
                lemma_bytes_len_take_mono(s, k + 1, s.len() as int);
                assert(s.take(k + 1).drop_last() =~= s.take(k as int));
                assert(s.take(k + 1).last() == c);
                assert(s.take(s.len() as int) =~= s);
            }
            offset = offset + utf8_width_of(c);
            let ghost prev = line_char_starts(s.take(k as int));
            k = k + 1;
            if c == '\n' {
                char_starts.push(k);
                line_starts.push(offset);
                proof {
                    assert(line_char_starts(s.take(k as int)) == prev.push(k as int));
                    assert(s.take(k as int) =~= s.take(k as int).take(k as int));
                }
            } else {
                proof {
                    assert(line_char_starts(s.take(k as int)) == prev);
                }
            }
            proof {
                assert forall|l: int| 0 <= l < line_starts@.len() implies #[trigger] line_starts@[l]
                    as nat == byte_offset(s, line_char_starts(s.take(k as int))[l]) by {
                    if l < prev.len() {
                        assert(line_char_starts(s.take(k as int))[l] == prev[l]);
                    }
                }
            }
        }
        proof {
            assert(s.take(k as int) =~= s);
        }
        LineIndex { line_starts, len: offset, chars, char_starts }
    }
}

/// Line starts begin at `0`, increase strictly, and stay within the document.
pub proof fn lemma_line_char_starts(s: Seq<char>)
    ensures
        line_char_starts(s).len() >= 1,
        line_char_starts(s)[0] == 0,
        forall|l: int, m: int|
            0 <= l < m < line_char_starts(s).len() ==> #[trigger] line_char_starts(s)[l]
                < #[trigger] line_char_starts(s)[m],
        forall|l: int|
            0 <= l < line_char_starts(s).len() ==> 0 <= #[trigger] line_char_starts(s)[l]
                <= s.len(),
    decreases s.len(),
{
    if s.len() > 0 {
        lemma_line_char_starts(s.drop_last());
        let p = line_char_starts(s.drop_last());
        assert forall|l: int| 0 <= l < p.len() implies #[trigger] p[l] < s.len() by {
            assert(p[l] <= s.drop_last().len());
        }
    }
}

/// A sequence's width in any encoding's units is at most its UTF-8 byte length.
pub proof fn lemma_units_within_bytes(t: Seq<char>, encoding: PositionEncoding)
    ensures
        units_len(t, encoding) <= bytes_len(t),
    decreases t.len(),
{
    if t.len() > 0 {
        lemma_units_within_bytes(t.drop_last(), encoding);
    }
}

/// The width of `c` in `encoding`'s units.
fn units_of_char(c: char, encoding: PositionEncoding) -> (r: usize)
    ensures
        r == units_of(c, encoding),
{
    match encoding {
        PositionEncoding::Utf8 => utf8_width_of(c),
        PositionEncoding::Utf16 => utf16_width_of(c),
        PositionEncoding::Utf32 => 1,
    }
}

/// Convert a `(line, character)` position in `encoding` into a byte offset within `source`.
///
/// `None` when the document has no such line. A character offset past the line's content clamps
/// to the end of the content; an offset inside a character that spans several units advances to
/// that character's end.
pub fn position_to_byte(
    source: &str,
    index: &LineIndex,
    line: u32,
    character: u32,
    encoding: PositionEncoding,
) -> (r: Option<usize>)
    requires
        index.describes(source@),
    ensures
        r is None <==> position_byte(source@, line as int, character as nat, encoding) is None,
        r is Some ==> position_byte(source@, line as int, character as nat, encoding) == Some(
            r.unwrap() as nat,
        ),
{
    let ghost s = source@;
    proof {
        lemma_line_char_starts(s);
    }
    let l = line as usize;
    if l >= index.char_starts.len() {
        return None;
    }
    let a = index.char_starts[l];
    let b = if l + 1 < index.char_starts.len() {
        index.char_starts[l + 1] - 1
    } else {
        index.chars.len()
    };
    let start = index.line_starts[l];
    let ghost text = s.subrange(a as int, b as int);
    assert(line_bounds(s, l as int) == Some((a as int, b as int)));
    let mut k = a;
    let mut units: usize = 0;
    let mut bytes: usize = 0;
    proof {
        assert(text.take(0) =~= Seq::<char>::empty());
        assert(s.take(a as int) + text.take(0) =~= s.take(a as int));
        lemma_bytes_len_take_mono(s, a as int, s.len() as int);
        assert(s.take(s.len() as int) =~= s);
    }
    while k < b && units < character as usize
        invariant
            index.describes(s),
            a <= k <= b <= s.len(),
            text == s.subrange(a as int, b as int),
            start as nat == byte_offset(s, a as int),
            units as nat == units_len(text.take(k - a), encoding),
            bytes as nat == bytes_len(text.take(k - a)),
            start + bytes == bytes_len(s.take(k as int)),
            bytes_len(s.take(k as int)) <= bytes_len(s),
            bytes_len(s) == index.len,
            reach_from(text, character as nat, encoding, 0) == reach_from(
                text,
                character as nat,
                encoding,
                k - a,
            ),
        decreases b - k,
    {
        let c = index.chars[k];
        proof {
            let j = k - a;
            assert(text.take(j + 1).drop_last() =~= text.take(j));
            assert(text.take(j + 1).last() == c);
            assert(s.take(k + 1).drop_last() =~= s.take(k as int));
            assert(s.take(k + 1).last() == c);
            lemma_bytes_len_take_mono(s, k + 1, s.len() as int);
            lemma_units_within_bytes(text.take(j + 1), encoding);
            lemma_bytes_len_take_mono(text, j + 1, text.len() as int);
            assert(text.take(text.len() as int) =~= text);
            assert(s.take(a as int) + text.take(j + 1) =~= s.take(k + 1));
            lemma_bytes_len_concat(s.take(a as int), text.take(j + 1));
            lemma_bytes_len_concat(s.take(a as int), text.take(j));
            assert(s.take(a as int) + text.take(j) =~= s.take(k as int));
            assert(units + units_of(c, encoding) == units_len(text.take(j + 1), encoding));
            assert(bytes + utf8_width(c) == bytes_len(text.take(j + 1)));
            assert(bytes_len(s.take(k + 1)) == bytes_len(s.take(a as int)) + bytes_len(
                text.take(j + 1),
            ));
            assert(s.take(s.len() as int) =~= s);
            assert(bytes_len(s.take(k + 1)) <= bytes_len(s));
            assert(bytes_len(s) == index.len);
        }
        units = units + units_of_char(c, encoding);
        bytes = bytes + utf8_width_of(c);
        k = k + 1;
    }
    Some(start + bytes)
}

/// The byte span of a range: `None` when either end falls outside the document or the end
/// precedes the start.
pub open spec fn range_span(
    s: Seq<char>,
    range: SourceRange,
    encoding: PositionEncoding,
) -> Option<(nat, nat)> {
    match (
        position_byte(s, range.start_line as int, range.start_char as nat, encoding),
        position_byte(s, range.end_line as int, range.end_char as nat, encoding),
    ) {
        (Some(start), Some(end)) => if end < start {
            None
        } else {
            Some((start, end))
        },
        _ => None,
    }
}

/// Normalize a source range into a byte span within `source`.
pub fn range_to_span(
    source: &str,
    index: &LineIndex,
    range: SourceRange,
    encoding: PositionEncoding,
) -> (r: Option<ByteSpan>)
    requires
        index.describes(source@),
    ensures
        r is None <==> range_span(source@, range, encoding) is None,
        r is Some ==> range_span(source@, range, encoding) == Some(
            (r.unwrap().start as nat, r.unwrap().end as nat),
        ),
{
    let start = match position_to_byte(source, index, range.start_line, range.start_char, encoding) {
        Some(v) => v,
        None => return None,
    };
    let end = match position_to_byte(source, index, range.end_line, range.end_char, encoding) {
        Some(v) => v,
        None => return None,
    };
    if end < start {
        return None;
    }
    Some(ByteSpan { start, end })
}

} // verus!
