//! An open document: its text, what was read from it, and the offsets at
//! which its lines start.
use vstd::prelude::*;
use vstd::utf8::*;
use crate::ast::{Layout, Span, SpecLayout};
use crate::parser::{parse, spec_parse, ParseError, SpecParseError};
use crate::protocol::{Position, Range};
use crate::text::{ascii_bounded_slice, bytes_of, lemma_bytes_of_concat};

verus! {

#[derive(Debug)]
pub struct Document {
    pub source: String,
    /// `None` when reading failed.
    pub layout: Option<Layout>,
    pub errors: Vec<ParseError>,
    /// The byte offset at which each line starts.
    pub lines: Vec<usize>,
}

// ----------------------------------------------------------------------
// Line endings
// ----------------------------------------------------------------------

/// Byte `i` stays when line endings are normalized: it is not a `\r` that
/// directly precedes a `\n`.
pub open spec fn kept_byte(b: Seq<u8>, i: int) -> bool {
    !(b[i] == 13 && i + 1 < b.len() && b[i + 1] == 10)
}

/// The kept bytes among the first `n` bytes of `b`.
pub open spec fn normalized_prefix(b: Seq<u8>, n: int) -> Seq<u8>
    decreases n,
{
    if n <= 0 {
        Seq::empty()
    } else if kept_byte(b, n - 1) {
        normalized_prefix(b, n - 1).push(b[n - 1])
    } else {
        normalized_prefix(b, n - 1)
    }
}

/// The text with every `\r\n` replaced by `\n`.
pub open spec fn normalize_newlines(b: Seq<u8>) -> Seq<u8> {
    normalized_prefix(b, b.len() as int)
}

proof fn lemma_normalized_run(b: Seq<u8>, s: int, e: int)
    requires
        0 <= s <= e <= b.len(),
        forall|j: int| s <= j < e ==> kept_byte(b, j),
    ensures
        normalized_prefix(b, e) == normalized_prefix(b, s) + b.subrange(s, e),
    decreases e - s,
{
    if e > s {
        lemma_normalized_run(b, s, e - 1);
        assert(normalized_prefix(b, s) + b.subrange(s, e) =~= (normalized_prefix(b, s) + b.subrange(
            s,
            e - 1,
        )).push(b[e - 1]));
    } else {
        assert(normalized_prefix(b, s) + b.subrange(s, e) =~= normalized_prefix(b, s));
    }
}

/// A text without carriage returns is left as it is.
pub proof fn law_normalize_plain_text(b: Seq<u8>)
    requires
        forall|i: int| 0 <= i < b.len() ==> b[i] != 13,
    ensures
        normalize_newlines(b) == b,
{
    lemma_normalized_run(b, 0, b.len() as int);
    assert(normalized_prefix(b, 0) + b.subrange(0, b.len() as int) =~= b);
}

/// Replaces every `\r\n` of `s` by `\n`.
pub fn normalize_line_endings(s: &str) -> (r: String)
    ensures
        bytes_of(r@) == normalize_newlines(bytes_of(s@)),
{
    let b = s.as_bytes();
    let ghost bs = b@;
    let mut out = String::new();
    let mut seg: usize = 0;
    let mut i: usize = 0;
    assert(bytes_of(out@) =~= Seq::<u8>::empty());
    while i < b.len()
        invariant
            bs == b@,
            b@ == bytes_of(s@),
            seg <= i <= b@.len(),
            seg == 0 || b@[seg as int] == 10,
            bytes_of(out@) == normalized_prefix(bs, seg as int),
            forall|j: int| seg <= j < i ==> kept_byte(bs, j),
        decreases b.len() - i,
    {
        if b[i] == 13 && i + 1 < b.len() && b[i + 1] == 10 {
            let piece = ascii_bounded_slice(s, seg, i);
            proof {
                lemma_normalized_run(bs, seg as int, i as int);
                lemma_bytes_of_concat(out@, piece@);
            }
            out.append(piece);
            seg = i + 1;
        }
        i = i + 1;
    }
    let piece = ascii_bounded_slice(s, seg, b.len());
    proof {
        lemma_normalized_run(bs, seg as int, bs.len() as int);
        lemma_bytes_of_concat(out@, piece@);
    }
    out.append(piece);
    out
}

// ----------------------------------------------------------------------
// Lines
// ----------------------------------------------------------------------

/// The start offsets of the lines that begin within the first `n` bytes,
/// counting the first line.
pub open spec fn line_starts(b: Seq<u8>, n: int) -> Seq<usize>
    decreases n,
{
    if n <= 0 {
        seq![0usize]
    } else if b[n - 1] == 10 {
        line_starts(b, n - 1).push(n as usize)
    } else {
        line_starts(b, n - 1)
    }
}

/// The byte offset at which each line of `b` starts: 0, and one past each `\n`.
pub open spec fn spec_line_offsets(b: Seq<u8>) -> Seq<usize> {
    line_starts(b, b.len() as int)
}

/// Well-formed line tables: they start at 0 and increase strictly.
pub open spec fn lines_wf(lines: Seq<usize>) -> bool {
    &&& lines.len() >= 1
    &&& lines[0] == 0
    &&& forall|i: int, j: int| 0 <= i < j < lines.len() ==> lines[i] < lines[j]
}

proof fn lemma_line_starts(b: Seq<u8>, n: int)
    requires
        0 <= n <= b.len(),
        b.len() <= usize::MAX,
    ensures
        line_starts(b, n).len() >= 1,
        line_starts(b, n)[0] == 0,
        forall|i: int, j: int|
            0 <= i < j < line_starts(b, n).len() ==> line_starts(b, n)[i] < line_starts(b, n)[j],
        line_starts(b, n).last() <= n,
    decreases n,
{
    if n > 0 {
        lemma_line_starts(b, n - 1);
        let prev = line_starts(b, n - 1);
        if b[n - 1] == 10 {
            let cur = line_starts(b, n);
            assert forall|i: int, j: int| 0 <= i < j < cur.len() implies cur[i] < cur[j] by {
                assert(cur[i] == prev[i]);
                if j == cur.len() - 1 {
                    assert(cur[j] == n as usize);
                    if i < prev.len() - 1 {
                        assert(prev[i] < prev[prev.len() - 1]);
                    }
                } else {
                    assert(cur[j] == prev[j]);
                }
            }
        }
    }
}

/// The line start offsets of a text.
fn line_offsets(src: &str) -> (r: Vec<usize>)
    ensures
        r@ == spec_line_offsets(bytes_of(src@)),
        bytes_of(src@).len() <= usize::MAX,
{
    let b = src.as_bytes();
    let mut offsets: Vec<usize> = Vec::new();
    offsets.push(0);
    let mut i: usize = 0;
    assert(offsets@ =~= seq![0usize]);
    while i < b.len()
        invariant
            i <= b@.len(),
            b@ == bytes_of(src@),
            offsets@ == line_starts(b@, i as int),
        decreases b.len() - i,
    {
        if b[i] == 10 {
            offsets.push(i + 1);
        }
        i = i + 1;
    }
    offsets
}

// ----------------------------------------------------------------------
// Positions
// ----------------------------------------------------------------------

/// The index of the last line that starts at or before `offset`, among the
/// first `n` lines; -1 if there is none.
pub open spec fn last_line_at_or_before(lines: Seq<usize>, offset: usize, n: int) -> int
    decreases n,
{
    if n <= 0 {
        -1
    } else if lines[n - 1] <= offset {
        n - 1
    } else {
        last_line_at_or_before(lines, offset, n - 1)
    }
}

/// The line that holds `offset`.
pub open spec fn line_of_offset(lines: Seq<usize>, offset: usize) -> int {
    let l = last_line_at_or_before(lines, offset, lines.len() as int);
    if l < 0 {
        0
    } else {
        l
    }
}

/// The line and column of a byte offset.
pub open spec fn spec_offset_to_position(lines: Seq<usize>, offset: usize) -> Position {
    let line = line_of_offset(lines, offset);
    Position { line: line as u32, character: (offset - lines[line]) as u32 }
}

/// The line a position stands on: lines past the last count as the last.
pub open spec fn line_of_position(lines: Seq<usize>, pos: Position) -> int {
    if pos.line < lines.len() {
        pos.line as int
    } else {
        lines.len() - 1
    }
}

/// The offset of a position is a machine-sized number.
pub open spec fn position_fits(lines: Seq<usize>, pos: Position) -> bool {
    lines[line_of_position(lines, pos)] + pos.character <= usize::MAX
}

/// The byte offset of a line and column; lines past the last count as the last.
pub open spec fn spec_position_to_offset(lines: Seq<usize>, pos: Position) -> usize {
    (lines[line_of_position(lines, pos)] + pos.character) as usize
}

pub open spec fn spec_span_to_range(lines: Seq<usize>, span: Span) -> Range {
    Range {
        start: spec_offset_to_position(lines, span.start),
        end: spec_offset_to_position(lines, span.end),
    }
}

proof fn lemma_last_line(lines: Seq<usize>, offset: usize, n: int)
    requires
        0 <= n <= lines.len(),
        forall|i: int, j: int| 0 <= i < j < lines.len() ==> lines[i] < lines[j],
    ensures
        -1 <= last_line_at_or_before(lines, offset, n) < n,
        last_line_at_or_before(lines, offset, n) >= 0 ==> lines[last_line_at_or_before(
            lines,
            offset,
            n,
        )] <= offset,
        forall|j: int|
            last_line_at_or_before(lines, offset, n) < j < n ==> lines[j] > offset,
    decreases n,
{
    if n > 0 {
        lemma_last_line(lines, offset, n - 1);
    }
}

/// Going from an offset to its line and column and back gives the offset
/// again, wherever the line index and the column fit in 32 bits.
pub proof fn law_offset_position_round_trip(lines: Seq<usize>, offset: usize)
    requires
        lines_wf(lines),
        line_of_offset(lines, offset) <= u32::MAX,
        offset - lines[line_of_offset(lines, offset)] <= u32::MAX,
    ensures
        spec_position_to_offset(lines, spec_offset_to_position(lines, offset)) == offset,
{
    lemma_last_line(lines, offset, lines.len() as int);
}

/// Going from a line and column to an offset and back gives the same line
/// and column, for every position on an existing line that does not run past
/// the line's end.
pub proof fn law_position_offset_round_trip(lines: Seq<usize>, pos: Position)
    requires
        lines_wf(lines),
        pos.line < lines.len(),
        position_fits(lines, pos),
        pos.line + 1 < lines.len() ==> lines[pos.line as int] + pos.character < lines[pos.line + 1],
    ensures
        spec_offset_to_position(lines, spec_position_to_offset(lines, pos)) == pos,
{
    let l = pos.line as int;
    let o = spec_position_to_offset(lines, pos);
    assert(o == lines[l] + pos.character);
    lemma_last_line(lines, o, lines.len() as int);
    let r = last_line_at_or_before(lines, o, lines.len() as int);
    if r < l {
        assert(lines[l] > o);
    }
    if r > l {
        assert(lines[r] >= lines[l + 1]) by {
            if r > l + 1 {
                assert(lines[l + 1] < lines[r]);
            }
        }
    }
    assert(r == l);
}

pub open spec fn parse_state(b: Seq<u8>) -> (Option<SpecLayout>, Seq<SpecParseError>) {
    match spec_parse(b) {
        Ok(l) => (Some(l), Seq::empty()),
        Err(e) => (None, seq![e]),
    }
}

pub open spec fn errors_view(es: Seq<ParseError>) -> Seq<SpecParseError> {
    es.map_values(|e: ParseError| e@)
}

pub open spec fn layout_view(l: Option<Layout>) -> Option<SpecLayout> {
    match l {
        Some(x) => Some(x@),
        None => None,
    }
}

/// A document that was read has no error exactly when it has a syntax tree,
/// and exactly one error when it has none.
pub proof fn law_document_errors(text: Seq<u8>)
    ensures
        parse_state(text).0 is Some <==> parse_state(text).1.len() == 0,
        parse_state(text).0 is None ==> parse_state(text).1.len() == 1,
{
}

impl Document {
    /// The bytes of the document's text.
    pub open spec fn text(&self) -> Seq<u8> {
        bytes_of(self.source@)
    }

    /// A document as `new` reads it: its line table is well formed, and its
    /// syntax tree is what its text reads as.
    pub open spec fn wf(&self) -> bool {
        &&& lines_wf(self.lines@)
        &&& self.text().len() <= usize::MAX
        &&& layout_view(self.layout) == parse_state(self.text()).0
    }

    /// Reads a document, after normalizing its line endings to `\n`.
    pub fn new(source: String) -> (doc: Self)
        ensures
            doc.text() == normalize_newlines(bytes_of(source@)),
            doc.lines@ == spec_line_offsets(doc.text()),
            layout_view(doc.layout) == parse_state(doc.text()).0,
            errors_view(doc.errors@) == parse_state(doc.text()).1,
            doc.wf(),
    {
        let source = normalize_line_endings(source.as_str());
        let lines = line_offsets(source.as_str());
        proof {
            let b = bytes_of(source@);
            lemma_line_starts(b, b.len() as int);
        }
        let r = parse(source.as_str());
        let (layout, errors) = match r {
            Ok(l) => (Some(l), Vec::new()),
            Err(e) => {
                let mut v = Vec::new();
                v.push(e);
                (None, v)
            },
        };
        proof {
            assert(errors_view(errors@) =~= parse_state(bytes_of(source@)).1);
        }
        Document { source, layout, errors, lines }
    }

    /// The line and column of a byte offset.
    pub fn offset_to_position(&self, offset: usize) -> (p: Position)
        requires
            self.wf(),
        ensures
            p == spec_offset_to_position(self.lines@, offset),
    {
        proof {
            lemma_last_line(self.lines@, offset, self.lines@.len() as int);
        }
        let mut n: usize = self.lines.len();
        while n > 0 && self.lines[n - 1] > offset
            invariant
                n <= self.lines@.len(),
                last_line_at_or_before(self.lines@, offset, self.lines@.len() as int)
                    == last_line_at_or_before(self.lines@, offset, n as int),
            decreases n,
        {
            n = n - 1;
        }
        let line: usize = if n == 0 {
            0
        } else {
            n - 1
        };
        let col = offset - self.lines[line];
        Position { line: line as u32, character: col as u32 }
    }

    /// Whether the offset of a line and column is a machine-sized number.
    pub fn position_fits(&self, pos: Position) -> (r: bool)
        requires
            self.wf(),
        ensures
            r == position_fits(self.lines@, pos),
    {
        let last = self.lines.len() - 1;
        let line: usize = if (pos.line as usize) < last {
            pos.line as usize
        } else {
            last
        };
        self.lines[line] <= usize::MAX - pos.character as usize
    }

    /// The byte offset of a line and column.
    pub fn position_to_offset(&self, pos: Position) -> (r: usize)
        requires
            self.wf(),
            position_fits(self.lines@, pos),
        ensures
            r == spec_position_to_offset(self.lines@, pos),
    {
        let last = self.lines.len() - 1;
        let line: usize = if (pos.line as usize) < last {
            pos.line as usize
        } else {
            last
        };
        self.lines[line] + pos.character as usize
    }
}

impl Span {
    /// The range of this span in the document.
    pub fn to_range(&self, doc: &Document) -> (r: Range)
        requires
            doc.wf(),
        ensures
            r == spec_span_to_range(doc.lines@, *self),
    {
        Range { start: doc.offset_to_position(self.start), end: doc.offset_to_position(self.end) }
    }
}

} // verus!
