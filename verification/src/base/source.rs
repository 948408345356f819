//! Source location tracking: file identifiers, byte spans and line/column
//! positions.

use vstd::prelude::*;

verus! {

/// Unique identifier for a source file.
#[derive(Debug, Clone, Copy, PartialEq, Eq, Hash, Structural)]
pub struct FileId(pub u32);

impl FileId {
    /// Identifier used for generated/synthetic code.
    pub fn dummy() -> (f: FileId)
        ensures
            f == FileId(u32::MAX),
    {
        FileId(u32::MAX)
    }
}

/// A span in the source code: a byte range within one file.
#[derive(Debug, Clone, Copy, PartialEq, Eq, Hash, Structural)]
pub struct Span {
    /// Start byte offset (inclusive).
    pub start: u32,
    /// End byte offset (exclusive).
    pub end: u32,
    /// File containing this span.
    pub file_id: FileId,
}

impl Span {
    /// Create a new span.
    pub fn new(start: u32, end: u32, file_id: FileId) -> (s: Span)
        requires
            start <= end,
        ensures
            s == (Span { start, end, file_id }),
    {
        Span { start, end, file_id }
    }

    /// A dummy span for synthetic nodes.
    pub fn dummy() -> (s: Span)
        ensures
            s == (Span { start: 0, end: 0, file_id: FileId(u32::MAX) }),
    {
        Span { start: 0, end: 0, file_id: FileId::dummy() }
    }

    /// Length of the span in bytes.
    pub fn len(&self) -> (n: u32)
        requires
            self.start <= self.end,
        ensures
            n == self.end - self.start,
    {
        self.end - self.start
    }

    /// Is this span empty?
    pub fn is_empty(&self) -> (b: bool)
        ensures
            b == (self.start == self.end),
    {
        self.start == self.end
    }

    /// The span as a byte range.
    pub fn to_range(&self) -> (r: std::ops::Range<usize>)
        ensures
            r.start == self.start as usize,
            r.end == self.end as usize,
    {
        std::ops::Range { start: self.start as usize, end: self.end as usize }
    }

    /// The union of two spans of the same file.
    pub fn merge(&self, other: &Span) -> (s: Span)
        requires
            self.file_id == other.file_id,
        ensures
            s.start == (if self.start <= other.start { self.start } else { other.start }),
            s.end == (if self.end >= other.end { self.end } else { other.end }),
            s.file_id == self.file_id,
    {
        let start = if self.start <= other.start { self.start } else { other.start };
        let end = if self.end >= other.end { self.end } else { other.end };
        Span { start, end, file_id: self.file_id }
    }

    /// A zero-width span at the start of this span.
    pub fn start_span(&self) -> (s: Span)
        ensures
            s == (Span { start: self.start, end: self.start, file_id: self.file_id }),
    {
        Span { start: self.start, end: self.start, file_id: self.file_id }
    }

    /// A zero-width span at the end of this span.
    pub fn end_span(&self) -> (s: Span)
        ensures
            s == (Span { start: self.end, end: self.end, file_id: self.file_id }),
    {
        Span { start: self.end, end: self.end, file_id: self.file_id }
    }

    /// The `start..end` text of the span.
    pub fn to_string(&self) -> (r: String)
        ensures
            r@ == crate::base::text::decimal(self.start as nat) + seq!['.', '.']
                + crate::base::text::decimal(self.end as nat),
    {
        let mut s = crate::base::text::decimal_string(self.start as u64);
        crate::base::text::push_char(&mut s, '.');
        crate::base::text::push_char(&mut s, '.');
        crate::base::text::push_decimal(&mut s, self.end as u64);
        assert(s@ =~= crate::base::text::decimal(self.start as nat) + seq!['.', '.']
            + crate::base::text::decimal(self.end as nat));
        s
    }
}

impl Default for Span {
    fn default() -> (s: Span)
        ensures
            s == (Span { start: 0, end: 0, file_id: FileId(u32::MAX) }),
    {
        Span::dummy()
    }
}

/// A value with an associated source span.
#[derive(Debug, Clone, PartialEq, Eq, Hash)]
pub struct Spanned<T> {
    pub node: T,
    pub span: Span,
}

impl<T> Spanned<T> {
    /// Create a new spanned value.
    pub fn new(node: T, span: Span) -> (s: Spanned<T>)
        ensures
            s.node == node,
            s.span == span,
    {
        Spanned { node, span }
    }

    /// A spanned value with a dummy span.
    pub fn dummy(node: T) -> (s: Spanned<T>)
        ensures
            s.node == node,
            s.span == (Span { start: 0, end: 0, file_id: FileId(u32::MAX) }),
    {
        Spanned { node, span: Span::dummy() }
    }

    /// Map the inner value, keeping the span.
    pub fn map<U, F: FnOnce(T) -> U>(self, f: F) -> (s: Spanned<U>)
        requires
            f.requires((self.node,)),
        ensures
            f.ensures((self.node,), s.node),
            s.span == self.span,
    {
        let span = self.span;
        Spanned { node: f(self.node), span }
    }

    /// A spanned reference to the inner value.
    pub fn as_ref(&self) -> (s: Spanned<&T>)
        ensures
            *s.node == self.node,
            s.span == self.span,
    {
        Spanned { node: &self.node, span: self.span }
    }
}

/// Line and column location (1-indexed, for display).
#[derive(Debug, Clone, Copy, PartialEq, Eq, Hash, Structural)]
pub struct LineCol {
    /// Line number (1-indexed).
    pub line: u32,
    /// Column number (1-indexed, in UTF-8 code units).
    pub col: u32,
}

impl LineCol {
    pub fn new(line: u32, col: u32) -> (lc: LineCol)
        ensures
            lc == (LineCol { line, col }),
    {
        LineCol { line, col }
    }

    /// The `line:col` text.
    pub fn to_string(&self) -> (r: String)
        ensures
            r@ == crate::base::text::decimal(self.line as nat) + seq![':']
                + crate::base::text::decimal(self.col as nat),
    {
        let mut s = crate::base::text::decimal_string(self.line as u64);
        crate::base::text::push_char(&mut s, ':');
        crate::base::text::push_decimal(&mut s, self.col as u64);
        assert(s@ =~= crate::base::text::decimal(self.line as nat) + seq![':']
            + crate::base::text::decimal(self.col as nat));
        s
    }
}

} // verus!

verus! {

use vstd::utf8::*;

/// Every position that is the end of the bytes or holds a byte that does not
/// continue a multi-byte character is a character boundary, and conversely.
pub proof fn lemma_char_boundary_iff(b: Seq<u8>, j: int)
    requires
        valid_utf8(b),
        0 <= j <= b.len(),
    ensures
        is_char_boundary(b, j) <==> (j == b.len() || !is_continuation_byte(b[j])),
    decreases b.len(),
{
    if j == 0 {
        if b.len() > 0 {
            assert(valid_first_scalar(b));
        }
    } else {
        assert(b.len() > 0);
        assert(valid_first_scalar(b));
        let k = length_of_first_scalar(b);
        let p = pop_first_scalar(b);
        assert(1 <= k <= b.len());
        if j < k {
            assert(is_continuation_byte(b[j]));
            if j - k < 0 {
                assert(!is_char_boundary(p, j - k));
            }
        } else {
            assert(p.len() == b.len() - k);
            assert(p.len() < b.len());
            lemma_char_boundary_iff(p, j - k);
            if j < b.len() {
                assert(p[j - k] == b[j]);
            }
        }
    }
}

/// The positions just after each newline byte, in order.
pub open spec fn newline_starts(b: Seq<u8>) -> Seq<u32>
    decreases b.len(),
{
    if b.len() == 0 {
        seq![]
    } else if b.last() == 10u8 {
        newline_starts(b.drop_last()).push(b.len() as u32)
    } else {
        newline_starts(b.drop_last())
    }
}

/// The byte offsets at which lines start: zero, then the position after each
/// newline.
pub open spec fn line_starts_of(b: Seq<u8>) -> Seq<u32> {
    seq![0u32] + newline_starts(b)
}

/// Every element of a sequence of line starts is at most the byte length, and
/// the sequence strictly increases.
pub proof fn lemma_newline_starts_sorted(b: Seq<u8>)
    requires
        b.len() <= u32::MAX,
    ensures
        forall|i: int| 0 <= i < newline_starts(b).len() ==> 0 < #[trigger] newline_starts(b)[i] <= b.len(),
        forall|i: int, j: int| 0 <= i < j < newline_starts(b).len() ==> newline_starts(b)[i] < newline_starts(b)[j],
    decreases b.len(),
{
    if b.len() > 0 {
        let d = b.drop_last();
        lemma_newline_starts_sorted(d);
        let n = newline_starts(b);
        let m = newline_starts(d);
        if b.last() == 10u8 {
            assert(n == m.push(b.len() as u32));
            assert forall|i: int| 0 <= i < n.len() implies 0 < #[trigger] n[i] <= b.len() by {
                if i < m.len() {
                    assert(n[i] == m[i]);
                }
            }
            assert forall|i: int, j: int| 0 <= i < j < n.len() implies n[i] < n[j] by {
                assert(n[i] == m[i]);
                if j < m.len() {
                    assert(n[j] == m[j]);
                }
            }
        }
    }
}

pub proof fn lemma_line_starts_sorted(b: Seq<u8>)
    requires
        b.len() <= u32::MAX,
    ensures
        line_starts_of(b).len() >= 1,
        line_starts_of(b)[0] == 0,
        forall|i: int| 0 <= i < line_starts_of(b).len() ==> #[trigger] line_starts_of(b)[i] <= b.len(),
        forall|i: int, j: int| 0 <= i < j < line_starts_of(b).len() ==> line_starts_of(b)[i] < line_starts_of(b)[j],
{
    lemma_newline_starts_sorted(b);
    let l = line_starts_of(b);
    let n = newline_starts(b);
    assert forall|i: int| 0 <= i < l.len() implies #[trigger] l[i] <= b.len() by {
        if i > 0 {
            assert(l[i] == n[i - 1]);
        }
    }
    assert forall|i: int, j: int| 0 <= i < j < l.len() implies l[i] < l[j] by {
        assert(l[j] == n[j - 1]);
        if i > 0 {
            assert(l[i] == n[i - 1]);
        }
    }
}

/// Index of the last line start at or before `offset`.
pub open spec fn last_start_index(starts: Seq<u32>, offset: u32) -> int
    decreases starts.len(),
{
    if starts.len() == 0 {
        -1
    } else if starts.last() <= offset {
        starts.len() - 1
    } else {
        last_start_index(starts.drop_last(), offset)
    }
}

proof fn lemma_last_start_index(starts: Seq<u32>, offset: u32, k: int)
    requires
        forall|i: int, j: int| 0 <= i < j < starts.len() ==> starts[i] < starts[j],
        0 <= k < starts.len(),
        starts[k] <= offset,
        k + 1 == starts.len() || starts[k + 1] > offset,
    ensures
        last_start_index(starts, offset) == k,
    decreases starts.len(),
{
    if k + 1 < starts.len() {
        lemma_last_start_index(starts.drop_last(), offset, k);
    }
}

/// Trailing newline bytes removed.
pub open spec fn trim_trailing_newlines(s: Seq<u8>) -> Seq<u8>
    decreases s.len(),
{
    if s.len() > 0 && s.last() == 10u8 {
        trim_trailing_newlines(s.drop_last())
    } else {
        s
    }
}

/// Source file with contents and line index.
#[derive(Debug, Clone)]
pub struct SourceFile {
    /// File ID.
    pub id: FileId,
    /// File name/path.
    pub name: String,
    /// File contents.
    pub contents: String,
    /// Byte offsets of line starts.
    pub line_starts: Vec<u32>,
}

impl SourceFile {
    /// The bytes of the contents.
    pub closed spec fn bytes(&self) -> Seq<u8> {
        vstd::utf8::encode_utf8(self.contents@)
    }

    /// The bytes are the UTF-8 encoding of the contents.
    pub proof fn lemma_bytes(&self)
        ensures
            self.bytes() == vstd::utf8::encode_utf8(self.contents@),
    {
    }

    /// The line index agrees with the contents, whose length fits in `u32`.
    pub closed spec fn wf(&self) -> bool {
        &&& self.bytes().len() <= u32::MAX
        &&& self.line_starts@ == line_starts_of(self.bytes())
    }

    /// The byte offsets at which lines start.
    pub closed spec fn starts(&self) -> Seq<u32> {
        self.line_starts@
    }

    pub proof fn lemma_wf(&self)
        requires
            self.wf(),
        ensures
            self.starts() == line_starts_of(self.bytes()),
            self.bytes().len() <= u32::MAX,
    {
    }

    /// Create a new source file, indexing its line starts.
    pub fn new(id: FileId, name: String, contents: String) -> (f: SourceFile)
        requires
            vstd::utf8::encode_utf8(contents@).len() <= u32::MAX,
        ensures
            f.wf(),
            f.id == id,
            f.name == name,
            f.contents == contents,
    {
        let bytes = contents.as_str().as_bytes();
        let n = bytes.len();
        let mut line_starts: Vec<u32> = Vec::new();
        line_starts.push(0);
        let mut i: usize = 0;
        while i < n
            invariant
                n == bytes@.len(),
                n <= u32::MAX,
                i <= n,
                line_starts@ == line_starts_of(bytes@.subrange(0, i as int)),
            decreases n - i,
        {
            let ghost prev = bytes@.subrange(0, i as int);
            assert(bytes@.subrange(0, i + 1).drop_last() =~= prev);
            if bytes[i] == 10u8 {
                line_starts.push((i + 1) as u32);
                assert(line_starts@ =~= line_starts_of(bytes@.subrange(0, i + 1)));
            } else {
                assert(line_starts@ =~= line_starts_of(bytes@.subrange(0, i + 1)));
            }
            i = i + 1;
        }
        assert(bytes@.subrange(0, n as int) =~= bytes@);
        SourceFile { id, name, contents, line_starts }
    }

    /// The line/column (both 1-indexed) of a byte offset.
    pub fn line_col(&self, offset: u32) -> (lc: LineCol)
        requires
            self.wf(),
            offset - self.starts()[last_start_index(self.starts(), offset)] < u32::MAX,
            last_start_index(self.starts(), offset) < u32::MAX,
        ensures
            lc.line == last_start_index(self.starts(), offset) + 1,
            lc.col == offset - self.starts()[last_start_index(self.starts(), offset)] + 1,
    {
        proof {
            lemma_line_starts_sorted(self.bytes());
        }
        // Binary search for the last line start at or before `offset`.
        let mut lo: usize = 0;
        let mut hi: usize = self.line_starts.len();
        while lo + 1 < hi
            invariant
                self.wf(),
                line_starts_of(self.bytes()).len() >= 1,
                line_starts_of(self.bytes())[0] == 0,
                forall|i: int, j: int| 0 <= i < j < line_starts_of(self.bytes()).len()
                    ==> line_starts_of(self.bytes())[i] < line_starts_of(self.bytes())[j],
                0 <= lo < hi <= self.line_starts@.len(),
                self.line_starts@[lo as int] <= offset,
                hi == self.line_starts@.len() || self.line_starts@[hi as int] > offset,
            decreases hi - lo,
        {
            let mid = lo + (hi - lo) / 2;
            if self.line_starts[mid] <= offset {
                lo = mid;
            } else {
                hi = mid;
            }
        }
        proof {
            if lo + 1 < self.line_starts@.len() {
                assert(self.line_starts@[lo + 1] > offset);
            }
            lemma_last_start_index(self.line_starts@, offset, lo as int);
        }
        let col = offset - self.line_starts[lo];
        LineCol::new(lo as u32 + 1, col + 1)
    }

    /// The byte offset of a line/column position, if the line exists.
    pub fn offset(&self, line_col: LineCol) -> (r: Option<u32>)
        requires
            self.wf(),
            line_col.line >= 1,
            line_col.line - 1 < self.starts().len() ==> 1 <= self.starts()[line_col.line - 1] + line_col.col <= u32::MAX,
        ensures
            r == (if line_col.line - 1 < self.starts().len() {
                Some((self.starts()[line_col.line - 1] + line_col.col - 1) as u32)
            } else {
                None
            }),
    {
        proof {
            lemma_line_starts_sorted(self.bytes());
        }
        let line_idx = (line_col.line - 1) as usize;
        if line_idx >= self.line_starts.len() {
            return None;
        }
        let line_start = self.line_starts[line_idx];
        Some(line_start + line_col.col - 1)
    }

    /// The source text of a span.
    pub fn slice(&self, span: &Span) -> (r: &str)
        requires
            span.start <= span.end <= self.bytes().len(),
            is_char_boundary(self.bytes(), span.start as int),
            is_char_boundary(self.bytes(), span.end as int),
        ensures
            vstd::utf8::encode_utf8(r@) == self.bytes().subrange(span.start as int, span.end as int),
    {
        let s = self.contents.as_str();
        let b = Ghost(self.bytes());
        proof {
            vstd::utf8::encode_utf8_valid_utf8(self.contents@);
        }
        let (front, _) = s.split_at(span.end as usize);
        proof {
            let fb = vstd::utf8::encode_utf8(front@);
            vstd::utf8::encode_utf8_valid_utf8(front@);
            lemma_char_boundary_iff(b@, span.start as int);
            lemma_char_boundary_iff(fb, span.start as int);
            if (span.start as int) < span.end as int {
                assert(fb[span.start as int] == b@[span.start as int]);
            }
        }
        let (_, r) = front.split_at(span.start as usize);
        assert(vstd::utf8::encode_utf8(r@) =~= self.bytes().subrange(span.start as int, span.end as int));
        r
    }

    /// The text of a line (1-indexed), without its trailing newline.
    pub fn line(&self, line_num: u32) -> (r: Option<&str>)
        requires
            self.wf(),
            line_num >= 1,
        ensures
            (line_num - 1 < self.starts().len()) == r.is_some(),
            r matches Some(t) ==> vstd::utf8::encode_utf8(t@) == trim_trailing_newlines(
                self.bytes().subrange(
                    self.starts()[line_num - 1] as int,
                    if line_num < self.starts().len() { self.starts()[line_num as int] as int } else { self.bytes().len() as int },
                ),
            ),
    {
        proof {
            lemma_line_starts_sorted(self.bytes());
            lemma_newline_starts_sorted(self.bytes());
            vstd::utf8::encode_utf8_valid_utf8(self.contents@);
        }
        let idx = (line_num - 1) as usize;
        if idx >= self.line_starts.len() {
            return None;
        }
        let start = self.line_starts[idx] as usize;
        let end = if idx + 1 < self.line_starts.len() {
            self.line_starts[idx + 1] as usize
        } else {
            self.contents.as_str().len()
        };
        let bytes = self.contents.as_str().as_bytes();
        let ghost b = bytes@;
        // Line starts follow newline bytes, so they are character boundaries.
        proof {
            lemma_line_start_boundary(b, idx as int);
            if idx + 1 < self.line_starts@.len() {
                lemma_line_start_boundary(b, idx + 1);
            }
            lemma_char_boundary_iff(b, end as int);
        }
        let mut stop = end;
        while stop > start && bytes[stop - 1] == 10u8
            invariant
                start <= stop <= end <= b.len(),
                bytes@ == b,
                vstd::utf8::valid_utf8(b),
                is_char_boundary(b, stop as int),
                trim_trailing_newlines(b.subrange(start as int, end as int))
                    == trim_trailing_newlines(b.subrange(start as int, stop as int)),
            decreases stop,
        {
            assert(b.subrange(start as int, stop as int).drop_last() =~= b.subrange(start as int, stop - 1));
            proof {
                lemma_char_boundary_iff(b, stop - 1);
            }
            stop = stop - 1;
        }
        proof {
            lemma_char_boundary_iff(b, start as int);
            if stop > start {
                assert(b.subrange(start as int, stop as int).last() == b[stop - 1]);
            }
            assert(trim_trailing_newlines(b.subrange(start as int, stop as int)) == b.subrange(start as int, stop as int));
        }
        let span = Span { start: start as u32, end: stop as u32, file_id: self.id };
        Some(self.slice(&span))
    }

    /// Number of lines in the file.
    pub fn line_count(&self) -> (n: usize)
        requires
            self.wf(),
        ensures
            n == self.starts().len(),
    {
        self.line_starts.len()
    }
}

/// A line start in the index is a character boundary.
proof fn lemma_line_start_boundary(b: Seq<u8>, i: int)
    requires
        vstd::utf8::valid_utf8(b),
        b.len() <= u32::MAX,
        0 <= i < line_starts_of(b).len(),
    ensures
        is_char_boundary(b, line_starts_of(b)[i] as int),
        line_starts_of(b)[i] <= b.len(),
{
    lemma_line_starts_sorted(b);
    let p = line_starts_of(b)[i] as int;
    if i > 0 {
        lemma_newline_start_is_after_newline(b, i - 1);
        assert(p == newline_starts(b)[i - 1]);
        lemma_boundary_after_ascii(b, p - 1);
    }
}

/// The position after an ASCII byte is a character boundary.
pub proof fn lemma_boundary_after_ascii(b: Seq<u8>, q: int)
    requires
        vstd::utf8::valid_utf8(b),
        0 <= q < b.len(),
        b[q] < 0x80,
    ensures
        is_char_boundary(b, q + 1),
    decreases b.len(),
{
    assert(vstd::utf8::valid_first_scalar(b));
    let k = vstd::utf8::length_of_first_scalar(b);
    let p = vstd::utf8::pop_first_scalar(b);
    assert(1 <= k <= b.len());
    if q < k {
        assert(k == 1);
        assert(is_char_boundary(p, 0));
    } else {
        assert(p.len() == b.len() - k);
        assert(p[q - k] == b[q]);
        lemma_boundary_after_ascii(p, q - k);
    }
}

proof fn lemma_newline_start_is_after_newline(b: Seq<u8>, i: int)
    requires
        b.len() <= u32::MAX,
        0 <= i < newline_starts(b).len(),
    ensures
        newline_starts(b)[i] >= 1,
        newline_starts(b)[i] <= b.len(),
        b[newline_starts(b)[i] - 1] == 10u8,
    decreases b.len(),
{
    lemma_newline_starts_sorted(b);
    let d = b.drop_last();
    if b.last() == 10u8 && i == newline_starts(b).len() - 1 {
    } else {
        lemma_newline_start_is_after_newline(d, i);
        lemma_newline_starts_sorted(d);
    }
}

/// The index of the last line start at or before an offset is a line of
/// the file when the first line starts at zero.
proof fn lemma_last_start_in_range(starts: Seq<u32>, o: u32)
    requires
        starts.len() >= 1,
        starts[0] == 0,
    ensures
        0 <= last_start_index(starts, o) < starts.len(),
        starts[last_start_index(starts, o)] <= o,
    decreases starts.len(),
{
    if starts.last() > o {
        lemma_last_start_in_range(starts.drop_last(), o);
    }
}

/// `offset` undoes `line_col`: the line and column of an offset lead back
/// to it, for every offset below `u32::MAX` (at `u32::MAX` the column sum
/// overflows).
pub proof fn law_offset_line_col_roundtrip(f: SourceFile, o: u32)
    requires
        f.wf(),
        o < u32::MAX,
    ensures
        ({
            let k = last_start_index(f.starts(), o);
            let line = k + 1;
            let col = o - f.starts()[k] + 1;
            &&& 0 <= k < f.starts().len()
            &&& line >= 1 && line - 1 < f.starts().len()
            &&& 1 <= f.starts()[line - 1] + col <= u32::MAX
            &&& f.starts()[line - 1] + col - 1 == o
            &&& (if line - 1 < f.starts().len() { Some((f.starts()[line - 1] + col - 1) as u32) } else { None }) == Some(o)
        }),
{
    f.lemma_wf();
    lemma_last_start_in_range(f.starts(), o);
}

/// Database of source files.
#[derive(Debug, Default)]
pub struct SourceDb {
    files: Vec<SourceFile>,
}

impl SourceDb {
    /// The files, in the order they were added.
    pub closed spec fn files(&self) -> Seq<SourceFile> {
        self.files@
    }

    pub fn new() -> (db: SourceDb)
        ensures
            db.files() == Seq::<SourceFile>::empty(),
    {
        SourceDb { files: Vec::new() }
    }

    /// Add a source file, returning its identifier.
    pub fn add(&mut self, name: String, contents: String) -> (id: FileId)
        requires
            vstd::utf8::encode_utf8(contents@).len() <= u32::MAX,
        ensures
            id == FileId(old(self).files().len() as u32),
            final(self).files().len() == old(self).files().len() + 1,
            final(self).files().subrange(0, old(self).files().len() as int) == old(self).files(),
            final(self).files().last().wf(),
            final(self).files().last().id == id,
            final(self).files().last().name == name,
            final(self).files().last().contents == contents,
    {
        let id = FileId(self.files.len() as u32);
        self.files.push(SourceFile::new(id, name, contents));
        assert(self.files@.subrange(0, old(self).files@.len() as int) =~= old(self).files@);
        id
    }

    /// The source file with the given identifier.
    pub fn get(&self, id: FileId) -> (r: Option<&SourceFile>)
        ensures
            r == (if (id.0 as int) < self.files().len() { Some(&self.files()[id.0 as int]) } else { None }),
    {
        let idx = id.0 as usize;
        if idx < self.files.len() {
            Some(&self.files[idx])
        } else {
            None
        }
    }
}

} // verus!
