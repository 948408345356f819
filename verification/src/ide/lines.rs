//! Lines of a document and positions within it, over the document's bytes.

use vstd::prelude::*;
use vstd::string::StringSliceAdditionalSpecFns;

verus! {

/// The index of the first newline at or after `i`, or the length.
pub open spec fn next_newline(b: Seq<u8>, i: int) -> int
    decreases b.len() - i,
{
    if i >= b.len() {
        b.len() as int
    } else if b[i] == 10 {
        i
    } else {
        next_newline(b, i + 1)
    }
}

/// The line that starts at `i`: its content runs to the next newline, less
/// a carriage return just before that newline.
pub open spec fn line_at(b: Seq<u8>, i: int) -> (int, int) {
    let e = next_newline(b, i);
    if e < b.len() && e > i && b[e - 1] == 13 {
        (i, e - 1)
    } else {
        (i, e)
    }
}

/// The lines from byte `i` on, as byte ranges: text is split after each
/// newline, and a final empty line is not counted.
pub open spec fn lines_from(b: Seq<u8>, i: int) -> Seq<(int, int)>
    decreases b.len() + 1 - i,
{
    if i < 0 || i >= b.len() {
        Seq::empty()
    } else {
        proof {
            lemma_next_newline(b, i);
        }
        seq![line_at(b, i)] + lines_from(b, next_newline(b, i) + 1)
    }
}

/// The lines of a document, as byte ranges.
pub open spec fn lines(b: Seq<u8>) -> Seq<(int, int)> {
    lines_from(b, 0)
}

/// Where the line that starts at `i` ends, newline included.
pub proof fn lemma_next_newline(b: Seq<u8>, i: int)
    requires
        0 <= i,
    ensures
        i <= b.len() ==> i <= next_newline(b, i) <= b.len(),
        i > b.len() ==> next_newline(b, i) == b.len(),
        next_newline(b, i) < b.len() ==> b[next_newline(b, i)] == 10,
        forall|k: int| i <= k < next_newline(b, i) ==> b[k] != 10,
    decreases b.len() - i,
{
    if i < b.len() && b[i] != 10 {
        lemma_next_newline(b, i + 1);
    }
}

/// The first newline at or after `i`, or the length.
pub fn find_newline(b: &[u8], i: usize) -> (e: usize)
    requires
        i <= b@.len(),
    ensures
        e == next_newline(b@, i as int),
{
    let mut e = i;
    while e < b.len()
        invariant
            i <= e <= b@.len(),
            next_newline(b@, i as int) == next_newline(b@, e as int),
        decreases b@.len() - e,
    {
        if b[e] == 10 {
            return e;
        }
        e = e + 1;
    }
    e
}

/// The byte ranges of the lines of a document.
pub fn line_ranges(b: &[u8]) -> (r: Vec<(usize, usize)>)
    ensures
        r@.len() == lines(b@).len(),
        forall|k: int| 0 <= k < r@.len() ==> (#[trigger] r@[k]).0 == lines(b@)[k].0 && r@[k].1 == lines(b@)[k].1,
{
    let mut r: Vec<(usize, usize)> = Vec::new();
    let mut i: usize = 0;
    while i < b.len()
        invariant
            i <= b@.len(),
            r@.len() + lines_from(b@, i as int).len() == lines(b@).len(),
            forall|k: int| 0 <= k < r@.len() ==> (#[trigger] r@[k]).0 == lines(b@)[k].0 && r@[k].1 == lines(b@)[k].1,
            forall|k: int| 0 <= k < lines_from(b@, i as int).len() ==> #[trigger] lines_from(b@, i as int)[k] == lines(b@)[r@.len() + k],
        decreases b@.len() - i,
    {
        let e = find_newline(b, i);
        proof {
            lemma_next_newline(b@, i as int);
        }
        let end = if e < b.len() && e > i && b[e - 1] == 13 { e - 1 } else { e };
        proof {
            let rest = lines_from(b@, e + 1);
            assert(lines_from(b@, i as int) == seq![line_at(b@, i as int)] + rest);
            assert(lines_from(b@, i as int)[0] == lines(b@)[r@.len() as int]);
            assert forall|k: int| 0 <= k < rest.len() implies #[trigger] rest[k] == lines(b@)[r@.len() + 1 + k] by {
                assert(lines_from(b@, i as int)[k + 1] == rest[k]);
            }
        }
        r.push((i, end));
        if e < b.len() {
            i = e + 1;
        } else {
            assert(lines_from(b@, e + 1).len() == 0);
            assert(lines_from(b@, b@.len() as int).len() == 0);
            i = b.len();
        }
    }
    proof {
        assert(lines_from(b@, i as int).len() == 0);
    }
    r
}

/// Whether byte `c` begins a character: it is not a UTF-8 continuation byte.
pub open spec fn starts_char(c: u8) -> bool {
    !(0x80 <= c < 0xC0)
}

/// The zero-based line and column of byte offset `k`: the newlines before it,
/// and the characters between the last of them and it.
pub open spec fn position_of(b: Seq<u8>, k: int) -> (nat, nat)
    decreases k,
{
    if k <= 0 || b.len() == 0 {
        (0, 0)
    } else if k > b.len() {
        position_of(b, b.len() as int)
    } else {
        let (l, c) = position_of(b, k - 1);
        let x = b[k - 1];
        if !starts_char(x) {
            (l, c)
        } else if x == 10 {
            (l + 1, 0)
        } else {
            (l, c + 1)
        }
    }
}

/// Convert a byte offset to a zero-based line and column, counting
/// characters in the column.
pub fn offset_to_position(source: &str, offset: usize) -> (r: (usize, usize))
    ensures
        r.0 == position_of(source.spec_bytes(), offset as int).0,
        r.1 == position_of(source.spec_bytes(), offset as int).1,
{
    let b = source.as_bytes();
    let stop = if offset < b.len() { offset } else { b.len() };
    let mut line: usize = 0;
    let mut col: usize = 0;
    let mut i: usize = 0;
    while i < stop
        invariant
            stop <= b@.len(),
            b@ == source.spec_bytes(),
            i <= stop,
            line <= i,
            col <= i,
            line == position_of(b@, i as int).0,
            col == position_of(b@, i as int).1,
        decreases stop - i,
    {
        let x = b[i];
        if !(0x80 <= x && x < 0xC0) {
            if x == 10 {
                line = line + 1;
                col = 0;
            } else {
                col = col + 1;
            }
        }
        i = i + 1;
    }
    proof {
        if offset > b@.len() && b@.len() > 0 {
            assert(position_of(b@, offset as int) == position_of(b@, b@.len() as int));
        }
    }
    (line, col)
}

/// Convert a byte range to a pair of line-and-column positions.
pub fn span_to_range(source: &str, start: usize, end: usize) -> (r: ((usize, usize), (usize, usize)))
    ensures
        r.0.0 == position_of(source.spec_bytes(), start as int).0,
        r.0.1 == position_of(source.spec_bytes(), start as int).1,
        r.1.0 == position_of(source.spec_bytes(), end as int).0,
        r.1.1 == position_of(source.spec_bytes(), end as int).1,
{
    (offset_to_position(source, start), offset_to_position(source, end))
}

/// The offset of the start of line `n` when each line is taken to end with
/// one newline byte: the sum of the lengths of the lines before it, plus one
/// for each.
pub open spec fn line_offset(ls: Seq<(int, int)>, n: int) -> int
    decreases n,
{
    if n <= 0 || ls.len() == 0 {
        0
    } else if n > ls.len() {
        line_offset(ls, ls.len() as int)
    } else {
        line_offset(ls, n - 1) + (ls[n - 1].1 - ls[n - 1].0) + 1
    }
}

/// The byte offset of a line and column: the line's offset (counting one
/// newline byte per line) plus the column, at most the document's length.
pub open spec fn offset_of(b: Seq<u8>, line: int, character: int) -> int {
    let ls = lines(b);
    let o = if line < ls.len() { line_offset(ls, line) + character } else { line_offset(ls, ls.len() as int) };
    if o < b.len() { o } else { b.len() as int }
}

/// Convert a zero-based line and column to a byte offset.
pub fn position_to_offset(source: &str, line: u32, character: u32) -> (r: usize)
    ensures
        r == offset_of(source.spec_bytes(), line as int, character as int),
{
    let b = source.as_bytes();
    let ls = line_ranges(b);
    let ghost lsv = lines(b@);
    proof {
        lemma_lines_bounds(b@, 0);
    }
    let mut offset: u64 = 0;
    let mut k: usize = 0;
    let mut found = false;
    while k < ls.len()
        invariant_except_break
            k <= ls@.len(),
            !found,
            k <= line,
            offset == sat(line_offset(lsv, k as int)),
        invariant
            ls@.len() == lsv.len(),
            lsv == lines(b@),
            b@ == source.spec_bytes(),
            forall|j: int| 0 <= j < ls@.len() ==> (#[trigger] ls@[j]).0 == lsv[j].0 && ls@[j].1 == lsv[j].1,
            forall|j: int| 0 <= j < lsv.len() ==> 0 <= (#[trigger] lsv[j]).0 <= lsv[j].1 <= b@.len(),
        ensures
            found ==> line < lsv.len() && offset == sat(line_offset(lsv, line as int) + character),
            !found ==> k == ls@.len() && k <= line && offset == sat(line_offset(lsv, ls@.len() as int)),
        decreases ls@.len() - k,
    {
        if k == line as usize {
            offset = offset.saturating_add(character as u64);
            found = true;
            break;
        }
        let (a, e) = ls[k];
        offset = offset.saturating_add((e - a) as u64).saturating_add(1);
        k = k + 1;
    }
    proof {
        if found {
            assert(line < lsv.len());
        } else {
            assert(line as int >= lsv.len());
        }
        lemma_line_offset_nonneg(lsv, line as int);
        lemma_line_offset_nonneg(lsv, lsv.len() as int);
    }
    if (offset as u128) < (b.len() as u128) {
        offset as usize
    } else {
        b.len()
    }
}

/// A number, or `u64::MAX` when it is larger.
pub open spec fn sat(n: int) -> int {
    if n < u64::MAX { n } else { u64::MAX as int }
}

proof fn lemma_line_offset_nonneg(ls: Seq<(int, int)>, n: int)
    requires
        forall|j: int| 0 <= j < ls.len() ==> (#[trigger] ls[j]).0 <= ls[j].1,
    ensures
        line_offset(ls, n) >= 0,
    decreases n,
{
    if n > 0 && ls.len() > 0 {
        if n > ls.len() {
            lemma_line_offset_nonneg(ls, ls.len() as int);
        } else {
            lemma_line_offset_nonneg(ls, n - 1);
        }
    }
}

/// Every line lies within the document.
pub proof fn lemma_lines_bounds(b: Seq<u8>, i: int)
    requires
        0 <= i,
    ensures
        forall|j: int| 0 <= j < lines_from(b, i).len() ==> i <= (#[trigger] lines_from(b, i)[j]).0 <= lines_from(b, i)[j].1 <= b.len(),
    decreases b.len() + 1 - i,
{
    if i < b.len() {
        lemma_next_newline(b, i);
        lemma_lines_bounds(b, next_newline(b, i) + 1);
        let rest = lines_from(b, next_newline(b, i) + 1);
        assert forall|j: int| 0 <= j < lines_from(b, i).len() implies i <= (#[trigger] lines_from(b, i)[j]).0 <= lines_from(b, i)[j].1 <= b.len() by {
            if j > 0 {
                assert(lines_from(b, i)[j] == rest[j - 1]);
            }
        }
    }
}


/// A document of ASCII text without carriage returns.
pub open spec fn plain_ascii(b: Seq<u8>) -> bool {
    forall|i: int| 0 <= i < b.len() ==> #[trigger] b[i] < 0x80 && b[i] != 13
}

/// Within a line of ASCII text, the column of an offset is its distance
/// from the line's start.
proof fn lemma_position_in_line(b: Seq<u8>, i: int, k: nat, o: int)
    requires
        plain_ascii(b),
        0 <= i <= o <= next_newline(b, i),
        i <= b.len(),
        position_of(b, i) == (k, 0nat),
    ensures
        position_of(b, o) == (k, (o - i) as nat),
    decreases o - i,
{
    lemma_next_newline(b, i);
    if o > i {
        lemma_position_in_line(b, i, k, o - 1);
        assert(b[o - 1] != 10);
        assert(b[o - 1] < 0x80);
    }
}

/// From the start `i` of line `k` on, every offset's position leads back
/// to it.
proof fn lemma_roundtrip_from(b: Seq<u8>, i: int, k: nat, o: int)
    requires
        plain_ascii(b),
        0 <= i <= o <= b.len(),
        position_of(b, i) == (k, 0nat),
        lines_from(b, i) == lines(b).subrange(k as int, lines(b).len() as int),
        k <= lines(b).len(),
        line_offset(lines(b), k as int) == i,
    ensures
        offset_of(b, position_of(b, o).0 as int, position_of(b, o).1 as int) == o,
    decreases b.len() - i,
{
    let ls = lines(b);
    if i == b.len() {
        assert(lines_from(b, i).len() == 0);
        assert(k == ls.len());
        assert(o == i);
        assert(offset_of(b, k as int, 0) == o);
    } else {
        lemma_next_newline(b, i);
        let e = next_newline(b, i);
        assert(lines_from(b, i)[0] == line_at(b, i));
        assert(lines_from(b, i).len() > 0);
        assert(k < ls.len());
        assert(ls.subrange(k as int, ls.len() as int)[0] == ls[k as int]);
        assert(ls[k as int] == lines_from(b, i)[0]);
        assert(line_at(b, i) == (i, e)) by {
            if e < b.len() && e > i {
                assert(b[e - 1] != 13);
            }
        }
        if o <= e {
            lemma_position_in_line(b, i, k, o);
            assert(offset_of(b, k as int, o - i) == o);
        } else {
            lemma_position_in_line(b, i, k, e);
            assert(b[e] == 10);
            assert(position_of(b, e + 1) == (k + 1, 0nat));
            let rest = lines_from(b, e + 1);
            assert(lines_from(b, i) == seq![line_at(b, i)] + rest);
            assert(rest =~= ls.subrange(k as int + 1, ls.len() as int)) by {
                assert forall|j: int| 0 <= j < rest.len() implies rest[j] == ls.subrange(k as int + 1, ls.len() as int)[j] by {
                    assert(rest[j] == lines_from(b, i)[j + 1]);
                }
            }
            assert(line_offset(ls, k as int + 1) == line_offset(ls, k as int) + (ls[k as int].1 - ls[k as int].0) + 1);
            lemma_roundtrip_from(b, e + 1, (k + 1) as nat, o);
        }
    }
}

/// For ASCII text without carriage returns, the line and column of an
/// offset within the document lead back to it: `position_to_offset` undoes
/// `offset_to_position`.
pub proof fn law_position_offset_roundtrip(b: Seq<u8>, o: int)
    requires
        plain_ascii(b),
        0 <= o <= b.len(),
    ensures
        offset_of(b, position_of(b, o).0 as int, position_of(b, o).1 as int) == o,
{
    assert(lines_from(b, 0) =~= lines(b).subrange(0, lines(b).len() as int));
    lemma_roundtrip_from(b, 0, 0, o);
}

} // verus!
