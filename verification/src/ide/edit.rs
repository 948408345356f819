//! Editing helpers: re-indenting a document, finding where a name is
//! defined, and the word at a position.

use vstd::prelude::*;
use vstd::string::StringSliceAdditionalSpecFns;
use vstd::utf8::{decode_utf8, encode_utf8, is_char_boundary, valid_utf8};
use crate::base::text::{push_char, push_str, str_eq, string_of, substr, trim_str, trimmed};
use crate::ide::lines::{line_ranges, lines, lines_from, next_newline, lemma_lines_bounds, lemma_next_newline};
use crate::ide::lint::{ascii_bytes, ascii_pattern, contains_sub, find_in, find_sub};
use crate::syntax::format::repeat;

verus! {

/// The text of the bytes `b[r.0..r.1]`.
pub open spec fn text_of(b: Seq<u8>, r: (int, int)) -> Seq<char> {
    decode_utf8(b.subrange(r.0, r.1))
}

/// Each line of a valid UTF-8 document starts and ends on a character
/// boundary.
pub proof fn lemma_line_boundaries(b: Seq<u8>, i: int)
    requires
        valid_utf8(b),
        0 <= i <= b.len(),
        is_char_boundary(b, i),
    ensures
        forall|k: int| 0 <= k < lines_from(b, i).len() ==> is_char_boundary(b, (#[trigger] lines_from(b, i)[k]).0)
            && is_char_boundary(b, lines_from(b, i)[k].1),
    decreases b.len() + 1 - i,
{
    if i < b.len() {
        lemma_next_newline(b, i);
        let e = next_newline(b, i);
        vstd::utf8::is_char_boundary_start_end_of_seq(b);
        if e < b.len() {
            vstd::utf8::is_char_boundary_iff_not_is_continuation_byte(b, e);
            if e > i && b[e - 1] == 13 {
                vstd::utf8::is_char_boundary_iff_not_is_continuation_byte(b, e - 1);
            }
            crate::base::source::lemma_boundary_after_ascii(b, e);
            lemma_line_boundaries(b, e + 1);
        }
        let rest = lines_from(b, e + 1);
        assert forall|k: int| 0 <= k < lines_from(b, i).len() implies is_char_boundary(b, (#[trigger] lines_from(b, i)[k]).0)
            && is_char_boundary(b, lines_from(b, i)[k].1) by {
            if k > 0 {
                assert(lines_from(b, i)[k] == rest[k - 1]);
            }
        }
    }
}

/// The text of line `k` of a document.
fn line_text(source: &str, a: usize, e: usize) -> (r: &str)
    requires
        a <= e <= source.spec_bytes().len(),
        is_char_boundary(source.spec_bytes(), a as int),
        is_char_boundary(source.spec_bytes(), e as int),
    ensures
        r@ == decode_utf8(source.spec_bytes().subrange(a as int, e as int)),
{
    substr(source, a, e)
}

/// The trimmed lines of a document.
pub open spec fn trimmed_lines(b: Seq<u8>) -> Seq<Seq<char>> {
    lines(b).map_values(|r: (int, int)| trimmed(text_of(b, r)))
}

/// The depth after re-indenting the first lines of `ts` from depth `d`.
pub open spec fn depth_after(ts: Seq<Seq<char>>, d: nat) -> nat
    decreases ts.len(),
{
    if ts.len() == 0 {
        d
    } else {
        let t = ts.last();
        let d0 = depth_after(ts.drop_last(), d);
        let d1: nat = if t.len() > 0 && t[0] == '}' { if d0 > 0 { (d0 - 1) as nat } else { 0 } } else { d0 };
        if t.len() > 0 && t.last() == '{' { d1 + 1 } else { d1 }
    }
}

/// The text of one re-indented line at depth `d`.
pub open spec fn reindent_line(t: Seq<char>, d: nat) -> Seq<char> {
    let d1: nat = if t.len() > 0 && t[0] == '}' { if d > 0 { (d - 1) as nat } else { 0 } } else { d };
    (if t.len() > 0 { repeat("    "@, d1) + t } else { Seq::empty() }) + "\n"@
}

/// The re-indented text of trimmed lines `ts`, starting at depth `d`,
/// taken line by line from the back: a line that opens with `}` is one
/// level shallower, a non-empty line is written after four spaces per
/// level, every line ends with a newline, and a line that ends with `{`
/// makes the following lines one level deeper.
pub open spec fn reindent_back(ts: Seq<Seq<char>>, d: nat) -> Seq<char>
    decreases ts.len(),
{
    if ts.len() == 0 {
        Seq::empty()
    } else {
        reindent_back(ts.drop_last(), d) + reindent_line(ts.last(), depth_after(ts.drop_last(), d))
    }
}

/// Re-indent every line of a document: four spaces per level of braces.
pub fn format_indentation(source: &str) -> (r: String)
    ensures
        r@ == reindent_back(trimmed_lines(source.spec_bytes()), 0),
{
    let b = source.as_bytes();
    let ls = line_ranges(b);
    proof {
        lemma_lines_bounds(b@, 0);
        vstd::utf8::encode_utf8_valid_utf8(source@);
        vstd::utf8::is_char_boundary_start_end_of_seq(b@);
        lemma_line_boundaries(b@, 0);
        reveal_strlit("    ");
    }
    let ghost ts = trimmed_lines(b@);
    let mut result = String::new();
    let mut indent_level: usize = 0;
    let mut k: usize = 0;
    while k < ls.len()
        invariant
            b@ == source.spec_bytes(),
            valid_utf8(b@),
            k <= ls@.len(),
            ls@.len() == lines(b@).len(),
            ts == trimmed_lines(b@),
            forall|j: int| 0 <= j < ls@.len() ==> (#[trigger] ls@[j]).0 == lines(b@)[j].0 && ls@[j].1 == lines(b@)[j].1,
            forall|j: int| 0 <= j < lines(b@).len() ==> 0 <= (#[trigger] lines(b@)[j]).0 <= lines(b@)[j].1 <= b@.len(),
            forall|j: int| 0 <= j < lines(b@).len() ==> is_char_boundary(b@, (#[trigger] lines(b@)[j]).0)
                && is_char_boundary(b@, lines(b@)[j].1),
            indent_level <= k,
            indent_level == depth_after(ts.take(k as int), 0),
            result@ == reindent_back(ts.take(k as int), 0),
        decreases ls@.len() - k,
    {
        let (a, e) = ls[k];
        let line = line_text(source, a, e);
        let t = trim_str(line);
        let n = t.as_str().unicode_len();
        proof {
            assert(ts[k as int] == t@);
            assert(ts.take(k + 1).drop_last() =~= ts.take(k as int));
            assert(ts.take(k + 1).last() == t@);
        }
        let ghost d0 = indent_level as nat;
        if n > 0 && t.as_str().get_char(0) == '}' {
            indent_level = if indent_level > 0 { indent_level - 1 } else { 0 };
        }
        let ghost d1 = indent_level as nat;
        assert(d1 == (if t@.len() > 0 && t@[0] == '}' { if d0 > 0 { (d0 - 1) as nat } else { 0nat } } else { d0 }));
        let ghost before = result@;
        if n > 0 {
            let mut i: usize = 0;
            while i < indent_level
                invariant
                    i <= indent_level,
                    result@ == before + repeat("    "@, i as nat),
                decreases indent_level - i,
            {
                push_str(&mut result, "    ");
                i = i + 1;
            }
            push_str(&mut result, t.as_str());
        }
        push_char(&mut result, '\n');
        proof {
            reveal_strlit("\n");
            assert(result@ =~= before + reindent_line(t@, d0));
        }
        if n > 0 && t.as_str().get_char(n - 1) == '{' {
            indent_level = indent_level + 1;
        }
        proof {
            assert(t@.len() > 0 ==> t@.last() == t@[n - 1]);
            assert(indent_level == depth_after(ts.take(k + 1), 0));
            assert(reindent_back(ts.take(k + 1), 0) == reindent_back(ts.take(k as int), 0) + reindent_line(t@, d0));
            assert(result@ =~= reindent_back(ts.take(k + 1), 0));
        }
        k = k + 1;
    }
    proof {
        assert(ts.take(k as int) =~= ts);
    }
    result
}

/// The edit that re-indents a document, if it changes anything: the number
/// of lines it replaces, from the start, and the new text.
pub fn format_document(source: &str) -> (r: Option<(usize, String)>)
    ensures
        match r {
            None => reindent_back(trimmed_lines(source.spec_bytes()), 0) == source@,
            Some((n, t)) => t@ == reindent_back(trimmed_lines(source.spec_bytes()), 0) && t@ != source@
                && n == lines(source.spec_bytes()).len(),
        },
{
    let formatted = format_indentation(source);
    if str_eq(formatted.as_str(), source) {
        None
    } else {
        let n = line_ranges(source.as_bytes()).len();
        Some((n, formatted))
    }
}

/// Whether the text before an occurrence of a name marks a definition.
pub open spec fn defines(before: Seq<u8>) -> bool {
    contains_sub(before, ascii_bytes("segment "@)) || contains_sub(before, ascii_bytes("sequence "@))
        || contains_sub(before, ascii_bytes("program "@)) || contains_sub(before, ascii_bytes("transition "@))
}

/// The first of lines `k..` whose first occurrence of `t` follows a
/// `segment`, `sequence`, `program` or `transition` keyword: the line and
/// the byte columns of the occurrence.
pub open spec fn definition_from(b: Seq<u8>, t: Seq<u8>, k: int) -> Option<(int, int, int)>
    decreases lines(b).len() - k,
{
    if k < 0 || k >= lines(b).len() {
        None
    } else {
        let (a, e) = lines(b)[k];
        match find_sub(b.subrange(a, e), t) {
            Some(p) => if defines(b.subrange(a, a + p)) { Some((k, p, p + t.len())) } else { definition_from(b, t, k + 1) },
            None => definition_from(b, t, k + 1),
        }
    }
}

/// Find where a segment, sequence, program or transition named `target` is
/// defined: the line and byte columns of the name.
pub fn find_definition(source: &str, target: &str) -> (r: Option<(usize, usize, usize)>)
    ensures
        match definition_from(source.spec_bytes(), target.spec_bytes(), 0) {
            Some((k, s, e)) => r == Some((k as usize, s as usize, e as usize)),
            None => r is None,
        },
{
    let b = source.as_bytes();
    let t = target.as_bytes();
    let ls = line_ranges(b);
    proof {
        lemma_lines_bounds(b@, 0);
        reveal_strlit("segment ");
        reveal_strlit("sequence ");
        reveal_strlit("program ");
        reveal_strlit("transition ");
    }
    let mut k: usize = 0;
    while k < ls.len()
        invariant
            b@ == source.spec_bytes(),
            t@ == target.spec_bytes(),
            k <= ls@.len(),
            ls@.len() == lines(b@).len(),
            forall|j: int| 0 <= j < ls@.len() ==> (#[trigger] ls@[j]).0 == lines(b@)[j].0 && ls@[j].1 == lines(b@)[j].1,
            forall|j: int| 0 <= j < lines(b@).len() ==> 0 <= (#[trigger] lines(b@)[j]).0 <= lines(b@)[j].1 <= b@.len(),
            definition_from(b@, t@, 0) == definition_from(b@, t@, k as int),
        decreases ls@.len() - k,
    {
        let (a, e) = ls[k];
        proof {
            reveal_strlit("segment ");
            reveal_strlit("sequence ");
            reveal_strlit("program ");
            reveal_strlit("transition ");
        }
        match find_in(b, a, e, t) {
            Some(pos) => {
                proof {
                    crate::ide::lint::lemma_find_sub_bounds(b@.subrange(a as int, e as int), t@);
                }
                if find_in(b, a, a + pos, ascii_pattern("segment ")).is_some()
                    || find_in(b, a, a + pos, ascii_pattern("sequence ")).is_some()
                    || find_in(b, a, a + pos, ascii_pattern("program ")).is_some()
                    || find_in(b, a, a + pos, ascii_pattern("transition ")).is_some() {
                    return Some((k, pos, pos + t.len()));
                }
            },
            None => {},
        }
        k = k + 1;
    }
    None
}

/// Whether a byte belongs to a word: an ASCII letter or digit, or `_`.
pub open spec fn word_byte(c: u8) -> bool {
    (48 <= c <= 57) || (65 <= c <= 90) || (97 <= c <= 122) || c == 95
}

/// Where the word around `i` starts: back over word bytes.
pub open spec fn word_start(b: Seq<u8>, i: int) -> int
    decreases i,
{
    if i <= 0 || i > b.len() || !word_byte(b[i - 1]) { i } else { word_start(b, i - 1) }
}

/// Where the word around `i` ends: on over word bytes.
pub open spec fn word_end(b: Seq<u8>, i: int) -> int
    decreases b.len() - i,
{
    if i < 0 || i >= b.len() || !word_byte(b[i]) { i } else { word_end(b, i + 1) }
}

/// The word of ASCII letters, digits and underscores around a byte offset.
pub fn word_at_offset(source: &str, offset: usize) -> (r: String)
    requires
        offset <= source.spec_bytes().len(),
        is_char_boundary(source.spec_bytes(), offset as int),
    ensures
        r@ == decode_utf8(source.spec_bytes().subrange(
            word_start(source.spec_bytes(), offset as int),
            word_end(source.spec_bytes(), offset as int),
        )),
{
    let b = source.as_bytes();
    let mut start = offset;
    while start > 0 && (b[start - 1] >= 48 && b[start - 1] <= 57 || b[start - 1] >= 65 && b[start - 1] <= 90
        || b[start - 1] >= 97 && b[start - 1] <= 122 || b[start - 1] == 95)
        invariant
            start <= offset <= b@.len(),
            b@ == source.spec_bytes(),
            word_start(b@, offset as int) == word_start(b@, start as int),
            start == offset || word_byte(b@[start as int]),
        decreases start,
    {
        start = start - 1;
    }
    let mut end = offset;
    while end < b.len() && (b[end] >= 48 && b[end] <= 57 || b[end] >= 65 && b[end] <= 90
        || b[end] >= 97 && b[end] <= 122 || b[end] == 95)
        invariant
            offset <= end <= b@.len(),
            b@ == source.spec_bytes(),
            word_end(b@, offset as int) == word_end(b@, end as int),
            end == offset || word_byte(b@[end - 1]),
        decreases b@.len() - end,
    {
        end = end + 1;
    }
    proof {
        vstd::utf8::encode_utf8_valid_utf8(source@);
        vstd::utf8::is_char_boundary_start_end_of_seq(b@);
        if start < offset {
            vstd::utf8::is_char_boundary_iff_not_is_continuation_byte(b@, start as int);
        }
        if end > offset && end < b@.len() {
            vstd::utf8::is_char_boundary_iff_not_is_continuation_byte(b@, end - 1);
            crate::base::source::lemma_boundary_after_ascii(b@, end - 1);
        }
    }
    string_of(substr(source, start, end))
}

} // verus!
