//! The word under a cursor, and the hover documentation and definition
//! lookup built on it.

use vstd::prelude::*;
use vstd::string::StringSliceAdditionalSpecFns;
use vstd::std_specs::iter::IteratorSpec;
use vstd::utf8::{decode_utf8, encode_utf8, is_char_boundary};
use crate::base::text::{push_char, substr};
use crate::ide::docs::{get_keyword_documentation, keyword_doc};
use crate::ide::edit::{definition_from, find_definition, lemma_line_boundaries};
use crate::ide::lines::{lemma_lines_bounds, line_ranges, lines};

verus! {

broadcast use vstd::string::axiom_spec_iter, vstd::string::next_postcondition;

/// Whether a character is alphabetic or numeric in Unicode's sense, as
/// `char::is_alphanumeric` decides it.
pub uninterp spec fn alphanumeric(c: char) -> bool;

/// Whether a character is alphanumeric.
///
/// Trusted: calls `char::is_alphanumeric`, whose result depends on the
/// character alone (Unicode's Alphabetic and Numeric properties); it is
/// named `alphanumeric`, and spelled out for ASCII: the letters and digits
/// are alphanumeric, no other ASCII character is.
#[verifier::external_body]
fn is_alphanumeric(c: char) -> (r: bool)
    ensures
        r == alphanumeric(c),
        (c as u32) < 128 ==> r == (('a' <= c <= 'z') || ('A' <= c <= 'Z') || ('0' <= c <= '9')),
{
    c.is_alphanumeric()
}

/// A character that belongs to a word: alphanumeric, or `_`.
pub open spec fn word_char(c: char) -> bool {
    alphanumeric(c) || c == '_'
}

/// The index of the last character of `s` that does not belong to a word,
/// or -1.
pub open spec fn last_break(s: Seq<char>) -> int
    decreases s.len(),
{
    if s.len() == 0 {
        -1
    } else if !word_char(s.last()) {
        s.len() - 1
    } else {
        last_break(s.drop_last())
    }
}

/// The index of the first character of `s` that does not belong to a word,
/// or the length of `s`.
pub open spec fn first_break(s: Seq<char>) -> int
    decreases s.len(),
{
    if s.len() == 0 {
        0
    } else if !word_char(s[0]) {
        0
    } else {
        1 + first_break(s.drop_first())
    }
}

/// The bytes of line `k` of a document (without its line ending).
pub open spec fn line_bytes(b: Seq<u8>, k: int) -> Seq<u8> {
    b.subrange(lines(b)[k].0, lines(b)[k].1)
}

/// Whether the word at a line and byte column can be taken: the column
/// falls on a character boundary of its line, and the character that ends
/// the word on the left, if any, is a single byte.
pub open spec fn word_position_ok(b: Seq<u8>, k: int, col: int) -> bool {
    k >= lines(b).len() || col >= line_bytes(b, k).len() || {
        let lb = line_bytes(b, k);
        let pre = decode_utf8(lb.subrange(0, col));
        is_char_boundary(lb, col) && (last_break(pre) < 0 || (pre[last_break(pre)] as u32) < 0x80)
    }
}

/// The word at a line and byte column: none past the last line or past
/// the end of the line; otherwise the characters of the line around the
/// column that belong to a word.
pub open spec fn word_at(b: Seq<u8>, k: int, col: int) -> Option<Seq<char>> {
    if k >= lines(b).len() || col >= line_bytes(b, k).len() {
        None
    } else {
        let lb = line_bytes(b, k);
        let pre = decode_utf8(lb.subrange(0, col));
        let suf = decode_utf8(lb.subrange(col, lb.len() as int));
        Some(pre.subrange(last_break(pre) + 1, pre.len() as int) + suf.take(first_break(suf)))
    }
}

/// The characters of a string, in order.
fn chars_of(s: &str) -> (v: Vec<char>)
    ensures
        v@ == s@,
{
    let mut it = s.chars();
    let mut v: Vec<char> = Vec::new();
    loop
        invariant
            v@ + it.remaining() == s@,
            it.decrease() is Some,
        ensures
            v@ == s@,
        decreases it.decrease()->0,
    {
        let ghost before = it.remaining();
        match it.next() {
            Some(c) => {
                proof {
                    assert(before.len() > 0);
                    assert(before[0] == c);
                    assert(v@.push(c) + before.drop_first() =~= v@ + before);
                }
                v.push(c);
            },
            None => {
                proof {
                    assert(before.len() == 0);
                    assert(v@ + before =~= v@);
                }
                break;
            },
        }
    }
    v
}

/// When every character before `i` belongs to a word and the one at `i`
/// (if any) does not, the first break is at `i`.
proof fn lemma_first_break(s: Seq<char>, i: int)
    requires
        0 <= i <= s.len(),
        forall|m: int| 0 <= m < i ==> word_char(#[trigger] s[m]),
        i == s.len() || !word_char(s[i]),
    ensures
        first_break(s) == i,
    decreases i,
{
    if i > 0 {
        let t = s.drop_first();
        assert forall|m: int| 0 <= m < i - 1 implies word_char(#[trigger] t[m]) by {
            assert(t[m] == s[m + 1]);
        }
        if i < s.len() {
            assert(t[i - 1] == s[i]);
        }
        assert(word_char(s[0]));
        lemma_first_break(t, i - 1);
    }
}

/// The word of ASCII-delimited characters at a line and byte column, as an
/// editor asks for it on hover or go-to-definition.
pub fn get_word_at_position(source: &str, line: u32, character: u32) -> (r: Option<String>)
    requires
        word_position_ok(source.spec_bytes(), line as int, character as int),
    ensures
        match word_at(source.spec_bytes(), line as int, character as int) {
            Some(w) => r matches Some(s) && s@ == w,
            None => r is None,
        },
{
    let b = source.as_bytes();
    let ls = line_ranges(b);
    proof {
        lemma_lines_bounds(b@, 0);
        vstd::utf8::encode_utf8_valid_utf8(source@);
        vstd::utf8::is_char_boundary_start_end_of_seq(b@);
        lemma_line_boundaries(b@, 0);
    }
    let k = line as usize;
    if k >= ls.len() {
        return None;
    }
    let (a, e) = ls[k];
    let col = character as usize;
    if col >= e - a {
        return None;
    }
    let ghost lb = line_bytes(b@, k as int);
    let l = substr(source, a, e);
    assert(l.spec_bytes() == lb);
    proof {
        vstd::utf8::encode_utf8_valid_utf8(l@);
        vstd::utf8::is_char_boundary_start_end_of_seq(lb);
    }
    let pre = substr(l, 0, col);
    let suf = substr(l, col, e - a);
    let pc = chars_of(pre);
    let sc = chars_of(suf);
    let mut j = pc.len();
    assert(pc@.take(j as int) =~= pc@);
    while j > 0 && (is_alphanumeric(pc[j - 1]) || pc[j - 1] == '_')
        invariant
            j <= pc@.len(),
            last_break(pc@) == last_break(pc@.take(j as int)),
        decreases j,
    {
        proof {
            let t = pc@.take(j as int);
            assert(t.last() == pc@[j - 1]);
            assert(t.drop_last() =~= pc@.take(j - 1));
        }
        j = j - 1;
    }
    proof {
        if j > 0 {
            let t = pc@.take(j as int);
            assert(t.last() == pc@[j - 1]);
        } else {
            assert(pc@.take(0) =~= Seq::<char>::empty());
        }
    }
    let mut i: usize = 0;
    while i < sc.len() && (is_alphanumeric(sc[i]) || sc[i] == '_')
        invariant
            i <= sc@.len(),
            forall|m: int| 0 <= m < i ==> word_char(#[trigger] sc@[m]),
        decreases sc@.len() - i,
    {
        i = i + 1;
    }
    proof {
        lemma_first_break(sc@, i as int);
    }
    let mut word = String::new();
    let mut m = j;
    while m < pc.len()
        invariant
            j <= m <= pc@.len(),
            word@ == pc@.subrange(j as int, m as int),
        decreases pc@.len() - m,
    {
        push_char(&mut word, pc[m]);
        proof {
            assert(pc@.subrange(j as int, m + 1) =~= pc@.subrange(j as int, m as int).push(pc@[m as int]));
        }
        m = m + 1;
    }
    let mut n: usize = 0;
    while n < i
        invariant
            n <= i <= sc@.len(),
            word@ == pc@.subrange(j as int, pc@.len() as int) + sc@.take(n as int),
        decreases i - n,
    {
        push_char(&mut word, sc[n]);
        proof {
            assert(sc@.take(n + 1) =~= sc@.take(n as int).push(sc@[n as int]));
        }
        n = n + 1;
    }
    Some(word)
}

/// The hover text at a line and byte column: the documentation of the word
/// there, if it is a keyword of the language.
pub fn handle_hover(source: &str, line: u32, character: u32) -> (r: Option<String>)
    requires
        word_position_ok(source.spec_bytes(), line as int, character as int),
    ensures
        match word_at(source.spec_bytes(), line as int, character as int) {
            Some(w) => match keyword_doc(w) {
                Some(d) => r matches Some(s) && s@ == d,
                None => r is None,
            },
            None => r is None,
        },
{
    let word = get_word_at_position(source, line, character)?;
    get_keyword_documentation(word.as_str())
}

/// The definition of the word at a line and byte column: the first line
/// where it follows a `segment`, `sequence`, `program` or `transition`
/// keyword, with the byte columns where it stands.
pub fn handle_definition(source: &str, line: u32, character: u32) -> (r: Option<(usize, usize, usize)>)
    requires
        word_position_ok(source.spec_bytes(), line as int, character as int),
    ensures
        match word_at(source.spec_bytes(), line as int, character as int) {
            Some(w) => match definition_from(source.spec_bytes(), encode_utf8(w), 0) {
                Some((k, s, e)) => r == Some((k as usize, s as usize, e as usize)),
                None => r is None,
            },
            None => r is None,
        },
{
    let word = get_word_at_position(source, line, character)?;
    find_definition(source, word.as_str())
}

/// Whether the word at a line and byte column can be taken.
fn position_ok(source: &str, line: u32, character: u32) -> (r: bool)
    ensures
        r == word_position_ok(source.spec_bytes(), line as int, character as int),
{
    let b = source.as_bytes();
    let ls = line_ranges(b);
    proof {
        lemma_lines_bounds(b@, 0);
        vstd::utf8::encode_utf8_valid_utf8(source@);
        vstd::utf8::is_char_boundary_start_end_of_seq(b@);
        lemma_line_boundaries(b@, 0);
    }
    let k = line as usize;
    if k >= ls.len() {
        return true;
    }
    let (a, e) = ls[k];
    let col = character as usize;
    if col >= e - a {
        return true;
    }
    let ghost lb = line_bytes(b@, k as int);
    let l = substr(source, a, e);
    assert(l.spec_bytes() == lb);
    if !l.is_char_boundary(col) {
        return false;
    }
    proof {
        vstd::utf8::encode_utf8_valid_utf8(l@);
        vstd::utf8::is_char_boundary_start_end_of_seq(lb);
    }
    let pre = substr(l, 0, col);
    let pc = chars_of(pre);
    let mut j = pc.len();
    assert(pc@.take(j as int) =~= pc@);
    while j > 0 && (is_alphanumeric(pc[j - 1]) || pc[j - 1] == '_')
        invariant
            j <= pc@.len(),
            last_break(pc@) == last_break(pc@.take(j as int)),
        decreases j,
    {
        proof {
            let t = pc@.take(j as int);
            assert(t.last() == pc@[j - 1]);
            assert(t.drop_last() =~= pc@.take(j - 1));
        }
        j = j - 1;
    }
    proof {
        if j > 0 {
            let t = pc@.take(j as int);
            assert(t.last() == pc@[j - 1]);
        } else {
            assert(pc@.take(0) =~= Seq::<char>::empty());
        }
    }
    j == 0 || (pc[j - 1] as u32) < 0x80
}

/// The hover text at a position, or `None` where the word there cannot be
/// taken (its column splits a character, or a character of several bytes
/// ends the word on the left).
pub fn hover_at(source: &str, line: u32, character: u32) -> (r: Option<Option<String>>)
    ensures
        r is Some <==> word_position_ok(source.spec_bytes(), line as int, character as int),
        r matches Some(h) ==> match word_at(source.spec_bytes(), line as int, character as int) {
            Some(w) => match keyword_doc(w) {
                Some(d) => h matches Some(s) && s@ == d,
                None => h is None,
            },
            None => h is None,
        },
{
    if position_ok(source, line, character) {
        Some(handle_hover(source, line, character))
    } else {
        None
    }
}

/// The definition of the word at a position, or `None` where the word
/// there cannot be taken.
pub fn definition_at(source: &str, line: u32, character: u32) -> (r: Option<Option<(usize, usize, usize)>>)
    ensures
        r is Some <==> word_position_ok(source.spec_bytes(), line as int, character as int),
        r matches Some(d) ==> match word_at(source.spec_bytes(), line as int, character as int) {
            Some(w) => match definition_from(source.spec_bytes(), encode_utf8(w), 0) {
                Some((k, s, e)) => d == Some((k as usize, s as usize, e as usize)),
                None => d is None,
            },
            None => d is None,
        },
{
    if position_ok(source, line, character) {
        Some(handle_definition(source, line, character))
    } else {
        None
    }
}

} // verus!
