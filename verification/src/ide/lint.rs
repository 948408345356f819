//! Quick line-by-line checks of a document: unclosed braces, rotation
//! qualifiers that do not exist, short programs that run too long, and
//! wording to avoid.

use vstd::prelude::*;
use vstd::string::{StringSliceAdditionalSpecFns, is_ascii_spec_bytes};
use crate::base::text::{push_str, string_of};
use crate::ide::lines::{line_ranges, lines, next_newline, find_newline, lemma_lines_bounds, lemma_next_newline};

verus! {

/// The bytes of an ASCII text.
pub open spec fn ascii_bytes(s: Seq<char>) -> Seq<u8> {
    Seq::new(s.len(), |i: int| s[i] as u8)
}

/// The bytes of a string literal that holds only ASCII characters.
pub fn ascii_pattern(s: &'static str) -> (r: &'static [u8])
    requires
        vstd::utf8::is_ascii_chars(s@),
    ensures
        r@ == ascii_bytes(s@),
{
    proof {
        is_ascii_spec_bytes(s);
    }
    s.as_bytes()
}

/// The first index at or after `i` where `p` occurs in `h`.
pub open spec fn find_from(h: Seq<u8>, p: Seq<u8>, i: int) -> Option<int>
    decreases h.len() + 1 - i,
{
    if i < 0 || i + p.len() > h.len() {
        None
    } else if h.subrange(i, i + p.len()) == p {
        Some(i)
    } else {
        find_from(h, p, i + 1)
    }
}

/// The first index where `p` occurs in `h`.
pub open spec fn find_sub(h: Seq<u8>, p: Seq<u8>) -> Option<int> {
    find_from(h, p, 0)
}

/// Whether `p` occurs in `h`.
pub open spec fn contains_sub(h: Seq<u8>, p: Seq<u8>) -> bool {
    find_sub(h, p) is Some
}

/// Where `p` is found in `h`, it occurs there.
pub proof fn lemma_find_sub_bounds(h: Seq<u8>, p: Seq<u8>)
    ensures
        find_sub(h, p) matches Some(k) ==> 0 <= k && k + p.len() <= h.len() && h.subrange(k, k + p.len()) == p,
{
    lemma_find_from_bounds(h, p, 0);
}

proof fn lemma_find_from_bounds(h: Seq<u8>, p: Seq<u8>, i: int)
    ensures
        find_from(h, p, i) matches Some(k) ==> i <= k && k + p.len() <= h.len() && h.subrange(k, k + p.len()) == p,
    decreases h.len() + 1 - i,
{
    if !(i < 0 || i + p.len() > h.len()) && h.subrange(i, i + p.len()) != p {
        lemma_find_from_bounds(h, p, i + 1);
    }
}

/// The first index where `p` occurs in `b[lo..hi]`, relative to `lo`.
pub fn find_in(b: &[u8], lo: usize, hi: usize, p: &[u8]) -> (r: Option<usize>)
    requires
        lo <= hi <= b@.len(),
    ensures
        match find_sub(b@.subrange(lo as int, hi as int), p@) {
            Some(k) => r == Some(k as usize),
            None => r is None,
        },
{
    let ghost h = b@.subrange(lo as int, hi as int);
    let n = hi - lo;
    let m = p.len();
    if m > n {
        return None;
    }
    let mut i: usize = 0;
    loop
        invariant
            h == b@.subrange(lo as int, hi as int),
            n == h.len(),
            m == p@.len(),
            m <= n,
            lo <= hi <= b@.len(),
            i <= n - m,
            find_sub(h, p@) == find_from(h, p@, i as int),
        decreases n - m - i,
    {
        let mut j: usize = 0;
        let mut same = true;
        while j < m
            invariant_except_break
                j <= m,
                same,
                forall|t: int| 0 <= t < j ==> h[i + t] == p@[t],
            invariant
                h == b@.subrange(lo as int, hi as int),
                i + m <= n,
                m == p@.len(),
                n == h.len(),
                lo <= hi <= b@.len(),
            ensures
                same ==> forall|t: int| 0 <= t < m ==> h[i + t] == p@[t],
                !same ==> exists|t: int| 0 <= t < m && h[i + t] != p@[t],
            decreases m - j,
        {
            if b[lo + i + j] != p[j] {
                same = false;
                assert(h[i + j] != p@[j as int]);
                break;
            }
            j = j + 1;
        }
        if same {
            assert(h.subrange(i as int, i + m) =~= p@);
            return Some(i);
        }
        proof {
            let t = choose|t: int| 0 <= t < m && h[i + t] != p@[t];
            assert(h.subrange(i as int, i + m)[t] != p@[t]);
        }
        if i == n - m {
            assert(find_from(h, p@, i + 1) is None);
            return None;
        }
        i = i + 1;
    }
}

/// How serious an issue found in a line is.
#[derive(Debug, Clone, Copy, PartialEq, Eq, Structural)]
pub enum IssueSeverity {
    Error,
    Warning,
    Information,
}

/// An issue found in one line: the line's number, the byte columns it
/// covers, its severity and its message.
#[derive(Debug)]
pub struct LineIssue {
    pub line: usize,
    pub start: usize,
    pub end: usize,
    pub severity: IssueSeverity,
    pub message: String,
}

/// An issue as a value.
pub type IssueV = (int, int, int, IssueSeverity, Seq<char>);

/// The value of an issue.
pub open spec fn issue_view(i: LineIssue) -> IssueV {
    (i.line as int, i.start as int, i.end as int, i.severity, i.message@)
}

/// The message for a rotation qualifier that does not exist.
pub open spec fn qualifier_message(q: Seq<char>) -> Seq<char> {
    "Invalid rotation qualifier '"@ + q + "'. Use single, double, triple, or quad."@
}

/// The issue for an unknown qualifier `q` in line `k` with bytes `l`, if
/// it occurs there.
pub open spec fn qualifier_issue(l: Seq<u8>, k: int, q: Seq<char>) -> Seq<IssueV> {
    match find_sub(l, ascii_bytes(q)) {
        Some(p) => seq![(k, p, p + q.len(), IssueSeverity::Error, qualifier_message(q))],
        None => Seq::empty(),
    }
}

/// The issue of an opening brace in line `k` that no later text closes.
pub open spec fn brace_issue(l: Seq<u8>, k: int, rest: Seq<u8>) -> Seq<IssueV> {
    let brace = ascii_bytes("{"@);
    let close = ascii_bytes("}"@);
    if contains_sub(l, brace) && !contains_sub(l, close) && !contains_sub(rest, close) {
        let p = find_sub(l, brace)->0;
        seq![(k, p, p + 1, IssueSeverity::Error, "Unclosed brace"@)]
    } else {
        Seq::empty()
    }
}

/// The issues of unknown rotation qualifiers in a line about a jump.
pub open spec fn jump_issues(l: Seq<u8>, k: int) -> Seq<IssueV> {
    if contains_sub(l, ascii_bytes("jump"@)) {
        qualifier_issue(l, k, "penta"@) + qualifier_issue(l, k, "hexa"@) + qualifier_issue(l, k, "sept"@)
            + qualifier_issue(l, k, "oct"@)
    } else {
        Seq::empty()
    }
}

/// The issue of a short program line that names a time over the limit.
pub open spec fn short_issue(l: Seq<u8>, k: int) -> Seq<IssueV> {
    if contains_sub(l, ascii_bytes("short"@)) && contains_sub(l, ascii_bytes("program"@))
        && (contains_sub(l, ascii_bytes("5:00"@)) || contains_sub(l, ascii_bytes("6:00"@))
        || contains_sub(l, ascii_bytes("7:00"@))) {
        seq![(k, 0, l.len() as int, IssueSeverity::Warning,
            "Short program time limit exceeded. Singles: 2:40, Pairs: 2:40"@)]
    } else {
        Seq::empty()
    }
}

/// The issue of a line that uses gendered discipline names.
pub open spec fn wording_issue(l: Seq<u8>, k: int) -> Seq<IssueV> {
    if contains_sub(l, ascii_bytes("ladies"@)) || contains_sub(l, ascii_bytes("men"@)) {
        seq![(k, 0, l.len() as int, IssueSeverity::Information,
            "Consider using gender-neutral terms: 'singles' instead of 'ladies'/'men'"@)]
    } else {
        Seq::empty()
    }
}

/// The issues of line `k` with bytes `l`; `rest` is the text after the line.
pub open spec fn line_issues(l: Seq<u8>, k: int, rest: Seq<u8>) -> Seq<IssueV> {
    brace_issue(l, k, rest) + jump_issues(l, k) + short_issue(l, k) + wording_issue(l, k)
}

/// The text after the newline that ends the line starting at `a`.
pub open spec fn after_line(b: Seq<u8>, a: int) -> Seq<u8> {
    let n = next_newline(b, a) + 1;
    if n <= b.len() { b.subrange(n, b.len() as int) } else { Seq::empty() }
}

/// The issues of the first `n` lines, line by line.
pub open spec fn issues_upto(b: Seq<u8>, n: int) -> Seq<IssueV>
    decreases n,
{
    if n <= 0 {
        Seq::empty()
    } else {
        let (a, e) = lines(b)[n - 1];
        issues_upto(b, n - 1) + line_issues(b.subrange(a, e), n - 1, after_line(b, a))
    }
}

/// The issues of a document.
pub open spec fn document_issues(b: Seq<u8>) -> Seq<IssueV> {
    issues_upto(b, lines(b).len() as int)
}

fn push_issue(out: &mut Vec<LineIssue>, line: usize, start: usize, end: usize, severity: IssueSeverity, message: String)
    ensures
        final(out)@.len() == old(out)@.len() + 1,
        forall|i: int| 0 <= i < old(out)@.len() ==> #[trigger] final(out)@[i] == old(out)@[i],
        issue_view(final(out)@.last()) == (line as int, start as int, end as int, severity, message@),
{
    out.push(LineIssue { line, start, end, severity, message });
}

/// The views of a list of issues.
pub open spec fn issue_views(s: Seq<LineIssue>) -> Seq<IssueV> {
    s.map_values(|i: LineIssue| issue_view(i))
}

/// Add the issue of an unknown qualifier, if it occurs in the line.
fn check_qualifier(out: &mut Vec<LineIssue>, b: &[u8], a: usize, e: usize, k: usize, q: &'static str)
    requires
        a <= e <= b@.len(),
        vstd::utf8::is_ascii_chars(q@),
    ensures
        issue_views(final(out)@) == issue_views(old(out)@) + qualifier_issue(b@.subrange(a as int, e as int), k as int, q@),
{
    let p = ascii_pattern(q);
    match find_in(b, a, e, p) {
        Some(pos) => {
            proof {
                lemma_find_from_bounds(b@.subrange(a as int, e as int), p@, 0);
            }
            let mut message = string_of("Invalid rotation qualifier '");
            push_str(&mut message, q);
            push_str(&mut message, "'. Use single, double, triple, or quad.");
            let ghost o = issue_views(out@);
            push_issue(out, k, pos, pos + p.len(), IssueSeverity::Error, message);
            proof {
                assert(issue_views(out@) =~= o + qualifier_issue(b@.subrange(a as int, e as int), k as int, q@));
            }
        },
        None => {
            assert(issue_views(out@) =~= issue_views(out@) + Seq::<IssueV>::empty());
        },
    }
}

/// Whether `pat` occurs in `b[a..e]`.
fn has(b: &[u8], a: usize, e: usize, pat: &'static str) -> (r: bool)
    requires
        a <= e <= b@.len(),
        vstd::utf8::is_ascii_chars(pat@),
    ensures
        r == contains_sub(b@.subrange(a as int, e as int), ascii_bytes(pat@)),
{
    find_in(b, a, e, ascii_pattern(pat)).is_some()
}

fn reveal_patterns()
    ensures
        "{"@ == seq!['{'],
        "}"@ == seq!['}'],
        "jump"@ == seq!['j', 'u', 'm', 'p'],
        "penta"@ == seq!['p', 'e', 'n', 't', 'a'],
        "hexa"@ == seq!['h', 'e', 'x', 'a'],
        "sept"@ == seq!['s', 'e', 'p', 't'],
        "oct"@ == seq!['o', 'c', 't'],
        "short"@ == seq!['s', 'h', 'o', 'r', 't'],
        "program"@ == seq!['p', 'r', 'o', 'g', 'r', 'a', 'm'],
        "5:00"@ == seq!['5', ':', '0', '0'],
        "6:00"@ == seq!['6', ':', '0', '0'],
        "7:00"@ == seq!['7', ':', '0', '0'],
        "ladies"@ == seq!['l', 'a', 'd', 'i', 'e', 's'],
        "men"@ == seq!['m', 'e', 'n'],
{
    proof {
        reveal_strlit("{");
        reveal_strlit("}");
        reveal_strlit("jump");
        reveal_strlit("penta");
        reveal_strlit("hexa");
        reveal_strlit("sept");
        reveal_strlit("oct");
        reveal_strlit("short");
        reveal_strlit("program");
        reveal_strlit("5:00");
        reveal_strlit("6:00");
        reveal_strlit("7:00");
        reveal_strlit("ladies");
        reveal_strlit("men");
    }
}

/// Add the issue of an unclosed brace in the line `b[a..e]`, whose text
/// after it starts at `next`.
fn check_brace(out: &mut Vec<LineIssue>, b: &[u8], a: usize, e: usize, next: usize, k: usize)
    requires
        a <= e <= b@.len(),
        next <= b@.len(),
    ensures
        issue_views(final(out)@) == issue_views(old(out)@)
            + brace_issue(b@.subrange(a as int, e as int), k as int, b@.subrange(next as int, b@.len() as int)),
{
    reveal_patterns();
    let ghost l = b@.subrange(a as int, e as int);
    let open_p = ascii_pattern("{");
    let close_p = ascii_pattern("}");
    let first_open = find_in(b, a, e, open_p);
    if first_open.is_some() && find_in(b, a, e, close_p).is_none() && find_in(b, next, b.len(), close_p).is_none() {
        let p = first_open.unwrap();
        proof {
            lemma_find_from_bounds(l, open_p@, 0);
        }
        let ghost o = issue_views(out@);
        push_issue(out, k, p, p + 1, IssueSeverity::Error, string_of("Unclosed brace"));
        assert(issue_views(out@) =~= o + brace_issue(l, k as int, b@.subrange(next as int, b@.len() as int)));
    } else {
        assert(issue_views(out@) =~= issue_views(out@) + Seq::<IssueV>::empty());
    }
}

/// Add the issues of unknown rotation qualifiers in a line about a jump.
fn check_jump_line(out: &mut Vec<LineIssue>, b: &[u8], a: usize, e: usize, k: usize)
    requires
        a <= e <= b@.len(),
    ensures
        issue_views(final(out)@) == issue_views(old(out)@) + jump_issues(b@.subrange(a as int, e as int), k as int),
{
    reveal_patterns();
    let ghost o = issue_views(out@);
    if has(b, a, e, "jump") {
        check_qualifier(out, b, a, e, k, "penta");
        check_qualifier(out, b, a, e, k, "hexa");
        check_qualifier(out, b, a, e, k, "sept");
        check_qualifier(out, b, a, e, k, "oct");
    }
    assert(issue_views(out@) =~= o + jump_issues(b@.subrange(a as int, e as int), k as int));
}

/// Add the issue of a short program over the time limit.
fn check_short(out: &mut Vec<LineIssue>, b: &[u8], a: usize, e: usize, k: usize)
    requires
        a <= e <= b@.len(),
    ensures
        issue_views(final(out)@) == issue_views(old(out)@) + short_issue(b@.subrange(a as int, e as int), k as int),
{
    reveal_patterns();
    let ghost o = issue_views(out@);
    if has(b, a, e, "short") && has(b, a, e, "program")
        && (has(b, a, e, "5:00") || has(b, a, e, "6:00") || has(b, a, e, "7:00")) {
        push_issue(out, k, 0, e - a, IssueSeverity::Warning,
            string_of("Short program time limit exceeded. Singles: 2:40, Pairs: 2:40"));
    }
    assert(issue_views(out@) =~= o + short_issue(b@.subrange(a as int, e as int), k as int));
}

/// Add the issue of gendered wording.
fn check_wording(out: &mut Vec<LineIssue>, b: &[u8], a: usize, e: usize, k: usize)
    requires
        a <= e <= b@.len(),
    ensures
        issue_views(final(out)@) == issue_views(old(out)@) + wording_issue(b@.subrange(a as int, e as int), k as int),
{
    reveal_patterns();
    let ghost o = issue_views(out@);
    if has(b, a, e, "ladies") || has(b, a, e, "men") {
        push_issue(out, k, 0, e - a, IssueSeverity::Information,
            string_of("Consider using gender-neutral terms: 'singles' instead of 'ladies'/'men'"));
    }
    assert(issue_views(out@) =~= o + wording_issue(b@.subrange(a as int, e as int), k as int));
}

/// Check a document line by line for common mistakes.
#[verifier::spinoff_prover]
#[verifier::rlimit(40)]
pub fn generate_diagnostics(source: &str) -> (r: Vec<LineIssue>)
    ensures
        issue_views(r@) == document_issues(source.spec_bytes()),
{
    let b = source.as_bytes();
    let ls = line_ranges(b);
    proof {
        lemma_lines_bounds(b@, 0);
    }
    let mut out: Vec<LineIssue> = Vec::new();
    let mut k: usize = 0;
    while k < ls.len()
        invariant
            b@ == source.spec_bytes(),
            k <= ls@.len(),
            ls@.len() == lines(b@).len(),
            forall|j: int| 0 <= j < ls@.len() ==> (#[trigger] ls@[j]).0 == lines(b@)[j].0 && ls@[j].1 == lines(b@)[j].1,
            forall|j: int| 0 <= j < lines(b@).len() ==> 0 <= (#[trigger] lines(b@)[j]).0 <= lines(b@)[j].1 <= b@.len(),
            issue_views(out@) == issues_upto(b@, k as int),
        decreases ls@.len() - k,
    {
        let (a, e) = ls[k];
        let ghost l = b@.subrange(a as int, e as int);
        let ghost start = issue_views(out@);
        proof {
            lemma_next_newline(b@, a as int);
        }
        let nl = find_newline(b, a);
        let next = if nl < b.len() { nl + 1 } else { b.len() };
        let ghost rest = b@.subrange(next as int, b@.len() as int);
        assert(rest =~= after_line(b@, a as int));
        check_brace(&mut out, b, a, e, next, k);
        check_jump_line(&mut out, b, a, e, k);
        check_short(&mut out, b, a, e, k);
        check_wording(&mut out, b, a, e, k);
        proof {
            assert(issue_views(out@) =~= start + line_issues(l, k as int, rest));
        }
        k = k + 1;
    }
    out
}

} // verus!
