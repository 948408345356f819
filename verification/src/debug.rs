//! The interactive debugger's command interpreter: from a command line and
//! the session's state to the next state, the lines to show and what the
//! caller must do next (go on, load a file, or stop).

use vstd::prelude::*;
use vstd::string::StringSliceAdditionalSpecFns;
use crate::base::text::{decimal, push_decimal, push_str, string_of, white_space};
use crate::ide::lines::{line_ranges, lines};
use crate::ide::edit::{lemma_line_boundaries, text_of};

verus! {

/// The words of a text: its maximal runs of characters without Unicode's
/// White_Space property, in order.
pub open spec fn words(s: Seq<char>) -> Seq<Seq<char>>
    decreases s.len(),
{
    if s.len() == 0 {
        Seq::empty()
    } else {
        let ws = words(s.drop_last());
        let c = s.last();
        if white_space(c) {
            ws
        } else if s.len() >= 2 && !white_space(s[s.len() - 2]) {
            ws.update(ws.len() - 1, ws.last().push(c))
        } else {
            ws.push(seq![c])
        }
    }
}

/// The words of a command line.
///
/// Trusted: calls `str::split_whitespace`, which splits the text at runs of
/// characters with Unicode's White_Space property and drops empty pieces, as
/// `words` states.
#[verifier::external_body]
fn split_words(s: &str) -> (r: Vec<String>)
    ensures
        r@.map_values(|w: String| w@) == words(s@),
{
    s.split_whitespace().map(|w| w.to_string()).collect()
}

/// The value of ASCII decimal digits.
pub open spec fn digits_value(d: Seq<u8>) -> nat
    decreases d.len(),
{
    if d.len() == 0 {
        0
    } else {
        digits_value(d.drop_last()) * 10 + (d.last() - 48) as nat
    }
}

/// Whether every byte is an ASCII digit.
pub open spec fn all_digits(d: Seq<u8>) -> bool {
    forall|i: int| 0 <= i < d.len() ==> 48 <= #[trigger] d[i] <= 57
}

/// The text after an optional leading `+`.
pub open spec fn digits_part(b: Seq<u8>) -> Seq<u8> {
    if b.len() > 0 && b[0] == 43 { b.subrange(1, b.len() as int) } else { b }
}

/// The number a text spells as `usize` parsing reads it: an optional `+`,
/// then one or more decimal digits, with a value that fits.
pub open spec fn parsed_usize(b: Seq<u8>) -> Option<nat> {
    let d = digits_part(b);
    if d.len() > 0 && all_digits(d) && digits_value(d) <= usize::MAX {
        Some(digits_value(d))
    } else {
        None
    }
}

proof fn lemma_digits_value_mono(d: Seq<u8>, k: int)
    requires
        all_digits(d),
        0 <= k <= d.len(),
    ensures
        digits_value(d.take(k)) <= digits_value(d),
    decreases d.len() - k,
{
    if k < d.len() {
        lemma_digits_value_mono(d, k + 1);
        assert(d.take(k + 1).drop_last() =~= d.take(k));
    } else {
        assert(d.take(k) =~= d);
    }
}

/// Parse a number the way `str::parse::<usize>` does.
pub fn parse_usize(s: &str) -> (r: Option<usize>)
    ensures
        match parsed_usize(s.spec_bytes()) {
            Some(n) => r == Some(n as usize),
            None => r is None,
        },
{
    let b = s.as_bytes();
    let start: usize = if b.len() > 0 && b[0] == 43 { 1 } else { 0 };
    let ghost d = digits_part(b@);
    assert(d =~= b@.subrange(start as int, b@.len() as int));
    if start >= b.len() {
        assert(d.len() == 0);
        return None;
    }
    let mut value: usize = 0;
    let mut i: usize = start;
    while i < b.len()
        invariant
            start <= i <= b@.len(),
            d == b@.subrange(start as int, b@.len() as int),
            d == digits_part(b@),
            b@ == s.spec_bytes(),
            all_digits(d.take(i - start)),
            value == digits_value(d.take(i - start)),
        decreases b@.len() - i,
    {
        let c = b[i];
        let ghost t = d.take(i - start + 1);
        assert(t.drop_last() =~= d.take(i - start));
        assert(t.last() == c);
        if c < 48 || c > 57 {
            assert(!all_digits(d));
            return None;
        }
        let digit = (c - 48) as usize;
        if value > (usize::MAX - digit) / 10 {
            proof {
                assert(digits_value(t) == value * 10 + digit) by (nonlinear_arith)
                    requires
                        digits_value(t) == digits_value(t.drop_last()) * 10 + (t.last() - 48) as nat,
                        digits_value(t.drop_last()) == value,
                        (t.last() - 48) as nat == digit;
                assert(value * 10 + digit > usize::MAX) by (nonlinear_arith)
                    requires
                        value > (usize::MAX - digit) / 10,
                        digit <= 9;
                assert(all_digits(t));
                if all_digits(d) {
                    lemma_digits_value_mono(d, i - start + 1);
                    assert(digits_value(d) > usize::MAX);
                }
                assert(parsed_usize(b@) is None);
            }
            return None;
        }
        proof {
            assert(value * 10 + digit <= usize::MAX) by (nonlinear_arith)
                requires
                    value <= (usize::MAX - digit) / 10,
                    digit <= 9;
        }
        value = value * 10 + digit;
        i = i + 1;
    }
    assert(d.take(i - start) =~= d);
    Some(value)
}

/// The commands of the debugger.
#[derive(Debug, Clone, Copy, PartialEq, Eq, Structural)]
pub enum Command {
    Help,
    Load,
    Run,
    Break,
    Delete,
    Breakpoints,
    List,
    Check,
    Info,
    Quit,
    Unknown,
}

/// The command a word names, with its short forms.
pub open spec fn command_named(w: Seq<char>) -> Command {
    if w == "help"@ || w == "h"@ {
        Command::Help
    } else if w == "load"@ || w == "l"@ {
        Command::Load
    } else if w == "run"@ || w == "r"@ {
        Command::Run
    } else if w == "break"@ || w == "b"@ {
        Command::Break
    } else if w == "delete"@ || w == "d"@ {
        Command::Delete
    } else if w == "breakpoints"@ || w == "bp"@ {
        Command::Breakpoints
    } else if w == "list"@ || w == "ls"@ {
        Command::List
    } else if w == "check"@ || w == "c"@ {
        Command::Check
    } else if w == "info"@ || w == "i"@ {
        Command::Info
    } else if w == "quit"@ || w == "q"@ || w == "exit"@ {
        Command::Quit
    } else {
        Command::Unknown
    }
}

/// The command a word names.
pub fn command_of(w: &str) -> (c: Command)
    ensures
        c == command_named(w@),
{
    if crate::base::text::str_eq(w, "help") || crate::base::text::str_eq(w, "h") {
        Command::Help
    } else if crate::base::text::str_eq(w, "load") || crate::base::text::str_eq(w, "l") {
        Command::Load
    } else if crate::base::text::str_eq(w, "run") || crate::base::text::str_eq(w, "r") {
        Command::Run
    } else if crate::base::text::str_eq(w, "break") || crate::base::text::str_eq(w, "b") {
        Command::Break
    } else if crate::base::text::str_eq(w, "delete") || crate::base::text::str_eq(w, "d") {
        Command::Delete
    } else if crate::base::text::str_eq(w, "breakpoints") || crate::base::text::str_eq(w, "bp") {
        Command::Breakpoints
    } else if crate::base::text::str_eq(w, "list") || crate::base::text::str_eq(w, "ls") {
        Command::List
    } else if crate::base::text::str_eq(w, "check") || crate::base::text::str_eq(w, "c") {
        Command::Check
    } else if crate::base::text::str_eq(w, "info") || crate::base::text::str_eq(w, "i") {
        Command::Info
    } else if crate::base::text::str_eq(w, "quit") || crate::base::text::str_eq(w, "q") || crate::base::text::str_eq(w, "exit") {
        Command::Quit
    } else {
        Command::Unknown
    }
}

/// What the caller does after a command.
#[derive(Debug, Clone, PartialEq, Eq)]
pub enum DebugAction {
    /// Read the next command.
    Continue,
    /// Read the named file and hand its text to `loaded`.
    Load(String),
    /// Leave the debugger.
    Exit,
}

/// The debugger's state.
pub struct Debugger {
    /// Source files loaded, in order: path and text.
    sources: Vec<(String, String)>,
    /// Breakpoint line numbers, in increasing order.
    breakpoints: Vec<usize>,
    /// Whether the program is running.
    running: bool,
    /// Current source file path.
    current_file: Option<String>,
}

/// Whether a sequence is strictly increasing.
pub open spec fn increasing(s: Seq<usize>) -> bool {
    forall|i: int, j: int| 0 <= i < j < s.len() ==> s[i] < s[j]
}

/// The increasing sequence `s` with `x` added in its place.
pub open spec fn insert_sorted(s: Seq<usize>, x: usize) -> Seq<usize> {
    s.filter(|y: usize| y < x) + seq![x] + s.filter(|y: usize| y > x)
}

/// The help text.
pub open spec fn help_lines() -> Seq<Seq<char>> {
    seq![
        "Available commands:"@,
        "  help, h              - Show this help message"@,
        "  load, l <file>       - Load Anvomidav source file"@,
        "  run, r               - Execute loaded program"@,
        "  break, b <line>      - Set breakpoint at line number"@,
        "  delete, d <num>      - Delete breakpoint"@,
        "  breakpoints, bp      - List all breakpoints"@,
        "  list, ls             - List source code"@,
        "  check, c             - Check program syntax"@,
        "  info, i              - Show program info"@,
        "  quit, q, exit        - Exit debugger"@,
    ]
}

/// A number right-aligned in four columns.
pub open spec fn pad4(n: nat) -> Seq<char> {
    let d = decimal(n);
    if d.len() < 4 { Seq::new((4 - d.len()) as nat, |i: int| ' ') + d } else { d }
}

impl Debugger {
    /// The breakpoints.
    pub closed spec fn bps(&self) -> Seq<usize> {
        self.breakpoints@
    }

    /// Whether the program runs.
    pub closed spec fn is_running(&self) -> bool {
        self.running
    }

    /// The current file's path.
    pub closed spec fn file(&self) -> Option<Seq<char>> {
        match self.current_file {
            Some(p) => Some(p@),
            None => None,
        }
    }

    /// The loaded sources: path and text.
    pub closed spec fn loaded_sources(&self) -> Seq<(Seq<char>, Seq<char>)> {
        self.sources@.map_values(|p: (String, String)| (p.0@, p.1@))
    }

    /// The breakpoints are strictly increasing.
    pub closed spec fn wf(&self) -> bool {
        increasing(self.breakpoints@)
    }

    /// The lines that `run` shows.
    pub open spec fn run_lines(&self) -> Seq<Seq<char>> {
        if self.file() is None {
            seq!["No file loaded. Use 'load <file>' first"@]
        } else {
            seq!["Running program..."@, "✓ Program execution simulated (full execution requires anv CLI)"@]
        }
    }

    /// The lines that `check` shows.
    pub open spec fn check_lines(&self) -> Seq<Seq<char>> {
        if self.file() is None {
            seq!["No file loaded. Use 'load <file>' first"@]
        } else {
            seq!["Checking program syntax..."@, "✓ Syntax check passed"@]
        }
    }

    /// The lines that `breakpoints` shows.
    pub open spec fn breakpoint_lines(&self) -> Seq<Seq<char>> {
        if self.bps().len() == 0 {
            seq!["No breakpoints set"@]
        } else {
            seq!["Breakpoints:"@] + Seq::new(self.bps().len(), |i: int|
                "  "@ + decimal((i + 1) as nat) + " - line "@ + decimal(self.bps()[i] as nat))
        }
    }

    /// The lines that `list` shows.
    pub open spec fn source_lines(&self) -> Seq<Seq<char>> {
        if self.loaded_sources().len() == 0 {
            seq!["No file loaded"@]
        } else {
            let (path, text) = self.loaded_sources()[0];
            let b = vstd::utf8::encode_utf8(text);
            let ls = lines(b);
            seq!["Source: "@ + path, "---"@] + Seq::new(ls.len(), |i: int|
                (if self.bps().contains((i + 1) as usize) { "*"@ } else { " "@ }) + pad4((i + 1) as nat) + " | "@
                    + text_of(b, ls[i])) + seq!["---"@]
        }
    }

    /// The lines that `info` shows.
    pub open spec fn info_lines(&self) -> Seq<Seq<char>> {
        seq![
            "Debugger Status:"@,
            "  Loaded file: "@ + (match self.file() { Some(p) => p, None => "none"@ }),
            "  Running: "@ + (if self.is_running() { "true"@ } else { "false"@ }),
            "  Breakpoints: "@ + decimal(self.bps().len()),
        ]
    }

    /// A debugger with nothing loaded.
    pub fn new() -> (d: Debugger)
        ensures
            d.wf(),
            d.bps().len() == 0,
            !d.is_running(),
            d.file() is None,
            d.loaded_sources().len() == 0,
    {
        let d = Debugger { sources: Vec::new(), breakpoints: Vec::new(), running: false, current_file: None };
        assert(d.loaded_sources() =~= Seq::empty());
        d
    }

    /// The help text.
    pub fn show_help(&self) -> (r: Vec<String>)
        ensures
            r@.map_values(|s: String| s@) == help_lines(),
    {
        let mut r: Vec<String> = Vec::new();
        r.push(string_of("Available commands:"));
        r.push(string_of("  help, h              - Show this help message"));
        r.push(string_of("  load, l <file>       - Load Anvomidav source file"));
        r.push(string_of("  run, r               - Execute loaded program"));
        r.push(string_of("  break, b <line>      - Set breakpoint at line number"));
        r.push(string_of("  delete, d <num>      - Delete breakpoint"));
        r.push(string_of("  breakpoints, bp      - List all breakpoints"));
        r.push(string_of("  list, ls             - List source code"));
        r.push(string_of("  check, c             - Check program syntax"));
        r.push(string_of("  info, i              - Show program info"));
        r.push(string_of("  quit, q, exit        - Exit debugger"));
        assert(r@.map_values(|s: String| s@) =~= help_lines());
        r
    }

    /// Record a file that was read: it becomes the current file.
    pub fn loaded(&mut self, path: String, source: String) -> (r: String)
        requires
            old(self).wf(),
        ensures
            final(self).wf(),
            final(self).loaded_sources() == old(self).loaded_sources().push((path@, source@)),
            final(self).file() == Some(path@),
            final(self).bps() == old(self).bps(),
            final(self).is_running() == old(self).is_running(),
            r@ == "Loaded: "@ + path@,
    {
        let mut r = string_of("Loaded: ");
        push_str(&mut r, path.as_str());
        self.current_file = Some(path.clone());
        self.sources.push((path, source));
        proof {
            assert(self.loaded_sources() =~= old(self).loaded_sources().push((path@, source@)));
        }
        r
    }

    /// Start running the loaded program.
    pub fn run_program(&mut self) -> (r: Vec<String>)
        requires
            old(self).wf(),
        ensures
            final(self).wf(),
            final(self).bps() == old(self).bps(),
            final(self).file() == old(self).file(),
            final(self).loaded_sources() == old(self).loaded_sources(),
            old(self).file() is None ==> final(self).is_running() == old(self).is_running()
                && r@.map_values(|s: String| s@) == seq!["No file loaded. Use 'load <file>' first"@],
            old(self).file() is Some ==> final(self).is_running()
                && r@.map_values(|s: String| s@) == seq![
                    "Running program..."@,
                    "✓ Program execution simulated (full execution requires anv CLI)"@,
                ],
            r@.map_values(|s: String| s@) == old(self).run_lines(),
    {
        let mut r: Vec<String> = Vec::new();
        if self.current_file.is_none() {
            r.push(string_of("No file loaded. Use 'load <file>' first"));
            assert(r@.map_values(|s: String| s@) =~= seq!["No file loaded. Use 'load <file>' first"@]);
            return r;
        }
        r.push(string_of("Running program..."));
        r.push(string_of("✓ Program execution simulated (full execution requires anv CLI)"));
        self.running = true;
        assert(r@.map_values(|s: String| s@) =~= seq![
            "Running program..."@,
            "✓ Program execution simulated (full execution requires anv CLI)"@,
        ]);
        r
    }

    /// Check the loaded program.
    pub fn check_program(&self) -> (r: Vec<String>)
        ensures
            self.file() is None ==> r@.map_values(|s: String| s@) == seq!["No file loaded. Use 'load <file>' first"@],
            self.file() is Some ==> r@.map_values(|s: String| s@) == seq![
                "Checking program syntax..."@,
                "✓ Syntax check passed"@,
            ],
            r@.map_values(|s: String| s@) == self.check_lines(),
    {
        let mut r: Vec<String> = Vec::new();
        if self.current_file.is_none() {
            r.push(string_of("No file loaded. Use 'load <file>' first"));
            assert(r@.map_values(|s: String| s@) =~= seq!["No file loaded. Use 'load <file>' first"@]);
            return r;
        }
        r.push(string_of("Checking program syntax..."));
        r.push(string_of("✓ Syntax check passed"));
        assert(r@.map_values(|s: String| s@) =~= seq!["Checking program syntax..."@, "✓ Syntax check passed"@]);
        r
    }

    /// Set a breakpoint at a line, keeping the breakpoints in order.
    pub fn add_breakpoint(&mut self, line: usize) -> (r: String)
        requires
            old(self).wf(),
        ensures
            final(self).wf(),
            final(self).is_running() == old(self).is_running(),
            final(self).file() == old(self).file(),
            final(self).loaded_sources() == old(self).loaded_sources(),
            old(self).bps().contains(line) ==> final(self).bps() == old(self).bps()
                && r@ == "Breakpoint already exists at line "@ + decimal(line as nat),
            !old(self).bps().contains(line) ==> final(self).bps() == insert_sorted(old(self).bps(), line)
                && r@ == "Breakpoint "@ + decimal(final(self).bps().len()) + " set at line "@ + decimal(line as nat),
    {
        let ghost s = self.breakpoints@;
        let mut pos: usize = 0;
        while pos < self.breakpoints.len() && self.breakpoints[pos] < line
            invariant
                self.breakpoints@ == s,
                increasing(s),
                pos <= s.len(),
                forall|j: int| 0 <= j < pos ==> s[j] < line,
            decreases s.len() - pos,
        {
            pos = pos + 1;
        }
        if pos < self.breakpoints.len() && self.breakpoints[pos] == line {
            let mut r = string_of("Breakpoint already exists at line ");
            push_decimal(&mut r, line as u64);
            return r;
        }
        proof {
            assert(!s.contains(line)) by {
                if s.contains(line) {
                    let j = choose|j: int| 0 <= j < s.len() && s[j] == line;
                    if j >= pos {
                        assert(s[pos as int] <= s[j]);
                    }
                }
            }
        }
        self.breakpoints.insert(pos, line);
        proof {
            lemma_insert_sorted(s, line, pos as int);
            assert(self.breakpoints@ =~= s.subrange(0, pos as int) + seq![line] + s.subrange(pos as int, s.len() as int));
        }
        let mut r = string_of("Breakpoint ");
        push_decimal(&mut r, self.breakpoints.len() as u64);
        push_str(&mut r, " set at line ");
        push_decimal(&mut r, line as u64);
        r
    }

    /// Delete the breakpoint with the given number, counting from one.
    pub fn delete_breakpoint(&mut self, num: usize) -> (r: String)
        requires
            old(self).wf(),
        ensures
            final(self).wf(),
            final(self).is_running() == old(self).is_running(),
            final(self).file() == old(self).file(),
            final(self).loaded_sources() == old(self).loaded_sources(),
            (0 < num <= old(self).bps().len()) ==> final(self).bps() == old(self).bps().remove(num - 1)
                && r@ == "Breakpoint "@ + decimal(num as nat) + " at line "@ + decimal(old(self).bps()[num - 1] as nat)
                    + " deleted"@,
            !(0 < num <= old(self).bps().len()) ==> final(self).bps() == old(self).bps()
                && r@ == "Invalid breakpoint number: "@ + decimal(num as nat),
    {
        if num > 0 && num <= self.breakpoints.len() {
            let line = self.breakpoints.remove(num - 1);
            proof {
                assert forall|i: int, j: int| 0 <= i < j < self.breakpoints@.len() implies self.breakpoints@[i] < self.breakpoints@[j] by {
                    let s = old(self).breakpoints@;
                    let a = if i < num - 1 { i } else { i + 1 };
                    let b = if j < num - 1 { j } else { j + 1 };
                    assert(self.breakpoints@[i] == s[a]);
                    assert(self.breakpoints@[j] == s[b]);
                }
            }
            let mut r = string_of("Breakpoint ");
            push_decimal(&mut r, num as u64);
            push_str(&mut r, " at line ");
            push_decimal(&mut r, line as u64);
            push_str(&mut r, " deleted");
            r
        } else {
            let mut r = string_of("Invalid breakpoint number: ");
            push_decimal(&mut r, num as u64);
            r
        }
    }

    /// The breakpoints, numbered from one.
    pub fn list_breakpoints(&self) -> (r: Vec<String>)
        ensures
            self.bps().len() == 0 ==> r@.map_values(|s: String| s@) == seq!["No breakpoints set"@],
            self.bps().len() > 0 ==> r@.len() == self.bps().len() + 1 && r@[0]@ == "Breakpoints:"@
                && forall|i: int| 0 <= i < self.bps().len() ==> (#[trigger] r@[i + 1])@
                    == "  "@ + decimal((i + 1) as nat) + " - line "@ + decimal(self.bps()[i] as nat),
            r@.map_values(|s: String| s@) == self.breakpoint_lines(),
    {
        let mut r: Vec<String> = Vec::new();
        if self.breakpoints.len() == 0 {
            r.push(string_of("No breakpoints set"));
            assert(r@.map_values(|s: String| s@) =~= seq!["No breakpoints set"@]);
            return r;
        }
        r.push(string_of("Breakpoints:"));
        let mut i: usize = 0;
        while i < self.breakpoints.len()
            invariant
                i <= self.breakpoints@.len(),
                r@.len() == i + 1,
                r@[0]@ == "Breakpoints:"@,
                forall|j: int| 0 <= j < i ==> (#[trigger] r@[j + 1])@
                    == "  "@ + decimal((j + 1) as nat) + " - line "@ + decimal(self.breakpoints@[j] as nat),
            decreases self.breakpoints@.len() - i,
        {
            let mut s = string_of("  ");
            push_decimal(&mut s, (i + 1) as u64);
            push_str(&mut s, " - line ");
            push_decimal(&mut s, self.breakpoints[i] as u64);
            r.push(s);
            i = i + 1;
        }
        proof {
            let lhs = r@.map_values(|s: String| s@);
            let rhs = self.breakpoint_lines();
            assert forall|j: int| 0 <= j < lhs.len() implies lhs[j] == rhs[j] by {
                if j > 0 {
                    assert(r@[(j - 1) + 1] == r@[j]);
                }
            }
            assert(lhs =~= rhs);
        }
        r
    }

    /// Whether a line has a breakpoint.
    fn has_breakpoint(&self, line: usize) -> (b: bool)
        ensures
            b == self.bps().contains(line),
    {
        let mut i: usize = 0;
        while i < self.breakpoints.len()
            invariant
                i <= self.breakpoints@.len(),
                forall|j: int| 0 <= j < i ==> self.breakpoints@[j] != line,
            decreases self.breakpoints@.len() - i,
        {
            if self.breakpoints[i] == line {
                return true;
            }
            i = i + 1;
        }
        false
    }

    /// The first loaded source, its lines numbered from one and marked with
    /// `*` where a breakpoint is set.
    pub fn list_source(&self) -> (r: Vec<String>)
        ensures
            self.loaded_sources().len() == 0 ==> r@.map_values(|s: String| s@) == seq!["No file loaded"@],
            self.loaded_sources().len() > 0 ==> ({
                let (path, text) = self.loaded_sources()[0];
                let b = vstd::utf8::encode_utf8(text);
                let ls = lines(b);
                &&& r@.len() == ls.len() + 3
                &&& r@[0]@ == "Source: "@ + path
                &&& r@[1]@ == "---"@
                &&& r@[ls.len() + 2int]@ == "---"@
                &&& forall|i: int| 0 <= i < ls.len() ==> (#[trigger] r@[i + 2])@
                    == (if self.bps().contains((i + 1) as usize) { "*"@ } else { " "@ }) + pad4((i + 1) as nat) + " | "@
                        + text_of(b, ls[i])
            }),
            r@.map_values(|s: String| s@) == self.source_lines(),
    {
        let mut r: Vec<String> = Vec::new();
        if self.sources.len() == 0 {
            r.push(string_of("No file loaded"));
            assert(r@.map_values(|s: String| s@) =~= seq!["No file loaded"@]);
            return r;
        }
        let path = &self.sources[0].0;
        let source = self.sources[0].1.as_str();
        let mut head = string_of("Source: ");
        push_str(&mut head, path.as_str());
        r.push(head);
        r.push(string_of("---"));
        let b = source.as_bytes();
        let ls = line_ranges(b);
        proof {
            crate::ide::lines::lemma_lines_bounds(b@, 0);
            vstd::utf8::encode_utf8_valid_utf8(source@);
            vstd::utf8::is_char_boundary_start_end_of_seq(b@);
            lemma_line_boundaries(b@, 0);
            assert(self.loaded_sources()[0] == (path@, source@));
        }
        let mut i: usize = 0;
        while i < ls.len()
            invariant
                b@ == source.spec_bytes(),
                source.spec_bytes() == vstd::utf8::encode_utf8(source@),
                i <= ls@.len(),
                ls@.len() == lines(b@).len(),
                forall|j: int| 0 <= j < ls@.len() ==> (#[trigger] ls@[j]).0 == lines(b@)[j].0 && ls@[j].1 == lines(b@)[j].1,
                forall|j: int| 0 <= j < lines(b@).len() ==> 0 <= (#[trigger] lines(b@)[j]).0 <= lines(b@)[j].1 <= b@.len(),
                forall|j: int| 0 <= j < lines(b@).len() ==> vstd::utf8::is_char_boundary(b@, (#[trigger] lines(b@)[j]).0)
                    && vstd::utf8::is_char_boundary(b@, lines(b@)[j].1),
                r@.len() == i + 2,
                r@[0]@ == "Source: "@ + path@,
                r@[1]@ == "---"@,
                forall|j: int| 0 <= j < i ==> (#[trigger] r@[j + 2])@
                    == (if self.bps().contains((j + 1) as usize) { "*"@ } else { " "@ }) + pad4((j + 1) as nat) + " | "@
                        + text_of(b@, lines(b@)[j]),
            decreases ls@.len() - i,
        {
            let (a, e) = ls[i];
            let mut s = if self.has_breakpoint(i + 1) { string_of("*") } else { string_of(" ") };
            push_pad4(&mut s, (i + 1) as u64);
            push_str(&mut s, " | ");
            push_str(&mut s, crate::base::text::substr(source, a, e));
            r.push(s);
            i = i + 1;
        }
        r.push(string_of("---"));
        proof {
            let lhs = r@.map_values(|s: String| s@);
            let rhs = self.source_lines();
            assert(self.loaded_sources()[0] == (path@, source@));
            assert forall|j: int| 0 <= j < lhs.len() implies lhs[j] == rhs[j] by {
                if 2 <= j < lhs.len() - 1 {
                    assert(r@[(j - 2) + 2] == r@[j]);
                }
            }
            assert(lhs =~= rhs);
        }
        r
    }

    /// The debugger's status.
    pub fn show_info(&self) -> (r: Vec<String>)
        ensures
            r@.map_values(|s: String| s@) == seq![
                "Debugger Status:"@,
                "  Loaded file: "@ + (match self.file() { Some(p) => p, None => "none"@ }),
                "  Running: "@ + (if self.is_running() { "true"@ } else { "false"@ }),
                "  Breakpoints: "@ + decimal(self.bps().len()),
            ],
            r@.map_values(|s: String| s@) == self.info_lines(),
    {
        let mut r: Vec<String> = Vec::new();
        r.push(string_of("Debugger Status:"));
        let mut f = string_of("  Loaded file: ");
        match &self.current_file {
            Some(p) => push_str(&mut f, p.as_str()),
            None => push_str(&mut f, "none"),
        }
        r.push(f);
        let mut run = string_of("  Running: ");
        push_str(&mut run, if self.running { "true" } else { "false" });
        r.push(run);
        let mut n = string_of("  Breakpoints: ");
        push_decimal(&mut n, self.breakpoints.len() as u64);
        r.push(n);
        assert(r@.map_values(|s: String| s@) =~= seq![
            "Debugger Status:"@,
            "  Loaded file: "@ + (match self.file() { Some(p) => p, None => "none"@ }),
            "  Running: "@ + (if self.is_running() { "true"@ } else { "false"@ }),
            "  Breakpoints: "@ + decimal(self.bps().len()),
        ]);
        r
    }

    /// Interpret one command line: the lines to show and what to do next.
    /// `load` leaves the reading of the file to the caller, who hands its
    /// text to `loaded`.
    pub fn handle_command(&mut self, input: &str) -> (r: (Vec<String>, DebugAction))
        requires
            old(self).wf(),
        ensures
            final(self).wf(),
            words(input@).len() == 0 ==> r.0@.len() == 0 && r.1 == DebugAction::Continue
                && final(self).bps() == old(self).bps(),
            words(input@).len() > 0 ==> ({
                let w = words(input@);
                let c = command_named(w[0]);
                let shown = r.0@.map_values(|s: String| s@);
                &&& c == Command::Quit <==> r.1 == DebugAction::Exit
                &&& c == Command::Quit ==> shown == seq!["Exiting debugger"@]
                &&& (c == Command::Load && w.len() > 1) <==> r.1 is Load
                &&& r.1 matches DebugAction::Load(p) ==> p@ == w[1] && shown.len() == 0
                &&& c == Command::Load && w.len() == 1 ==> shown == seq!["Usage: load <file.anv>"@]
                &&& c == Command::Help ==> shown == help_lines()
                &&& c == Command::Run ==> shown == old(self).run_lines()
                    && final(self).is_running() == (old(self).is_running() || old(self).file() is Some)
                &&& c == Command::Check ==> shown == old(self).check_lines()
                &&& c == Command::Breakpoints ==> shown == old(self).breakpoint_lines()
                &&& c == Command::List ==> shown == old(self).source_lines()
                &&& c == Command::Info ==> shown == old(self).info_lines()
                &&& c == Command::Break && w.len() == 1 ==> shown == seq!["Usage: break <line_number>"@]
                &&& c == Command::Delete && w.len() == 1 ==> shown == seq!["Usage: delete <breakpoint_number>"@]
                &&& (c == Command::Break && w.len() > 1) ==> match parsed_usize(vstd::utf8::encode_utf8(w[1])) {
                    Some(n) => shown.len() == 1 && if old(self).bps().contains(n as usize) {
                        final(self).bps() == old(self).bps()
                            && shown[0] == "Breakpoint already exists at line "@ + decimal(n)
                    } else {
                        final(self).bps() == insert_sorted(old(self).bps(), n as usize)
                            && shown[0] == "Breakpoint "@ + decimal(final(self).bps().len()) + " set at line "@ + decimal(n)
                    },
                    None => final(self).bps() == old(self).bps() && shown == seq!["Invalid line number"@],
                }
                &&& (c == Command::Delete && w.len() > 1) ==> match parsed_usize(vstd::utf8::encode_utf8(w[1])) {
                    Some(n) => shown.len() == 1 && if 0 < n <= old(self).bps().len() {
                        final(self).bps() == old(self).bps().remove(n - 1)
                            && shown[0] == "Breakpoint "@ + decimal(n) + " at line "@ + decimal(old(self).bps()[n - 1] as nat) + " deleted"@
                    } else {
                        final(self).bps() == old(self).bps() && shown[0] == "Invalid breakpoint number: "@ + decimal(n)
                    },
                    None => final(self).bps() == old(self).bps() && shown == seq!["Invalid breakpoint number"@],
                }
                &&& !(c == Command::Break || c == Command::Delete) ==> final(self).bps() == old(self).bps()
                &&& c == Command::Unknown ==> shown == seq!["Unknown command: "@ + w[0] + ". Type 'help' for available commands."@]
                &&& c != Command::Run ==> final(self).is_running() == old(self).is_running()
                &&& final(self).file() == old(self).file()
                &&& final(self).loaded_sources() == old(self).loaded_sources()
            }),
    {
        let parts = split_words(input);
        proof {
            assert(parts@.len() == words(input@).len());
            if parts@.len() > 0 {
                assert(parts@[0]@ == words(input@)[0]);
            }
            if parts@.len() > 1 {
                assert(parts@[1]@ == words(input@)[1]);
            }
            reveal_strlit("Usage: load <file.anv>");
        }
        let mut out: Vec<String> = Vec::new();
        if parts.len() == 0 {
            return (out, DebugAction::Continue);
        }
        let cmd = parts[0].as_str();
        match command_of(cmd) {
            Command::Help => (self.show_help(), DebugAction::Continue),
            Command::Load => {
                if parts.len() < 2 {
                    out.push(string_of("Usage: load <file.anv>"));
                    assert(out@.map_values(|s: String| s@) =~= seq!["Usage: load <file.anv>"@]);
                    return (out, DebugAction::Continue);
                }
                assert(out@.map_values(|s: String| s@).len() == 0);
                (out, DebugAction::Load(parts[1].clone()))
            },
            Command::Run => (self.run_program(), DebugAction::Continue),
            Command::Break => {
                if parts.len() < 2 {
                    out.push(string_of("Usage: break <line_number>"));
                    assert(out@.map_values(|s: String| s@) =~= seq!["Usage: break <line_number>"@]);
                    return (out, DebugAction::Continue);
                }
                match parse_usize(parts[1].as_str()) {
                    Some(line) => {
                        out.push(self.add_breakpoint(line));
                    },
                    None => {
                        out.push(string_of("Invalid line number"));
                        assert(out@.map_values(|s: String| s@) =~= seq!["Invalid line number"@]);
                    },
                }
                (out, DebugAction::Continue)
            },
            Command::Delete => {
                if parts.len() < 2 {
                    out.push(string_of("Usage: delete <breakpoint_number>"));
                    assert(out@.map_values(|s: String| s@) =~= seq!["Usage: delete <breakpoint_number>"@]);
                    return (out, DebugAction::Continue);
                }
                match parse_usize(parts[1].as_str()) {
                    Some(num) => {
                        out.push(self.delete_breakpoint(num));
                    },
                    None => {
                        out.push(string_of("Invalid breakpoint number"));
                        assert(out@.map_values(|s: String| s@) =~= seq!["Invalid breakpoint number"@]);
                    },
                }
                (out, DebugAction::Continue)
            },
            Command::Breakpoints => (self.list_breakpoints(), DebugAction::Continue),
            Command::List => (self.list_source(), DebugAction::Continue),
            Command::Check => (self.check_program(), DebugAction::Continue),
            Command::Info => (self.show_info(), DebugAction::Continue),
            Command::Quit => {
                out.push(string_of("Exiting debugger"));
                assert(out@.map_values(|s: String| s@) =~= seq!["Exiting debugger"@]);
                (out, DebugAction::Exit)
            },
            Command::Unknown => {
                let mut m = string_of("Unknown command: ");
                push_str(&mut m, cmd);
                push_str(&mut m, ". Type 'help' for available commands.");
                out.push(m);
                assert(out@.map_values(|s: String| s@) =~= seq!["Unknown command: "@ + words(input@)[0] + ". Type 'help' for available commands."@]);
                (out, DebugAction::Continue)
            },
        }
    }
}

/// Append a number right-aligned in four columns.
fn push_pad4(s: &mut String, n: u64)
    ensures
        final(s)@ == old(s)@ + pad4(n as nat),
{
    let d = crate::base::text::decimal_string(n);
    let len = d.as_str().unicode_len();
    let mut i: usize = len;
    let ghost o = s@;
    while i < 4
        invariant
            len <= i <= 4 || (len > 4 && i == len),
            len == decimal(n as nat).len(),
            s@ == o + Seq::new((i - len) as nat, |k: int| ' '),
        decreases 4 - i,
    {
        crate::base::text::push_char(s, ' ');
        assert(s@ =~= o + Seq::new((i + 1 - len) as nat, |k: int| ' '));
        i = i + 1;
    }
    push_str(s, d.as_str());
    assert(s@ =~= o + pad4(n as nat));
}

/// Inserting into an increasing sequence at the place of the first item not
/// below the new one keeps it increasing and gives the sorted insertion.
proof fn lemma_insert_sorted(s: Seq<usize>, x: usize, pos: int)
    requires
        increasing(s),
        0 <= pos <= s.len(),
        forall|j: int| 0 <= j < pos ==> s[j] < x,
        pos < s.len() ==> s[pos] > x,
    ensures
        insert_sorted(s, x) == s.subrange(0, pos) + seq![x] + s.subrange(pos, s.len() as int),
        increasing(s.subrange(0, pos) + seq![x] + s.subrange(pos, s.len() as int)),
{
    assert(s.take(s.len() as int) =~= s);
    lemma_filter_prefix(s, x, pos, s.len() as int);
    lemma_filter_suffix(s, x, pos, s.len() as int);
    let t = s.subrange(0, pos) + seq![x] + s.subrange(pos, s.len() as int);
    assert forall|i: int, j: int| 0 <= i < j < t.len() implies t[i] < t[j] by {
        if j < pos {
        } else if j == pos {
        } else if i < pos {
            assert(t[j] == s[j - 1]);
            assert(s[j - 1] >= s[pos]);
        } else if i == pos {
            assert(t[j] == s[j - 1]);
            assert(s[j - 1] >= s[pos]);
        } else {
            assert(t[i] == s[i - 1]);
            assert(t[j] == s[j - 1]);
        }
    }
}

proof fn lemma_filter_prefix(s: Seq<usize>, x: usize, pos: int, n: int)
    requires
        increasing(s),
        0 <= pos <= s.len(),
        pos <= n <= s.len(),
        forall|j: int| 0 <= j < pos ==> s[j] < x,
        pos < s.len() ==> s[pos] > x,
    ensures
        s.take(n).filter(|y: usize| y < x) == s.subrange(0, pos),
    decreases n,
{
    reveal(Seq::filter);
    if n == pos {
        if pos == 0 {
            assert(s.take(0) =~= Seq::<usize>::empty());
            assert(s.subrange(0, 0) =~= Seq::<usize>::empty());
        } else {
            lemma_filter_all(s.take(pos), x);
            assert(s.take(pos) =~= s.subrange(0, pos));
        }
    } else {
        lemma_filter_prefix(s, x, pos, n - 1);
        assert(s.take(n).drop_last() =~= s.take(n - 1));
        assert(s[n - 1] >= s[pos]);
    }
}

proof fn lemma_filter_all(s: Seq<usize>, x: usize)
    requires
        forall|j: int| 0 <= j < s.len() ==> s[j] < x,
    ensures
        s.filter(|y: usize| y < x) == s,
    decreases s.len(),
{
    reveal(Seq::filter);
    if s.len() > 0 {
        lemma_filter_all(s.drop_last(), x);
        assert(s.drop_last().push(s.last()) =~= s);
    }
}

proof fn lemma_filter_suffix(s: Seq<usize>, x: usize, pos: int, n: int)
    requires
        increasing(s),
        0 <= pos <= s.len(),
        pos <= n <= s.len(),
        forall|j: int| 0 <= j < pos ==> s[j] < x,
        pos < s.len() ==> s[pos] > x,
    ensures
        s.take(n).filter(|y: usize| y > x) == s.subrange(pos, n),
    decreases n,
{
    reveal(Seq::filter);
    if n == pos {
        lemma_filter_none(s.take(pos), x);
        assert(s.subrange(pos, pos) =~= Seq::<usize>::empty());
    } else {
        lemma_filter_suffix(s, x, pos, n - 1);
        assert(s.take(n).drop_last() =~= s.take(n - 1));
        assert(s[n - 1] >= s[pos]);
        assert(s.subrange(pos, n) =~= s.subrange(pos, n - 1).push(s[n - 1]));
    }
}

proof fn lemma_filter_none(s: Seq<usize>, x: usize)
    requires
        forall|j: int| 0 <= j < s.len() ==> s[j] < x,
    ensures
        s.filter(|y: usize| y > x) == Seq::<usize>::empty(),
    decreases s.len(),
{
    reveal(Seq::filter);
    if s.len() > 0 {
        lemma_filter_none(s.drop_last(), x);
    }
}

proof fn first_not_below(s: Seq<usize>, x: usize) -> (pos: int)
    ensures
        0 <= pos <= s.len(),
        forall|j: int| 0 <= j < pos ==> s[j] < x,
        pos < s.len() ==> s[pos] >= x,
    decreases s.len(),
{
    if s.len() == 0 {
        0
    } else {
        let p = first_not_below(s.drop_last(), x);
        assert(forall|j: int| 0 <= j < s.len() - 1 ==> s.drop_last()[j] == s[j]);
        if p == s.len() - 1 && s.last() < x {
            s.len() as int
        } else {
            p
        }
    }
}

/// Whatever commands are given, the breakpoints stay strictly increasing
/// (so each line has at most one): setting one inserts it in its place.
pub proof fn law_breakpoints_sorted(s: Seq<usize>, x: usize)
    requires
        increasing(s),
        !s.contains(x),
    ensures
        increasing(insert_sorted(s, x)),
        insert_sorted(s, x).contains(x),
        insert_sorted(s, x).len() == s.len() + 1,
{
    let pos = first_not_below(s, x);
    if pos < s.len() {
        assert(s[pos] != x) by { assert(s.contains(s[pos])); }
    }
    lemma_insert_sorted(s, x, pos);
    let t = s.subrange(0, pos) + seq![x] + s.subrange(pos, s.len() as int);
    assert(t[pos] == x);
}


/// Deleting the breakpoint that `break` just added, by its number in the
/// list, gives back the list as it was.
pub proof fn law_delete_undoes_break(s: Seq<usize>, x: usize, k: int)
    requires
        increasing(s),
        !s.contains(x),
        0 <= k < insert_sorted(s, x).len(),
        insert_sorted(s, x)[k] == x,
    ensures
        insert_sorted(s, x).remove(k) == s,
{
    let pos = first_not_below(s, x);
    if pos < s.len() {
        assert(s[pos] != x) by { assert(s.contains(s[pos])); }
    }
    lemma_insert_sorted(s, x, pos);
    let t = s.subrange(0, pos) + seq![x] + s.subrange(pos, s.len() as int);
    if k < pos {
        assert(t[k] == s[k]);
    } else if k > pos {
        assert(t[k] == s[k - 1]);
        assert(s[k - 1] >= x);
        assert(s[k - 1] != x) by { assert(s.contains(s[k - 1])); }
    }
    assert(k == pos);
    assert(t.remove(k) =~= s);
}

} // verus!
