//! Figure skating domain types: edges, jumps, spins, steps, lifts and the
//! enumerations that describe them.

use vstd::prelude::*;
use crate::base::text::{
    ascii_lower_char, ascii_lowered, ascii_upper_char, ascii_uppered, is_ascii_text, lower_case, str_eq, string_of,
    to_lower, to_upper, upper_case,
};

verus! {

/// Skating foot.
#[derive(Debug, Clone, Copy, PartialEq, Eq, Hash, Structural)]
pub enum Foot {
    Left,
    Right,
}

/// Skating direction.
#[derive(Debug, Clone, Copy, PartialEq, Eq, Hash, Structural)]
pub enum Direction {
    Forward,
    Backward,
}

/// Edge curve type.
#[derive(Debug, Clone, Copy, PartialEq, Eq, Hash, Structural)]
pub enum Curve {
    Inside,
    Outside,
    Flat,
}

impl Foot {
    /// The one-letter name of the foot.
    pub open spec fn name(self) -> Seq<char> {
        match self {
            Foot::Left => seq!['L'],
            Foot::Right => seq!['R'],
        }
    }

    /// The one-letter name of the foot (`L` or `R`).
    pub fn to_string(&self) -> (r: String)
        ensures
            r@ == self.name(),
    {
        let r = match self {
            Foot::Left => string_of("L"),
            Foot::Right => string_of("R"),
        };
        proof {
            reveal_strlit("L");
            reveal_strlit("R");
        }
        r
    }
}

impl Direction {
    /// The one-letter name of the direction.
    pub open spec fn name(self) -> Seq<char> {
        match self {
            Direction::Forward => seq!['F'],
            Direction::Backward => seq!['B'],
        }
    }

    /// The one-letter name of the direction (`F` or `B`).
    pub fn to_string(&self) -> (r: String)
        ensures
            r@ == self.name(),
    {
        let r = match self {
            Direction::Forward => string_of("F"),
            Direction::Backward => string_of("B"),
        };
        proof {
            reveal_strlit("F");
            reveal_strlit("B");
        }
        r
    }
}

impl Curve {
    /// The name of the curve: one letter, empty for a flat edge.
    pub open spec fn name(self) -> Seq<char> {
        match self {
            Curve::Inside => seq!['I'],
            Curve::Outside => seq!['O'],
            Curve::Flat => Seq::empty(),
        }
    }

    /// The name of the curve (`I`, `O`, or empty for flat).
    pub fn to_string(&self) -> (r: String)
        ensures
            r@ == self.name(),
    {
        let r = match self {
            Curve::Inside => string_of("I"),
            Curve::Outside => string_of("O"),
            Curve::Flat => String::new(),
        };
        proof {
            reveal_strlit("I");
            reveal_strlit("O");
        }
        r
    }
}

/// Complete edge specification: foot (L/R), direction (F/B) and curve (I/O).
/// For example LFO is left forward outside, RBI right backward inside.
#[derive(Debug, Clone, Copy, PartialEq, Eq, Hash, Structural)]
pub enum Edge {
    LFO,
    LFI,
    LBO,
    LBI,
    RFO,
    RFI,
    RBO,
    RBI,
}

/// The foot, direction and curve of an edge.
pub open spec fn edge_parts(e: Edge) -> (Foot, Direction, Curve) {
    match e {
        Edge::LFO => (Foot::Left, Direction::Forward, Curve::Outside),
        Edge::LFI => (Foot::Left, Direction::Forward, Curve::Inside),
        Edge::LBO => (Foot::Left, Direction::Backward, Curve::Outside),
        Edge::LBI => (Foot::Left, Direction::Backward, Curve::Inside),
        Edge::RFO => (Foot::Right, Direction::Forward, Curve::Outside),
        Edge::RFI => (Foot::Right, Direction::Forward, Curve::Inside),
        Edge::RBO => (Foot::Right, Direction::Backward, Curve::Outside),
        Edge::RBI => (Foot::Right, Direction::Backward, Curve::Inside),
    }
}

/// The edge with the given parts; none for a flat curve.
pub open spec fn edge_of_parts(foot: Foot, direction: Direction, curve: Curve) -> Option<Edge> {
    if curve == Curve::Flat {
        None
    } else {
        Some(choose|e: Edge| edge_parts(e) == (foot, direction, curve))
    }
}

/// The three-letter name of an edge, such as `LFO`.
pub open spec fn edge_name(e: Edge) -> Seq<char> {
    edge_parts(e).0.name() + edge_parts(e).1.name() + edge_parts(e).2.name()
}

/// The edge whose three-letter name is `s`, if any.
pub open spec fn edge_named(s: Seq<char>) -> Option<Edge> {
    if s == seq!['L', 'F', 'O'] { Some(Edge::LFO) }
    else if s == seq!['L', 'F', 'I'] { Some(Edge::LFI) }
    else if s == seq!['L', 'B', 'O'] { Some(Edge::LBO) }
    else if s == seq!['L', 'B', 'I'] { Some(Edge::LBI) }
    else if s == seq!['R', 'F', 'O'] { Some(Edge::RFO) }
    else if s == seq!['R', 'F', 'I'] { Some(Edge::RFI) }
    else if s == seq!['R', 'B', 'O'] { Some(Edge::RBO) }
    else if s == seq!['R', 'B', 'I'] { Some(Edge::RBI) }
    else { None }
}

/// Every edge is determined by its parts.
pub proof fn lemma_edge_parts_injective(a: Edge, b: Edge)
    ensures
        edge_parts(a) == edge_parts(b) <==> a == b,
{
}

impl Edge {
    /// Decompose the edge into foot, direction and curve.
    pub fn decompose(&self) -> (r: (Foot, Direction, Curve))
        ensures
            r == edge_parts(*self),
    {
        match self {
            Edge::LFO => (Foot::Left, Direction::Forward, Curve::Outside),
            Edge::LFI => (Foot::Left, Direction::Forward, Curve::Inside),
            Edge::LBO => (Foot::Left, Direction::Backward, Curve::Outside),
            Edge::LBI => (Foot::Left, Direction::Backward, Curve::Inside),
            Edge::RFO => (Foot::Right, Direction::Forward, Curve::Outside),
            Edge::RFI => (Foot::Right, Direction::Forward, Curve::Inside),
            Edge::RBO => (Foot::Right, Direction::Backward, Curve::Outside),
            Edge::RBI => (Foot::Right, Direction::Backward, Curve::Inside),
        }
    }

    /// Compose an edge from its parts; a flat curve has no edge.
    pub fn compose(foot: Foot, direction: Direction, curve: Curve) -> (r: Option<Edge>)
        ensures
            r is None <==> curve == Curve::Flat,
            r matches Some(e) ==> edge_parts(e) == (foot, direction, curve),
    {
        match (foot, direction, curve) {
            (Foot::Left, Direction::Forward, Curve::Outside) => Some(Edge::LFO),
            (Foot::Left, Direction::Forward, Curve::Inside) => Some(Edge::LFI),
            (Foot::Left, Direction::Backward, Curve::Outside) => Some(Edge::LBO),
            (Foot::Left, Direction::Backward, Curve::Inside) => Some(Edge::LBI),
            (Foot::Right, Direction::Forward, Curve::Outside) => Some(Edge::RFO),
            (Foot::Right, Direction::Forward, Curve::Inside) => Some(Edge::RFI),
            (Foot::Right, Direction::Backward, Curve::Outside) => Some(Edge::RBO),
            (Foot::Right, Direction::Backward, Curve::Inside) => Some(Edge::RBI),
            _ => None,
        }
    }

    /// The foot of the edge.
    pub fn foot(&self) -> (f: Foot)
        ensures
            f == edge_parts(*self).0,
    {
        self.decompose().0
    }

    /// The direction of the edge.
    pub fn direction(&self) -> (d: Direction)
        ensures
            d == edge_parts(*self).1,
    {
        self.decompose().1
    }

    /// The curve of the edge.
    pub fn curve(&self) -> (c: Curve)
        ensures
            c == edge_parts(*self).2,
    {
        self.decompose().2
    }

    /// The same direction and curve on the other foot.
    pub fn switch_foot(&self) -> (e: Edge)
        ensures
            edge_parts(e).0 != edge_parts(*self).0,
            edge_parts(e).1 == edge_parts(*self).1,
            edge_parts(e).2 == edge_parts(*self).2,
    {
        let (foot, dir, curve) = self.decompose();
        let new_foot = match foot {
            Foot::Left => Foot::Right,
            Foot::Right => Foot::Left,
        };
        match Edge::compose(new_foot, dir, curve) {
            Some(e) => e,
            None => *self,
        }
    }

    /// The edge with the given three-letter upper-case name.
    pub fn from_name(s: &str) -> (r: Option<Edge>)
        ensures
            r == edge_named(s@),
    {
        proof {
            reveal_strlit("LFO");
            reveal_strlit("LFI");
            reveal_strlit("LBO");
            reveal_strlit("LBI");
            reveal_strlit("RFO");
            reveal_strlit("RFI");
            reveal_strlit("RBO");
            reveal_strlit("RBI");
            assert("LFO"@ =~= seq!['L', 'F', 'O']);
            assert("LFI"@ =~= seq!['L', 'F', 'I']);
            assert("LBO"@ =~= seq!['L', 'B', 'O']);
            assert("LBI"@ =~= seq!['L', 'B', 'I']);
            assert("RFO"@ =~= seq!['R', 'F', 'O']);
            assert("RFI"@ =~= seq!['R', 'F', 'I']);
            assert("RBO"@ =~= seq!['R', 'B', 'O']);
            assert("RBI"@ =~= seq!['R', 'B', 'I']);
        }
        if str_eq(s, "LFO") { Some(Edge::LFO) }
        else if str_eq(s, "LFI") { Some(Edge::LFI) }
        else if str_eq(s, "LBO") { Some(Edge::LBO) }
        else if str_eq(s, "LBI") { Some(Edge::LBI) }
        else if str_eq(s, "RFO") { Some(Edge::RFO) }
        else if str_eq(s, "RFI") { Some(Edge::RFI) }
        else if str_eq(s, "RBO") { Some(Edge::RBO) }
        else if str_eq(s, "RBI") { Some(Edge::RBI) }
        else { None }
    }

    /// Parse an edge name such as `LFO` or `rbi`, ignoring case.
    pub fn parse(s: &str) -> (r: Option<Edge>)
        ensures
            r == edge_named(upper_case(s@)),
            is_ascii_text(s@) ==> r == edge_named(ascii_uppered(s@)),
    {
        let upper = to_upper(s);
        Edge::from_name(upper.as_str())
    }

    /// The three-letter name of the edge.
    pub fn to_string(&self) -> (r: String)
        ensures
            r@ == edge_name(*self),
    {
        let (foot, dir, curve) = self.decompose();
        let mut s = foot.to_string();
        let d = dir.to_string();
        let c = curve.to_string();
        s.append(d.as_str());
        s.append(c.as_str());
        s
    }
}

/// Decomposing an edge and composing the parts gives the edge back.
pub proof fn law_edge_compose_decompose(e: Edge)
    ensures
        edge_of_parts(edge_parts(e).0, edge_parts(e).1, edge_parts(e).2) == Some(e),
{
    let p = edge_parts(e);
    assert(edge_parts(e) == p);
    let c = choose|x: Edge| edge_parts(x) == p;
    lemma_edge_parts_injective(c, e);
}

/// Switching feet twice gives the edge back.
pub proof fn law_switch_foot_involution(e: Edge, once: Edge, twice: Edge)
    requires
        edge_parts(once).0 != edge_parts(e).0,
        edge_parts(once).1 == edge_parts(e).1,
        edge_parts(once).2 == edge_parts(e).2,
        edge_parts(twice).0 != edge_parts(once).0,
        edge_parts(twice).1 == edge_parts(once).1,
        edge_parts(twice).2 == edge_parts(once).2,
    ensures
        twice == e,
{
    lemma_edge_parts_injective(twice, e);
}

/// An edge's name reads back as the same edge.
pub proof fn law_edge_name_roundtrip(e: Edge)
    ensures
        edge_named(edge_name(e)) == Some(e),
{
    match e {
        Edge::LFO => {
            assert(edge_name(e) =~= seq!['L', 'F', 'O']);
        },
        Edge::LFI => {
            assert(edge_name(e) =~= seq!['L', 'F', 'I']);
        },
        Edge::LBO => {
            assert(edge_name(e) =~= seq!['L', 'B', 'O']);
        },
        Edge::LBI => {
            assert(edge_name(e) =~= seq!['L', 'B', 'I']);
        },
        Edge::RFO => {
            assert(edge_name(e) =~= seq!['R', 'F', 'O']);
        },
        Edge::RFI => {
            assert(edge_name(e) =~= seq!['R', 'F', 'I']);
        },
        Edge::RBO => {
            assert(edge_name(e) =~= seq!['R', 'B', 'O']);
        },
        Edge::RBI => {
            assert(edge_name(e) =~= seq!['R', 'B', 'I']);
        },
    }
}

/// Rotation direction for jumps and spins.
#[derive(Debug, Clone, Copy, PartialEq, Eq, Hash, Structural)]
pub enum RotationDirection {
    /// Counter-clockwise (most common for right-handed skaters).
    CounterClockwise,
    /// Clockwise (most common for left-handed skaters).
    Clockwise,
}

impl Default for RotationDirection {
    fn default() -> (r: RotationDirection)
        ensures
            r == RotationDirection::CounterClockwise,
    {
        RotationDirection::CounterClockwise
    }
}

/// ISU level for leveled elements.
#[derive(Debug, Clone, Copy, PartialEq, Eq, PartialOrd, Ord, Hash, Structural)]
pub enum Level {
    /// Base level (no features).
    B,
    /// Level 1.
    L1,
    /// Level 2.
    L2,
    /// Level 3.
    L3,
    /// Level 4.
    L4,
}

impl Default for Level {
    fn default() -> (r: Level)
        ensures
            r == Level::B,
    {
        Level::B
    }
}

/// The number of a level: 0 for base, then 1 to 4.
pub open spec fn level_number(l: Level) -> u8 {
    match l {
        Level::B => 0,
        Level::L1 => 1,
        Level::L2 => 2,
        Level::L3 => 3,
        Level::L4 => 4,
    }
}

/// The level with the given number, if any.
pub open spec fn level_of_number(n: u8) -> Option<Level> {
    if n == 0 { Some(Level::B) }
    else if n == 1 { Some(Level::L1) }
    else if n == 2 { Some(Level::L2) }
    else if n == 3 { Some(Level::L3) }
    else if n == 4 { Some(Level::L4) }
    else { None }
}

/// The short name of a level: `B` or its digit.
pub open spec fn level_short_name(l: Level) -> Seq<char> {
    match l {
        Level::B => seq!['B'],
        Level::L1 => seq!['1'],
        Level::L2 => seq!['2'],
        Level::L3 => seq!['3'],
        Level::L4 => seq!['4'],
    }
}

impl Level {
    /// The level as a number from 0 (base) to 4.
    pub fn as_number(&self) -> (n: u8)
        ensures
            n == level_number(*self),
    {
        match self {
            Level::B => 0,
            Level::L1 => 1,
            Level::L2 => 2,
            Level::L3 => 3,
            Level::L4 => 4,
        }
    }

    /// The level with the given number, if it is between 0 and 4.
    pub fn from_number(n: u8) -> (r: Option<Level>)
        ensures
            r == level_of_number(n),
    {
        match n {
            0 => Some(Level::B),
            1 => Some(Level::L1),
            2 => Some(Level::L2),
            3 => Some(Level::L3),
            4 => Some(Level::L4),
            _ => None,
        }
    }

    /// The short name of the level (`B`, `1`, ..., `4`).
    pub fn to_string(&self) -> (r: String)
        ensures
            r@ == level_short_name(*self),
    {
        proof {
            reveal_strlit("B");
            reveal_strlit("1");
            reveal_strlit("2");
            reveal_strlit("3");
            reveal_strlit("4");
        }
        match self {
            Level::B => string_of("B"),
            Level::L1 => string_of("1"),
            Level::L2 => string_of("2"),
            Level::L3 => string_of("3"),
            Level::L4 => string_of("4"),
        }
    }
}

/// A level's number gives the level back, and the numbers with a level are
/// exactly 0 to 4.
pub proof fn law_level_number_roundtrip(l: Level, n: u8)
    ensures
        level_of_number(level_number(l)) == Some(l),
        level_of_number(n) is Some <==> n <= 4,
        level_of_number(n) matches Some(m) ==> level_number(m) == n,
{
}

/// Type of jump.
#[derive(Debug, Clone, Copy, PartialEq, Eq, Hash, Structural)]
pub enum JumpKind {
    /// Axel (A): forward takeoff, extra half rotation.
    Axel,
    /// Lutz (Lz): back outside edge, toe pick.
    Lutz,
    /// Flip (F): back inside edge, toe pick.
    Flip,
    /// Loop (Lo): back outside edge, no toe pick.
    Loop,
    /// Salchow (S): back inside edge, no toe pick.
    Salchow,
    /// Toe loop (T): back outside edge, toe pick.
    ToeLoop,
    /// Euler / half loop (Eu): connector jump in combinations.
    Euler,
}

/// The ISU abbreviation of a jump.
pub open spec fn jump_abbrev(k: JumpKind) -> Seq<char> {
    match k {
        JumpKind::Axel => seq!['A'],
        JumpKind::Lutz => seq!['L', 'z'],
        JumpKind::Flip => seq!['F'],
        JumpKind::Loop => seq!['L', 'o'],
        JumpKind::Salchow => seq!['S'],
        JumpKind::ToeLoop => seq!['T'],
        JumpKind::Euler => seq!['E', 'u'],
    }
}

/// The edge a jump takes off from.
pub open spec fn jump_entry_edge(k: JumpKind) -> Edge {
    match k {
        JumpKind::Axel => Edge::LFO,
        JumpKind::Lutz => Edge::LBO,
        JumpKind::Flip => Edge::LBI,
        JumpKind::Loop => Edge::RBO,
        JumpKind::Salchow => Edge::LBI,
        JumpKind::ToeLoop => Edge::RBO,
        JumpKind::Euler => Edge::RBO,
    }
}

/// Toe jumps use the toe pick for takeoff.
pub open spec fn jump_is_toe(k: JumpKind) -> bool {
    k == JumpKind::Lutz || k == JumpKind::Flip || k == JumpKind::ToeLoop
}

/// The jump named by a lower-case word: its full name or its abbreviation.
pub open spec fn jump_named(s: Seq<char>) -> Option<JumpKind> {
    if s == "axel"@ || s == "a"@ { Some(JumpKind::Axel) }
    else if s == "lutz"@ || s == "lz"@ { Some(JumpKind::Lutz) }
    else if s == "flip"@ || s == "f"@ { Some(JumpKind::Flip) }
    else if s == "loop"@ || s == "lo"@ { Some(JumpKind::Loop) }
    else if s == "salchow"@ || s == "s"@ { Some(JumpKind::Salchow) }
    else if s == "toe_loop"@ || s == "toeloop"@ || s == "toe"@ || s == "t"@ { Some(JumpKind::ToeLoop) }
    else if s == "euler"@ || s == "eu"@ || s == "half_loop"@ { Some(JumpKind::Euler) }
    else { None }
}

impl JumpKind {
    /// The ISU abbreviation.
    pub fn abbrev(&self) -> (r: &'static str)
        ensures
            r@ == jump_abbrev(*self),
    {
        proof {
            reveal_strlit("A");
            reveal_strlit("Lz");
            reveal_strlit("F");
            reveal_strlit("Lo");
            reveal_strlit("S");
            reveal_strlit("T");
            reveal_strlit("Eu");
        }
        match self {
            JumpKind::Axel => "A",
            JumpKind::Lutz => "Lz",
            JumpKind::Flip => "F",
            JumpKind::Loop => "Lo",
            JumpKind::Salchow => "S",
            JumpKind::ToeLoop => "T",
            JumpKind::Euler => "Eu",
        }
    }

    /// The edge the jump takes off from with correct technique.
    pub fn required_entry_edge(&self) -> (e: Edge)
        ensures
            e == jump_entry_edge(*self),
    {
        match self {
            JumpKind::Axel => Edge::LFO,
            JumpKind::Lutz => Edge::LBO,
            JumpKind::Flip => Edge::LBI,
            JumpKind::Loop => Edge::RBO,
            JumpKind::Salchow => Edge::LBI,
            JumpKind::ToeLoop => Edge::RBO,
            JumpKind::Euler => Edge::RBO,
        }
    }

    /// The standard landing edge: every jump lands on RBO (counter-clockwise).
    pub fn standard_exit_edge(&self) -> (e: Edge)
        ensures
            e == Edge::RBO,
    {
        Edge::RBO
    }

    /// Is this a toe jump (toe pick takeoff)?
    pub fn is_toe_jump(&self) -> (b: bool)
        ensures
            b == jump_is_toe(*self),
    {
        match self {
            JumpKind::Lutz | JumpKind::Flip | JumpKind::ToeLoop => true,
            _ => false,
        }
    }

    /// The jump named by a lower-case word.
    pub fn from_name(s: &str) -> (r: Option<JumpKind>)
        ensures
            r == jump_named(s@),
    {
        if str_eq(s, "axel") || str_eq(s, "a") { Some(JumpKind::Axel) }
        else if str_eq(s, "lutz") || str_eq(s, "lz") { Some(JumpKind::Lutz) }
        else if str_eq(s, "flip") || str_eq(s, "f") { Some(JumpKind::Flip) }
        else if str_eq(s, "loop") || str_eq(s, "lo") { Some(JumpKind::Loop) }
        else if str_eq(s, "salchow") || str_eq(s, "s") { Some(JumpKind::Salchow) }
        else if str_eq(s, "toe_loop") || str_eq(s, "toeloop") || str_eq(s, "toe") || str_eq(s, "t") {
            Some(JumpKind::ToeLoop)
        }
        else if str_eq(s, "euler") || str_eq(s, "eu") || str_eq(s, "half_loop") { Some(JumpKind::Euler) }
        else { None }
    }

    /// Parse a jump name or abbreviation, ignoring case.
    pub fn parse(s: &str) -> (r: Option<JumpKind>)
        ensures
            r == jump_named(lower_case(s@)),
            is_ascii_text(s@) ==> r == jump_named(ascii_lowered(s@)),
    {
        let lower = to_lower(s);
        JumpKind::from_name(lower.as_str())
    }

    /// The ISU abbreviation as a string.
    pub fn to_string(&self) -> (r: String)
        ensures
            r@ == jump_abbrev(*self),
    {
        string_of(self.abbrev())
    }
}

/// A jump's abbreviation parses back to the jump, written in lower, upper
/// or its own case; and for every text, parsing ignores ASCII case.
pub proof fn law_jump_parse_roundtrip(k: JumpKind, s: Seq<char>)
    ensures
        jump_named(ascii_lowered(jump_abbrev(k))) == Some(k),
        jump_named(ascii_lowered(ascii_uppered(jump_abbrev(k)))) == Some(k),
        ascii_lowered(ascii_uppered(s)) == ascii_lowered(s),
{
    reveal_strlit("axel");
    reveal_strlit("a");
    reveal_strlit("lutz");
    reveal_strlit("lz");
    reveal_strlit("flip");
    reveal_strlit("f");
    reveal_strlit("loop");
    reveal_strlit("lo");
    reveal_strlit("salchow");
    reveal_strlit("s");
    reveal_strlit("toe_loop");
    reveal_strlit("toeloop");
    reveal_strlit("toe");
    reveal_strlit("t");
    reveal_strlit("euler");
    reveal_strlit("eu");
    reveal_strlit("half_loop");
    let a = jump_abbrev(k);
    let lo = ascii_lowered(a);
    let ulo = ascii_lowered(ascii_uppered(a));
    match k {
        JumpKind::Axel => {
            assert(lo =~= seq!['a']);
            assert(ulo =~= seq!['a']);
            assert(lo =~= "a"@);
            assert(lo.len() != "axel"@.len());
            assert(jump_named(lo) == Some(k));
            assert(jump_named(ulo) == Some(k));
        },
        JumpKind::Lutz => {
            assert(lo =~= seq!['l', 'z']);
            assert(ulo =~= seq!['l', 'z']);
            assert(lo =~= "lz"@);
            assert(lo.len() != "axel"@.len());
            assert(lo.len() != "a"@.len());
            assert(lo.len() != "lutz"@.len());
            assert(jump_named(lo) == Some(k));
            assert(jump_named(ulo) == Some(k));
        },
        JumpKind::Flip => {
            assert(lo =~= seq!['f']);
            assert(ulo =~= seq!['f']);
            assert(lo =~= "f"@);
            assert(lo.len() != "axel"@.len());
            assert(lo[0] != "a"@[0]);
            assert(lo.len() != "lutz"@.len());
            assert(lo.len() != "lz"@.len());
            assert(lo.len() != "flip"@.len());
            assert(jump_named(lo) == Some(k));
            assert(jump_named(ulo) == Some(k));
        },
        JumpKind::Loop => {
            assert(lo =~= seq!['l', 'o']);
            assert(ulo =~= seq!['l', 'o']);
            assert(lo =~= "lo"@);
            assert(lo.len() != "axel"@.len());
            assert(lo.len() != "a"@.len());
            assert(lo.len() != "lutz"@.len());
            assert(lo[1] != "lz"@[1]);
            assert(lo.len() != "flip"@.len());
            assert(lo.len() != "f"@.len());
            assert(lo.len() != "loop"@.len());
            assert(jump_named(lo) == Some(k));
            assert(jump_named(ulo) == Some(k));
        },
        JumpKind::Salchow => {
            assert(lo =~= seq!['s']);
            assert(ulo =~= seq!['s']);
            assert(lo =~= "s"@);
            assert(lo.len() != "axel"@.len());
            assert(lo[0] != "a"@[0]);
            assert(lo.len() != "lutz"@.len());
            assert(lo.len() != "lz"@.len());
            assert(lo.len() != "flip"@.len());
            assert(lo[0] != "f"@[0]);
            assert(lo.len() != "loop"@.len());
            assert(lo.len() != "lo"@.len());
            assert(lo.len() != "salchow"@.len());
            assert(jump_named(lo) == Some(k));
            assert(jump_named(ulo) == Some(k));
        },
        JumpKind::ToeLoop => {
            assert(lo =~= seq!['t']);
            assert(ulo =~= seq!['t']);
            assert(lo =~= "t"@);
            assert(lo.len() != "axel"@.len());
            assert(lo[0] != "a"@[0]);
            assert(lo.len() != "lutz"@.len());
            assert(lo.len() != "lz"@.len());
            assert(lo.len() != "flip"@.len());
            assert(lo[0] != "f"@[0]);
            assert(lo.len() != "loop"@.len());
            assert(lo.len() != "lo"@.len());
            assert(lo.len() != "salchow"@.len());
            assert(lo[0] != "s"@[0]);
            assert(lo.len() != "toe_loop"@.len());
            assert(lo.len() != "toeloop"@.len());
            assert(lo.len() != "toe"@.len());
            assert(jump_named(lo) == Some(k));
            assert(jump_named(ulo) == Some(k));
        },
        JumpKind::Euler => {
            assert(lo =~= seq!['e', 'u']);
            assert(ulo =~= seq!['e', 'u']);
            assert(lo =~= "eu"@);
            assert(lo.len() != "axel"@.len());
            assert(lo.len() != "a"@.len());
            assert(lo.len() != "lutz"@.len());
            assert(lo[0] != "lz"@[0]);
            assert(lo.len() != "flip"@.len());
            assert(lo.len() != "f"@.len());
            assert(lo.len() != "loop"@.len());
            assert(lo[0] != "lo"@[0]);
            assert(lo.len() != "salchow"@.len());
            assert(lo.len() != "s"@.len());
            assert(lo.len() != "toe_loop"@.len());
            assert(lo.len() != "toeloop"@.len());
            assert(lo.len() != "toe"@.len());
            assert(lo.len() != "t"@.len());
            assert(lo.len() != "euler"@.len());
            assert(jump_named(lo) == Some(k));
            assert(jump_named(ulo) == Some(k));
        },
    }
    assert forall|i: int| 0 <= i < s.len() implies ascii_lower_char(#[trigger] ascii_upper_char(s[i])) == ascii_lower_char(s[i]) by {
        let c = s[i];
        if 'a' <= c <= 'z' {
            assert((c as u32) - 32 + 32 == c as u32);
        }
    }
    assert(ascii_lowered(ascii_uppered(s)) =~= ascii_lowered(s));
}

/// Number of rotations of a jump.
#[derive(Debug, Clone, Copy, PartialEq, Eq, PartialOrd, Ord, Hash, Structural)]
pub enum Rotations {
    Single,
    Double,
    Triple,
    Quad,
}

/// The number of rotations, from 1 to 4.
pub open spec fn rotations_number(r: Rotations) -> u8 {
    match r {
        Rotations::Single => 1,
        Rotations::Double => 2,
        Rotations::Triple => 3,
        Rotations::Quad => 4,
    }
}

/// The rotation count with the given number, if any.
pub open spec fn rotations_of_number(n: u8) -> Option<Rotations> {
    if n == 1 { Some(Rotations::Single) }
    else if n == 2 { Some(Rotations::Double) }
    else if n == 3 { Some(Rotations::Triple) }
    else if n == 4 { Some(Rotations::Quad) }
    else { None }
}

/// The notation prefix of a rotation count: its digit.
pub open spec fn rotations_prefix(r: Rotations) -> Seq<char> {
    match r {
        Rotations::Single => seq!['1'],
        Rotations::Double => seq!['2'],
        Rotations::Triple => seq!['3'],
        Rotations::Quad => seq!['4'],
    }
}

impl Rotations {
    /// The number of rotations.
    pub fn as_number(&self) -> (n: u8)
        ensures
            n == rotations_number(*self),
    {
        match self {
            Rotations::Single => 1,
            Rotations::Double => 2,
            Rotations::Triple => 3,
            Rotations::Quad => 4,
        }
    }

    /// The rotation count with the given number, if it is between 1 and 4.
    pub fn from_number(n: u8) -> (r: Option<Rotations>)
        ensures
            r == rotations_of_number(n),
    {
        match n {
            1 => Some(Rotations::Single),
            2 => Some(Rotations::Double),
            3 => Some(Rotations::Triple),
            4 => Some(Rotations::Quad),
            _ => None,
        }
    }

    /// Prefix for element notation, such as `3` for a triple.
    pub fn prefix(&self) -> (r: &'static str)
        ensures
            r@ == rotations_prefix(*self),
    {
        proof {
            reveal_strlit("1");
            reveal_strlit("2");
            reveal_strlit("3");
            reveal_strlit("4");
        }
        match self {
            Rotations::Single => "1",
            Rotations::Double => "2",
            Rotations::Triple => "3",
            Rotations::Quad => "4",
        }
    }

    /// The prefix as a string.
    pub fn to_string(&self) -> (r: String)
        ensures
            r@ == rotations_prefix(*self),
    {
        string_of(self.prefix())
    }
}

/// A rotation count's number gives it back, and the numbers with a rotation
/// count are exactly 1 to 4.
pub proof fn law_rotations_number_roundtrip(r: Rotations, n: u8)
    ensures
        rotations_of_number(rotations_number(r)) == Some(r),
        rotations_of_number(n) is Some <==> 1 <= n <= 4,
        rotations_of_number(n) matches Some(m) ==> rotations_number(m) == n,
{
}

/// Basic spin position.
#[derive(Debug, Clone, Copy, PartialEq, Eq, Hash, Structural)]
pub enum SpinPosition {
    Upright,
    Sit,
    Camel,
    Layback,
    Biellmann,
}

/// The ISU abbreviation of a spin position.
pub open spec fn spin_abbrev(p: SpinPosition) -> Seq<char> {
    match p {
        SpinPosition::Upright => "USp"@,
        SpinPosition::Sit => "SSp"@,
        SpinPosition::Camel => "CSp"@,
        SpinPosition::Layback => "LSp"@,
        SpinPosition::Biellmann => "BSp"@,
    }
}

/// The lower-case word of a spin position.
pub open spec fn spin_word(p: SpinPosition) -> Seq<char> {
    match p {
        SpinPosition::Upright => "upright"@,
        SpinPosition::Sit => "sit"@,
        SpinPosition::Camel => "camel"@,
        SpinPosition::Layback => "layback"@,
        SpinPosition::Biellmann => "biellmann"@,
    }
}

impl SpinPosition {
    /// The ISU abbreviation, such as `CSp`.
    pub fn abbrev(&self) -> (r: &'static str)
        ensures
            r@ == spin_abbrev(*self),
    {
        match self {
            SpinPosition::Upright => "USp",
            SpinPosition::Sit => "SSp",
            SpinPosition::Camel => "CSp",
            SpinPosition::Layback => "LSp",
            SpinPosition::Biellmann => "BSp",
        }
    }

    /// The lower-case word, such as `camel`.
    pub fn to_string(&self) -> (r: String)
        ensures
            r@ == spin_word(*self),
    {
        match self {
            SpinPosition::Upright => string_of("upright"),
            SpinPosition::Sit => string_of("sit"),
            SpinPosition::Camel => string_of("camel"),
            SpinPosition::Layback => string_of("layback"),
            SpinPosition::Biellmann => string_of("biellmann"),
        }
    }
}

/// Spin modifiers.
#[derive(Debug, Clone, Copy, PartialEq, Eq, Hash, Structural)]
pub enum SpinModifier {
    /// Flying entry.
    Flying,
    /// Change of foot.
    Change,
    /// Combination spin (several positions).
    Combination,
}

/// Types of turns and steps in step sequences.
#[derive(Debug, Clone, Copy, PartialEq, Eq, Hash, Structural)]
pub enum StepKind {
    ThreeTurn,
    Bracket,
    Rocker,
    Counter,
    Twizzle,
    Choctaw,
    Mohawk,
    Loop,
    CrossRoll,
    ChangeEdge,
}

/// Difficult turns count toward step sequence levels.
pub open spec fn step_is_difficult(k: StepKind) -> bool {
    k == StepKind::Bracket || k == StepKind::Rocker || k == StepKind::Counter || k == StepKind::Twizzle
}

/// The lower-case word of a step kind.
pub open spec fn step_word(k: StepKind) -> Seq<char> {
    match k {
        StepKind::ThreeTurn => "three_turn"@,
        StepKind::Bracket => "bracket"@,
        StepKind::Rocker => "rocker"@,
        StepKind::Counter => "counter"@,
        StepKind::Twizzle => "twizzle"@,
        StepKind::Choctaw => "choctaw"@,
        StepKind::Mohawk => "mohawk"@,
        StepKind::Loop => "loop"@,
        StepKind::CrossRoll => "cross_roll"@,
        StepKind::ChangeEdge => "change_edge"@,
    }
}

impl StepKind {
    /// Is this a difficult turn (for level features)?
    pub fn is_difficult(&self) -> (b: bool)
        ensures
            b == step_is_difficult(*self),
    {
        match self {
            StepKind::Bracket | StepKind::Rocker | StepKind::Counter | StepKind::Twizzle => true,
            _ => false,
        }
    }

    /// The lower-case word, such as `three_turn`.
    pub fn to_string(&self) -> (r: String)
        ensures
            r@ == step_word(*self),
    {
        match self {
            StepKind::ThreeTurn => string_of("three_turn"),
            StepKind::Bracket => string_of("bracket"),
            StepKind::Rocker => string_of("rocker"),
            StepKind::Counter => string_of("counter"),
            StepKind::Twizzle => string_of("twizzle"),
            StepKind::Choctaw => string_of("choctaw"),
            StepKind::Mohawk => string_of("mohawk"),
            StepKind::Loop => string_of("loop"),
            StepKind::CrossRoll => string_of("cross_roll"),
            StepKind::ChangeEdge => string_of("change_edge"),
        }
    }
}

/// Lift group for pairs skating.
#[derive(Debug, Clone, Copy, PartialEq, Eq, Hash, Structural)]
pub enum LiftGroup {
    /// Armpit holds.
    Group1,
    /// Armpit holds.
    Group2,
    /// Waist holds.
    Group3,
    /// Waist holds.
    Group4,
    /// Hand-to-hand.
    Group5,
}

/// The name of a lift group, such as `Gr1`.
pub open spec fn lift_group_name(g: LiftGroup) -> Seq<char> {
    match g {
        LiftGroup::Group1 => "Gr1"@,
        LiftGroup::Group2 => "Gr2"@,
        LiftGroup::Group3 => "Gr3"@,
        LiftGroup::Group4 => "Gr4"@,
        LiftGroup::Group5 => "Gr5"@,
    }
}

impl LiftGroup {
    /// The group's name, such as `Gr1`.
    pub fn to_string(&self) -> (r: String)
        ensures
            r@ == lift_group_name(*self),
    {
        match self {
            LiftGroup::Group1 => string_of("Gr1"),
            LiftGroup::Group2 => string_of("Gr2"),
            LiftGroup::Group3 => string_of("Gr3"),
            LiftGroup::Group4 => string_of("Gr4"),
            LiftGroup::Group5 => string_of("Gr5"),
        }
    }
}

} // verus!
