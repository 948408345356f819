//! Event kinds of a program timeline and their ISU element codes.

use vstd::prelude::*;
use crate::base::skating::{
    Edge, JumpKind, Level, LiftGroup, Rotations, SpinPosition, jump_abbrev, level_short_name,
    lift_group_name, rotations_prefix, spin_abbrev,
};
use crate::base::text::{push_str, string_of};

verus! {

/// Step sequence pattern.
#[derive(Debug, Clone, Copy, PartialEq, Eq, Structural)]
pub enum StepPattern {
    Straight,
    Circular,
    Serpentine,
    Diagonal,
}

impl Default for StepPattern {
    fn default() -> (r: StepPattern)
        ensures
            r == StepPattern::Straight,
    {
        StepPattern::Straight
    }
}

/// Choreographic element kind.
#[derive(Debug, Clone, Copy, PartialEq, Eq, Structural)]
pub enum ChoreographicKind {
    Spiral,
    SpreadEagle,
    InaBauer,
    Hydroblading,
    Pivot,
    Other,
}

/// Event type classification.
#[derive(Debug, Clone)]
pub enum EventKind {
    Jump { rotations: Rotations, kind: JumpKind },
    JumpCombination { jumps: Vec<(Rotations, JumpKind)> },
    Spin { positions: Vec<SpinPosition>, level: Level, flying: bool, change_foot: bool },
    StepSequence { pattern: StepPattern, level: Level },
    ChoreographicSequence,
    Lift { group: LiftGroup, level: Level },
    Throw { rotations: Rotations, kind: JumpKind },
    Twist { rotations: Rotations, level: Level },
    DeathSpiral { edge: Edge, level: Level },
    PatternDance { name: String },
    Twizzle { level: Level },
    Choreographic { kind: ChoreographicKind },
    Transition,
    Pause,
    ProgramStart,
    ProgramEnd,
}

/// Whether an event kind is a scoring element: every kind but the
/// structural ones.
pub open spec fn is_scoring(k: EventKind) -> bool {
    !(k is Transition || k is Pause || k is ProgramStart || k is ProgramEnd)
}

/// The ISU code of a spin: `F` when flying, `C` for a change of foot,
/// then `CoSp` for a combination of positions or the one position's
/// abbreviation (`Sp` when none is given), then the level.
pub open spec fn spin_code(positions: Seq<SpinPosition>, level: Level, flying: bool, change_foot: bool) -> Seq<char> {
    (if flying { "F"@ } else { Seq::empty() })
        + (if change_foot { "C"@ } else { Seq::empty() })
        + (if positions.len() > 1 {
            "CoSp"@
        } else if positions.len() == 1 {
            spin_abbrev(positions[0])
        } else {
            "Sp"@
        })
        + level_short_name(level)
}

/// The death spiral code for an entry edge.
pub open spec fn death_spiral_code(e: Edge) -> Seq<char> {
    match e {
        Edge::LBI => "BDs"@,
        Edge::LBO => "FDs"@,
        _ => "Ds"@,
    }
}

/// The ISU code of an event kind, for the kinds that have one.
pub open spec fn isu_code_text(k: EventKind) -> Option<Seq<char>> {
    match k {
        EventKind::Jump { rotations, kind } => Some(rotations_prefix(rotations) + jump_abbrev(kind)),
        EventKind::Spin { positions, level, flying, change_foot } => Some(spin_code(positions@, level, flying, change_foot)),
        EventKind::StepSequence { level, .. } => Some("StSq"@ + level_short_name(level)),
        EventKind::Lift { group, level } => Some(lift_group_name(group) + "Li"@ + level_short_name(level)),
        EventKind::Throw { rotations, kind } => Some(rotations_prefix(rotations) + jump_abbrev(kind) + "Th"@),
        EventKind::Twist { rotations, level } => Some(rotations_prefix(rotations) + "Tw"@ + level_short_name(level)),
        EventKind::DeathSpiral { edge, level } => Some(death_spiral_code(edge) + level_short_name(level)),
        _ => None,
    }
}

impl EventKind {
    /// Is this a scoring element?
    pub fn is_element(&self) -> (r: bool)
        ensures
            r == is_scoring(*self),
    {
        match self {
            EventKind::Transition | EventKind::Pause | EventKind::ProgramStart | EventKind::ProgramEnd => false,
            _ => true,
        }
    }

    /// Get the standard ISU code for this element.
    pub fn isu_code(&self) -> (r: Option<String>)
        ensures
            match isu_code_text(*self) {
                Some(t) => r matches Some(s) && s@ == t,
                None => r is None,
            },
    {
        match self {
            EventKind::Jump { rotations, kind } => {
                let mut s = rotations.to_string();
                push_str(&mut s, kind.to_string().as_str());
                Some(s)
            },
            EventKind::Spin { positions, level, flying, change_foot } => {
                proof {
                    reveal_strlit("F");
                    reveal_strlit("C");
                    reveal_strlit("CoSp");
                    reveal_strlit("Sp");
                }
                let mut s = String::new();
                if *flying {
                    push_str(&mut s, "F");
                }
                if *change_foot {
                    push_str(&mut s, "C");
                }
                if positions.len() > 1 {
                    push_str(&mut s, "CoSp");
                } else if positions.len() == 1 {
                    push_str(&mut s, positions[0].abbrev());
                } else {
                    push_str(&mut s, "Sp");
                }
                push_str(&mut s, level.to_string().as_str());
                proof {
                    assert(s@ =~= spin_code(positions@, *level, *flying, *change_foot));
                }
                Some(s)
            },
            EventKind::StepSequence { level, .. } => {
                let mut s = string_of("StSq");
                push_str(&mut s, level.to_string().as_str());
                Some(s)
            },
            EventKind::Lift { group, level } => {
                let mut s = group.to_string();
                push_str(&mut s, "Li");
                push_str(&mut s, level.to_string().as_str());
                Some(s)
            },
            EventKind::Throw { rotations, kind } => {
                let mut s = rotations.to_string();
                push_str(&mut s, kind.to_string().as_str());
                push_str(&mut s, "Th");
                Some(s)
            },
            EventKind::Twist { rotations, level } => {
                let mut s = rotations.to_string();
                push_str(&mut s, "Tw");
                push_str(&mut s, level.to_string().as_str());
                Some(s)
            },
            EventKind::DeathSpiral { edge, level } => {
                proof {
                    reveal_strlit("BDs");
                    reveal_strlit("FDs");
                    reveal_strlit("Ds");
                }
                let code: &str = match edge {
                    Edge::LBI => "BDs",
                    Edge::LBO => "FDs",
                    _ => "Ds",
                };
                let mut s = string_of(code);
                push_str(&mut s, level.to_string().as_str());
                Some(s)
            },
            _ => None,
        }
    }
}

/// Filter for querying events by kind.
#[derive(Debug, Clone, Copy, PartialEq, Eq, Structural)]
pub enum EventKindFilter {
    Jumps,
    Spins,
    Steps,
    Lifts,
    AllElements,
}

/// Whether a filter admits an event kind.
pub open spec fn filter_admits(f: EventKindFilter, k: EventKind) -> bool {
    match f {
        EventKindFilter::Jumps => k is Jump || k is JumpCombination,
        EventKindFilter::Spins => k is Spin,
        EventKindFilter::Steps => k is StepSequence,
        EventKindFilter::Lifts => k is Lift,
        EventKindFilter::AllElements => is_scoring(k),
    }
}

impl EventKindFilter {
    /// Whether this filter admits the event kind.
    pub fn matches(&self, kind: &EventKind) -> (r: bool)
        ensures
            r == filter_admits(*self, *kind),
    {
        match self {
            EventKindFilter::Jumps => matches!(kind, EventKind::Jump { .. } | EventKind::JumpCombination { .. }),
            EventKindFilter::Spins => matches!(kind, EventKind::Spin { .. }),
            EventKindFilter::Steps => matches!(kind, EventKind::StepSequence { .. }),
            EventKindFilter::Lifts => matches!(kind, EventKind::Lift { .. }),
            EventKindFilter::AllElements => kind.is_element(),
        }
    }
}

} // verus!
