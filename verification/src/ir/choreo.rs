//! Identifiers and classifications of the choreography representation.

use vstd::prelude::*;

verus! {

/// Unique identifier for a placed element within a choreography.
#[derive(Debug, Clone, Copy, PartialEq, Eq, Hash, Structural)]
pub struct ElementId(pub u32);

/// Unique identifier for a transition within a choreography.
#[derive(Debug, Clone, Copy, PartialEq, Eq, Hash, Structural)]
pub struct TransitionId(pub u32);

/// Skating discipline.
#[derive(Debug, Clone, Copy, PartialEq, Eq, Structural)]
pub enum Discipline {
    /// Men's singles.
    MenSingles,
    /// Women's singles.
    WomenSingles,
    /// Pairs.
    Pairs,
    /// Ice dance.
    IceDance,
}

/// Metadata describing a skating program.
#[derive(Debug, Clone)]
pub struct ProgramMetadata {
    /// Program name.
    pub name: String,
    /// Skating discipline.
    pub discipline: Discipline,
    /// Segment type (short, free, etc.).
    pub segment_type: Option<String>,
    /// Skater name(s).
    pub skaters: Vec<String>,
    /// Season/competition context.
    pub season: Option<String>,
}

/// Kind of execution phase.
#[derive(Debug, Clone, Copy, PartialEq, Eq, Structural)]
pub enum PhaseKind {
    /// Approach and preparation.
    Entry,
    /// Core element execution.
    Execution,
    /// Landing/exit and recovery.
    Exit,
    /// Position change within a spin.
    PositionChange,
    /// Foot change within a spin.
    FootChange,
}

/// The kinds of a spin's phases, in order: entry, execution, a position
/// change for each position after the first, exit.
pub open spec fn spin_phases(positions: nat) -> Seq<PhaseKind> {
    seq![PhaseKind::Entry, PhaseKind::Execution]
        + Seq::new((if positions > 1 { positions - 1 } else { 0 }) as nat, |i: int| PhaseKind::PositionChange)
        + seq![PhaseKind::Exit]
}

/// The kinds of the phases of a spin through `position_count` positions.
pub fn spin_phase_kinds(position_count: usize) -> (r: Vec<PhaseKind>)
    ensures
        r@ == spin_phases(position_count as nat),
{
    let mut r: Vec<PhaseKind> = Vec::new();
    r.push(PhaseKind::Entry);
    r.push(PhaseKind::Execution);
    let mut i: usize = 1;
    while i < position_count
        invariant
            1 <= i,
            position_count >= 1 ==> i <= position_count,
            position_count <= 1 ==> i == 1,
            r@ == seq![PhaseKind::Entry, PhaseKind::Execution]
                + Seq::new((i - 1) as nat, |k: int| PhaseKind::PositionChange),
        decreases position_count - i,
    {
        r.push(PhaseKind::PositionChange);
        proof {
            assert(r@ =~= seq![PhaseKind::Entry, PhaseKind::Execution]
                + Seq::new(i as nat, |k: int| PhaseKind::PositionChange));
        }
        i = i + 1;
    }
    r.push(PhaseKind::Exit);
    proof {
        let changes = (if position_count > 1 { position_count - 1 } else { 0 }) as nat;
        assert((i - 1) as nat == changes);
        assert(r@ =~= spin_phases(position_count as nat));
    }
    r
}

/// Movement quality of a transition.
#[derive(Debug, Clone, Copy, PartialEq, Eq, Structural)]
pub enum TransitionQuality {
    /// Simple stroking/crossovers.
    Stroking,
    /// Basic edge work.
    EdgeWork,
    /// Complex footwork.
    Footwork,
    /// Choreographic movements (spirals, spreads, etc.).
    Choreographic,
    /// Difficult connecting steps.
    DifficultSteps,
}

/// Role in a pairs/dance partnership.
#[derive(Debug, Clone, Copy, PartialEq, Eq, Structural)]
pub enum SkaterRole {
    /// Lead partner (traditionally the man).
    Lead,
    /// Follow partner (traditionally the woman).
    Follow,
    /// Solo element (both skaters in unison, or single skater).
    Solo,
}

/// Reference to a skater in a pairs/dance program.
#[derive(Debug, Clone, PartialEq, Eq)]
pub struct SkaterRef {
    /// Skater name or identifier.
    pub name: String,
    /// Role in the partnership.
    pub role: SkaterRole,
}

} // verus!
