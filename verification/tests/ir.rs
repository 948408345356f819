use anvomidav::base::skating::{Edge, JumpKind, Level, LiftGroup, Rotations, SpinPosition};
use anvomidav::ir::timeline::{EventKind, EventKindFilter, StepPattern};
use anvomidav::ir::choreo::{spin_phase_kinds, PhaseKind};

#[test]
fn test_event_isu_code() {
    let jump = EventKind::Jump { rotations: Rotations::Triple, kind: JumpKind::Axel };
    assert_eq!(jump.isu_code(), Some("3A".to_string()));

    let spin = EventKind::Spin { positions: vec![SpinPosition::Camel], level: Level::L4, flying: true, change_foot: false };
    assert!(spin.isu_code().is_some());
}

#[test]
fn isu_codes_of_each_kind() {
    let spin = EventKind::Spin { positions: vec![SpinPosition::Camel], level: Level::L4, flying: true, change_foot: false };
    assert_eq!(spin.isu_code(), Some("FCSp4".to_string()));
    let combo = EventKind::Spin {
        positions: vec![SpinPosition::Sit, SpinPosition::Camel],
        level: Level::L3,
        flying: false,
        change_foot: true,
    };
    assert_eq!(combo.isu_code(), Some("CCoSp3".to_string()));
    let bare = EventKind::Spin { positions: vec![], level: Level::B, flying: false, change_foot: false };
    assert_eq!(bare.isu_code(), Some("SpB".to_string()));
    assert_eq!(EventKind::StepSequence { pattern: StepPattern::Circular, level: Level::L4 }.isu_code(), Some("StSq4".to_string()));
    assert_eq!(EventKind::Lift { group: LiftGroup::Group5, level: Level::L4 }.isu_code(), Some("Gr5Li4".to_string()));
    assert_eq!(EventKind::Throw { rotations: Rotations::Triple, kind: JumpKind::Lutz }.isu_code(), Some("3LzTh".to_string()));
    assert_eq!(EventKind::Twist { rotations: Rotations::Double, level: Level::L3 }.isu_code(), Some("2Tw3".to_string()));
    assert_eq!(EventKind::DeathSpiral { edge: Edge::LBI, level: Level::L4 }.isu_code(), Some("BDs4".to_string()));
    assert_eq!(EventKind::DeathSpiral { edge: Edge::RFO, level: Level::L2 }.isu_code(), Some("Ds2".to_string()));
    assert_eq!(EventKind::Pause.isu_code(), None);
}

#[test]
fn change_foot_combination_spin_codes() {
    let positions = vec![SpinPosition::Camel, SpinPosition::Sit, SpinPosition::Upright];
    let ccosp = EventKind::Spin { positions: positions.clone(), level: Level::L4, flying: false, change_foot: true };
    assert_eq!(ccosp.isu_code(), Some("CCoSp4".to_string()));
    let fccosp = EventKind::Spin { positions: positions.clone(), level: Level::L4, flying: true, change_foot: true };
    assert_eq!(fccosp.isu_code(), Some("FCCoSp4".to_string()));
    let cosp = EventKind::Spin { positions, level: Level::L3, flying: false, change_foot: false };
    assert_eq!(cosp.isu_code(), Some("CoSp3".to_string()));
    let ccsp = EventKind::Spin { positions: vec![SpinPosition::Camel], level: Level::L2, flying: false, change_foot: true };
    assert_eq!(ccsp.isu_code(), Some("CCSp2".to_string()));
}

#[test]
fn filters_and_scoring_elements() {
    let jump = EventKind::Jump { rotations: Rotations::Double, kind: JumpKind::Flip };
    assert!(jump.is_element());
    assert!(!EventKind::Transition.is_element());
    assert!(EventKindFilter::Jumps.matches(&jump));
    assert!(!EventKindFilter::Spins.matches(&jump));
    assert!(EventKindFilter::AllElements.matches(&jump));
    assert!(!EventKindFilter::AllElements.matches(&EventKind::ProgramEnd));
}

#[test]
fn spin_phase_kinds_in_order() {
    assert_eq!(spin_phase_kinds(1), vec![PhaseKind::Entry, PhaseKind::Execution, PhaseKind::Exit]);
    assert_eq!(spin_phase_kinds(0), vec![PhaseKind::Entry, PhaseKind::Execution, PhaseKind::Exit]);
    assert_eq!(
        spin_phase_kinds(3),
        vec![PhaseKind::Entry, PhaseKind::Execution, PhaseKind::PositionChange, PhaseKind::PositionChange, PhaseKind::Exit]
    );
}
