//! ISU rules for each discipline and segment: element limits, durations and
//! the elements a segment must contain.

use vstd::prelude::*;
use crate::syntax::ast::SegmentKind;
use crate::base::text::string_of;

verus! {

/// Skating discipline.
#[derive(Debug, Clone, Copy, PartialEq, Eq, Structural)]
pub enum Discipline {
    /// Men's singles.
    MenSingles,
    /// Ladies' singles.
    LadiesSingles,
    /// Pairs skating.
    Pairs,
    /// Ice dance.
    IceDance,
}

/// Types of required elements.
#[derive(Debug, Clone, Copy, PartialEq, Eq, Structural)]
pub enum RequiredElementType {
    Jump,
    Spin,
    StepSequence,
    ChoreographicSequence,
    Lift,
    Throw,
    Twist,
    DeathSpiral,
    Pattern,
    Twizzle,
}

/// A required element specification.
#[derive(Debug, Clone)]
pub struct RequiredElement {
    /// Element type.
    pub element_type: RequiredElementType,
    /// Minimum count.
    pub min_count: u32,
    /// Maximum count (none means unlimited).
    pub max_count: Option<u32>,
    /// Description.
    pub description: String,
}

/// What a required element says: type, minimum, maximum and description.
pub open spec fn required_view(r: RequiredElement) -> (RequiredElementType, u32, Option<u32>, Seq<char>) {
    (r.element_type, r.min_count, r.max_count, r.description@)
}

/// The numeric limits and required elements of a segment, as values.
pub struct RulesView {
    pub min_duration: Option<u32>,
    pub max_duration: Option<u32>,
    pub max_jumps: Option<u32>,
    pub max_spins: Option<u32>,
    pub step_sequences: Option<u32>,
    pub max_triple_quads: Option<u32>,
    pub max_axels: Option<u32>,
    pub required_lifts: Option<u32>,
    pub required_throws: Option<u32>,
    pub required_twists: Option<u32>,
    pub required_death_spirals: Option<u32>,
    pub pattern_repetitions: Option<u32>,
    pub required_twizzles: Option<u32>,
    pub required: Seq<(RequiredElementType, u32, Option<u32>, Seq<char>)>,
}

/// Rules for a specific segment type.
#[derive(Debug, Clone)]
pub struct SegmentRules {
    /// Minimum duration in seconds.
    pub min_duration: Option<u32>,
    /// Maximum duration in seconds.
    pub max_duration: Option<u32>,
    /// Maximum number of jump elements.
    pub max_jumps: Option<u32>,
    /// Maximum number of spin elements.
    pub max_spins: Option<u32>,
    /// Required step sequence count.
    pub step_sequences: Option<u32>,
    /// Maximum number of triple / quad jumps.
    pub max_triple_quads: Option<u32>,
    /// Maximum axels allowed.
    pub max_axels: Option<u32>,
    /// Required lifts (pairs, dance).
    pub required_lifts: Option<u32>,
    /// Required throws (pairs).
    pub required_throws: Option<u32>,
    /// Required twists (pairs).
    pub required_twists: Option<u32>,
    /// Required death spirals (pairs).
    pub required_death_spirals: Option<u32>,
    /// Required pattern repetitions (dance).
    pub pattern_repetitions: Option<u32>,
    /// Required twizzles (dance).
    pub required_twizzles: Option<u32>,
    /// Required elements.
    pub required_elements: Vec<RequiredElement>,
}

impl SegmentRules {
    /// The rules as values.
    pub open spec fn view(&self) -> RulesView {
        RulesView {
            min_duration: self.min_duration,
            max_duration: self.max_duration,
            max_jumps: self.max_jumps,
            max_spins: self.max_spins,
            step_sequences: self.step_sequences,
            max_triple_quads: self.max_triple_quads,
            max_axels: self.max_axels,
            required_lifts: self.required_lifts,
            required_throws: self.required_throws,
            required_twists: self.required_twists,
            required_death_spirals: self.required_death_spirals,
            pattern_repetitions: self.pattern_repetitions,
            required_twizzles: self.required_twizzles,
            required: self.required_elements@.map_values(|r: RequiredElement| required_view(r)),
        }
    }
}

/// No limits and no required elements.
pub open spec fn no_rules() -> RulesView {
    RulesView {
        min_duration: None,
        max_duration: None,
        max_jumps: None,
        max_spins: None,
        step_sequences: None,
        max_triple_quads: None,
        max_axels: None,
        required_lifts: None,
        required_throws: None,
        required_twists: None,
        required_death_spirals: None,
        pattern_repetitions: None,
        required_twizzles: None,
        required: Seq::empty(),
    }
}

fn required(element_type: RequiredElementType, min_count: u32, max_count: u32, description: &str) -> (r: RequiredElement)
    ensures
        required_view(r) == (element_type, min_count, Some(max_count), description@),
{
    RequiredElement { element_type, min_count, max_count: Some(max_count), description: string_of(description) }
}

impl Default for SegmentRules {
    fn default() -> (r: SegmentRules)
        ensures
            r@ == no_rules(),
    {
        let r = SegmentRules {
            min_duration: None,
            max_duration: None,
            max_jumps: None,
            max_spins: None,
            step_sequences: None,
            max_triple_quads: None,
            max_axels: None,
            required_lifts: None,
            required_throws: None,
            required_twists: None,
            required_death_spirals: None,
            pattern_repetitions: None,
            required_twizzles: None,
            required_elements: Vec::new(),
        };
        assert(r@.required =~= Seq::empty());
        r
    }
}

/// The rules of the men short segment.
pub open spec fn men_short_rules() -> RulesView {
    RulesView {
        min_duration: Some(160u32),
        max_duration: Some(170u32),
        max_jumps: Some(3u32),
        max_spins: Some(3u32),
        step_sequences: Some(1u32),
        max_triple_quads: Some(3u32),
        max_axels: Some(1u32),
        required_lifts: None,
        required_throws: None,
        required_twists: None,
        required_death_spirals: None,
        pattern_repetitions: None,
        required_twizzles: None,
        required: seq![
            (RequiredElementType::Jump, 1u32, Some(1u32), "Double or triple Axel"@),
            (RequiredElementType::Jump, 1u32, Some(1u32), "Triple or quad jump with steps immediately preceding"@),
            (RequiredElementType::Jump, 1u32, Some(1u32), "Jump combination (triple-triple or quad-triple)"@),
            (RequiredElementType::Spin, 1u32, Some(1u32), "Flying spin"@),
            (RequiredElementType::Spin, 1u32, Some(1u32), "Camel spin or sit spin with only one change of foot"@),
            (RequiredElementType::Spin, 1u32, Some(1u32), "Spin combination with only one change of foot"@),
            (RequiredElementType::StepSequence, 1u32, Some(1u32), "Step sequence"@),
        ],
    }
}

/// The rules of the men free segment.
pub open spec fn men_free_rules() -> RulesView {
    RulesView {
        min_duration: Some(240u32),
        max_duration: Some(270u32),
        max_jumps: Some(7u32),
        max_spins: Some(3u32),
        step_sequences: Some(1u32),
        max_triple_quads: Some(7u32),
        max_axels: Some(2u32),
        required_lifts: None,
        required_throws: None,
        required_twists: None,
        required_death_spirals: None,
        pattern_repetitions: None,
        required_twizzles: None,
        required: seq![
            (RequiredElementType::Jump, 7u32, Some(7u32), "Maximum 7 jump elements"@),
            (RequiredElementType::Spin, 3u32, Some(3u32), "3 spins of different nature"@),
            (RequiredElementType::StepSequence, 1u32, Some(1u32), "Step sequence"@),
            (RequiredElementType::ChoreographicSequence, 1u32, Some(1u32), "Choreographic sequence"@),
        ],
    }
}

/// The rules of the ladies short segment.
pub open spec fn ladies_short_rules() -> RulesView {
    RulesView {
        min_duration: Some(160u32),
        max_duration: Some(170u32),
        max_jumps: Some(3u32),
        max_spins: Some(3u32),
        step_sequences: Some(1u32),
        max_triple_quads: Some(3u32),
        max_axels: Some(1u32),
        required_lifts: None,
        required_throws: None,
        required_twists: None,
        required_death_spirals: None,
        pattern_repetitions: None,
        required_twizzles: None,
        required: seq![
            (RequiredElementType::Jump, 1u32, Some(1u32), "Double or triple Axel"@),
            (RequiredElementType::Jump, 1u32, Some(1u32), "Triple or quad jump with steps immediately preceding"@),
            (RequiredElementType::Jump, 1u32, Some(1u32), "Jump combination"@),
            (RequiredElementType::Spin, 3u32, Some(3u32), "3 spins of different nature"@),
            (RequiredElementType::StepSequence, 1u32, Some(1u32), "Step sequence"@),
        ],
    }
}

/// The rules of the ladies free segment.
pub open spec fn ladies_free_rules() -> RulesView {
    RulesView {
        min_duration: Some(240u32),
        max_duration: Some(270u32),
        max_jumps: Some(7u32),
        max_spins: Some(3u32),
        step_sequences: Some(1u32),
        max_triple_quads: Some(7u32),
        max_axels: Some(2u32),
        required_lifts: None,
        required_throws: None,
        required_twists: None,
        required_death_spirals: None,
        pattern_repetitions: None,
        required_twizzles: None,
        required: seq![
            (RequiredElementType::Jump, 7u32, Some(7u32), "Maximum 7 jump elements"@),
            (RequiredElementType::Spin, 3u32, Some(3u32), "3 spins of different nature"@),
            (RequiredElementType::StepSequence, 1u32, Some(1u32), "Step sequence"@),
            (RequiredElementType::ChoreographicSequence, 1u32, Some(1u32), "Choreographic sequence"@),
        ],
    }
}

/// The rules of the pairs short segment.
pub open spec fn pairs_short_rules() -> RulesView {
    RulesView {
        min_duration: Some(160u32),
        max_duration: Some(170u32),
        max_jumps: Some(3u32),
        max_spins: Some(1u32),
        step_sequences: Some(1u32),
        max_triple_quads: None,
        max_axels: None,
        required_lifts: Some(1u32),
        required_throws: Some(1u32),
        required_twists: Some(1u32),
        required_death_spirals: Some(1u32),
        pattern_repetitions: None,
        required_twizzles: None,
        required: seq![
            (RequiredElementType::Twist, 1u32, Some(1u32), "Twist lift"@),
            (RequiredElementType::Lift, 1u32, Some(1u32), "Lift (Group 3, 4, or 5)"@),
            (RequiredElementType::Throw, 1u32, Some(1u32), "Throw jump"@),
            (RequiredElementType::Jump, 1u32, Some(1u32), "Solo jump"@),
            (RequiredElementType::StepSequence, 1u32, Some(1u32), "Step sequence"@),
            (RequiredElementType::DeathSpiral, 1u32, Some(1u32), "Death spiral"@),
            (RequiredElementType::Spin, 1u32, Some(1u32), "Pair spin combination"@),
        ],
    }
}

/// The rules of the pairs free segment.
pub open spec fn pairs_free_rules() -> RulesView {
    RulesView {
        min_duration: Some(240u32),
        max_duration: Some(270u32),
        max_jumps: Some(3u32),
        max_spins: Some(2u32),
        step_sequences: Some(1u32),
        max_triple_quads: None,
        max_axels: None,
        required_lifts: Some(3u32),
        required_throws: Some(2u32),
        required_twists: Some(1u32),
        required_death_spirals: Some(1u32),
        pattern_repetitions: None,
        required_twizzles: None,
        required: seq![
            (RequiredElementType::Twist, 1u32, Some(1u32), "Twist lift"@),
            (RequiredElementType::Lift, 3u32, Some(3u32), "3 different lifts"@),
            (RequiredElementType::Throw, 2u32, Some(2u32), "2 throw jumps"@),
            (RequiredElementType::Jump, 1u32, Some(3u32), "Solo or synchronized jumps"@),
            (RequiredElementType::DeathSpiral, 1u32, Some(1u32), "Death spiral"@),
            (RequiredElementType::StepSequence, 1u32, Some(1u32), "Choreographic sequence"@),
            (RequiredElementType::Spin, 2u32, Some(2u32), "Pair spin and solo spin"@),
        ],
    }
}

/// The rules of the rhythm dance segment.
pub open spec fn rhythm_dance_rules() -> RulesView {
    RulesView {
        min_duration: Some(170u32),
        max_duration: Some(180u32),
        max_jumps: None,
        max_spins: None,
        step_sequences: Some(1u32),
        max_triple_quads: None,
        max_axels: None,
        required_lifts: None,
        required_throws: None,
        required_twists: None,
        required_death_spirals: None,
        pattern_repetitions: None,
        required_twizzles: Some(1u32),
        required: seq![
            (RequiredElementType::Pattern, 1u32, Some(2u32), "Pattern dance section"@),
            (RequiredElementType::Twizzle, 1u32, Some(1u32), "Twizzle sequence"@),
            (RequiredElementType::StepSequence, 1u32, Some(1u32), "Partial step sequence"@),
        ],
    }
}

/// The rules of the free dance segment.
pub open spec fn free_dance_rules() -> RulesView {
    RulesView {
        min_duration: Some(240u32),
        max_duration: Some(250u32),
        max_jumps: None,
        max_spins: None,
        step_sequences: None,
        max_triple_quads: None,
        max_axels: None,
        required_lifts: Some(3u32),
        required_throws: None,
        required_twists: None,
        required_death_spirals: None,
        pattern_repetitions: None,
        required_twizzles: Some(1u32),
        required: seq![
            (RequiredElementType::Lift, 3u32, Some(3u32), "3 different lifts"@),
            (RequiredElementType::Twizzle, 1u32, Some(1u32), "Twizzle sequence"@),
            (RequiredElementType::Spin, 1u32, Some(1u32), "Dance spin"@),
            (RequiredElementType::StepSequence, 1u32, Some(1u32), "Step sequence"@),
            (RequiredElementType::ChoreographicSequence, 1u32, Some(1u32), "Choreographic element"@),
        ],
    }
}

/// The rules of the pattern dance segment.
pub open spec fn pattern_dance_rules() -> RulesView {
    RulesView {
        min_duration: None,
        max_duration: None,
        max_jumps: None,
        max_spins: None,
        step_sequences: None,
        max_triple_quads: None,
        max_axels: None,
        required_lifts: None,
        required_throws: None,
        required_twists: None,
        required_death_spirals: None,
        pattern_repetitions: Some(2u32),
        required_twizzles: None,
        required: seq![
            (RequiredElementType::Pattern, 2u32, Some(2u32), "Required pattern sequences"@),
        ],
    }
}

impl SegmentRules {
    /// Men's short program rules (ISU 2024).
    pub fn men_short() -> (r: SegmentRules)
        ensures
            r@ == men_short_rules(),
    {
        let required_elements = vec![
            required(RequiredElementType::Jump, 1, 1, "Double or triple Axel"),
            required(RequiredElementType::Jump, 1, 1, "Triple or quad jump with steps immediately preceding"),
            required(RequiredElementType::Jump, 1, 1, "Jump combination (triple-triple or quad-triple)"),
            required(RequiredElementType::Spin, 1, 1, "Flying spin"),
            required(RequiredElementType::Spin, 1, 1, "Camel spin or sit spin with only one change of foot"),
            required(RequiredElementType::Spin, 1, 1, "Spin combination with only one change of foot"),
            required(RequiredElementType::StepSequence, 1, 1, "Step sequence"),
        ];
        let r = SegmentRules {
            min_duration: Some(160u32),
            max_duration: Some(170u32),
            max_jumps: Some(3u32),
            max_spins: Some(3u32),
            step_sequences: Some(1u32),
            max_triple_quads: Some(3u32),
            max_axels: Some(1u32),
            required_lifts: None,
            required_throws: None,
            required_twists: None,
            required_death_spirals: None,
            pattern_repetitions: None,
            required_twizzles: None,
            required_elements,
        };
        assert(r@.required =~= men_short_rules().required);
        r
    }

    /// Men's free skate rules (ISU 2024).
    pub fn men_free() -> (r: SegmentRules)
        ensures
            r@ == men_free_rules(),
    {
        let required_elements = vec![
            required(RequiredElementType::Jump, 7, 7, "Maximum 7 jump elements"),
            required(RequiredElementType::Spin, 3, 3, "3 spins of different nature"),
            required(RequiredElementType::StepSequence, 1, 1, "Step sequence"),
            required(RequiredElementType::ChoreographicSequence, 1, 1, "Choreographic sequence"),
        ];
        let r = SegmentRules {
            min_duration: Some(240u32),
            max_duration: Some(270u32),
            max_jumps: Some(7u32),
            max_spins: Some(3u32),
            step_sequences: Some(1u32),
            max_triple_quads: Some(7u32),
            max_axels: Some(2u32),
            required_lifts: None,
            required_throws: None,
            required_twists: None,
            required_death_spirals: None,
            pattern_repetitions: None,
            required_twizzles: None,
            required_elements,
        };
        assert(r@.required =~= men_free_rules().required);
        r
    }

    /// Ladies' short program rules (ISU 2024).
    pub fn ladies_short() -> (r: SegmentRules)
        ensures
            r@ == ladies_short_rules(),
    {
        let required_elements = vec![
            required(RequiredElementType::Jump, 1, 1, "Double or triple Axel"),
            required(RequiredElementType::Jump, 1, 1, "Triple or quad jump with steps immediately preceding"),
            required(RequiredElementType::Jump, 1, 1, "Jump combination"),
            required(RequiredElementType::Spin, 3, 3, "3 spins of different nature"),
            required(RequiredElementType::StepSequence, 1, 1, "Step sequence"),
        ];
        let r = SegmentRules {
            min_duration: Some(160u32),
            max_duration: Some(170u32),
            max_jumps: Some(3u32),
            max_spins: Some(3u32),
            step_sequences: Some(1u32),
            max_triple_quads: Some(3u32),
            max_axels: Some(1u32),
            required_lifts: None,
            required_throws: None,
            required_twists: None,
            required_death_spirals: None,
            pattern_repetitions: None,
            required_twizzles: None,
            required_elements,
        };
        assert(r@.required =~= ladies_short_rules().required);
        r
    }

    /// Ladies' free skate rules (ISU 2024).
    pub fn ladies_free() -> (r: SegmentRules)
        ensures
            r@ == ladies_free_rules(),
    {
        let required_elements = vec![
            required(RequiredElementType::Jump, 7, 7, "Maximum 7 jump elements"),
            required(RequiredElementType::Spin, 3, 3, "3 spins of different nature"),
            required(RequiredElementType::StepSequence, 1, 1, "Step sequence"),
            required(RequiredElementType::ChoreographicSequence, 1, 1, "Choreographic sequence"),
        ];
        let r = SegmentRules {
            min_duration: Some(240u32),
            max_duration: Some(270u32),
            max_jumps: Some(7u32),
            max_spins: Some(3u32),
            step_sequences: Some(1u32),
            max_triple_quads: Some(7u32),
            max_axels: Some(2u32),
            required_lifts: None,
            required_throws: None,
            required_twists: None,
            required_death_spirals: None,
            pattern_repetitions: None,
            required_twizzles: None,
            required_elements,
        };
        assert(r@.required =~= ladies_free_rules().required);
        r
    }

    /// Pairs short program rules (ISU 2024).
    pub fn pairs_short() -> (r: SegmentRules)
        ensures
            r@ == pairs_short_rules(),
    {
        let required_elements = vec![
            required(RequiredElementType::Twist, 1, 1, "Twist lift"),
            required(RequiredElementType::Lift, 1, 1, "Lift (Group 3, 4, or 5)"),
            required(RequiredElementType::Throw, 1, 1, "Throw jump"),
            required(RequiredElementType::Jump, 1, 1, "Solo jump"),
            required(RequiredElementType::StepSequence, 1, 1, "Step sequence"),
            required(RequiredElementType::DeathSpiral, 1, 1, "Death spiral"),
            required(RequiredElementType::Spin, 1, 1, "Pair spin combination"),
        ];
        let r = SegmentRules {
            min_duration: Some(160u32),
            max_duration: Some(170u32),
            max_jumps: Some(3u32),
            max_spins: Some(1u32),
            step_sequences: Some(1u32),
            max_triple_quads: None,
            max_axels: None,
            required_lifts: Some(1u32),
            required_throws: Some(1u32),
            required_twists: Some(1u32),
            required_death_spirals: Some(1u32),
            pattern_repetitions: None,
            required_twizzles: None,
            required_elements,
        };
        assert(r@.required =~= pairs_short_rules().required);
        r
    }

    /// Pairs free skate rules (ISU 2024).
    pub fn pairs_free() -> (r: SegmentRules)
        ensures
            r@ == pairs_free_rules(),
    {
        let required_elements = vec![
            required(RequiredElementType::Twist, 1, 1, "Twist lift"),
            required(RequiredElementType::Lift, 3, 3, "3 different lifts"),
            required(RequiredElementType::Throw, 2, 2, "2 throw jumps"),
            required(RequiredElementType::Jump, 1, 3, "Solo or synchronized jumps"),
            required(RequiredElementType::DeathSpiral, 1, 1, "Death spiral"),
            required(RequiredElementType::StepSequence, 1, 1, "Choreographic sequence"),
            required(RequiredElementType::Spin, 2, 2, "Pair spin and solo spin"),
        ];
        let r = SegmentRules {
            min_duration: Some(240u32),
            max_duration: Some(270u32),
            max_jumps: Some(3u32),
            max_spins: Some(2u32),
            step_sequences: Some(1u32),
            max_triple_quads: None,
            max_axels: None,
            required_lifts: Some(3u32),
            required_throws: Some(2u32),
            required_twists: Some(1u32),
            required_death_spirals: Some(1u32),
            pattern_repetitions: None,
            required_twizzles: None,
            required_elements,
        };
        assert(r@.required =~= pairs_free_rules().required);
        r
    }

    /// Rhythm dance rules (ISU 2024).
    pub fn rhythm_dance() -> (r: SegmentRules)
        ensures
            r@ == rhythm_dance_rules(),
    {
        let required_elements = vec![
            required(RequiredElementType::Pattern, 1, 2, "Pattern dance section"),
            required(RequiredElementType::Twizzle, 1, 1, "Twizzle sequence"),
            required(RequiredElementType::StepSequence, 1, 1, "Partial step sequence"),
        ];
        let r = SegmentRules {
            min_duration: Some(170u32),
            max_duration: Some(180u32),
            max_jumps: None,
            max_spins: None,
            step_sequences: Some(1u32),
            max_triple_quads: None,
            max_axels: None,
            required_lifts: None,
            required_throws: None,
            required_twists: None,
            required_death_spirals: None,
            pattern_repetitions: None,
            required_twizzles: Some(1u32),
            required_elements,
        };
        assert(r@.required =~= rhythm_dance_rules().required);
        r
    }

    /// Free dance rules (ISU 2024).
    pub fn free_dance() -> (r: SegmentRules)
        ensures
            r@ == free_dance_rules(),
    {
        let required_elements = vec![
            required(RequiredElementType::Lift, 3, 3, "3 different lifts"),
            required(RequiredElementType::Twizzle, 1, 1, "Twizzle sequence"),
            required(RequiredElementType::Spin, 1, 1, "Dance spin"),
            required(RequiredElementType::StepSequence, 1, 1, "Step sequence"),
            required(RequiredElementType::ChoreographicSequence, 1, 1, "Choreographic element"),
        ];
        let r = SegmentRules {
            min_duration: Some(240u32),
            max_duration: Some(250u32),
            max_jumps: None,
            max_spins: None,
            step_sequences: None,
            max_triple_quads: None,
            max_axels: None,
            required_lifts: Some(3u32),
            required_throws: None,
            required_twists: None,
            required_death_spirals: None,
            pattern_repetitions: None,
            required_twizzles: Some(1u32),
            required_elements,
        };
        assert(r@.required =~= free_dance_rules().required);
        r
    }

    /// Pattern dance rules.
    pub fn pattern_dance() -> (r: SegmentRules)
        ensures
            r@ == pattern_dance_rules(),
    {
        let required_elements = vec![
            required(RequiredElementType::Pattern, 2, 2, "Required pattern sequences"),
        ];
        let r = SegmentRules {
            min_duration: None,
            max_duration: None,
            max_jumps: None,
            max_spins: None,
            step_sequences: None,
            max_triple_quads: None,
            max_axels: None,
            required_lifts: None,
            required_throws: None,
            required_twists: None,
            required_death_spirals: None,
            pattern_repetitions: Some(2u32),
            required_twizzles: None,
            required_elements,
        };
        assert(r@.required =~= pattern_dance_rules().required);
        r
    }

    /// Exhibition / gala rules: no strict requirements.
    pub fn exhibition() -> (r: SegmentRules)
        ensures
            r@ == no_rules(),
    {
        SegmentRules::default()
    }
}

/// The rules that apply to a discipline's segment kind.
pub open spec fn rules_for(d: Discipline, kind: SegmentKind) -> RulesView {
    match (d, kind) {
        (Discipline::MenSingles, SegmentKind::Short) => men_short_rules(),
        (Discipline::MenSingles, SegmentKind::Free) => men_free_rules(),
        (Discipline::LadiesSingles, SegmentKind::Short) => ladies_short_rules(),
        (Discipline::LadiesSingles, SegmentKind::Free) => ladies_free_rules(),
        (Discipline::Pairs, SegmentKind::Short) => pairs_short_rules(),
        (Discipline::Pairs, SegmentKind::Free) => pairs_free_rules(),
        (Discipline::IceDance, SegmentKind::Rhythm) => rhythm_dance_rules(),
        (Discipline::IceDance, SegmentKind::Free) => free_dance_rules(),
        (Discipline::IceDance, SegmentKind::Pattern) => pattern_dance_rules(),
        (Discipline::IceDance, SegmentKind::Short) => rhythm_dance_rules(),
        (_, SegmentKind::Exhibition) => no_rules(),
        (_, SegmentKind::Pattern) => no_rules(),
        (_, SegmentKind::Rhythm) => no_rules(),
    }
}

impl Discipline {
    /// The segment rules for this discipline and segment kind. Ice dance uses
    /// the rhythm dance rules for a short segment; pattern and rhythm segments
    /// outside ice dance have no rules.
    pub fn segment_rules(&self, kind: SegmentKind) -> (r: SegmentRules)
        ensures
            r@ == rules_for(*self, kind),
    {
        match (self, kind) {
            (Discipline::MenSingles, SegmentKind::Short) => SegmentRules::men_short(),
            (Discipline::MenSingles, SegmentKind::Free) => SegmentRules::men_free(),
            (Discipline::LadiesSingles, SegmentKind::Short) => SegmentRules::ladies_short(),
            (Discipline::LadiesSingles, SegmentKind::Free) => SegmentRules::ladies_free(),
            (Discipline::Pairs, SegmentKind::Short) => SegmentRules::pairs_short(),
            (Discipline::Pairs, SegmentKind::Free) => SegmentRules::pairs_free(),
            (Discipline::IceDance, SegmentKind::Rhythm) => SegmentRules::rhythm_dance(),
            (Discipline::IceDance, SegmentKind::Free) => SegmentRules::free_dance(),
            (Discipline::IceDance, SegmentKind::Pattern) => SegmentRules::pattern_dance(),
            (Discipline::IceDance, SegmentKind::Short) => SegmentRules::rhythm_dance(),
            (_, SegmentKind::Exhibition) => SegmentRules::exhibition(),
            (_, SegmentKind::Pattern) => SegmentRules::default(),
            (_, SegmentKind::Rhythm) => SegmentRules::default(),
        }
    }
}

/// ISU rules configuration.
#[derive(Debug, Clone)]
pub struct ISURules {
    /// Season year (2024 for the 2024-2025 season).
    pub season: u32,
    /// Whether to enforce strict ISU compliance.
    pub strict: bool,
}

impl Default for ISURules {
    fn default() -> (r: ISURules)
        ensures
            r.season == 2024,
            r.strict,
    {
        ISURules { season: 2024, strict: true }
    }
}

} // verus!
