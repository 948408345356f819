//! Documentation and completion for the editor: what hovering over a word
//! shows, and what may be typed next.

use vstd::prelude::*;
use vstd::string::StringSliceAdditionalSpecFns;
use vstd::utf8::{decode_utf8, is_char_boundary};
use crate::base::text::{str_eq, string_of, substr, trim_str, trimmed};
use crate::ide::lines::{line_ranges, lines, lemma_lines_bounds, offset_of, position_to_offset};
use crate::ide::lint::{ascii_bytes, ascii_pattern, contains_sub, find_in};

verus! {
/// The first of two optional values that is present.
pub open spec fn either(a: Option<Seq<char>>, b: Option<Seq<char>>) -> Option<Seq<char>> {
    if a is Some { a } else { b }
}

/// Part 1 of `keyword_doc`.
pub open spec fn keyword_doc_0(w: Seq<char>) -> Option<Seq<char>> {
    if w == "program"@ {
        Some("**program** - Define a complete choreography program\n\nSyntax: `program <name> { ... }`"@)
    } else if w == "segment"@ {
        Some("**segment** - Define a program segment (short program, free skate, rhythm dance)\n\nSyntax: `segment <id>: <type> { ... }`"@)
    } else if w == "sequence"@ {
        Some("**sequence** - Define a sequence of choreographic elements\n\nSyntax: `sequence <name> { ... }`"@)
    } else if w == "transition"@ {
        Some("**transition** - Define a transition between elements\n\nSyntax: `transition <from> -> <to> { ... }`"@)
    } else if w == "jump"@ {
        Some("**jump** - Define a jump element\n\nTypes: axel, lutz, flip, loop, salchow, toe_loop\nQualifiers: single, double, triple, quad"@)
    } else if w == "axel"@ {
        Some("**axel** - Axel jump (forward takeoff, 1.5 rotations)\n\nOnly jump with forward takeoff. Named after Axel Paulsen."@)
    } else {
        None
    }
}

fn get_keyword_documentation_0(word: &str) -> (r: Option<String>)
    ensures
        match keyword_doc_0(word@) {
            Some(d) => r matches Some(s) && s@ == d,
            None => r is None,
        },
{
    if str_eq(word, "program") {
        Some(string_of("**program** - Define a complete choreography program\n\nSyntax: `program <name> { ... }`"))
    } else if str_eq(word, "segment") {
        Some(string_of("**segment** - Define a program segment (short program, free skate, rhythm dance)\n\nSyntax: `segment <id>: <type> { ... }`"))
    } else if str_eq(word, "sequence") {
        Some(string_of("**sequence** - Define a sequence of choreographic elements\n\nSyntax: `sequence <name> { ... }`"))
    } else if str_eq(word, "transition") {
        Some(string_of("**transition** - Define a transition between elements\n\nSyntax: `transition <from> -> <to> { ... }`"))
    } else if str_eq(word, "jump") {
        Some(string_of("**jump** - Define a jump element\n\nTypes: axel, lutz, flip, loop, salchow, toe_loop\nQualifiers: single, double, triple, quad"))
    } else if str_eq(word, "axel") {
        Some(string_of("**axel** - Axel jump (forward takeoff, 1.5 rotations)\n\nOnly jump with forward takeoff. Named after Axel Paulsen."))
    } else {
        None
    }
}

/// Part 2 of `keyword_doc`.
pub open spec fn keyword_doc_1(w: Seq<char>) -> Option<Seq<char>> {
    if w == "lutz"@ {
        Some("**lutz** - Lutz jump (toe-assisted, outside edge)\n\nToe-pick assisted jump from outside edge. Named after Alois Lutz."@)
    } else if w == "flip"@ {
        Some("**flip** - Flip jump (toe-assisted, inside edge)\n\nToe-pick assisted jump from inside edge."@)
    } else if w == "loop"@ {
        Some("**loop** - Loop jump (edge jump)\n\nEdge jump with no toe assistance, takeoff and landing on same edge."@)
    } else if w == "salchow"@ {
        Some("**salchow** - Salchow jump (inside edge)\n\nEdge jump from inside edge. Named after Ulrich Salchow."@)
    } else if w == "toe_loop"@ {
        Some("**toe_loop** - Toe loop jump (toe-assisted)\n\nToe-pick assisted jump, typically the easiest multi-rotation jump."@)
    } else if w == "spin"@ {
        Some("**spin** - Define a spin element\n\nTypes: camel, sit, upright, layback, biellmann, combination, flying"@)
    } else {
        None
    }
}

fn get_keyword_documentation_1(word: &str) -> (r: Option<String>)
    ensures
        match keyword_doc_1(word@) {
            Some(d) => r matches Some(s) && s@ == d,
            None => r is None,
        },
{
    if str_eq(word, "lutz") {
        Some(string_of("**lutz** - Lutz jump (toe-assisted, outside edge)\n\nToe-pick assisted jump from outside edge. Named after Alois Lutz."))
    } else if str_eq(word, "flip") {
        Some(string_of("**flip** - Flip jump (toe-assisted, inside edge)\n\nToe-pick assisted jump from inside edge."))
    } else if str_eq(word, "loop") {
        Some(string_of("**loop** - Loop jump (edge jump)\n\nEdge jump with no toe assistance, takeoff and landing on same edge."))
    } else if str_eq(word, "salchow") {
        Some(string_of("**salchow** - Salchow jump (inside edge)\n\nEdge jump from inside edge. Named after Ulrich Salchow."))
    } else if str_eq(word, "toe_loop") {
        Some(string_of("**toe_loop** - Toe loop jump (toe-assisted)\n\nToe-pick assisted jump, typically the easiest multi-rotation jump."))
    } else if str_eq(word, "spin") {
        Some(string_of("**spin** - Define a spin element\n\nTypes: camel, sit, upright, layback, biellmann, combination, flying"))
    } else {
        None
    }
}

/// Part 3 of `keyword_doc`.
pub open spec fn keyword_doc_2(w: Seq<char>) -> Option<Seq<char>> {
    if w == "camel"@ {
        Some("**camel** - Camel spin (arabesque position)\n\nSpin in arabesque position with free leg extended behind."@)
    } else if w == "sit"@ {
        Some("**sit** - Sit spin (sitting position)\n\nSpin in sitting position with skating knee bent at least 90°."@)
    } else if w == "upright"@ {
        Some("**upright** - Upright spin\n\nSpin in standing position."@)
    } else if w == "layback"@ {
        Some("**layback** - Layback spin\n\nUpright spin with head and shoulders arched backward."@)
    } else if w == "biellmann"@ {
        Some("**biellmann** - Biellmann spin\n\nLayback spin with free leg pulled overhead. Named after Denise Biellmann."@)
    } else if w == "lift"@ {
        Some("**lift** - Pairs lift element\n\nPartner lifts skater overhead. Required in pairs programs."@)
    } else {
        None
    }
}

fn get_keyword_documentation_2(word: &str) -> (r: Option<String>)
    ensures
        match keyword_doc_2(word@) {
            Some(d) => r matches Some(s) && s@ == d,
            None => r is None,
        },
{
    if str_eq(word, "camel") {
        Some(string_of("**camel** - Camel spin (arabesque position)\n\nSpin in arabesque position with free leg extended behind."))
    } else if str_eq(word, "sit") {
        Some(string_of("**sit** - Sit spin (sitting position)\n\nSpin in sitting position with skating knee bent at least 90°."))
    } else if str_eq(word, "upright") {
        Some(string_of("**upright** - Upright spin\n\nSpin in standing position."))
    } else if str_eq(word, "layback") {
        Some(string_of("**layback** - Layback spin\n\nUpright spin with head and shoulders arched backward."))
    } else if str_eq(word, "biellmann") {
        Some(string_of("**biellmann** - Biellmann spin\n\nLayback spin with free leg pulled overhead. Named after Denise Biellmann."))
    } else if str_eq(word, "lift") {
        Some(string_of("**lift** - Pairs lift element\n\nPartner lifts skater overhead. Required in pairs programs."))
    } else {
        None
    }
}

/// Part 4 of `keyword_doc`.
pub open spec fn keyword_doc_3(w: Seq<char>) -> Option<Seq<char>> {
    if w == "throw"@ {
        Some("**throw** - Pairs throw jump\n\nPartner assists in launching skater into jump."@)
    } else if w == "twist"@ {
        Some("**twist** - Pairs twist lift\n\nSkater thrown into air, rotates, and is caught by partner."@)
    } else if w == "death_spiral"@ {
        Some("**death_spiral** - Pairs death spiral\n\nPivot element where partner is in pivot while holding skater in spiral position near ice."@)
    } else if w == "pattern"@ {
        Some("**pattern** - Ice dance pattern\n\nPrescribed set of steps for ice dance."@)
    } else if w == "timing"@ {
        Some("**timing** - Element timing specification\n\nSyntax: `timing { ... }`"@)
    } else if w == "music"@ {
        Some("**music** - Music reference\n\nSyntax: `music \u{22}<title>\u{22} by \u{22}<artist>\u{22}`"@)
    } else {
        None
    }
}

fn get_keyword_documentation_3(word: &str) -> (r: Option<String>)
    ensures
        match keyword_doc_3(word@) {
            Some(d) => r matches Some(s) && s@ == d,
            None => r is None,
        },
{
    if str_eq(word, "throw") {
        Some(string_of("**throw** - Pairs throw jump\n\nPartner assists in launching skater into jump."))
    } else if str_eq(word, "twist") {
        Some(string_of("**twist** - Pairs twist lift\n\nSkater thrown into air, rotates, and is caught by partner."))
    } else if str_eq(word, "death_spiral") {
        Some(string_of("**death_spiral** - Pairs death spiral\n\nPivot element where partner is in pivot while holding skater in spiral position near ice."))
    } else if str_eq(word, "pattern") {
        Some(string_of("**pattern** - Ice dance pattern\n\nPrescribed set of steps for ice dance."))
    } else if str_eq(word, "timing") {
        Some(string_of("**timing** - Element timing specification\n\nSyntax: `timing { ... }`"))
    } else if str_eq(word, "music") {
        Some(string_of("**music** - Music reference\n\nSyntax: `music \u{22}<title>\u{22} by \u{22}<artist>\u{22}`"))
    } else {
        None
    }
}

/// Part 5 of `keyword_doc`.
pub open spec fn keyword_doc_4(w: Seq<char>) -> Option<Seq<char>> {
    if w == "tempo"@ {
        Some("**tempo** - Tempo specification\n\nSyntax: `tempo <bpm>`"@)
    } else if w == "short"@ {
        Some("**short** - Short program segment\n\nRequired elements with time limit (singles: 2:40, pairs: 2:40, ice dance: varies)"@)
    } else if w == "free"@ {
        Some("**free** - Free skate segment\n\nFree choice of elements within limits (singles: 4:00, pairs: 4:00)"@)
    } else if w == "rhythm"@ {
        Some("**rhythm** - Rhythm dance segment (ice dance)\n\nPattern dance with required elements."@)
    } else if w == "single"@ {
        Some("**single** - Single rotation (360°)"@)
    } else if w == "double"@ {
        Some("**double** - Double rotation (720°)"@)
    } else {
        None
    }
}

fn get_keyword_documentation_4(word: &str) -> (r: Option<String>)
    ensures
        match keyword_doc_4(word@) {
            Some(d) => r matches Some(s) && s@ == d,
            None => r is None,
        },
{
    if str_eq(word, "tempo") {
        Some(string_of("**tempo** - Tempo specification\n\nSyntax: `tempo <bpm>`"))
    } else if str_eq(word, "short") {
        Some(string_of("**short** - Short program segment\n\nRequired elements with time limit (singles: 2:40, pairs: 2:40, ice dance: varies)"))
    } else if str_eq(word, "free") {
        Some(string_of("**free** - Free skate segment\n\nFree choice of elements within limits (singles: 4:00, pairs: 4:00)"))
    } else if str_eq(word, "rhythm") {
        Some(string_of("**rhythm** - Rhythm dance segment (ice dance)\n\nPattern dance with required elements."))
    } else if str_eq(word, "single") {
        Some(string_of("**single** - Single rotation (360°)"))
    } else if str_eq(word, "double") {
        Some(string_of("**double** - Double rotation (720°)"))
    } else {
        None
    }
}

/// Part 6 of `keyword_doc`.
pub open spec fn keyword_doc_5(w: Seq<char>) -> Option<Seq<char>> {
    if w == "triple"@ {
        Some("**triple** - Triple rotation (1080°)"@)
    } else if w == "quad"@ {
        Some("**quad** - Quadruple rotation (1440°)"@)
    } else if w == "inside"@ {
        Some("**inside** - Inside edge\n\nSkate edge toward body center."@)
    } else if w == "outside"@ {
        Some("**outside** - Outside edge\n\nSkate edge away from body center."@)
    } else if w == "forward"@ {
        Some("**forward** - Forward direction"@)
    } else if w == "backward"@ {
        Some("**backward** - Backward direction"@)
    } else {
        None
    }
}

fn get_keyword_documentation_5(word: &str) -> (r: Option<String>)
    ensures
        match keyword_doc_5(word@) {
            Some(d) => r matches Some(s) && s@ == d,
            None => r is None,
        },
{
    if str_eq(word, "triple") {
        Some(string_of("**triple** - Triple rotation (1080°)"))
    } else if str_eq(word, "quad") {
        Some(string_of("**quad** - Quadruple rotation (1440°)"))
    } else if str_eq(word, "inside") {
        Some(string_of("**inside** - Inside edge\n\nSkate edge toward body center."))
    } else if str_eq(word, "outside") {
        Some(string_of("**outside** - Outside edge\n\nSkate edge away from body center."))
    } else if str_eq(word, "forward") {
        Some(string_of("**forward** - Forward direction"))
    } else if str_eq(word, "backward") {
        Some(string_of("**backward** - Backward direction"))
    } else {
        None
    }
}

/// The documentation of a keyword, element or qualifier of the language, in Markdown.
pub open spec fn keyword_doc(w: Seq<char>) -> Option<Seq<char>> {
    either(keyword_doc_0(w), either(keyword_doc_1(w), either(keyword_doc_2(w), either(keyword_doc_3(w), either(keyword_doc_4(w), keyword_doc_5(w))))))
}

/// The documentation of a word, if it is a keyword, element or qualifier of the language.
pub fn get_keyword_documentation(word: &str) -> (r: Option<String>)
    ensures
        match keyword_doc(word@) {
            Some(d) => r matches Some(s) && s@ == d,
            None => r is None,
        },
{
    let r = get_keyword_documentation_0(word);
    if r.is_some() {
        return r;
    }
    let r = get_keyword_documentation_1(word);
    if r.is_some() {
        return r;
    }
    let r = get_keyword_documentation_2(word);
    if r.is_some() {
        return r;
    }
    let r = get_keyword_documentation_3(word);
    if r.is_some() {
        return r;
    }
    let r = get_keyword_documentation_4(word);
    if r.is_some() {
        return r;
    }
    get_keyword_documentation_5(word)
}

/// Part 1 of `hover_doc`.
pub open spec fn hover_doc_0(w: Seq<char>) -> Option<Seq<char>> {
    if w == "jump"@ {
        Some("**Jump Element**\n\nSyntax: `jump <rotation> <kind>`\n\nRotations: single, double, triple, quad\nKinds: axel, lutz, flip, loop, salchow, toe_loop, euler"@)
    } else if w == "spin"@ {
        Some("**Spin Element**\n\nSyntax: `spin <positions> [level]`\n\nPositions: upright, sit, camel, layback, biellmann\nLevels: B, L1, L2, L3, L4"@)
    } else if w == "step"@ {
        Some("**Step Sequence**\n\nSyntax: `step <pattern> [level]`\n\nPatterns: straight, circular, serpentine, diagonal, midline"@)
    } else if w == "lift"@ {
        Some("**Lift Element** (Pairs)\n\nSyntax: `lift <group> [level]`\n\nGroups: Gr1, Gr2, Gr3, Gr4, Gr5"@)
    } else if w == "throw"@ {
        Some("**Throw Jump** (Pairs)\n\nSyntax: `throw <rotation> <kind>`"@)
    } else if w == "twist"@ {
        Some("**Twist Lift** (Pairs)\n\nSyntax: `twist <rotation> [level]`"@)
    } else {
        None
    }
}

fn hover_info_0(word: &str) -> (r: Option<String>)
    ensures
        match hover_doc_0(word@) {
            Some(d) => r matches Some(s) && s@ == d,
            None => r is None,
        },
{
    if str_eq(word, "jump") {
        Some(string_of("**Jump Element**\n\nSyntax: `jump <rotation> <kind>`\n\nRotations: single, double, triple, quad\nKinds: axel, lutz, flip, loop, salchow, toe_loop, euler"))
    } else if str_eq(word, "spin") {
        Some(string_of("**Spin Element**\n\nSyntax: `spin <positions> [level]`\n\nPositions: upright, sit, camel, layback, biellmann\nLevels: B, L1, L2, L3, L4"))
    } else if str_eq(word, "step") {
        Some(string_of("**Step Sequence**\n\nSyntax: `step <pattern> [level]`\n\nPatterns: straight, circular, serpentine, diagonal, midline"))
    } else if str_eq(word, "lift") {
        Some(string_of("**Lift Element** (Pairs)\n\nSyntax: `lift <group> [level]`\n\nGroups: Gr1, Gr2, Gr3, Gr4, Gr5"))
    } else if str_eq(word, "throw") {
        Some(string_of("**Throw Jump** (Pairs)\n\nSyntax: `throw <rotation> <kind>`"))
    } else if str_eq(word, "twist") {
        Some(string_of("**Twist Lift** (Pairs)\n\nSyntax: `twist <rotation> [level]`"))
    } else {
        None
    }
}

/// Part 2 of `hover_doc`.
pub open spec fn hover_doc_1(w: Seq<char>) -> Option<Seq<char>> {
    if w == "death_spiral"@ {
        Some("**Death Spiral** (Pairs)\n\nSyntax: `death_spiral <edge> [level]`\n\nEdges: LFO, LFI, LBO, LBI, RFO, RFI, RBO, RBI"@)
    } else if w == "choreographic"@ {
        Some("**Choreographic Element**\n\nSyntax: `choreographic <kind>`\n\nKinds: spiral, spread, ina, hydroblading, pivot"@)
    } else if w == "short"@ {
        Some("**Short Program**\n\n2:40 duration (+/- 10 seconds)\nRequired elements based on discipline"@)
    } else if w == "free"@ {
        Some("**Free Skating**\n\n4:00 duration (+/- 10 seconds)\nWell-balanced program requirements"@)
    } else if w == "rhythm"@ {
        Some("**Rhythm Dance** (Ice Dance)\n\n2:50 duration (+/- 10 seconds)\nRequired pattern dance sequences"@)
    } else if w == "exhibition"@ {
        Some("**Exhibition/Gala**\n\nNo time limits or element requirements\nPure artistic expression"@)
    } else {
        None
    }
}

fn hover_info_1(word: &str) -> (r: Option<String>)
    ensures
        match hover_doc_1(word@) {
            Some(d) => r matches Some(s) && s@ == d,
            None => r is None,
        },
{
    if str_eq(word, "death_spiral") {
        Some(string_of("**Death Spiral** (Pairs)\n\nSyntax: `death_spiral <edge> [level]`\n\nEdges: LFO, LFI, LBO, LBI, RFO, RFI, RBO, RBI"))
    } else if str_eq(word, "choreographic") {
        Some(string_of("**Choreographic Element**\n\nSyntax: `choreographic <kind>`\n\nKinds: spiral, spread, ina, hydroblading, pivot"))
    } else if str_eq(word, "short") {
        Some(string_of("**Short Program**\n\n2:40 duration (+/- 10 seconds)\nRequired elements based on discipline"))
    } else if str_eq(word, "free") {
        Some(string_of("**Free Skating**\n\n4:00 duration (+/- 10 seconds)\nWell-balanced program requirements"))
    } else if str_eq(word, "rhythm") {
        Some(string_of("**Rhythm Dance** (Ice Dance)\n\n2:50 duration (+/- 10 seconds)\nRequired pattern dance sequences"))
    } else if str_eq(word, "exhibition") {
        Some(string_of("**Exhibition/Gala**\n\nNo time limits or element requirements\nPure artistic expression"))
    } else {
        None
    }
}

/// Part 3 of `hover_doc`.
pub open spec fn hover_doc_2(w: Seq<char>) -> Option<Seq<char>> {
    if w == "triple"@ {
        Some("**Triple** (3 rotations)"@)
    } else if w == "quad"@ {
        Some("**Quadruple** (4 rotations)\n\nHighest difficulty rotation count"@)
    } else {
        None
    }
}

fn hover_info_2(word: &str) -> (r: Option<String>)
    ensures
        match hover_doc_2(word@) {
            Some(d) => r matches Some(s) && s@ == d,
            None => r is None,
        },
{
    if str_eq(word, "triple") {
        Some(string_of("**Triple** (3 rotations)"))
    } else if str_eq(word, "quad") {
        Some(string_of("**Quadruple** (4 rotations)\n\nHighest difficulty rotation count"))
    } else {
        None
    }
}

/// The summary shown when hovering over an element keyword, segment kind or rotation, in Markdown.
pub open spec fn hover_doc(w: Seq<char>) -> Option<Seq<char>> {
    either(hover_doc_0(w), either(hover_doc_1(w), hover_doc_2(w)))
}

/// The summary shown when hovering over a word, if it has one.
pub fn hover_info(word: &str) -> (r: Option<String>)
    ensures
        match hover_doc(word@) {
            Some(d) => r matches Some(s) && s@ == d,
            None => r is None,
        },
{
    let r = hover_info_0(word);
    if r.is_some() {
        return r;
    }
    let r = hover_info_1(word);
    if r.is_some() {
        return r;
    }
    hover_info_2(word)
}

/// How a completion entry is classified.
#[derive(Debug, Clone, Copy, PartialEq, Eq, Structural)]
pub enum CompletionKind {
    Keyword,
    EnumMember,
}

/// A completion entry: the label offered, its kind, and optionally a detail
/// line and the text to insert.
#[derive(Debug)]
pub struct CompletionEntry {
    pub label: String,
    pub kind: CompletionKind,
    pub detail: Option<String>,
    pub insert_text: Option<String>,
}

/// A completion entry as a value.
pub type EntryV = (Seq<char>, CompletionKind, Option<Seq<char>>, Option<Seq<char>>);

/// The value of a completion entry.
pub open spec fn entry_view(e: CompletionEntry) -> EntryV {
    (
        e.label@,
        e.kind,
        match e.detail { Some(d) => Some(d@), None => None },
        match e.insert_text { Some(t) => Some(t@), None => None },
    )
}

/// The values of a list of completion entries.
pub open spec fn entry_views(s: Seq<CompletionEntry>) -> Seq<EntryV> {
    s.map_values(|e: CompletionEntry| entry_view(e))
}

/// Entries with a detail line, from a table of labels and details.
pub open spec fn detailed(t: Seq<(Seq<char>, Seq<char>)>, k: CompletionKind) -> Seq<EntryV> {
    t.map_values(|p: (Seq<char>, Seq<char>)| (p.0, k, Some(p.1), None::<Seq<char>>))
}

fn push_detailed(out: &mut Vec<CompletionEntry>, label: &str, kind: CompletionKind, detail: &str)
    ensures
        entry_views(final(out)@) == entry_views(old(out)@).push((label@, kind, Some(detail@), None::<Seq<char>>)),
{
    out.push(CompletionEntry { label: string_of(label), kind, detail: Some(string_of(detail)), insert_text: None });
    assert(entry_views(out@) =~= entry_views(old(out)@).push((label@, kind, Some(detail@), None::<Seq<char>>)));
}

fn push_insert(out: &mut Vec<CompletionEntry>, label: &str, kind: CompletionKind, insert: &str)
    ensures
        entry_views(final(out)@) == entry_views(old(out)@).push((label@, kind, None::<Seq<char>>, Some(insert@))),
{
    out.push(CompletionEntry { label: string_of(label), kind, detail: None, insert_text: Some(string_of(insert)) });
    assert(entry_views(out@) =~= entry_views(old(out)@).push((label@, kind, None::<Seq<char>>, Some(insert@))));
}

/// Keywords of the language, with what each defines.
pub open spec fn keywords_table() -> Seq<(Seq<char>, Seq<char>)> {
    seq![
        ("program"@, "Define a choreography program"@),
        ("segment"@, "Define a program segment"@),
        ("sequence"@, "Define a sequence of elements"@),
        ("transition"@, "Define a transition between elements"@),
        ("choreography"@, "Define choreography structure"@),
        ("spiral"@, "Define a spiral sequence"@),
        ("step"@, "Define a step sequence"@),
        ("turn"@, "Define a turn sequence"@),
        ("jump"@, "Define a jump element"@),
        ("spin"@, "Define a spin element"@),
        ("lift"@, "Define a lift element (pairs)"@),
        ("throw"@, "Define a throw element (pairs)"@),
        ("twist"@, "Define a twist element (pairs)"@),
        ("death_spiral"@, "Define a death spiral (pairs)"@),
        ("pattern"@, "Define an ice dance pattern"@),
        ("timing"@, "Specify element timing"@),
        ("music"@, "Music reference"@),
        ("tempo"@, "Tempo specification"@),
        ("short"@, "Short program segment"@),
        ("free"@, "Free program segment"@),
        ("rhythm"@, "Rhythm dance segment"@),
    ]
}

fn push_keywords(out: &mut Vec<CompletionEntry>, kind: CompletionKind)
    ensures
        entry_views(final(out)@) == entry_views(old(out)@) + detailed(keywords_table(), kind),
{
    let ghost o = entry_views(out@);
    push_detailed(out, "program", kind, "Define a choreography program");
    push_detailed(out, "segment", kind, "Define a program segment");
    push_detailed(out, "sequence", kind, "Define a sequence of elements");
    push_detailed(out, "transition", kind, "Define a transition between elements");
    push_detailed(out, "choreography", kind, "Define choreography structure");
    push_detailed(out, "spiral", kind, "Define a spiral sequence");
    push_detailed(out, "step", kind, "Define a step sequence");
    push_detailed(out, "turn", kind, "Define a turn sequence");
    push_detailed(out, "jump", kind, "Define a jump element");
    push_detailed(out, "spin", kind, "Define a spin element");
    push_detailed(out, "lift", kind, "Define a lift element (pairs)");
    push_detailed(out, "throw", kind, "Define a throw element (pairs)");
    push_detailed(out, "twist", kind, "Define a twist element (pairs)");
    push_detailed(out, "death_spiral", kind, "Define a death spiral (pairs)");
    push_detailed(out, "pattern", kind, "Define an ice dance pattern");
    push_detailed(out, "timing", kind, "Specify element timing");
    push_detailed(out, "music", kind, "Music reference");
    push_detailed(out, "tempo", kind, "Tempo specification");
    push_detailed(out, "short", kind, "Short program segment");
    push_detailed(out, "free", kind, "Free program segment");
    push_detailed(out, "rhythm", kind, "Rhythm dance segment");
    assert(entry_views(out@) =~= o + detailed(keywords_table(), kind));
}

/// Jump kinds, with how each takes off.
pub open spec fn jumps_table() -> Seq<(Seq<char>, Seq<char>)> {
    seq![
        ("axel"@, "Axel jump (1.5 rotations forward takeoff)"@),
        ("lutz"@, "Lutz jump (toe-assisted, outside edge)"@),
        ("flip"@, "Flip jump (toe-assisted, inside edge)"@),
        ("loop"@, "Loop jump (edge jump)"@),
        ("salchow"@, "Salchow jump (edge jump, inside edge)"@),
        ("toe_loop"@, "Toe loop jump (toe-assisted)"@),
    ]
}

fn push_jumps(out: &mut Vec<CompletionEntry>, kind: CompletionKind)
    ensures
        entry_views(final(out)@) == entry_views(old(out)@) + detailed(jumps_table(), kind),
{
    let ghost o = entry_views(out@);
    push_detailed(out, "axel", kind, "Axel jump (1.5 rotations forward takeoff)");
    push_detailed(out, "lutz", kind, "Lutz jump (toe-assisted, outside edge)");
    push_detailed(out, "flip", kind, "Flip jump (toe-assisted, inside edge)");
    push_detailed(out, "loop", kind, "Loop jump (edge jump)");
    push_detailed(out, "salchow", kind, "Salchow jump (edge jump, inside edge)");
    push_detailed(out, "toe_loop", kind, "Toe loop jump (toe-assisted)");
    assert(entry_views(out@) =~= o + detailed(jumps_table(), kind));
}

/// Spin positions and kinds.
pub open spec fn spins_table() -> Seq<(Seq<char>, Seq<char>)> {
    seq![
        ("camel"@, "Camel spin (arabesque position)"@),
        ("sit"@, "Sit spin (sitting position)"@),
        ("upright"@, "Upright spin"@),
        ("layback"@, "Layback spin"@),
        ("biellmann"@, "Biellmann spin (leg held overhead)"@),
        ("combination"@, "Combination spin"@),
        ("flying"@, "Flying spin (jump entry)"@),
    ]
}

fn push_spins(out: &mut Vec<CompletionEntry>, kind: CompletionKind)
    ensures
        entry_views(final(out)@) == entry_views(old(out)@) + detailed(spins_table(), kind),
{
    let ghost o = entry_views(out@);
    push_detailed(out, "camel", kind, "Camel spin (arabesque position)");
    push_detailed(out, "sit", kind, "Sit spin (sitting position)");
    push_detailed(out, "upright", kind, "Upright spin");
    push_detailed(out, "layback", kind, "Layback spin");
    push_detailed(out, "biellmann", kind, "Biellmann spin (leg held overhead)");
    push_detailed(out, "combination", kind, "Combination spin");
    push_detailed(out, "flying", kind, "Flying spin (jump entry)");
    assert(entry_views(out@) =~= o + detailed(spins_table(), kind));
}

/// Rotation qualifiers.
pub open spec fn rotations_table() -> Seq<(Seq<char>, Seq<char>)> {
    seq![
        ("single"@, "Single rotation"@),
        ("double"@, "Double rotation"@),
        ("triple"@, "Triple rotation"@),
        ("quad"@, "Quadruple rotation"@),
    ]
}

fn push_rotations(out: &mut Vec<CompletionEntry>, kind: CompletionKind)
    ensures
        entry_views(final(out)@) == entry_views(old(out)@) + detailed(rotations_table(), kind),
{
    let ghost o = entry_views(out@);
    push_detailed(out, "single", kind, "Single rotation");
    push_detailed(out, "double", kind, "Double rotation");
    push_detailed(out, "triple", kind, "Triple rotation");
    push_detailed(out, "quad", kind, "Quadruple rotation");
    assert(entry_views(out@) =~= o + detailed(rotations_table(), kind));
}

/// The context of a completion: the word before the cursor that decides
/// what is offered.
pub open spec fn context_of(before: Seq<u8>) -> Seq<char> {
    if contains_sub(before, ascii_bytes("jump"@)) {
        "jump"@
    } else if contains_sub(before, ascii_bytes("spin"@)) {
        "spin"@
    } else {
        Seq::empty()
    }
}

/// Where the text before the cursor ends on line `line`: at the cursor's
/// column, at most the line's end, as a byte offset in the document.
pub open spec fn cursor_cut(b: Seq<u8>, line: int, character: int) -> int {
    let (a, e) = lines(b)[line];
    if character < e - a { a + character } else { e }
}

/// Whether the text before a cursor on an existing line can be taken: the
/// cut falls on a character boundary.
pub open spec fn cut_ok(b: Seq<u8>, line: int, character: int) -> bool {
    line < lines(b).len() ==> is_char_boundary(b, cursor_cut(b, line, character))
}

/// The completion context at a cursor: empty past the last line.
pub open spec fn cursor_context(b: Seq<u8>, line: int, character: int) -> Seq<char> {
    if line < lines(b).len() {
        context_of(b.subrange(lines(b)[line].0, cursor_cut(b, line, character)))
    } else {
        Seq::empty()
    }
}

/// Whether the text before a cursor can be taken (see `cut_ok`).
pub fn context_cut_ok(source: &str, line: u32, character: u32) -> (r: bool)
    ensures
        r == cut_ok(source.spec_bytes(), line as int, character as int),
{
    let b = source.as_bytes();
    let ls = line_ranges(b);
    proof {
        lemma_lines_bounds(b@, 0);
    }
    if (line as usize) < ls.len() {
        let (a, e) = ls[line as usize];
        let cut = if (character as usize) < e - a { a + character as usize } else { e };
        source.is_char_boundary(cut)
    } else {
        true
    }
}

/// The word before the cursor that decides what completion offers: `jump`,
/// `spin`, or nothing.
pub fn get_context_at_position(source: &str, line: u32, character: u32) -> (r: String)
    requires
        cut_ok(source.spec_bytes(), line as int, character as int),
    ensures
        r@ == cursor_context(source.spec_bytes(), line as int, character as int),
{
    proof {
        reveal_strlit("jump");
        reveal_strlit("spin");
        reveal_strlit("");
    }
    let b = source.as_bytes();
    let ls = line_ranges(b);
    proof {
        lemma_lines_bounds(b@, 0);
    }
    if (line as usize) >= ls.len() {
        return String::new();
    }
    let (a, e) = ls[line as usize];
    let cut = if (character as usize) < e - a { a + character as usize } else { e };
    if find_in(b, a, cut, ascii_pattern("jump")).is_some() {
        string_of("jump")
    } else if find_in(b, a, cut, ascii_pattern("spin")).is_some() {
        string_of("spin")
    } else {
        String::new()
    }
}

/// The entries offered in a completion context.
pub open spec fn context_entries(ctx: Seq<char>) -> Seq<EntryV> {
    if ctx == "jump"@ {
        detailed(jumps_table(), CompletionKind::EnumMember) + detailed(rotations_table(), CompletionKind::Keyword)
    } else if ctx == "spin"@ {
        detailed(spins_table(), CompletionKind::EnumMember)
    } else {
        detailed(keywords_table(), CompletionKind::Keyword)
    }
}

/// Completion at a cursor: jump kinds and rotations after `jump`, spin
/// positions after `spin`, else the keywords.
pub fn handle_completion(source: &str, line: u32, character: u32) -> (r: Vec<CompletionEntry>)
    requires
        cut_ok(source.spec_bytes(), line as int, character as int),
    ensures
        entry_views(r@) == context_entries(cursor_context(source.spec_bytes(), line as int, character as int)),
{
    proof {
        reveal_strlit("jump");
        reveal_strlit("spin");
    }
    let context = get_context_at_position(source, line, character);
    let mut items: Vec<CompletionEntry> = Vec::new();
    assert(entry_views(items@) =~= Seq::<EntryV>::empty());
    if str_eq(context.as_str(), "jump") {
        push_jumps(&mut items, CompletionKind::EnumMember);
        push_rotations(&mut items, CompletionKind::Keyword);
    } else if str_eq(context.as_str(), "spin") {
        push_spins(&mut items, CompletionKind::EnumMember);
    } else {
        push_keywords(&mut items, CompletionKind::Keyword);
    }
    items
}

/// Entries with text to insert, from a table of labels and insertions.
pub open spec fn inserting(t: Seq<(Seq<char>, Seq<char>)>, k: CompletionKind) -> Seq<EntryV> {
    t.map_values(|p: (Seq<char>, Seq<char>)| (p.0, k, None::<Seq<char>>, Some(p.1)))
}

/// Statements offered at the start of a line or block.
pub open spec fn block_entries() -> Seq<EntryV> {
    inserting(seq![
        ("sequence"@, "sequence { }"@),
        ("jump"@, "jump triple "@),
        ("spin"@, "spin camel "@),
        ("step"@, "step circular "@),
        ("choreographic"@, "choreographic spiral"@),
    ], CompletionKind::Keyword)
}

fn push_block_entries(out: &mut Vec<CompletionEntry>)
    ensures
        entry_views(final(out)@) == entry_views(old(out)@) + block_entries(),
{
    let ghost o = entry_views(out@);
    push_insert(out, "sequence", CompletionKind::Keyword, "sequence { }");
    push_insert(out, "jump", CompletionKind::Keyword, "jump triple ");
    push_insert(out, "spin", CompletionKind::Keyword, "spin camel ");
    push_insert(out, "step", CompletionKind::Keyword, "step circular ");
    push_insert(out, "choreographic", CompletionKind::Keyword, "choreographic spiral");
    assert(entry_views(out@) =~= o + block_entries());
}

/// Rotations offered after a jump or throw.
pub open spec fn rotation_entries() -> Seq<EntryV> {
    inserting(seq![
        ("single"@, "single"@),
        ("double"@, "double"@),
        ("triple"@, "triple"@),
        ("quad"@, "quad"@),
    ], CompletionKind::EnumMember)
}

fn push_rotation_entries(out: &mut Vec<CompletionEntry>)
    ensures
        entry_views(final(out)@) == entry_views(old(out)@) + rotation_entries(),
{
    let ghost o = entry_views(out@);
    push_insert(out, "single", CompletionKind::EnumMember, "single");
    push_insert(out, "double", CompletionKind::EnumMember, "double");
    push_insert(out, "triple", CompletionKind::EnumMember, "triple");
    push_insert(out, "quad", CompletionKind::EnumMember, "quad");
    assert(entry_views(out@) =~= o + rotation_entries());
}

/// Jump kinds offered after a rotation.
pub open spec fn jump_kind_entries() -> Seq<EntryV> {
    inserting(seq![
        ("axel"@, "axel"@),
        ("lutz"@, "lutz"@),
        ("flip"@, "flip"@),
        ("loop"@, "loop"@),
        ("salchow"@, "salchow"@),
        ("toe_loop"@, "toe_loop"@),
    ], CompletionKind::EnumMember)
}

fn push_jump_kind_entries(out: &mut Vec<CompletionEntry>)
    ensures
        entry_views(final(out)@) == entry_views(old(out)@) + jump_kind_entries(),
{
    let ghost o = entry_views(out@);
    push_insert(out, "axel", CompletionKind::EnumMember, "axel");
    push_insert(out, "lutz", CompletionKind::EnumMember, "lutz");
    push_insert(out, "flip", CompletionKind::EnumMember, "flip");
    push_insert(out, "loop", CompletionKind::EnumMember, "loop");
    push_insert(out, "salchow", CompletionKind::EnumMember, "salchow");
    push_insert(out, "toe_loop", CompletionKind::EnumMember, "toe_loop");
    assert(entry_views(out@) =~= o + jump_kind_entries());
}

/// Spin positions offered after a spin.
pub open spec fn position_entries() -> Seq<EntryV> {
    inserting(seq![
        ("upright"@, "upright"@),
        ("sit"@, "sit"@),
        ("camel"@, "camel"@),
        ("layback"@, "layback"@),
    ], CompletionKind::EnumMember)
}

fn push_position_entries(out: &mut Vec<CompletionEntry>)
    ensures
        entry_views(final(out)@) == entry_views(old(out)@) + position_entries(),
{
    let ghost o = entry_views(out@);
    push_insert(out, "upright", CompletionKind::EnumMember, "upright");
    push_insert(out, "sit", CompletionKind::EnumMember, "sit");
    push_insert(out, "camel", CompletionKind::EnumMember, "camel");
    push_insert(out, "layback", CompletionKind::EnumMember, "layback");
    assert(entry_views(out@) =~= o + position_entries());
}

/// Segment kinds offered in a segment header.
pub open spec fn segment_kind_entries() -> Seq<EntryV> {
    inserting(seq![
        ("short"@, "short"@),
        ("free"@, "free"@),
        ("rhythm"@, "rhythm"@),
        ("exhibition"@, "exhibition"@),
    ], CompletionKind::EnumMember)
}

fn push_segment_kind_entries(out: &mut Vec<CompletionEntry>)
    ensures
        entry_views(final(out)@) == entry_views(old(out)@) + segment_kind_entries(),
{
    let ghost o = entry_views(out@);
    push_insert(out, "short", CompletionKind::EnumMember, "short");
    push_insert(out, "free", CompletionKind::EnumMember, "free");
    push_insert(out, "rhythm", CompletionKind::EnumMember, "rhythm");
    push_insert(out, "exhibition", CompletionKind::EnumMember, "exhibition");
    assert(entry_views(out@) =~= o + segment_kind_entries());
}

/// Levels, always offered.
pub open spec fn level_entries() -> Seq<EntryV> {
    inserting(seq![
        ("L1"@, "L1"@),
        ("L2"@, "L2"@),
        ("L3"@, "L3"@),
        ("L4"@, "L4"@),
    ], CompletionKind::EnumMember)
}

fn push_level_entries(out: &mut Vec<CompletionEntry>)
    ensures
        entry_views(final(out)@) == entry_views(old(out)@) + level_entries(),
{
    let ghost o = entry_views(out@);
    push_insert(out, "L1", CompletionKind::EnumMember, "L1");
    push_insert(out, "L2", CompletionKind::EnumMember, "L2");
    push_insert(out, "L3", CompletionKind::EnumMember, "L3");
    push_insert(out, "L4", CompletionKind::EnumMember, "L4");
    assert(entry_views(out@) =~= o + level_entries());
}

/// Where the line holding byte offset `off` starts: after the last newline
/// before it, or at the start.
pub open spec fn line_start_of(b: Seq<u8>, off: int) -> int
    decreases off,
{
    if off <= 0 {
        0
    } else if b[off - 1] == 10 {
        off
    } else {
        line_start_of(b, off - 1)
    }
}

/// The entries offered for the text `lb` (as bytes) or `lc` (as characters)
/// between the start of the cursor's line and the cursor.
pub open spec fn line_entries(lb: Seq<u8>, lc: Seq<char>) -> Seq<EntryV> {
    let has = |p: Seq<char>| contains_sub(lb, ascii_bytes(p));
    (if trimmed(lc).len() == 0 || (lb.len() > 0 && lb.last() == 123) { block_entries() } else { Seq::empty() })
        + (if has("jump"@) || has("throw"@) { rotation_entries() } else { Seq::empty() })
        + (if has("triple"@) || has("quad"@) || has("double"@) || has("single"@) { jump_kind_entries() } else { Seq::empty() })
        + (if has("spin"@) { position_entries() } else { Seq::empty() })
        + (if has("segment"@) && has(":"@) { segment_kind_entries() } else { Seq::empty() })
        + level_entries()
}

/// The offset a cursor stands at, taking each line to end with one
/// newline byte.
pub open spec fn cursor_offset(b: Seq<u8>, line: int, character: int) -> int {
    offset_of(b, line, character)
}

/// Whether the text before a cursor can be taken: its offset falls on a
/// character boundary.
pub fn cursor_offset_ok(source: &str, line: u32, character: u32) -> (r: bool)
    ensures
        r == is_char_boundary(source.spec_bytes(), cursor_offset(source.spec_bytes(), line as int, character as int)),
{
    let offset = position_to_offset(source, line, character);
    source.is_char_boundary(offset)
}

/// The entries the server offers at a cursor, from the text between the
/// start of its line and it.
pub fn line_completions(source: &str, line: u32, character: u32) -> (r: Vec<CompletionEntry>)
    requires
        is_char_boundary(source.spec_bytes(), cursor_offset(source.spec_bytes(), line as int, character as int)),
    ensures
        ({
            let b = source.spec_bytes();
            let off = cursor_offset(b, line as int, character as int);
            let lb = b.subrange(line_start_of(b, off), off);
            entry_views(r@) == line_entries(lb, decode_utf8(lb))
        }),
{
    let b = source.as_bytes();
    let offset = position_to_offset(source, line, character);
    let mut start = offset;
    while start > 0
        invariant_except_break
            line_start_of(b@, offset as int) == line_start_of(b@, start as int),
        invariant
            start <= offset <= b@.len(),
            b@ == source.spec_bytes(),
        ensures
            start == line_start_of(b@, offset as int),
            start > 0 ==> b@[start - 1] == 10,
        decreases start,
    {
        if b[start - 1] == 10 {
            break;
        }
        start = start - 1;
    }
    assert(start == line_start_of(b@, offset as int));
    proof {
        vstd::utf8::encode_utf8_valid_utf8(source@);
        if start > 0 {
            vstd::utf8::is_char_boundary_iff_not_is_continuation_byte(b@, start - 1);
            crate::base::source::lemma_boundary_after_ascii(b@, start - 1);
        }
    }
    let text = substr(source, start, offset);
    let t = trim_str(text);
    let ghost lb = b@.subrange(start as int, offset as int);
    proof {
        reveal_strlit("jump");
        reveal_strlit("throw");
        reveal_strlit("triple");
        reveal_strlit("quad");
        reveal_strlit("double");
        reveal_strlit("single");
        reveal_strlit("spin");
        reveal_strlit("segment");
        reveal_strlit(":");
    }
    let mut items: Vec<CompletionEntry> = Vec::new();
    let ghost o0 = entry_views(items@);
    assert(o0 =~= Seq::<EntryV>::empty());
    if t.as_str().unicode_len() == 0 || (offset > start && b[offset - 1] == 123) {
        push_block_entries(&mut items);
    }
    let ghost o1 = entry_views(items@);
    if find_in(b, start, offset, ascii_pattern("jump")).is_some() || find_in(b, start, offset, ascii_pattern("throw")).is_some() {
        push_rotation_entries(&mut items);
    }
    let ghost o2 = entry_views(items@);
    if find_in(b, start, offset, ascii_pattern("triple")).is_some() || find_in(b, start, offset, ascii_pattern("quad")).is_some()
        || find_in(b, start, offset, ascii_pattern("double")).is_some() || find_in(b, start, offset, ascii_pattern("single")).is_some() {
        push_jump_kind_entries(&mut items);
    }
    let ghost o3 = entry_views(items@);
    if find_in(b, start, offset, ascii_pattern("spin")).is_some() {
        push_position_entries(&mut items);
    }
    let ghost o4 = entry_views(items@);
    if find_in(b, start, offset, ascii_pattern("segment")).is_some() && find_in(b, start, offset, ascii_pattern(":")).is_some() {
        push_segment_kind_entries(&mut items);
    }
    push_level_entries(&mut items);
    proof {
        assert(lb.len() > 0 ==> lb.last() == b@[offset - 1]);
        assert(entry_views(items@) =~= line_entries(lb, decode_utf8(lb)));
    }
    items
}

} // verus!
