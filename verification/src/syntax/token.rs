//! Lexical tokens of Anvomidav and the lexer that produces them.
//!
//! The lexer reads the longest token at each position (maximal munch):
//! whitespace and comments are skipped, a word that is a keyword becomes the
//! keyword's token, and a position where no token starts is an error.

use vstd::prelude::*;
use vstd::utf8::{decode_utf8, encode_utf8, is_ascii_chars, is_char_boundary, valid_utf8};
use vstd::string::StringSliceAdditionalSpecFns;
use crate::base::source::lemma_boundary_after_ascii;
use crate::base::text::{debug_str, debug_text, str_eq, string_of, substr, trim_str, trimmed};

verus! {

/// Lexical token types.
#[derive(Debug, Clone, PartialEq, Eq, Hash)]
pub enum Token {
    /// `program`
    Program,
    /// `segment`
    Segment,
    /// `sequence`
    Sequence,
    /// `element`
    Element,
    /// `jump`
    Jump,
    /// `spin`
    Spin,
    /// `step`
    Step,
    /// `lift`
    Lift,
    /// `death_spiral`
    DeathSpiral,
    /// `throw`
    Throw,
    /// `twist`
    Twist,
    /// `transition`
    Transition,
    /// `choreographic`
    Choreographic,
    /// `let`
    Let,
    /// `if`
    If,
    /// `then`
    Then,
    /// `else`
    Else,
    /// `match`
    Match,
    /// `with`
    With,
    /// `for`
    For,
    /// `in`
    In,
    /// `while`
    While,
    /// `do`
    Do,
    /// `end`
    End,
    /// `return`
    Return,
    /// `fn`
    Fn,
    /// `type`
    Type,
    /// `import`
    Import,
    /// `export`
    Export,
    /// `from`
    From,
    /// `as`
    As,
    /// `music`
    Music,
    /// `tempo`
    Tempo,
    /// `beat`
    Beat,
    /// `at`
    At,
    /// `to`
    To,
    /// `duration`
    Duration,
    /// `position`
    Position,
    /// `skater`
    Skater,
    /// `pairs`
    Pairs,
    /// `ice_dance`
    IceDance,
    /// `singles`
    Singles,
    /// `short`
    Short,
    /// `free`
    Free,
    /// `pattern`
    Pattern,
    /// `rhythm`
    Rhythm,
    /// `exhibition`
    Exhibition,
    /// `repeat`
    Repeat,
    /// `parallel`
    Parallel,
    /// `sync`
    Sync,
    /// `true`
    True,
    /// `false`
    False,
    /// `axel`
    Axel,
    /// `lutz`
    Lutz,
    /// `flip`
    Flip,
    /// `loop`
    Loop,
    /// `salchow`
    Salchow,
    /// `toe_loop`
    ToeLoop,
    /// `euler`
    Euler,
    /// `single`
    Single,
    /// `double`
    Double,
    /// `triple`
    Triple,
    /// `quad`
    Quad,
    /// `upright`
    Upright,
    /// `sit`
    Sit,
    /// `camel`
    Camel,
    /// `layback`
    Layback,
    /// `biellmann`
    Biellmann,
    /// `LFO`
    LFO,
    /// `LFI`
    LFI,
    /// `LBO`
    LBO,
    /// `LBI`
    LBI,
    /// `RFO`
    RFO,
    /// `RFI`
    RFI,
    /// `RBO`
    RBO,
    /// `RBI`
    RBI,
    /// `B`
    LevelB,
    /// `L1`
    Level1,
    /// `L2`
    Level2,
    /// `L3`
    Level3,
    /// `L4`
    Level4,
    /// `Gr1`
    LiftGroup1,
    /// `Gr2`
    LiftGroup2,
    /// `Gr3`
    LiftGroup3,
    /// `Gr4`
    LiftGroup4,
    /// `Gr5`
    LiftGroup5,
    /// `spiral`
    Spiral,
    /// `spread`
    Spread,
    /// `ina`
    Ina,
    /// `hydroblading`
    Hydroblading,
    /// `pivot`
    Pivot,
    /// `+`
    Plus,
    /// `-`
    Minus,
    /// `*`
    Star,
    /// `/`
    Slash,
    /// `%`
    Percent,
    /// `==`
    EqEq,
    /// `!=`
    NotEq,
    /// `<`
    Lt,
    /// `<=`
    LtEq,
    /// `>`
    Gt,
    /// `>=`
    GtEq,
    /// `&&`
    AndAnd,
    /// `||`
    OrOr,
    /// `!`
    Not,
    /// `=`
    Eq,
    /// `->`
    Arrow,
    /// `=>`
    FatArrow,
    /// `:`
    Colon,
    /// `::`
    ColonColon,
    /// `;`
    Semi,
    /// `,`
    Comma,
    /// `.`
    Dot,
    /// `..`
    DotDot,
    /// `...`
    DotDotDot,
    /// `|`
    Pipe,
    /// `@`
    At_,
    /// `#`
    Hash,
    /// `?`
    Question,
    /// `(`
    LParen,
    /// `)`
    RParen,
    /// `[`
    LBracket,
    /// `]`
    RBracket,
    /// `{`
    LBrace,
    /// `}`
    RBrace,
    /// Integer literal.
    Integer(i64),
    /// Number with a fractional part, as written.
    Float(String),
    /// Time literal (`mm:ss` or `hh:mm:ss`, optionally with a fraction).
    Time(String),
    /// String literal, without its quotes.
    String(String),
    /// Identifier.
    Ident(String),
    /// Documentation comment, without `///` and surrounding whitespace.
    DocComment(String),
}

/// A token as a value, its texts as character sequences.
pub enum TokV {
    Program,
    Segment,
    Sequence,
    Element,
    Jump,
    Spin,
    Step,
    Lift,
    DeathSpiral,
    Throw,
    Twist,
    Transition,
    Choreographic,
    Let,
    If,
    Then,
    Else,
    Match,
    With,
    For,
    In,
    While,
    Do,
    End,
    Return,
    Fn,
    Type,
    Import,
    Export,
    From,
    As,
    Music,
    Tempo,
    Beat,
    At,
    To,
    Duration,
    Position,
    Skater,
    Pairs,
    IceDance,
    Singles,
    Short,
    Free,
    Pattern,
    Rhythm,
    Exhibition,
    Repeat,
    Parallel,
    Sync,
    True,
    False,
    Axel,
    Lutz,
    Flip,
    Loop,
    Salchow,
    ToeLoop,
    Euler,
    Single,
    Double,
    Triple,
    Quad,
    Upright,
    Sit,
    Camel,
    Layback,
    Biellmann,
    LFO,
    LFI,
    LBO,
    LBI,
    RFO,
    RFI,
    RBO,
    RBI,
    LevelB,
    Level1,
    Level2,
    Level3,
    Level4,
    LiftGroup1,
    LiftGroup2,
    LiftGroup3,
    LiftGroup4,
    LiftGroup5,
    Spiral,
    Spread,
    Ina,
    Hydroblading,
    Pivot,
    Plus,
    Minus,
    Star,
    Slash,
    Percent,
    EqEq,
    NotEq,
    Lt,
    LtEq,
    Gt,
    GtEq,
    AndAnd,
    OrOr,
    Not,
    Eq,
    Arrow,
    FatArrow,
    Colon,
    ColonColon,
    Semi,
    Comma,
    Dot,
    DotDot,
    DotDotDot,
    Pipe,
    At_,
    Hash,
    Question,
    LParen,
    RParen,
    LBracket,
    RBracket,
    LBrace,
    RBrace,
    Integer(i64),
    Float(Seq<char>),
    Time(Seq<char>),
    Str(Seq<char>),
    Ident(Seq<char>),
    DocComment(Seq<char>),
}

/// The value of a token.
pub open spec fn tok_view(t: Token) -> TokV {
    match t {
        Token::Program => TokV::Program,
        Token::Segment => TokV::Segment,
        Token::Sequence => TokV::Sequence,
        Token::Element => TokV::Element,
        Token::Jump => TokV::Jump,
        Token::Spin => TokV::Spin,
        Token::Step => TokV::Step,
        Token::Lift => TokV::Lift,
        Token::DeathSpiral => TokV::DeathSpiral,
        Token::Throw => TokV::Throw,
        Token::Twist => TokV::Twist,
        Token::Transition => TokV::Transition,
        Token::Choreographic => TokV::Choreographic,
        Token::Let => TokV::Let,
        Token::If => TokV::If,
        Token::Then => TokV::Then,
        Token::Else => TokV::Else,
        Token::Match => TokV::Match,
        Token::With => TokV::With,
        Token::For => TokV::For,
        Token::In => TokV::In,
        Token::While => TokV::While,
        Token::Do => TokV::Do,
        Token::End => TokV::End,
        Token::Return => TokV::Return,
        Token::Fn => TokV::Fn,
        Token::Type => TokV::Type,
        Token::Import => TokV::Import,
        Token::Export => TokV::Export,
        Token::From => TokV::From,
        Token::As => TokV::As,
        Token::Music => TokV::Music,
        Token::Tempo => TokV::Tempo,
        Token::Beat => TokV::Beat,
        Token::At => TokV::At,
        Token::To => TokV::To,
        Token::Duration => TokV::Duration,
        Token::Position => TokV::Position,
        Token::Skater => TokV::Skater,
        Token::Pairs => TokV::Pairs,
        Token::IceDance => TokV::IceDance,
        Token::Singles => TokV::Singles,
        Token::Short => TokV::Short,
        Token::Free => TokV::Free,
        Token::Pattern => TokV::Pattern,
        Token::Rhythm => TokV::Rhythm,
        Token::Exhibition => TokV::Exhibition,
        Token::Repeat => TokV::Repeat,
        Token::Parallel => TokV::Parallel,
        Token::Sync => TokV::Sync,
        Token::True => TokV::True,
        Token::False => TokV::False,
        Token::Axel => TokV::Axel,
        Token::Lutz => TokV::Lutz,
        Token::Flip => TokV::Flip,
        Token::Loop => TokV::Loop,
        Token::Salchow => TokV::Salchow,
        Token::ToeLoop => TokV::ToeLoop,
        Token::Euler => TokV::Euler,
        Token::Single => TokV::Single,
        Token::Double => TokV::Double,
        Token::Triple => TokV::Triple,
        Token::Quad => TokV::Quad,
        Token::Upright => TokV::Upright,
        Token::Sit => TokV::Sit,
        Token::Camel => TokV::Camel,
        Token::Layback => TokV::Layback,
        Token::Biellmann => TokV::Biellmann,
        Token::LFO => TokV::LFO,
        Token::LFI => TokV::LFI,
        Token::LBO => TokV::LBO,
        Token::LBI => TokV::LBI,
        Token::RFO => TokV::RFO,
        Token::RFI => TokV::RFI,
        Token::RBO => TokV::RBO,
        Token::RBI => TokV::RBI,
        Token::LevelB => TokV::LevelB,
        Token::Level1 => TokV::Level1,
        Token::Level2 => TokV::Level2,
        Token::Level3 => TokV::Level3,
        Token::Level4 => TokV::Level4,
        Token::LiftGroup1 => TokV::LiftGroup1,
        Token::LiftGroup2 => TokV::LiftGroup2,
        Token::LiftGroup3 => TokV::LiftGroup3,
        Token::LiftGroup4 => TokV::LiftGroup4,
        Token::LiftGroup5 => TokV::LiftGroup5,
        Token::Spiral => TokV::Spiral,
        Token::Spread => TokV::Spread,
        Token::Ina => TokV::Ina,
        Token::Hydroblading => TokV::Hydroblading,
        Token::Pivot => TokV::Pivot,
        Token::Plus => TokV::Plus,
        Token::Minus => TokV::Minus,
        Token::Star => TokV::Star,
        Token::Slash => TokV::Slash,
        Token::Percent => TokV::Percent,
        Token::EqEq => TokV::EqEq,
        Token::NotEq => TokV::NotEq,
        Token::Lt => TokV::Lt,
        Token::LtEq => TokV::LtEq,
        Token::Gt => TokV::Gt,
        Token::GtEq => TokV::GtEq,
        Token::AndAnd => TokV::AndAnd,
        Token::OrOr => TokV::OrOr,
        Token::Not => TokV::Not,
        Token::Eq => TokV::Eq,
        Token::Arrow => TokV::Arrow,
        Token::FatArrow => TokV::FatArrow,
        Token::Colon => TokV::Colon,
        Token::ColonColon => TokV::ColonColon,
        Token::Semi => TokV::Semi,
        Token::Comma => TokV::Comma,
        Token::Dot => TokV::Dot,
        Token::DotDot => TokV::DotDot,
        Token::DotDotDot => TokV::DotDotDot,
        Token::Pipe => TokV::Pipe,
        Token::At_ => TokV::At_,
        Token::Hash => TokV::Hash,
        Token::Question => TokV::Question,
        Token::LParen => TokV::LParen,
        Token::RParen => TokV::RParen,
        Token::LBracket => TokV::LBracket,
        Token::RBracket => TokV::RBracket,
        Token::LBrace => TokV::LBrace,
        Token::RBrace => TokV::RBrace,
        Token::Integer(v) => TokV::Integer(v),
        Token::Float(s) => TokV::Float(s@),
        Token::Time(s) => TokV::Time(s@),
        Token::String(s) => TokV::Str(s@),
        Token::Ident(s) => TokV::Ident(s@),
        Token::DocComment(s) => TokV::DocComment(s@),
    }
}

/// The token of a word: its keyword if it is one, else an identifier.
pub open spec fn word_token(s: Seq<char>) -> TokV {
    if s == "program"@ { TokV::Program }
    else if s == "segment"@ { TokV::Segment }
    else if s == "sequence"@ { TokV::Sequence }
    else if s == "element"@ { TokV::Element }
    else if s == "jump"@ { TokV::Jump }
    else if s == "spin"@ { TokV::Spin }
    else if s == "step"@ { TokV::Step }
    else if s == "lift"@ { TokV::Lift }
    else if s == "death_spiral"@ { TokV::DeathSpiral }
    else if s == "throw"@ { TokV::Throw }
    else if s == "twist"@ { TokV::Twist }
    else if s == "transition"@ { TokV::Transition }
    else if s == "choreographic"@ { TokV::Choreographic }
    else if s == "let"@ { TokV::Let }
    else if s == "if"@ { TokV::If }
    else if s == "then"@ { TokV::Then }
    else if s == "else"@ { TokV::Else }
    else if s == "match"@ { TokV::Match }
    else if s == "with"@ { TokV::With }
    else if s == "for"@ { TokV::For }
    else if s == "in"@ { TokV::In }
    else if s == "while"@ { TokV::While }
    else if s == "do"@ { TokV::Do }
    else if s == "end"@ { TokV::End }
    else if s == "return"@ { TokV::Return }
    else if s == "fn"@ { TokV::Fn }
    else if s == "type"@ { TokV::Type }
    else if s == "import"@ { TokV::Import }
    else if s == "export"@ { TokV::Export }
    else if s == "from"@ { TokV::From }
    else if s == "as"@ { TokV::As }
    else if s == "music"@ { TokV::Music }
    else if s == "tempo"@ { TokV::Tempo }
    else if s == "beat"@ { TokV::Beat }
    else if s == "at"@ { TokV::At }
    else if s == "to"@ { TokV::To }
    else if s == "duration"@ { TokV::Duration }
    else if s == "position"@ { TokV::Position }
    else if s == "skater"@ { TokV::Skater }
    else if s == "pairs"@ { TokV::Pairs }
    else if s == "ice_dance"@ { TokV::IceDance }
    else if s == "singles"@ { TokV::Singles }
    else if s == "short"@ { TokV::Short }
    else if s == "free"@ { TokV::Free }
    else if s == "pattern"@ { TokV::Pattern }
    else if s == "rhythm"@ { TokV::Rhythm }
    else if s == "exhibition"@ { TokV::Exhibition }
    else if s == "repeat"@ { TokV::Repeat }
    else if s == "parallel"@ { TokV::Parallel }
    else if s == "sync"@ { TokV::Sync }
    else if s == "true"@ { TokV::True }
    else if s == "false"@ { TokV::False }
    else if s == "axel"@ { TokV::Axel }
    else if s == "lutz"@ { TokV::Lutz }
    else if s == "flip"@ { TokV::Flip }
    else if s == "loop"@ { TokV::Loop }
    else if s == "salchow"@ { TokV::Salchow }
    else if s == "toe_loop"@ { TokV::ToeLoop }
    else if s == "euler"@ { TokV::Euler }
    else if s == "single"@ { TokV::Single }
    else if s == "double"@ { TokV::Double }
    else if s == "triple"@ { TokV::Triple }
    else if s == "quad"@ { TokV::Quad }
    else if s == "upright"@ { TokV::Upright }
    else if s == "sit"@ { TokV::Sit }
    else if s == "camel"@ { TokV::Camel }
    else if s == "layback"@ { TokV::Layback }
    else if s == "biellmann"@ { TokV::Biellmann }
    else if s == "LFO"@ { TokV::LFO }
    else if s == "LFI"@ { TokV::LFI }
    else if s == "LBO"@ { TokV::LBO }
    else if s == "LBI"@ { TokV::LBI }
    else if s == "RFO"@ { TokV::RFO }
    else if s == "RFI"@ { TokV::RFI }
    else if s == "RBO"@ { TokV::RBO }
    else if s == "RBI"@ { TokV::RBI }
    else if s == "B"@ { TokV::LevelB }
    else if s == "L1"@ { TokV::Level1 }
    else if s == "L2"@ { TokV::Level2 }
    else if s == "L3"@ { TokV::Level3 }
    else if s == "L4"@ { TokV::Level4 }
    else if s == "Gr1"@ { TokV::LiftGroup1 }
    else if s == "Gr2"@ { TokV::LiftGroup2 }
    else if s == "Gr3"@ { TokV::LiftGroup3 }
    else if s == "Gr4"@ { TokV::LiftGroup4 }
    else if s == "Gr5"@ { TokV::LiftGroup5 }
    else if s == "spiral"@ { TokV::Spiral }
    else if s == "spread"@ { TokV::Spread }
    else if s == "ina"@ { TokV::Ina }
    else if s == "hydroblading"@ { TokV::Hydroblading }
    else if s == "pivot"@ { TokV::Pivot }
    else { TokV::Ident(s) }
}

/// The token for a word (a keyword or an identifier).
pub fn word_token_exec(s: &str) -> (t: Token)
    ensures
        tok_view(t) == word_token(s@),
{
    if str_eq(s, "program") { Token::Program }
    else if str_eq(s, "segment") { Token::Segment }
    else if str_eq(s, "sequence") { Token::Sequence }
    else if str_eq(s, "element") { Token::Element }
    else if str_eq(s, "jump") { Token::Jump }
    else if str_eq(s, "spin") { Token::Spin }
    else if str_eq(s, "step") { Token::Step }
    else if str_eq(s, "lift") { Token::Lift }
    else if str_eq(s, "death_spiral") { Token::DeathSpiral }
    else if str_eq(s, "throw") { Token::Throw }
    else if str_eq(s, "twist") { Token::Twist }
    else if str_eq(s, "transition") { Token::Transition }
    else if str_eq(s, "choreographic") { Token::Choreographic }
    else if str_eq(s, "let") { Token::Let }
    else if str_eq(s, "if") { Token::If }
    else if str_eq(s, "then") { Token::Then }
    else if str_eq(s, "else") { Token::Else }
    else if str_eq(s, "match") { Token::Match }
    else if str_eq(s, "with") { Token::With }
    else if str_eq(s, "for") { Token::For }
    else if str_eq(s, "in") { Token::In }
    else if str_eq(s, "while") { Token::While }
    else if str_eq(s, "do") { Token::Do }
    else if str_eq(s, "end") { Token::End }
    else if str_eq(s, "return") { Token::Return }
    else if str_eq(s, "fn") { Token::Fn }
    else if str_eq(s, "type") { Token::Type }
    else if str_eq(s, "import") { Token::Import }
    else if str_eq(s, "export") { Token::Export }
    else if str_eq(s, "from") { Token::From }
    else if str_eq(s, "as") { Token::As }
    else if str_eq(s, "music") { Token::Music }
    else if str_eq(s, "tempo") { Token::Tempo }
    else if str_eq(s, "beat") { Token::Beat }
    else if str_eq(s, "at") { Token::At }
    else if str_eq(s, "to") { Token::To }
    else if str_eq(s, "duration") { Token::Duration }
    else if str_eq(s, "position") { Token::Position }
    else if str_eq(s, "skater") { Token::Skater }
    else if str_eq(s, "pairs") { Token::Pairs }
    else if str_eq(s, "ice_dance") { Token::IceDance }
    else if str_eq(s, "singles") { Token::Singles }
    else if str_eq(s, "short") { Token::Short }
    else if str_eq(s, "free") { Token::Free }
    else if str_eq(s, "pattern") { Token::Pattern }
    else if str_eq(s, "rhythm") { Token::Rhythm }
    else if str_eq(s, "exhibition") { Token::Exhibition }
    else if str_eq(s, "repeat") { Token::Repeat }
    else if str_eq(s, "parallel") { Token::Parallel }
    else if str_eq(s, "sync") { Token::Sync }
    else if str_eq(s, "true") { Token::True }
    else if str_eq(s, "false") { Token::False }
    else if str_eq(s, "axel") { Token::Axel }
    else if str_eq(s, "lutz") { Token::Lutz }
    else if str_eq(s, "flip") { Token::Flip }
    else if str_eq(s, "loop") { Token::Loop }
    else if str_eq(s, "salchow") { Token::Salchow }
    else if str_eq(s, "toe_loop") { Token::ToeLoop }
    else if str_eq(s, "euler") { Token::Euler }
    else if str_eq(s, "single") { Token::Single }
    else if str_eq(s, "double") { Token::Double }
    else if str_eq(s, "triple") { Token::Triple }
    else if str_eq(s, "quad") { Token::Quad }
    else if str_eq(s, "upright") { Token::Upright }
    else if str_eq(s, "sit") { Token::Sit }
    else if str_eq(s, "camel") { Token::Camel }
    else if str_eq(s, "layback") { Token::Layback }
    else if str_eq(s, "biellmann") { Token::Biellmann }
    else if str_eq(s, "LFO") { Token::LFO }
    else if str_eq(s, "LFI") { Token::LFI }
    else if str_eq(s, "LBO") { Token::LBO }
    else if str_eq(s, "LBI") { Token::LBI }
    else if str_eq(s, "RFO") { Token::RFO }
    else if str_eq(s, "RFI") { Token::RFI }
    else if str_eq(s, "RBO") { Token::RBO }
    else if str_eq(s, "RBI") { Token::RBI }
    else if str_eq(s, "B") { Token::LevelB }
    else if str_eq(s, "L1") { Token::Level1 }
    else if str_eq(s, "L2") { Token::Level2 }
    else if str_eq(s, "L3") { Token::Level3 }
    else if str_eq(s, "L4") { Token::Level4 }
    else if str_eq(s, "Gr1") { Token::LiftGroup1 }
    else if str_eq(s, "Gr2") { Token::LiftGroup2 }
    else if str_eq(s, "Gr3") { Token::LiftGroup3 }
    else if str_eq(s, "Gr4") { Token::LiftGroup4 }
    else if str_eq(s, "Gr5") { Token::LiftGroup5 }
    else if str_eq(s, "spiral") { Token::Spiral }
    else if str_eq(s, "spread") { Token::Spread }
    else if str_eq(s, "ina") { Token::Ina }
    else if str_eq(s, "hydroblading") { Token::Hydroblading }
    else if str_eq(s, "pivot") { Token::Pivot }
    else { Token::Ident(string_of(s)) }
}

/// The longest operator or punctuation token at `p`, with its length.
pub open spec fn op_at(b: Seq<u8>, p: int) -> (TokV, nat) {
    if byte_at(b, p + 0) == 46u8 && byte_at(b, p + 1) == 46u8 && byte_at(b, p + 2) == 46u8 { (TokV::DotDotDot, 3nat) } else
    if byte_at(b, p + 0) == 61u8 && byte_at(b, p + 1) == 61u8 { (TokV::EqEq, 2nat) } else
    if byte_at(b, p + 0) == 33u8 && byte_at(b, p + 1) == 61u8 { (TokV::NotEq, 2nat) } else
    if byte_at(b, p + 0) == 60u8 && byte_at(b, p + 1) == 61u8 { (TokV::LtEq, 2nat) } else
    if byte_at(b, p + 0) == 62u8 && byte_at(b, p + 1) == 61u8 { (TokV::GtEq, 2nat) } else
    if byte_at(b, p + 0) == 38u8 && byte_at(b, p + 1) == 38u8 { (TokV::AndAnd, 2nat) } else
    if byte_at(b, p + 0) == 124u8 && byte_at(b, p + 1) == 124u8 { (TokV::OrOr, 2nat) } else
    if byte_at(b, p + 0) == 45u8 && byte_at(b, p + 1) == 62u8 { (TokV::Arrow, 2nat) } else
    if byte_at(b, p + 0) == 61u8 && byte_at(b, p + 1) == 62u8 { (TokV::FatArrow, 2nat) } else
    if byte_at(b, p + 0) == 58u8 && byte_at(b, p + 1) == 58u8 { (TokV::ColonColon, 2nat) } else
    if byte_at(b, p + 0) == 46u8 && byte_at(b, p + 1) == 46u8 { (TokV::DotDot, 2nat) } else
    if byte_at(b, p + 0) == 43u8 { (TokV::Plus, 1nat) } else
    if byte_at(b, p + 0) == 45u8 { (TokV::Minus, 1nat) } else
    if byte_at(b, p + 0) == 42u8 { (TokV::Star, 1nat) } else
    if byte_at(b, p + 0) == 47u8 { (TokV::Slash, 1nat) } else
    if byte_at(b, p + 0) == 37u8 { (TokV::Percent, 1nat) } else
    if byte_at(b, p + 0) == 60u8 { (TokV::Lt, 1nat) } else
    if byte_at(b, p + 0) == 62u8 { (TokV::Gt, 1nat) } else
    if byte_at(b, p + 0) == 33u8 { (TokV::Not, 1nat) } else
    if byte_at(b, p + 0) == 61u8 { (TokV::Eq, 1nat) } else
    if byte_at(b, p + 0) == 58u8 { (TokV::Colon, 1nat) } else
    if byte_at(b, p + 0) == 59u8 { (TokV::Semi, 1nat) } else
    if byte_at(b, p + 0) == 44u8 { (TokV::Comma, 1nat) } else
    if byte_at(b, p + 0) == 46u8 { (TokV::Dot, 1nat) } else
    if byte_at(b, p + 0) == 124u8 { (TokV::Pipe, 1nat) } else
    if byte_at(b, p + 0) == 64u8 { (TokV::At_, 1nat) } else
    if byte_at(b, p + 0) == 35u8 { (TokV::Hash, 1nat) } else
    if byte_at(b, p + 0) == 63u8 { (TokV::Question, 1nat) } else
    if byte_at(b, p + 0) == 40u8 { (TokV::LParen, 1nat) } else
    if byte_at(b, p + 0) == 41u8 { (TokV::RParen, 1nat) } else
    if byte_at(b, p + 0) == 91u8 { (TokV::LBracket, 1nat) } else
    if byte_at(b, p + 0) == 93u8 { (TokV::RBracket, 1nat) } else
    if byte_at(b, p + 0) == 123u8 { (TokV::LBrace, 1nat) } else
    if byte_at(b, p + 0) == 125u8 { (TokV::RBrace, 1nat) } else
    { (TokV::Ident(Seq::empty()), 0nat) }
}

/// The longest operator or punctuation token at `p`, with its length.
pub fn op_at_exec(b: &[u8], p: usize) -> (r: (Token, usize))
    requires
        p <= b@.len() <= isize::MAX,
    ensures
        tok_view(r.0) == op_at(b@, p as int).0,
        r.1 == op_at(b@, p as int).1,
{
    let c0 = get_byte(b, p);
    let c1 = get_byte(b, p + 1);
    let c2 = get_byte(b, p + 2);
    proof {
        assert(c0 == byte_at(b@, p as int));
        assert(c1 == byte_at(b@, p + 1));
        assert(c2 == byte_at(b@, p + 2));
    }
    if c0 == 46u8 && c1 == 46u8 && c2 == 46u8 { return (Token::DotDotDot, 3); }
    if c0 == 61u8 && c1 == 61u8 { return (Token::EqEq, 2); }
    if c0 == 33u8 && c1 == 61u8 { return (Token::NotEq, 2); }
    if c0 == 60u8 && c1 == 61u8 { return (Token::LtEq, 2); }
    if c0 == 62u8 && c1 == 61u8 { return (Token::GtEq, 2); }
    if c0 == 38u8 && c1 == 38u8 { return (Token::AndAnd, 2); }
    if c0 == 124u8 && c1 == 124u8 { return (Token::OrOr, 2); }
    if c0 == 45u8 && c1 == 62u8 { return (Token::Arrow, 2); }
    if c0 == 61u8 && c1 == 62u8 { return (Token::FatArrow, 2); }
    if c0 == 58u8 && c1 == 58u8 { return (Token::ColonColon, 2); }
    if c0 == 46u8 && c1 == 46u8 { return (Token::DotDot, 2); }
    if c0 == 43u8 { return (Token::Plus, 1); }
    if c0 == 45u8 { return (Token::Minus, 1); }
    if c0 == 42u8 { return (Token::Star, 1); }
    if c0 == 47u8 { return (Token::Slash, 1); }
    if c0 == 37u8 { return (Token::Percent, 1); }
    if c0 == 60u8 { return (Token::Lt, 1); }
    if c0 == 62u8 { return (Token::Gt, 1); }
    if c0 == 33u8 { return (Token::Not, 1); }
    if c0 == 61u8 { return (Token::Eq, 1); }
    if c0 == 58u8 { return (Token::Colon, 1); }
    if c0 == 59u8 { return (Token::Semi, 1); }
    if c0 == 44u8 { return (Token::Comma, 1); }
    if c0 == 46u8 { return (Token::Dot, 1); }
    if c0 == 124u8 { return (Token::Pipe, 1); }
    if c0 == 64u8 { return (Token::At_, 1); }
    if c0 == 35u8 { return (Token::Hash, 1); }
    if c0 == 63u8 { return (Token::Question, 1); }
    if c0 == 40u8 { return (Token::LParen, 1); }
    if c0 == 41u8 { return (Token::RParen, 1); }
    if c0 == 91u8 { return (Token::LBracket, 1); }
    if c0 == 93u8 { return (Token::RBracket, 1); }
    if c0 == 123u8 { return (Token::LBrace, 1); }
    if c0 == 125u8 { return (Token::RBrace, 1); }
    (Token::Ident(String::new()), 0)
}

/// The text of a token, as it is written in the source (strings in quotes,
/// documentation comments after `/// `).
pub open spec fn token_text(t: TokV) -> Seq<char> {
    match t {
        TokV::Program => "program"@,
        TokV::Segment => "segment"@,
        TokV::Sequence => "sequence"@,
        TokV::Element => "element"@,
        TokV::Jump => "jump"@,
        TokV::Spin => "spin"@,
        TokV::Step => "step"@,
        TokV::Lift => "lift"@,
        TokV::DeathSpiral => "death_spiral"@,
        TokV::Throw => "throw"@,
        TokV::Twist => "twist"@,
        TokV::Transition => "transition"@,
        TokV::Choreographic => "choreographic"@,
        TokV::Let => "let"@,
        TokV::If => "if"@,
        TokV::Then => "then"@,
        TokV::Else => "else"@,
        TokV::Match => "match"@,
        TokV::With => "with"@,
        TokV::For => "for"@,
        TokV::In => "in"@,
        TokV::While => "while"@,
        TokV::Do => "do"@,
        TokV::End => "end"@,
        TokV::Return => "return"@,
        TokV::Fn => "fn"@,
        TokV::Type => "type"@,
        TokV::Import => "import"@,
        TokV::Export => "export"@,
        TokV::From => "from"@,
        TokV::As => "as"@,
        TokV::Music => "music"@,
        TokV::Tempo => "tempo"@,
        TokV::Beat => "beat"@,
        TokV::At => "at"@,
        TokV::To => "to"@,
        TokV::Duration => "duration"@,
        TokV::Position => "position"@,
        TokV::Skater => "skater"@,
        TokV::Pairs => "pairs"@,
        TokV::IceDance => "ice_dance"@,
        TokV::Singles => "singles"@,
        TokV::Short => "short"@,
        TokV::Free => "free"@,
        TokV::Pattern => "pattern"@,
        TokV::Rhythm => "rhythm"@,
        TokV::Exhibition => "exhibition"@,
        TokV::Repeat => "repeat"@,
        TokV::Parallel => "parallel"@,
        TokV::Sync => "sync"@,
        TokV::True => "true"@,
        TokV::False => "false"@,
        TokV::Axel => "axel"@,
        TokV::Lutz => "lutz"@,
        TokV::Flip => "flip"@,
        TokV::Loop => "loop"@,
        TokV::Salchow => "salchow"@,
        TokV::ToeLoop => "toe_loop"@,
        TokV::Euler => "euler"@,
        TokV::Single => "single"@,
        TokV::Double => "double"@,
        TokV::Triple => "triple"@,
        TokV::Quad => "quad"@,
        TokV::Upright => "upright"@,
        TokV::Sit => "sit"@,
        TokV::Camel => "camel"@,
        TokV::Layback => "layback"@,
        TokV::Biellmann => "biellmann"@,
        TokV::LFO => "LFO"@,
        TokV::LFI => "LFI"@,
        TokV::LBO => "LBO"@,
        TokV::LBI => "LBI"@,
        TokV::RFO => "RFO"@,
        TokV::RFI => "RFI"@,
        TokV::RBO => "RBO"@,
        TokV::RBI => "RBI"@,
        TokV::LevelB => "B"@,
        TokV::Level1 => "L1"@,
        TokV::Level2 => "L2"@,
        TokV::Level3 => "L3"@,
        TokV::Level4 => "L4"@,
        TokV::LiftGroup1 => "Gr1"@,
        TokV::LiftGroup2 => "Gr2"@,
        TokV::LiftGroup3 => "Gr3"@,
        TokV::LiftGroup4 => "Gr4"@,
        TokV::LiftGroup5 => "Gr5"@,
        TokV::Spiral => "spiral"@,
        TokV::Spread => "spread"@,
        TokV::Ina => "ina"@,
        TokV::Hydroblading => "hydroblading"@,
        TokV::Pivot => "pivot"@,
        TokV::Plus => "+"@,
        TokV::Minus => "-"@,
        TokV::Star => "*"@,
        TokV::Slash => "/"@,
        TokV::Percent => "%"@,
        TokV::EqEq => "=="@,
        TokV::NotEq => "!="@,
        TokV::Lt => "<"@,
        TokV::LtEq => "<="@,
        TokV::Gt => ">"@,
        TokV::GtEq => ">="@,
        TokV::AndAnd => "&&"@,
        TokV::OrOr => "||"@,
        TokV::Not => "!"@,
        TokV::Eq => "="@,
        TokV::Arrow => "->"@,
        TokV::FatArrow => "=>"@,
        TokV::Colon => ":"@,
        TokV::ColonColon => "::"@,
        TokV::Semi => ";"@,
        TokV::Comma => ","@,
        TokV::Dot => "."@,
        TokV::DotDot => ".."@,
        TokV::DotDotDot => "..."@,
        TokV::Pipe => "|"@,
        TokV::At_ => "@"@,
        TokV::Hash => "#"@,
        TokV::Question => "?"@,
        TokV::LParen => "("@,
        TokV::RParen => ")"@,
        TokV::LBracket => "["@,
        TokV::RBracket => "]"@,
        TokV::LBrace => "{"@,
        TokV::RBrace => "}"@,
        TokV::Integer(v) => crate::base::text::signed_decimal(v as int),
        TokV::Float(s) => s,
        TokV::Time(s) => s,
        TokV::Str(s) => "\""@ + s + "\""@,
        TokV::Ident(s) => s,
        TokV::DocComment(s) => "/// "@ + s,
    }
}

impl Token {
    /// The text of the token, as it is written in the source.
    pub fn to_string(&self) -> (r: String)
        ensures
            r@ == token_text(tok_view(*self)),
    {
        match self {
            Token::Program => string_of("program"),
            Token::Segment => string_of("segment"),
            Token::Sequence => string_of("sequence"),
            Token::Element => string_of("element"),
            Token::Jump => string_of("jump"),
            Token::Spin => string_of("spin"),
            Token::Step => string_of("step"),
            Token::Lift => string_of("lift"),
            Token::DeathSpiral => string_of("death_spiral"),
            Token::Throw => string_of("throw"),
            Token::Twist => string_of("twist"),
            Token::Transition => string_of("transition"),
            Token::Choreographic => string_of("choreographic"),
            Token::Let => string_of("let"),
            Token::If => string_of("if"),
            Token::Then => string_of("then"),
            Token::Else => string_of("else"),
            Token::Match => string_of("match"),
            Token::With => string_of("with"),
            Token::For => string_of("for"),
            Token::In => string_of("in"),
            Token::While => string_of("while"),
            Token::Do => string_of("do"),
            Token::End => string_of("end"),
            Token::Return => string_of("return"),
            Token::Fn => string_of("fn"),
            Token::Type => string_of("type"),
            Token::Import => string_of("import"),
            Token::Export => string_of("export"),
            Token::From => string_of("from"),
            Token::As => string_of("as"),
            Token::Music => string_of("music"),
            Token::Tempo => string_of("tempo"),
            Token::Beat => string_of("beat"),
            Token::At => string_of("at"),
            Token::To => string_of("to"),
            Token::Duration => string_of("duration"),
            Token::Position => string_of("position"),
            Token::Skater => string_of("skater"),
            Token::Pairs => string_of("pairs"),
            Token::IceDance => string_of("ice_dance"),
            Token::Singles => string_of("singles"),
            Token::Short => string_of("short"),
            Token::Free => string_of("free"),
            Token::Pattern => string_of("pattern"),
            Token::Rhythm => string_of("rhythm"),
            Token::Exhibition => string_of("exhibition"),
            Token::Repeat => string_of("repeat"),
            Token::Parallel => string_of("parallel"),
            Token::Sync => string_of("sync"),
            Token::True => string_of("true"),
            Token::False => string_of("false"),
            Token::Axel => string_of("axel"),
            Token::Lutz => string_of("lutz"),
            Token::Flip => string_of("flip"),
            Token::Loop => string_of("loop"),
            Token::Salchow => string_of("salchow"),
            Token::ToeLoop => string_of("toe_loop"),
            Token::Euler => string_of("euler"),
            Token::Single => string_of("single"),
            Token::Double => string_of("double"),
            Token::Triple => string_of("triple"),
            Token::Quad => string_of("quad"),
            Token::Upright => string_of("upright"),
            Token::Sit => string_of("sit"),
            Token::Camel => string_of("camel"),
            Token::Layback => string_of("layback"),
            Token::Biellmann => string_of("biellmann"),
            Token::LFO => string_of("LFO"),
            Token::LFI => string_of("LFI"),
            Token::LBO => string_of("LBO"),
            Token::LBI => string_of("LBI"),
            Token::RFO => string_of("RFO"),
            Token::RFI => string_of("RFI"),
            Token::RBO => string_of("RBO"),
            Token::RBI => string_of("RBI"),
            Token::LevelB => string_of("B"),
            Token::Level1 => string_of("L1"),
            Token::Level2 => string_of("L2"),
            Token::Level3 => string_of("L3"),
            Token::Level4 => string_of("L4"),
            Token::LiftGroup1 => string_of("Gr1"),
            Token::LiftGroup2 => string_of("Gr2"),
            Token::LiftGroup3 => string_of("Gr3"),
            Token::LiftGroup4 => string_of("Gr4"),
            Token::LiftGroup5 => string_of("Gr5"),
            Token::Spiral => string_of("spiral"),
            Token::Spread => string_of("spread"),
            Token::Ina => string_of("ina"),
            Token::Hydroblading => string_of("hydroblading"),
            Token::Pivot => string_of("pivot"),
            Token::Plus => string_of("+"),
            Token::Minus => string_of("-"),
            Token::Star => string_of("*"),
            Token::Slash => string_of("/"),
            Token::Percent => string_of("%"),
            Token::EqEq => string_of("=="),
            Token::NotEq => string_of("!="),
            Token::Lt => string_of("<"),
            Token::LtEq => string_of("<="),
            Token::Gt => string_of(">"),
            Token::GtEq => string_of(">="),
            Token::AndAnd => string_of("&&"),
            Token::OrOr => string_of("||"),
            Token::Not => string_of("!"),
            Token::Eq => string_of("="),
            Token::Arrow => string_of("->"),
            Token::FatArrow => string_of("=>"),
            Token::Colon => string_of(":"),
            Token::ColonColon => string_of("::"),
            Token::Semi => string_of(";"),
            Token::Comma => string_of(","),
            Token::Dot => string_of("."),
            Token::DotDot => string_of(".."),
            Token::DotDotDot => string_of("..."),
            Token::Pipe => string_of("|"),
            Token::At_ => string_of("@"),
            Token::Hash => string_of("#"),
            Token::Question => string_of("?"),
            Token::LParen => string_of("("),
            Token::RParen => string_of(")"),
            Token::LBracket => string_of("["),
            Token::RBracket => string_of("]"),
            Token::LBrace => string_of("{"),
            Token::RBrace => string_of("}"),
            Token::Integer(v) => {
                let mut s = String::new();
                crate::base::text::push_signed_decimal(&mut s, *v);
                s
            },
            Token::Float(s) => s.clone(),
            Token::Time(s) => s.clone(),
            Token::String(s) => {
                let mut r = string_of("\"");
                crate::base::text::push_str(&mut r, s.as_str());
                crate::base::text::push_str(&mut r, "\"");
                r
            },
            Token::Ident(s) => s.clone(),
            Token::DocComment(s) => {
                let mut r = string_of("/// ");
                crate::base::text::push_str(&mut r, s.as_str());
                r
            },
        }
    }

    /// Is this a language keyword?
    pub fn is_keyword(&self) -> (b: bool)
        ensures
            b == (tok_view(*self) is Program || tok_view(*self) is Segment || tok_view(*self) is Sequence || tok_view(*self) is Element || tok_view(*self) is Jump || tok_view(*self) is Spin || tok_view(*self) is Step || tok_view(*self) is Lift || tok_view(*self) is DeathSpiral || tok_view(*self) is Throw || tok_view(*self) is Twist || tok_view(*self) is Transition || tok_view(*self) is Choreographic || tok_view(*self) is Let || tok_view(*self) is If || tok_view(*self) is Then || tok_view(*self) is Else || tok_view(*self) is Match || tok_view(*self) is With || tok_view(*self) is For || tok_view(*self) is In || tok_view(*self) is While || tok_view(*self) is Do || tok_view(*self) is End || tok_view(*self) is Return || tok_view(*self) is Fn || tok_view(*self) is Type || tok_view(*self) is Import || tok_view(*self) is Export || tok_view(*self) is From || tok_view(*self) is As || tok_view(*self) is Music || tok_view(*self) is Tempo || tok_view(*self) is Beat || tok_view(*self) is At || tok_view(*self) is To || tok_view(*self) is Duration || tok_view(*self) is Position || tok_view(*self) is Skater || tok_view(*self) is Pairs || tok_view(*self) is IceDance || tok_view(*self) is Singles || tok_view(*self) is Short || tok_view(*self) is Free || tok_view(*self) is Pattern || tok_view(*self) is Repeat || tok_view(*self) is Parallel || tok_view(*self) is Sync || tok_view(*self) is True || tok_view(*self) is False),
    {
        match self {
            Token::Program | Token::Segment | Token::Sequence | Token::Element | Token::Jump | Token::Spin | Token::Step | Token::Lift | Token::DeathSpiral | Token::Throw | Token::Twist | Token::Transition | Token::Choreographic | Token::Let | Token::If | Token::Then | Token::Else | Token::Match | Token::With | Token::For | Token::In | Token::While | Token::Do | Token::End | Token::Return | Token::Fn | Token::Type | Token::Import | Token::Export | Token::From | Token::As | Token::Music | Token::Tempo | Token::Beat | Token::At | Token::To | Token::Duration | Token::Position | Token::Skater | Token::Pairs | Token::IceDance | Token::Singles | Token::Short | Token::Free | Token::Pattern | Token::Repeat | Token::Parallel | Token::Sync | Token::True | Token::False => true,
            _ => false,
        }
    }

    /// Is this a skating keyword (jump, rotation, spin position, edge, level)?
    pub fn is_skating_keyword(&self) -> (b: bool)
        ensures
            b == (tok_view(*self) is Axel || tok_view(*self) is Lutz || tok_view(*self) is Flip || tok_view(*self) is Loop || tok_view(*self) is Salchow || tok_view(*self) is ToeLoop || tok_view(*self) is Euler || tok_view(*self) is Single || tok_view(*self) is Double || tok_view(*self) is Triple || tok_view(*self) is Quad || tok_view(*self) is Upright || tok_view(*self) is Sit || tok_view(*self) is Camel || tok_view(*self) is Layback || tok_view(*self) is Biellmann || tok_view(*self) is LFO || tok_view(*self) is LFI || tok_view(*self) is LBO || tok_view(*self) is LBI || tok_view(*self) is RFO || tok_view(*self) is RFI || tok_view(*self) is RBO || tok_view(*self) is RBI || tok_view(*self) is LevelB || tok_view(*self) is Level1 || tok_view(*self) is Level2 || tok_view(*self) is Level3 || tok_view(*self) is Level4),
    {
        match self {
            Token::Axel | Token::Lutz | Token::Flip | Token::Loop | Token::Salchow | Token::ToeLoop | Token::Euler | Token::Single | Token::Double | Token::Triple | Token::Quad | Token::Upright | Token::Sit | Token::Camel | Token::Layback | Token::Biellmann | Token::LFO | Token::LFI | Token::LBO | Token::LBI | Token::RFO | Token::RFI | Token::RBO | Token::RBI | Token::LevelB | Token::Level1 | Token::Level2 | Token::Level3 | Token::Level4 => true,
            _ => false,
        }
    }

    /// Is this an operator token?
    pub fn is_operator(&self) -> (b: bool)
        ensures
            b == (tok_view(*self) is Plus || tok_view(*self) is Minus || tok_view(*self) is Star || tok_view(*self) is Slash || tok_view(*self) is Percent || tok_view(*self) is EqEq || tok_view(*self) is NotEq || tok_view(*self) is Lt || tok_view(*self) is LtEq || tok_view(*self) is Gt || tok_view(*self) is GtEq || tok_view(*self) is AndAnd || tok_view(*self) is OrOr || tok_view(*self) is Not || tok_view(*self) is Eq),
    {
        match self {
            Token::Plus | Token::Minus | Token::Star | Token::Slash | Token::Percent | Token::EqEq | Token::NotEq | Token::Lt | Token::LtEq | Token::Gt | Token::GtEq | Token::AndAnd | Token::OrOr | Token::Not | Token::Eq => true,
            _ => false,
        }
    }

}

/// The byte at `i`, or zero outside the text.
pub open spec fn byte_at(b: Seq<u8>, i: int) -> u8 {
    if 0 <= i < b.len() { b[i] } else { 0 }
}

fn get_byte(b: &[u8], i: usize) -> (c: u8)
    ensures
        c == byte_at(b@, i as int),
{
    if i < b.len() { b[i] } else { 0 }
}

/// Byte classes: 0 whitespace, 1 digit, 2 identifier character, otherwise
/// anything but a newline.
pub open spec fn in_class(k: u8, c: u8) -> bool {
    if k == 0 {
        c == 32 || c == 9 || c == 13 || c == 10
    } else if k == 1 {
        48 <= c <= 57
    } else if k == 2 {
        (48 <= c <= 57) || (65 <= c <= 90) || (97 <= c <= 122) || c == 95
    } else {
        c != 10
    }
}

fn in_class_exec(k: u8, c: u8) -> (r: bool)
    ensures
        r == in_class(k, c),
{
    if k == 0 {
        c == 32 || c == 9 || c == 13 || c == 10
    } else if k == 1 {
        48 <= c && c <= 57
    } else if k == 2 {
        (48 <= c && c <= 57) || (65 <= c && c <= 90) || (97 <= c && c <= 122) || c == 95
    } else {
        c != 10
    }
}

/// The number of bytes of class `k` in a row from `p`.
pub open spec fn run(b: Seq<u8>, p: int, k: u8) -> nat
    decreases b.len() - p,
{
    if 0 <= p < b.len() && in_class(k, b[p]) {
        1 + run(b, p + 1, k)
    } else {
        0
    }
}

proof fn lemma_run_bound(b: Seq<u8>, p: int, k: u8)
    ensures
        0 <= p <= b.len() ==> p + run(b, p, k) <= b.len(),
        run(b, p, k) > 0 ==> 0 <= p < b.len(),
    decreases b.len() - p,
{
    if 0 <= p < b.len() && in_class(k, b[p]) {
        lemma_run_bound(b, p + 1, k);
    }
}

fn run_exec(b: &[u8], p: usize, k: u8) -> (n: usize)
    requires
        p <= b@.len(),
    ensures
        n == run(b@, p as int, k),
        p + n <= b@.len(),
{
    let mut i = p;
    while i < b.len() && in_class_exec(k, b[i])
        invariant
            p <= i <= b@.len(),
            run(b@, p as int, k) == (i - p) + run(b@, i as int, k),
        decreases b@.len() - i,
    {
        i = i + 1;
    }
    i - p
}

/// Can a byte start an identifier?
pub open spec fn is_ident_start(c: u8) -> bool {
    (65 <= c <= 90) || (97 <= c <= 122) || c == 95
}

/// Length of the whitespace run at `p`.
pub open spec fn ws_len(b: Seq<u8>, p: int) -> nat {
    run(b, p, 0)
}

/// Length of a `//` comment at `p` (to the end of the line), or zero.
pub open spec fn line_comment_len(b: Seq<u8>, p: int) -> nat {
    if byte_at(b, p) == 47 && byte_at(b, p + 1) == 47 { 2 + run(b, p + 2, 3) } else { 0 }
}

/// Length of a `///` documentation comment at `p`, or zero.
pub open spec fn doc_len(b: Seq<u8>, p: int) -> nat {
    if byte_at(b, p) == 47 && byte_at(b, p + 1) == 47 && byte_at(b, p + 2) == 47 { 3 + run(b, p + 3, 3) } else { 0 }
}

/// Scans the body of a block comment from `q`: `star` says that the byte
/// before was a `*` that may close it. The end of the comment, if it closes.
pub open spec fn block_scan(b: Seq<u8>, q: int, star: bool) -> Option<int>
    decreases b.len() - q,
{
    if q < 0 || q >= b.len() {
        None
    } else if star {
        if b[q] == 47 { Some(q + 1) } else { block_scan(b, q + 1, false) }
    } else {
        block_scan(b, q + 1, b[q] == 42)
    }
}

/// Length of a closed `/* ... */` comment at `p`, or zero.
pub open spec fn block_len(b: Seq<u8>, p: int) -> nat {
    if byte_at(b, p) == 47 && byte_at(b, p + 1) == 42 {
        match block_scan(b, p + 2, false) {
            Some(e) => (e - p) as nat,
            None => 0,
        }
    } else {
        0
    }
}

/// Length of an identifier at `p`, or zero.
pub open spec fn ident_len(b: Seq<u8>, p: int) -> nat {
    if is_ident_start(byte_at(b, p)) { 1 + run(b, p + 1, 2) } else { 0 }
}

/// Length of the digit run at `p`.
pub open spec fn int_len(b: Seq<u8>, p: int) -> nat {
    run(b, p, 1)
}

/// After a `.` and digits at `q`, the position past them; else `q`.
pub open spec fn frac_end(b: Seq<u8>, q: int) -> int {
    if byte_at(b, q) == 46 && run(b, q + 1, 1) > 0 { q + 1 + run(b, q + 1, 1) } else { q }
}

/// After an exponent `e`/`E`, optional sign and digits at `q`, the position
/// past it; else `q`.
pub open spec fn exp_end(b: Seq<u8>, q: int) -> int {
    if byte_at(b, q) == 101 || byte_at(b, q) == 69 {
        let s = if byte_at(b, q + 1) == 43 || byte_at(b, q + 1) == 45 { q + 2 } else { q + 1 };
        if run(b, s, 1) > 0 { s + run(b, s, 1) } else { q }
    } else {
        q
    }
}

/// Length of a number with a fractional part at `p`, or zero.
pub open spec fn float_len(b: Seq<u8>, p: int) -> nat {
    let d = run(b, p, 1);
    if d > 0 && frac_end(b, p + d) > p + d { (exp_end(b, frac_end(b, p + d)) - p) as nat } else { 0 }
}

/// Length of a time literal at `p`, or zero.
pub open spec fn time_len(b: Seq<u8>, p: int) -> nat {
    let d = run(b, p, 1);
    let q = p + d;
    if d > 0 && byte_at(b, q) == 58 && run(b, q + 1, 1) > 0 {
        let m = q + 1 + run(b, q + 1, 1);
        let m2 = if byte_at(b, m) == 58 && run(b, m + 1, 1) > 0 { m + 1 + run(b, m + 1, 1) } else { m };
        (frac_end(b, m2) - p) as nat
    } else {
        0
    }
}

/// Scans the body of a string literal from `q`: `esc` says the byte before
/// was a backslash. Whether it closes, and where the scan ends (past the
/// closing quote, at a newline after a backslash, or at the end).
pub open spec fn string_scan(b: Seq<u8>, q: int, esc: bool) -> (bool, int)
    decreases b.len() - q,
{
    if q < 0 || q >= b.len() {
        (false, b.len() as int)
    } else if esc {
        if b[q] == 10 { (false, q) } else { string_scan(b, q + 1, false) }
    } else if b[q] == 34 {
        (true, q + 1)
    } else {
        string_scan(b, q + 1, b[q] == 92)
    }
}

/// Length of a closed string literal at `p`, or zero.
pub open spec fn string_len(b: Seq<u8>, p: int) -> nat {
    if byte_at(b, p) == 34 {
        let r = string_scan(b, p + 1, false);
        if r.0 { (r.1 - p) as nat } else { 0 }
    } else {
        0
    }
}

/// The larger of two lengths.
pub open spec fn max2(a: nat, b: nat) -> nat {
    if a >= b { a } else { b }
}

/// The longest match of any token pattern at `p`.
pub open spec fn longest(b: Seq<u8>, p: int) -> nat {
    max2(max2(max2(ws_len(b, p), line_comment_len(b, p)), max2(doc_len(b, p), block_len(b, p))),
        max2(max2(max2(ident_len(b, p), int_len(b, p)), max2(float_len(b, p), time_len(b, p))),
            max2(string_len(b, p), op_at(b, p).1)))
}

/// The value of the decimal digits in `[s, e)`.
pub open spec fn digits_value(b: Seq<u8>, s: int, e: int) -> nat
    decreases e - s,
{
    if e <= s { 0 } else { digits_value(b, s, e - 1) * 10 + (b[e - 1] - 48) as nat }
}

/// Length of the text an error at `p` covers: an unclosed string to where
/// its scan stopped, else the character at `p`.
pub open spec fn fail_len(b: Seq<u8>, p: int) -> nat {
    if byte_at(b, p) == 34 {
        (string_scan(b, p + 1, false).1 - p) as nat
    } else {
        (next_boundary(b, p + 1) - p) as nat
    }
}

/// The characters of the bytes in `[s, e)`.
pub open spec fn text(b: Seq<u8>, s: int, e: int) -> Seq<char> {
    decode_utf8(b.subrange(s, e))
}

/// One step of the lexer at `p`.
pub enum LexStep {
    /// No text left.
    End,
    /// Whitespace or a comment of the given length.
    Skip(nat),
    /// A token of the given length.
    Tok(TokV, nat),
    /// No token starts here; the error covers the given length.
    Fail(nat),
}

/// The lexer's step at `p`: the longest match wins; a documentation comment
/// wins over a plain comment of the same length and a keyword over an
/// identifier; an integer too large for `i64` is an error.
pub open spec fn lex_step(b: Seq<u8>, p: int) -> LexStep {
    let m = longest(b, p);
    if p >= b.len() {
        LexStep::End
    } else if m == 0 {
        LexStep::Fail(fail_len(b, p))
    } else if doc_len(b, p) == m {
        LexStep::Tok(TokV::DocComment(trimmed(text(b, p + 3, p + m))), m)
    } else if ws_len(b, p) == m || line_comment_len(b, p) == m || block_len(b, p) == m {
        LexStep::Skip(m)
    } else if ident_len(b, p) == m {
        LexStep::Tok(word_token(text(b, p, p + m)), m)
    } else if time_len(b, p) == m {
        LexStep::Tok(TokV::Time(text(b, p, p + m)), m)
    } else if float_len(b, p) == m {
        LexStep::Tok(TokV::Float(text(b, p, p + m)), m)
    } else if int_len(b, p) == m {
        if digits_value(b, p, p + m) <= i64::MAX {
            LexStep::Tok(TokV::Integer(digits_value(b, p, p + m) as i64), m)
        } else {
            LexStep::Fail(m)
        }
    } else if string_len(b, p) == m {
        LexStep::Tok(TokV::Str(text(b, p + 1, p + m - 1)), m)
    } else {
        LexStep::Tok(op_at(b, p).0, m)
    }
}

/// The first character boundary at or after `q`.
pub open spec fn next_boundary(b: Seq<u8>, q: int) -> int
    decreases b.len() - q,
{
    if q >= b.len() || q < 0 {
        b.len() as int
    } else if is_char_boundary(b, q) {
        q
    } else {
        next_boundary(b, q + 1)
    }
}

proof fn lemma_block_scan_bound(b: Seq<u8>, q: int, star: bool)
    ensures
        block_scan(b, q, star) matches Some(e) ==> q < e <= b.len() && b[e - 1] == 47,
    decreases b.len() - q,
{
    if 0 <= q < b.len() {
        if star && b[q] == 47 {
        } else if star {
            lemma_block_scan_bound(b, q + 1, false);
        } else {
            lemma_block_scan_bound(b, q + 1, b[q] == 42);
        }
    }
}

proof fn lemma_string_scan_bound(b: Seq<u8>, q: int, esc: bool)
    requires
        q >= 1,
    ensures
        string_scan(b, q, esc).1 <= b.len(),
        q <= b.len() ==> q <= string_scan(b, q, esc).1,
        string_scan(b, q, esc).0 ==> q < string_scan(b, q, esc).1 && b[string_scan(b, q, esc).1 - 1] == 34,
        !string_scan(b, q, esc).0 && string_scan(b, q, esc).1 < b.len() ==> b[string_scan(b, q, esc).1] == 10,
    decreases b.len() - q,
{
    if 0 <= q < b.len() {
        if esc {
            if b[q] != 10 {
                lemma_string_scan_bound(b, q + 1, false);
            }
        } else if b[q] != 34 {
            lemma_string_scan_bound(b, q + 1, b[q] == 92);
        }
    }
}

proof fn lemma_frac_exp_bound(b: Seq<u8>, q: int)
    requires
        0 <= q <= b.len(),
    ensures
        q <= frac_end(b, q) <= b.len(),
        q <= exp_end(b, q) <= b.len(),
        frac_end(b, q) > q ==> b[frac_end(b, q) - 1] < 0x80,
        exp_end(b, q) > q ==> b[exp_end(b, q) - 1] < 0x80,
{
    lemma_run_bound(b, q + 1, 1);
    lemma_run_bound(b, q + 2, 1);
    if run(b, q + 1, 1) > 0 {
        run_last_in_class(b, q + 1, 1);
    }
    if run(b, q + 2, 1) > 0 {
        run_last_in_class(b, q + 2, 1);
    }
}

proof fn run_last_in_class(b: Seq<u8>, p: int, k: u8)
    requires
        run(b, p, k) > 0,
    ensures
        0 <= p + run(b, p, k) - 1 < b.len(),
        in_class(k, b[p + run(b, p, k) - 1]),
    decreases b.len() - p,
{
    if run(b, p + 1, k) > 0 {
        run_last_in_class(b, p + 1, k);
    }
}

/// Every token or skipped text fits in what is left, and its last byte is
/// ASCII unless it is a comment that runs to a newline or to the end.
pub proof fn lemma_longest_bound(b: Seq<u8>, p: int)
    requires
        0 <= p < b.len(),
    ensures
        longest(b, p) <= b.len() - p,
        longest(b, p) > 0 ==> (b[p + longest(b, p) - 1] < 0x80 || (doc_len(b, p) == longest(b, p)
            || line_comment_len(b, p) == longest(b, p)) && (p + longest(b, p) == b.len() || b[p + longest(b, p)] == 10)),
        b[p] < 0x80 || longest(b, p) == 0,
{
    lemma_run_bound(b, p, 0);
    lemma_run_bound(b, p, 1);
    lemma_run_bound(b, p + 1, 2);
    lemma_run_bound(b, p + 2, 3);
    lemma_run_bound(b, p + 3, 3);
    lemma_block_scan_bound(b, p + 2, false);
    lemma_string_scan_bound(b, p + 1, false);
    let d = run(b, p, 1);
    lemma_run_bound(b, p + d + 1, 1);
    lemma_frac_exp_bound(b, p + d);
    if frac_end(b, p + d) <= b.len() {
        lemma_frac_exp_bound(b, frac_end(b, p + d));
    }
    let q = p + d;
    if d > 0 && byte_at(b, q) == 58 && run(b, q + 1, 1) > 0 {
        let m = q + 1 + run(b, q + 1, 1);
        lemma_run_bound(b, m + 1, 1);
        let m2 = if byte_at(b, m) == 58 && run(b, m + 1, 1) > 0 { m + 1 + run(b, m + 1, 1) } else { m };
        lemma_frac_exp_bound(b, m2);
        run_last_in_class(b, q + 1, 1);
        if m2 > m {
            run_last_in_class(b, m + 1, 1);
        }
    }
    if d > 0 {
        run_last_in_class(b, p, 1);
    }
    if run(b, p, 0) > 0 {
        run_last_in_class(b, p, 0);
    }
    if run(b, p + 1, 2) > 0 {
        run_last_in_class(b, p + 1, 2);
    }
    if run(b, p + 2, 3) > 0 {
        run_last_in_class(b, p + 2, 3);
    }
    if run(b, p + 3, 3) > 0 {
        run_last_in_class(b, p + 3, 3);
    }
    if p + 2 <= b.len() {
        lemma_run_end(b, p + 2, 3);
    }
    if p + 3 <= b.len() {
        lemma_run_end(b, p + 3, 3);
    }
}

proof fn lemma_run_end(b: Seq<u8>, p: int, k: u8)
    requires
        0 <= p <= b.len(),
    ensures
        p + run(b, p, k) == b.len() || !in_class(k, b[p + run(b, p, k)]),
    decreases b.len() - p,
{
    if p < b.len() && in_class(k, b[p]) {
        lemma_run_end(b, p + 1, k);
    }
}

/// The tokens of the text from `p`, each with its byte span, or the span of
/// the first error.
pub open spec fn lex_from(b: Seq<u8>, p: int) -> Result<Seq<(TokV, int, int)>, (int, int)>
    decreases b.len() - p,
{
    if p < 0 || p >= b.len() {
        Ok(Seq::empty())
    } else {
        proof {
            lemma_longest_bound(b, p);
        }
        match lex_step(b, p) {
            LexStep::End => Ok(Seq::empty()),
            LexStep::Skip(n) => lex_from(b, p + n),
            LexStep::Tok(t, n) => match lex_from(b, p + n) {
                Ok(rest) => Ok(seq![(t, p, p + n)] + rest),
                Err(e) => Err(e),
            },
            LexStep::Fail(n) => Err((p, p + n)),
        }
    }
}

fn line_len_exec(b: &[u8], p: usize, slashes: usize) -> (n: usize)
    requires
        p < b@.len() <= isize::MAX,
        slashes == 2 || slashes == 3,
    ensures
        slashes == 2 ==> n == line_comment_len(b@, p as int),
        slashes == 3 ==> n == doc_len(b@, p as int),
{
    let ok = get_byte(b, p) == 47 && get_byte(b, p + 1) == 47 && (slashes == 2 || get_byte(b, p + 2) == 47);
    if ok {
        let r = run_exec(b, p + slashes, 3);
        slashes + r
    } else {
        0
    }
}

fn block_len_exec(b: &[u8], p: usize) -> (n: usize)
    requires
        p < b@.len() <= isize::MAX,
    ensures
        n == block_len(b@, p as int),
{
    if !(get_byte(b, p) == 47 && get_byte(b, p + 1) == 42) {
        return 0;
    }
    let mut q = p + 2;
    let mut star = false;
    loop
        invariant
            p + 2 <= q <= b@.len(),
            b@.len() <= isize::MAX,
            byte_at(b@, p as int) == 47 && byte_at(b@, p + 1) == 42,
            block_scan(b@, p + 2, false) == block_scan(b@, q as int, star),
        decreases b@.len() - q,
    {
        if q >= b.len() {
            return 0;
        }
        if star {
            if b[q] == 47 {
                return q + 1 - p;
            }
            star = false;
        } else {
            star = b[q] == 42;
        }
        q = q + 1;
    }
}

fn ident_len_exec(b: &[u8], p: usize) -> (n: usize)
    requires
        p < b@.len() <= isize::MAX,
    ensures
        n == ident_len(b@, p as int),
{
    let c = b[p];
    if (65 <= c && c <= 90) || (97 <= c && c <= 122) || c == 95 {
        1 + run_exec(b, p + 1, 2)
    } else {
        0
    }
}

fn frac_end_exec(b: &[u8], q: usize) -> (r: usize)
    requires
        q <= b@.len() <= isize::MAX,
    ensures
        r == frac_end(b@, q as int),
{
    if get_byte(b, q) == 46 {
        let d = run_exec(b, q + 1, 1);
        if d > 0 {
            return q + 1 + d;
        }
    }
    q
}

fn exp_end_exec(b: &[u8], q: usize) -> (r: usize)
    requires
        q <= b@.len() <= isize::MAX,
    ensures
        r == exp_end(b@, q as int),
{
    let c = get_byte(b, q);
    if c == 101 || c == 69 {
        let c1 = get_byte(b, q + 1);
        let s = if c1 == 43 || c1 == 45 { q + 2 } else { q + 1 };
        if s > b.len() {
            proof { lemma_run_bound(b@, s as int, 1); }
            return q;
        }
        let d = run_exec(b, s, 1);
        if d > 0 {
            return s + d;
        }
    }
    q
}

fn float_len_exec(b: &[u8], p: usize) -> (n: usize)
    requires
        p < b@.len() <= isize::MAX,
    ensures
        n == float_len(b@, p as int),
{
    let d = run_exec(b, p, 1);
    if d == 0 {
        return 0;
    }
    let f = frac_end_exec(b, p + d);
    if f <= p + d {
        return 0;
    }
    proof { lemma_frac_exp_bound(b@, p + d); }
    let e = exp_end_exec(b, f);
    proof { lemma_frac_exp_bound(b@, f as int); }
    e - p
}

fn time_len_exec(b: &[u8], p: usize) -> (n: usize)
    requires
        p < b@.len() <= isize::MAX,
    ensures
        n == time_len(b@, p as int),
{
    let d = run_exec(b, p, 1);
    let q = p + d;
    if d == 0 || get_byte(b, q) != 58 {
        return 0;
    }
    proof { lemma_run_bound(b@, q + 1, 1); }
    let d2 = run_exec(b, q + 1, 1);
    if d2 == 0 {
        return 0;
    }
    let m = q + 1 + d2;
    let mut m2 = m;
    if get_byte(b, m) == 58 {
        let d3 = run_exec(b, m + 1, 1);
        if d3 > 0 {
            m2 = m + 1 + d3;
        }
    }
    proof { lemma_frac_exp_bound(b@, m2 as int); }
    let f = frac_end_exec(b, m2);
    f - p
}

fn string_scan_exec(b: &[u8], p: usize) -> (r: (bool, usize))
    requires
        p < b@.len() <= isize::MAX,
    ensures
        r.0 == string_scan(b@, p + 1, false).0,
        r.1 == string_scan(b@, p + 1, false).1,
{
    let mut q = p + 1;
    let mut esc = false;
    loop
        invariant
            p + 1 <= q <= b@.len(),
            b@.len() <= isize::MAX,
            string_scan(b@, p + 1, false) == string_scan(b@, q as int, esc),
        decreases b@.len() - q,
    {
        if q >= b.len() {
            return (false, b.len());
        }
        if esc {
            if b[q] == 10 {
                return (false, q);
            }
            esc = false;
        } else {
            if b[q] == 34 {
                return (true, q + 1);
            }
            esc = b[q] == 92;
        }
        q = q + 1;
    }
}

fn string_len_exec(b: &[u8], p: usize) -> (n: usize)
    requires
        p < b@.len() <= isize::MAX,
    ensures
        n == string_len(b@, p as int),
{
    if b[p] != 34 {
        return 0;
    }
    let (closed, end) = string_scan_exec(b, p);
    proof { lemma_string_scan_bound(b@, p + 1, false); }
    if closed { end - p } else { 0 }
}

proof fn lemma_digits_value_monotone(b: Seq<u8>, s: int, e: int, e2: int)
    requires
        s <= e <= e2 <= b.len(),
        forall|i: int| s <= i < e2 ==> 48 <= #[trigger] b[i] <= 57,
    ensures
        digits_value(b, s, e) <= digits_value(b, s, e2),
    decreases e2 - e,
{
    if e < e2 {
        lemma_digits_value_monotone(b, s, e, e2 - 1);
        assert(digits_value(b, s, e2) == digits_value(b, s, e2 - 1) * 10 + (b[e2 - 1] - 48) as nat);
    }
}

proof fn lemma_run_all_in_class(b: Seq<u8>, p: int, k: u8)
    requires
        0 <= p,
    ensures
        forall|i: int| p <= i < p + run(b, p, k) ==> in_class(k, #[trigger] b[i]),
    decreases b.len() - p,
{
    if 0 <= p < b.len() && in_class(k, b[p]) {
        lemma_run_all_in_class(b, p + 1, k);
    }
}

/// The value of the digits `[p, p + n)`, if it fits in `i64`.
fn digits_value_exec(b: &[u8], p: usize, n: usize) -> (r: Option<i64>)
    requires
        p + n <= b@.len() <= isize::MAX,
        forall|i: int| p <= i < p + n ==> 48 <= #[trigger] b@[i] <= 57,
    ensures
        r matches Some(v) ==> v == digits_value(b@, p as int, p + n),
        r is None <==> digits_value(b@, p as int, p + n) > i64::MAX,
{
    let mut v: i64 = 0;
    let mut i: usize = p;
    let end = p + n;
    while i < end
        invariant
            end == p + n,
            p <= i <= p + n,
            p + n <= b@.len(),
            forall|j: int| p <= j < p + n ==> 48 <= #[trigger] b@[j] <= 57,
            v == digits_value(b@, p as int, i as int),
        decreases end - i,
    {
        let d = (b[i] - 48) as i64;
        if v > (i64::MAX - d) / 10 {
            proof {
                assert(digits_value(b@, p as int, i + 1) == v * 10 + d);
                assert(v * 10 + d > i64::MAX) by (nonlinear_arith)
                    requires
                        v > (i64::MAX - d) / 10,
                        0 <= d <= 9,
                ;
                lemma_digits_value_monotone(b@, p as int, i + 1, p + n);
            }
            return None;
        }
        proof {
            assert(v * 10 + d <= i64::MAX) by (nonlinear_arith)
                requires
                    v <= (i64::MAX - d) / 10,
                    0 <= d <= 9,
                    v >= 0,
            ;
        }
        v = v * 10 + d;
        i = i + 1;
    }
    Some(v)
}

/// One lexer step, as values.
pub enum Step {
    End,
    Skip(usize),
    Tok(Token, usize),
    Fail(usize),
}

/// The value of a step.
pub open spec fn step_view(s: Step) -> LexStep {
    match s {
        Step::End => LexStep::End,
        Step::Skip(n) => LexStep::Skip(n as nat),
        Step::Tok(t, n) => LexStep::Tok(tok_view(t), n as nat),
        Step::Fail(n) => LexStep::Fail(n as nat),
    }
}

fn max_usize(a: usize, b: usize) -> (r: usize)
    ensures
        r == max2(a as nat, b as nat),
{
    if a >= b { a } else { b }
}

/// The lengths of all token patterns at a position.
pub struct Lengths {
    pub ws: usize,
    pub lc: usize,
    pub dc: usize,
    pub bc: usize,
    pub id: usize,
    pub it: usize,
    pub fl: usize,
    pub tm: usize,
    pub st: usize,
    pub ol: usize,
}

fn lengths_at(b: &[u8], p: usize) -> (r: (Lengths, Token))
    requires
        p < b@.len() <= isize::MAX,
    ensures
        r.0.ws == ws_len(b@, p as int),
        r.0.lc == line_comment_len(b@, p as int),
        r.0.dc == doc_len(b@, p as int),
        r.0.bc == block_len(b@, p as int),
        r.0.id == ident_len(b@, p as int),
        r.0.it == int_len(b@, p as int),
        r.0.fl == float_len(b@, p as int),
        r.0.tm == time_len(b@, p as int),
        r.0.st == string_len(b@, p as int),
        r.0.ol == op_at(b@, p as int).1,
        tok_view(r.1) == op_at(b@, p as int).0,
{
    let ws = run_exec(b, p, 0);
    let lc = line_len_exec(b, p, 2);
    let dc = line_len_exec(b, p, 3);
    let bc = block_len_exec(b, p);
    let id = ident_len_exec(b, p);
    let it = run_exec(b, p, 1);
    let fl = float_len_exec(b, p);
    let tm = time_len_exec(b, p);
    let st = string_len_exec(b, p);
    let (op, ol) = op_at_exec(b, p);
    (Lengths { ws, lc, dc, bc, id, it, fl, tm, st, ol }, op)
}

/// The lexer's step at `p`, which must start a character.
#[verifier::rlimit(100)]
#[verifier::spinoff_prover]
pub fn lex_step_exec(s: &str, b: &[u8], p: usize) -> (r: Step)
    requires
        b@ == s.spec_bytes(),
        p <= b@.len() <= isize::MAX,
        is_char_boundary(b@, p as int),
    ensures
        step_view(r) == lex_step(b@, p as int),
{
    if p >= b.len() {
        return Step::End;
    }
    proof {
        vstd::utf8::encode_utf8_valid_utf8(s@);
        lemma_longest_bound(b@, p as int);
    }
    let (lens, op) = lengths_at(b, p);
    let ws = lens.ws;
    let lc = lens.lc;
    let dc = lens.dc;
    let bc = lens.bc;
    let id = lens.id;
    let it = lens.it;
    let fl = lens.fl;
    let tm = lens.tm;
    let st = lens.st;
    let ol = lens.ol;
    let m = max_usize(
        max_usize(max_usize(ws, lc), max_usize(dc, bc)),
        max_usize(max_usize(max_usize(id, it), max_usize(fl, tm)), max_usize(st, ol)),
    );
    let ghost bb = b@;
    if m == 0 {
        if b[p] == 34 {
            let (_, end) = string_scan_exec(b, p);
            proof { lemma_string_scan_bound(bb, p + 1, false); }
            return Step::Fail(end - p);
        }
        let mut e = p + 1;
        while e < b.len() && !s.is_char_boundary(e)
            invariant
                p + 1 <= e <= b@.len(),
                b@ == s.spec_bytes(),
                next_boundary(b@, p + 1) == next_boundary(b@, e as int),
            decreases b@.len() - e,
        {
            e = e + 1;
        }
        return Step::Fail(e - p);
    }
    proof {
        lemma_run_all_in_class(bb, p as int, 1);
        lemma_ascii_boundaries(bb, p as int);
        if bb[p + m - 1] < 0x80 {
            lemma_ascii_boundaries(bb, p + m - 1);
        } else if p + m < bb.len() {
            vstd::utf8::is_char_boundary_iff_not_is_continuation_byte(bb, p + m);
        } else {
            vstd::utf8::is_char_boundary_start_end_of_seq(bb);
        }
    }
    if dc == m {
        proof {
            lemma_ascii_boundaries(bb, p + 2);
        }
        let body = substr(s, p + 3, p + m);
        let t = trim_str(body);
        return Step::Tok(Token::DocComment(t), m);
    }
    if ws == m || lc == m || bc == m {
        return Step::Skip(m);
    }
    if id == m {
        let w = substr(s, p, p + m);
        return Step::Tok(word_token_exec(w), m);
    }
    if tm == m {
        return Step::Tok(Token::Time(string_of(substr(s, p, p + m))), m);
    }
    if fl == m {
        return Step::Tok(Token::Float(string_of(substr(s, p, p + m))), m);
    }
    if it == m {
        return match digits_value_exec(b, p, m) {
            Some(v) => Step::Tok(Token::Integer(v), m),
            None => Step::Fail(m),
        };
    }
    if st == m {
        proof {
            lemma_string_scan_bound(bb, p + 1, false);
            vstd::utf8::is_char_boundary_iff_not_is_continuation_byte(bb, p + m - 1);
        }
        return Step::Tok(Token::String(string_of(substr(s, p + 1, p + m - 1))), m);
    }
    Step::Tok(op, m)
}

proof fn lemma_ascii_boundaries(b: Seq<u8>, i: int)
    requires
        valid_utf8(b),
        0 <= i < b.len(),
        b[i] < 0x80,
    ensures
        is_char_boundary(b, i),
        is_char_boundary(b, i + 1),
{
    vstd::utf8::is_char_boundary_iff_not_is_continuation_byte(b, i);
    lemma_boundary_after_ascii(b, i);
}

/// A token with its byte span in the source.
#[derive(Debug, PartialEq)]
pub struct SpannedToken {
    pub token: Token,
    pub span: std::ops::Range<usize>,
}

/// A token with its span, as values.
pub open spec fn spanned_view(t: SpannedToken) -> (TokV, int, int) {
    (tok_view(t.token), t.span.start as int, t.span.end as int)
}

/// Error during lexical analysis.
#[derive(Debug)]
pub struct LexError {
    pub span: std::ops::Range<usize>,
    pub message: String,
}

/// The message of a lexical error over the given text.
pub open spec fn lex_error_message(t: Seq<char>) -> Seq<char> {
    "unexpected character: "@ + debug_text(t)
}

/// Does the result of lexing agree with `lex_from` at the start?
pub open spec fn lexed(b: Seq<u8>, r: Result<Vec<SpannedToken>, LexError>) -> bool {
    match lex_from(b, 0) {
        Ok(ts) => r matches Ok(v) && v@.map_values(|t: SpannedToken| spanned_view(t)) == ts,
        Err(e) => r matches Err(err) && err.span.start == e.0 && err.span.end == e.1
            && err.message@ == lex_error_message(text(b, e.0, e.1)),
    }
}

impl LexError {
    /// The error's text: `lex error at start..end: message`.
    pub fn to_string(&self) -> (r: String)
        ensures
            r@ == "lex error at "@ + crate::base::text::decimal(self.span.start as nat) + ".."@
                + crate::base::text::decimal(self.span.end as nat) + ": "@ + self.message@,
    {
        let mut r = string_of("lex error at ");
        crate::base::text::push_decimal(&mut r, self.span.start as u64);
        crate::base::text::push_str(&mut r, "..");
        crate::base::text::push_decimal(&mut r, self.span.end as u64);
        crate::base::text::push_str(&mut r, ": ");
        crate::base::text::push_str(&mut r, self.message.as_str());
        r
    }
}

/// Lexer for Anvomidav source code.
pub struct Lexer<'src> {
    source: &'src str,
}

impl<'src> Lexer<'src> {
    /// A lexer for the given source.
    pub fn new(source: &'src str) -> (l: Lexer<'src>)
        ensures
            l.source() == source,
    {
        Lexer { source }
    }

    /// The source the lexer reads.
    pub closed spec fn source(&self) -> &'src str {
        self.source
    }

    /// All tokens of the source.
    pub fn tokens(&self) -> (r: Result<Vec<SpannedToken>, LexError>)
        requires
            self.source().spec_bytes().len() <= isize::MAX,
        ensures
            lexed(self.source().spec_bytes(), r),
    {
        Lexer::tokenize(self.source)
    }

    /// Tokenize the whole source: every token with its byte span, or the
    /// first lexical error.
    pub fn tokenize(source: &str) -> (r: Result<Vec<SpannedToken>, LexError>)
        requires
            source.spec_bytes().len() <= isize::MAX,
        ensures
            lexed(source.spec_bytes(), r),
    {
        let b = source.as_bytes();
        let ghost bb = b@;
        let mut tokens: Vec<SpannedToken> = Vec::new();
        let mut p: usize = 0;
        proof {
            vstd::utf8::encode_utf8_valid_utf8(source@);
            vstd::utf8::is_char_boundary_start_end_of_seq(bb);
        }
        while p < b.len()
            invariant
                bb == b@,
                bb == source.spec_bytes(),
                valid_utf8(bb),
                p <= bb.len() <= isize::MAX,
                is_char_boundary(bb, p as int),
                lex_from(bb, 0) == (match lex_from(bb, p as int) {
                    Ok(rest) => Ok(tokens@.map_values(|t: SpannedToken| spanned_view(t)) + rest),
                    Err(e) => Err(e),
                }),
            decreases bb.len() - p,
        {
            proof { lemma_longest_bound(bb, p as int); }
            let step = lex_step_exec(source, b, p);
            match step {
                Step::End => {
                    proof { assert(false); }
                    return Ok(tokens);
                },
                Step::Skip(n) => {
                    proof { lemma_step_boundary(bb, p as int); }
                    p = p + n;
                },
                Step::Tok(t, n) => {
                    let ghost before = tokens@;
                    tokens.push(SpannedToken { token: t, span: std::ops::Range { start: p, end: p + n } });
                    proof {
                        lemma_step_boundary(bb, p as int);
                        let f = |t: SpannedToken| spanned_view(t);
                        assert(tokens@.map_values(f) =~= before.map_values(f).push(spanned_view(tokens@.last())));
                        match lex_from(bb, p + n) {
                            Ok(rest) => {
                                assert(before.map_values(f) + (seq![spanned_view(tokens@.last())] + rest)
                                    =~= tokens@.map_values(f) + rest);
                            },
                            Err(_) => {},
                        }
                    }
                    p = p + n;
                },
                Step::Fail(n) => {
                    proof { lemma_fail_boundary(bb, p as int); }
                    let slice = substr(source, p, p + n);
                    let shown = debug_str(slice);
                    let mut message = string_of("unexpected character: ");
                    crate::base::text::push_str(&mut message, shown.as_str());
                    return Err(LexError { span: std::ops::Range { start: p, end: p + n }, message });
                },
            }
        }
        proof {
            assert(lex_from(bb, p as int) == Ok::<Seq<(TokV, int, int)>, (int, int)>(Seq::empty()));
            assert(tokens@.map_values(|t: SpannedToken| spanned_view(t)) + Seq::<(TokV, int, int)>::empty()
                =~= tokens@.map_values(|t: SpannedToken| spanned_view(t)));
        }
        Ok(tokens)
    }
}

/// After a skip or a token the lexer is at the start of a character.
proof fn lemma_step_boundary(b: Seq<u8>, p: int)
    requires
        valid_utf8(b),
        0 <= p < b.len(),
        is_char_boundary(b, p),
    ensures
        lex_step(b, p) matches LexStep::Skip(n) ==> is_char_boundary(b, p + n) && p + n <= b.len() && n > 0,
        lex_step(b, p) matches LexStep::Tok(_, n) ==> is_char_boundary(b, p + n) && p + n <= b.len() && n > 0,
{
    lemma_longest_bound(b, p);
    let m = longest(b, p);
    if m > 0 {
        if b[p + m - 1] < 0x80 {
            lemma_ascii_boundaries(b, p + m - 1);
        } else if p + m < b.len() {
            vstd::utf8::is_char_boundary_iff_not_is_continuation_byte(b, p + m);
        } else {
            vstd::utf8::is_char_boundary_start_end_of_seq(b);
        }
    }
}

/// An error covers whole characters within the text.
proof fn lemma_fail_boundary(b: Seq<u8>, p: int)
    requires
        valid_utf8(b),
        0 <= p < b.len(),
        is_char_boundary(b, p),
    ensures
        lex_step(b, p) matches LexStep::Fail(n) ==> is_char_boundary(b, p + n) && p + n <= b.len(),
{
    lemma_longest_bound(b, p);
    let m = longest(b, p);
    if m == 0 {
        if byte_at(b, p) == 34 {
            lemma_string_scan_bound(b, p + 1, false);
            let e = string_scan(b, p + 1, false).1;
            if e < b.len() {
                vstd::utf8::is_char_boundary_iff_not_is_continuation_byte(b, e);
            } else {
                vstd::utf8::is_char_boundary_start_end_of_seq(b);
            }
        } else {
            lemma_next_boundary(b, p + 1);
        }
    } else if int_len(b, p) == m {
        lemma_run_all_in_class(b, p, 1);
        lemma_ascii_boundaries(b, p + m - 1);
    }
}

proof fn lemma_next_boundary(b: Seq<u8>, q: int)
    requires
        valid_utf8(b),
        0 <= q,
    ensures
        is_char_boundary(b, next_boundary(b, q)),
        next_boundary(b, q) <= b.len(),
        q <= b.len() ==> q <= next_boundary(b, q),
    decreases b.len() - q,
{
    if q >= b.len() {
        vstd::utf8::is_char_boundary_start_end_of_seq(b);
    } else if !is_char_boundary(b, q) {
        lemma_next_boundary(b, q + 1);
    }
}

/// Every token covers at least one byte, so there are no more tokens than
/// bytes.
pub proof fn lemma_lex_len(b: Seq<u8>, p: int)
    requires
        0 <= p <= b.len(),
    ensures
        lex_from(b, p) matches Ok(ts) ==> ts.len() <= b.len() - p,
    decreases b.len() - p,
{
    if p < b.len() {
        lemma_longest_bound(b, p);
        match lex_step(b, p) {
            LexStep::Skip(n) => lemma_lex_len(b, p + n),
            LexStep::Tok(_, n) => lemma_lex_len(b, p + n),
            _ => {},
        }
    }
}

/// The length of each keyword, and the characters that tell apart keywords
/// of one length.
proof fn lemma_keyword_texts()
    ensures
        "program"@.len() == 7,
        "program"@[0] == 'p',
        "program"@[1] == 'r',
        "segment"@.len() == 7,
        "segment"@[0] == 's',
        "segment"@[1] == 'e',
        "sequence"@.len() == 8,
        "sequence"@[0] == 's',
        "element"@.len() == 7,
        "element"@[0] == 'e',
        "jump"@.len() == 4,
        "jump"@[0] == 'j',
        "spin"@.len() == 4,
        "spin"@[0] == 's',
        "spin"@[1] == 'p',
        "step"@.len() == 4,
        "step"@[0] == 's',
        "step"@[1] == 't',
        "lift"@.len() == 4,
        "lift"@[0] == 'l',
        "lift"@[1] == 'i',
        "death_spiral"@.len() == 12,
        "death_spiral"@[0] == 'd',
        "throw"@.len() == 5,
        "throw"@[0] == 't',
        "throw"@[1] == 'h',
        "twist"@.len() == 5,
        "twist"@[0] == 't',
        "twist"@[1] == 'w',
        "transition"@.len() == 10,
        "transition"@[0] == 't',
        "choreographic"@.len() == 13,
        "let"@.len() == 3,
        "let"@[0] == 'l',
        "if"@.len() == 2,
        "if"@[0] == 'i',
        "if"@[1] == 'f',
        "then"@.len() == 4,
        "then"@[0] == 't',
        "then"@[1] == 'h',
        "else"@.len() == 4,
        "else"@[0] == 'e',
        "match"@.len() == 5,
        "match"@[0] == 'm',
        "match"@[1] == 'a',
        "with"@.len() == 4,
        "with"@[0] == 'w',
        "for"@.len() == 3,
        "for"@[0] == 'f',
        "in"@.len() == 2,
        "in"@[0] == 'i',
        "in"@[1] == 'n',
        "while"@.len() == 5,
        "while"@[0] == 'w',
        "do"@.len() == 2,
        "do"@[0] == 'd',
        "end"@.len() == 3,
        "end"@[0] == 'e',
        "return"@.len() == 6,
        "return"@[0] == 'r',
        "return"@[1] == 'e',
        "return"@[2] == 't',
        "fn"@.len() == 2,
        "fn"@[0] == 'f',
        "type"@.len() == 4,
        "type"@[0] == 't',
        "type"@[1] == 'y',
        "import"@.len() == 6,
        "import"@[0] == 'i',
        "export"@.len() == 6,
        "export"@[0] == 'e',
        "from"@.len() == 4,
        "from"@[0] == 'f',
        "from"@[1] == 'r',
        "from"@[2] == 'o',
        "as"@.len() == 2,
        "as"@[0] == 'a',
        "as"@[1] == 's',
        "music"@.len() == 5,
        "music"@[0] == 'm',
        "music"@[1] == 'u',
        "tempo"@.len() == 5,
        "tempo"@[0] == 't',
        "tempo"@[1] == 'e',
        "beat"@.len() == 4,
        "beat"@[0] == 'b',
        "at"@.len() == 2,
        "at"@[0] == 'a',
        "at"@[1] == 't',
        "to"@.len() == 2,
        "to"@[0] == 't',
        "duration"@.len() == 8,
        "duration"@[0] == 'd',
        "position"@.len() == 8,
        "position"@[0] == 'p',
        "position"@[1] == 'o',
        "skater"@.len() == 6,
        "skater"@[0] == 's',
        "skater"@[1] == 'k',
        "pairs"@.len() == 5,
        "pairs"@[0] == 'p',
        "pairs"@[1] == 'a',
        "ice_dance"@.len() == 9,
        "ice_dance"@[0] == 'i',
        "singles"@.len() == 7,
        "singles"@[0] == 's',
        "singles"@[1] == 'i',
        "short"@.len() == 5,
        "short"@[0] == 's',
        "free"@.len() == 4,
        "free"@[0] == 'f',
        "free"@[1] == 'r',
        "free"@[2] == 'e',
        "pattern"@.len() == 7,
        "pattern"@[0] == 'p',
        "pattern"@[1] == 'a',
        "rhythm"@.len() == 6,
        "rhythm"@[0] == 'r',
        "rhythm"@[1] == 'h',
        "exhibition"@.len() == 10,
        "exhibition"@[0] == 'e',
        "repeat"@.len() == 6,
        "repeat"@[0] == 'r',
        "repeat"@[1] == 'e',
        "repeat"@[2] == 'p',
        "parallel"@.len() == 8,
        "parallel"@[0] == 'p',
        "parallel"@[1] == 'a',
        "sync"@.len() == 4,
        "sync"@[0] == 's',
        "sync"@[1] == 'y',
        "true"@.len() == 4,
        "true"@[0] == 't',
        "true"@[1] == 'r',
        "false"@.len() == 5,
        "false"@[0] == 'f',
        "axel"@.len() == 4,
        "axel"@[0] == 'a',
        "lutz"@.len() == 4,
        "lutz"@[0] == 'l',
        "lutz"@[1] == 'u',
        "flip"@.len() == 4,
        "flip"@[0] == 'f',
        "flip"@[1] == 'l',
        "loop"@.len() == 4,
        "loop"@[0] == 'l',
        "loop"@[1] == 'o',
        "salchow"@.len() == 7,
        "salchow"@[0] == 's',
        "salchow"@[1] == 'a',
        "toe_loop"@.len() == 8,
        "toe_loop"@[0] == 't',
        "euler"@.len() == 5,
        "euler"@[0] == 'e',
        "single"@.len() == 6,
        "single"@[0] == 's',
        "single"@[1] == 'i',
        "double"@.len() == 6,
        "double"@[0] == 'd',
        "triple"@.len() == 6,
        "triple"@[0] == 't',
        "quad"@.len() == 4,
        "quad"@[0] == 'q',
        "upright"@.len() == 7,
        "upright"@[0] == 'u',
        "sit"@.len() == 3,
        "sit"@[0] == 's',
        "camel"@.len() == 5,
        "camel"@[0] == 'c',
        "layback"@.len() == 7,
        "layback"@[0] == 'l',
        "biellmann"@.len() == 9,
        "biellmann"@[0] == 'b',
        "LFO"@.len() == 3,
        "LFO"@[0] == 'L',
        "LFO"@[1] == 'F',
        "LFO"@[2] == 'O',
        "LFI"@.len() == 3,
        "LFI"@[0] == 'L',
        "LFI"@[1] == 'F',
        "LFI"@[2] == 'I',
        "LBO"@.len() == 3,
        "LBO"@[0] == 'L',
        "LBO"@[1] == 'B',
        "LBO"@[2] == 'O',
        "LBI"@.len() == 3,
        "LBI"@[0] == 'L',
        "LBI"@[1] == 'B',
        "LBI"@[2] == 'I',
        "RFO"@.len() == 3,
        "RFO"@[0] == 'R',
        "RFO"@[1] == 'F',
        "RFO"@[2] == 'O',
        "RFI"@.len() == 3,
        "RFI"@[0] == 'R',
        "RFI"@[1] == 'F',
        "RFI"@[2] == 'I',
        "RBO"@.len() == 3,
        "RBO"@[0] == 'R',
        "RBO"@[1] == 'B',
        "RBO"@[2] == 'O',
        "RBI"@.len() == 3,
        "RBI"@[0] == 'R',
        "RBI"@[1] == 'B',
        "RBI"@[2] == 'I',
        "B"@.len() == 1,
        "L1"@.len() == 2,
        "L1"@[0] == 'L',
        "L1"@[1] == '1',
        "L2"@.len() == 2,
        "L2"@[0] == 'L',
        "L2"@[1] == '2',
        "L3"@.len() == 2,
        "L3"@[0] == 'L',
        "L3"@[1] == '3',
        "L4"@.len() == 2,
        "L4"@[0] == 'L',
        "L4"@[1] == '4',
        "Gr1"@.len() == 3,
        "Gr1"@[0] == 'G',
        "Gr1"@[2] == '1',
        "Gr2"@.len() == 3,
        "Gr2"@[0] == 'G',
        "Gr2"@[2] == '2',
        "Gr3"@.len() == 3,
        "Gr3"@[0] == 'G',
        "Gr3"@[2] == '3',
        "Gr4"@.len() == 3,
        "Gr4"@[0] == 'G',
        "Gr4"@[2] == '4',
        "Gr5"@.len() == 3,
        "Gr5"@[0] == 'G',
        "Gr5"@[2] == '5',
        "spiral"@.len() == 6,
        "spiral"@[0] == 's',
        "spiral"@[1] == 'p',
        "spiral"@[2] == 'i',
        "spread"@.len() == 6,
        "spread"@[0] == 's',
        "spread"@[1] == 'p',
        "spread"@[2] == 'r',
        "ina"@.len() == 3,
        "ina"@[0] == 'i',
        "hydroblading"@.len() == 12,
        "hydroblading"@[0] == 'h',
        "pivot"@.len() == 5,
        "pivot"@[0] == 'p',
        "pivot"@[1] == 'i',
{
    reveal_strlit("program");
    reveal_strlit("segment");
    reveal_strlit("sequence");
    reveal_strlit("element");
    reveal_strlit("jump");
    reveal_strlit("spin");
    reveal_strlit("step");
    reveal_strlit("lift");
    reveal_strlit("death_spiral");
    reveal_strlit("throw");
    reveal_strlit("twist");
    reveal_strlit("transition");
    reveal_strlit("choreographic");
    reveal_strlit("let");
    reveal_strlit("if");
    reveal_strlit("then");
    reveal_strlit("else");
    reveal_strlit("match");
    reveal_strlit("with");
    reveal_strlit("for");
    reveal_strlit("in");
    reveal_strlit("while");
    reveal_strlit("do");
    reveal_strlit("end");
    reveal_strlit("return");
    reveal_strlit("fn");
    reveal_strlit("type");
    reveal_strlit("import");
    reveal_strlit("export");
    reveal_strlit("from");
    reveal_strlit("as");
    reveal_strlit("music");
    reveal_strlit("tempo");
    reveal_strlit("beat");
    reveal_strlit("at");
    reveal_strlit("to");
    reveal_strlit("duration");
    reveal_strlit("position");
    reveal_strlit("skater");
    reveal_strlit("pairs");
    reveal_strlit("ice_dance");
    reveal_strlit("singles");
    reveal_strlit("short");
    reveal_strlit("free");
    reveal_strlit("pattern");
    reveal_strlit("rhythm");
    reveal_strlit("exhibition");
    reveal_strlit("repeat");
    reveal_strlit("parallel");
    reveal_strlit("sync");
    reveal_strlit("true");
    reveal_strlit("false");
    reveal_strlit("axel");
    reveal_strlit("lutz");
    reveal_strlit("flip");
    reveal_strlit("loop");
    reveal_strlit("salchow");
    reveal_strlit("toe_loop");
    reveal_strlit("euler");
    reveal_strlit("single");
    reveal_strlit("double");
    reveal_strlit("triple");
    reveal_strlit("quad");
    reveal_strlit("upright");
    reveal_strlit("sit");
    reveal_strlit("camel");
    reveal_strlit("layback");
    reveal_strlit("biellmann");
    reveal_strlit("LFO");
    reveal_strlit("LFI");
    reveal_strlit("LBO");
    reveal_strlit("LBI");
    reveal_strlit("RFO");
    reveal_strlit("RFI");
    reveal_strlit("RBO");
    reveal_strlit("RBI");
    reveal_strlit("B");
    reveal_strlit("L1");
    reveal_strlit("L2");
    reveal_strlit("L3");
    reveal_strlit("L4");
    reveal_strlit("Gr1");
    reveal_strlit("Gr2");
    reveal_strlit("Gr3");
    reveal_strlit("Gr4");
    reveal_strlit("Gr5");
    reveal_strlit("spiral");
    reveal_strlit("spread");
    reveal_strlit("ina");
    reveal_strlit("hydroblading");
    reveal_strlit("pivot");
}

/// A text of letters, digits and underscores that does not start with a
/// digit: the shape of a keyword or an identifier.
pub open spec fn is_word(s: Seq<char>) -> bool {
    &&& s.len() > 0
    &&& !('0' <= s[0] <= '9')
    &&& forall|i: int| 0 <= i < s.len() ==> ('a' <= #[trigger] s[i] <= 'z') || ('A' <= s[i] <= 'Z') || ('0' <= s[i] <= '9') || s[i] == '_'
}

/// Every keyword reads back as itself: for each token without a payload
/// whose text is a word, the lexer's classification of that word gives the
/// token.
pub proof fn law_keywords_read_back(t: TokV)
    requires
        !(t is Integer || t is Float || t is Time || t is Str || t is Ident || t is DocComment),
        is_word(token_text(t)),
    ensures
        word_token(token_text(t)) == t,
{
    lemma_keyword_texts();
    match t {
        TokV::Plus => { reveal_strlit("+"); }
        TokV::Minus => { reveal_strlit("-"); }
        TokV::Star => { reveal_strlit("*"); }
        TokV::Slash => { reveal_strlit("/"); }
        TokV::Percent => { reveal_strlit("%"); }
        TokV::EqEq => { reveal_strlit("=="); }
        TokV::NotEq => { reveal_strlit("!="); }
        TokV::Lt => { reveal_strlit("<"); }
        TokV::LtEq => { reveal_strlit("<="); }
        TokV::Gt => { reveal_strlit(">"); }
        TokV::GtEq => { reveal_strlit(">="); }
        TokV::AndAnd => { reveal_strlit("&&"); }
        TokV::OrOr => { reveal_strlit("||"); }
        TokV::Not => { reveal_strlit("!"); }
        TokV::Eq => { reveal_strlit("="); }
        TokV::Arrow => { reveal_strlit("->"); }
        TokV::FatArrow => { reveal_strlit("=>"); }
        TokV::Colon => { reveal_strlit(":"); }
        TokV::ColonColon => { reveal_strlit("::"); }
        TokV::Semi => { reveal_strlit(";"); }
        TokV::Comma => { reveal_strlit(","); }
        TokV::Dot => { reveal_strlit("."); }
        TokV::DotDot => { reveal_strlit(".."); }
        TokV::DotDotDot => { reveal_strlit("..."); }
        TokV::Pipe => { reveal_strlit("|"); }
        TokV::At_ => { reveal_strlit("@"); }
        TokV::Hash => { reveal_strlit("#"); }
        TokV::Question => { reveal_strlit("?"); }
        TokV::LParen => { reveal_strlit("("); }
        TokV::RParen => { reveal_strlit(")"); }
        TokV::LBracket => { reveal_strlit("["); }
        TokV::RBracket => { reveal_strlit("]"); }
        TokV::LBrace => { reveal_strlit("{"); }
        TokV::RBrace => { reveal_strlit("}"); }
        _ => {},
    }
}

/// The texts of the level tokens.
pub proof fn lemma_level_texts()
    ensures
        token_text(TokV::LevelB) == "B"@,
        token_text(TokV::Level1) == "L1"@,
        token_text(TokV::Level2) == "L2"@,
        token_text(TokV::Level3) == "L3"@,
        token_text(TokV::Level4) == "L4"@,
{
}

proof fn lemma_run_all(b: Seq<u8>, p: int, k: u8)
    requires
        0 <= p <= b.len(),
        forall|i: int| p <= i < b.len() ==> in_class(k, #[trigger] b[i]),
    ensures
        run(b, p, k) == b.len() - p,
    decreases b.len() - p,
{
    if p < b.len() {
        lemma_run_all(b, p + 1, k);
    }
}

/// A text that is one word, start to end, lexes to exactly one token: the
/// classification of that word, spanning the whole text.
pub proof fn law_word_lexes_whole(b: Seq<u8>)
    requires
        b.len() > 0,
        is_ident_start(b[0]),
        forall|i: int| 1 <= i < b.len() ==> in_class(2, #[trigger] b[i]),
    ensures
        lex_from(b, 0) == Ok::<Seq<(TokV, int, int)>, (int, int)>(
            seq![(word_token(text(b, 0, b.len() as int)), 0int, b.len() as int)]),
{
    lemma_run_all(b, 1, 2);
    lemma_longest_bound(b, 0);
    let m = b.len();
    assert(ident_len(b, 0) == m);
    assert(ws_len(b, 0) == 0);
    assert(doc_len(b, 0) == 0);
    assert(line_comment_len(b, 0) == 0);
    assert(block_len(b, 0) == 0);
    assert(longest(b, 0) == m);
    assert(lex_step(b, 0) == LexStep::Tok(word_token(text(b, 0, m as int)), m));
    assert(lex_from(b, m as int) == Ok::<Seq<(TokV, int, int)>, (int, int)>(Seq::empty()));
    assert(seq![(word_token(text(b, 0, m as int)), 0int, m as int)] + Seq::<(TokV, int, int)>::empty()
        =~= seq![(word_token(text(b, 0, m as int)), 0int, m as int)]);
}

/// Each keyword lexes to its own token: the text of a keyword token, as
/// source text, lexes to exactly that one token.
pub proof fn law_keyword_lexes_to_itself(t: TokV)
    requires
        !(t is Integer || t is Float || t is Time || t is Str || t is Ident || t is DocComment),
        is_word(token_text(t)),
    ensures
        lex_from(encode_utf8(token_text(t)), 0) == Ok::<Seq<(TokV, int, int)>, (int, int)>(
            seq![(t, 0int, token_text(t).len() as int)]),
{
    let c = token_text(t);
    let b = encode_utf8(c);
    assert(is_ascii_chars(c));
    vstd::utf8::is_ascii_chars_encode_utf8(c);
    vstd::utf8::encode_utf8_decode_utf8(c);
    assert(b.subrange(0, b.len() as int) =~= b);
    assert(text(b, 0, b.len() as int) == c);
    assert(is_ident_start(b[0]));
    assert forall|i: int| 1 <= i < b.len() implies in_class(2, #[trigger] b[i]) by {
        assert(c[i] as u8 == b[i]);
    }
    law_word_lexes_whole(b);
    law_keywords_read_back(t);
}

} // verus!
