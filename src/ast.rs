//! The compiled form of a dialogue chapter, shared by the compiler and the
//! playback automaton, with a mathematical view of each type.
use vstd::prelude::*;

verus! {

/// The reveal speed a span gets when the script names none.
pub const DEFAULT_SPEED: u32 = 3;

/// An out-of-band directive.
#[derive(Debug, Clone, PartialEq, Eq)]
pub enum Instruction {
    Play { sound: String },
}

/// Reveal properties shared by the characters of a span.
#[derive(Debug, Clone, Copy, PartialEq, Eq, Structural)]
pub struct TextProperties {
    pub speed: u32,
}

/// A run of characters sharing one set of reveal properties.
#[derive(Debug, Clone, PartialEq, Eq)]
pub struct Span {
    pub text: String,
    pub properties: TextProperties,
}

/// What a line is made of.
#[derive(Debug, Clone, PartialEq, Eq)]
pub enum LineChild {
    Span(Span),
    Instruction(Instruction),
}

/// A chapter-level action.
#[derive(Debug, Clone, Copy, PartialEq, Eq, Structural)]
pub enum Action {
    Await,
}

/// A top-level scripted event.
#[derive(Debug, Clone, PartialEq, Eq)]
pub enum ChExpr {
    Action(Action),
    Instruction(Instruction),
    Line { content: Vec<LineChild> },
}

/// One compiled dialogue script: the speaker's voice and its ordered events.
#[derive(Debug, Clone, PartialEq, Eq)]
pub struct Chapter {
    pub voice: String,
    pub content: Vec<ChExpr>,
}

/// A style scope of the compiler; the innermost one wins.
#[derive(Debug, Clone, Copy, PartialEq, Eq, Structural)]
pub enum Props {
    Speed(u32),
}

/// The mathematical value of a `Span`.
pub struct SpanV {
    pub text: Seq<char>,
    pub speed: u32,
}

/// The mathematical value of a `LineChild`; an instruction is a sound to play.
pub enum LineChildV {
    Span(SpanV),
    Play(Seq<char>),
}

/// The mathematical value of a `ChExpr`.
pub enum ChExprV {
    Await,
    Play(Seq<char>),
    Line(Seq<LineChildV>),
}

/// The mathematical value of a `Chapter`.
pub struct ChapterV {
    pub voice: Seq<char>,
    pub content: Seq<ChExprV>,
}

impl View for Instruction {
    type V = Seq<char>;

    open spec fn view(&self) -> Seq<char> {
        match self {
            Instruction::Play { sound } => sound@,
        }
    }
}

impl View for Span {
    type V = SpanV;

    open spec fn view(&self) -> SpanV {
        SpanV { text: self.text@, speed: self.properties.speed }
    }
}

impl View for LineChild {
    type V = LineChildV;

    open spec fn view(&self) -> LineChildV {
        match self {
            LineChild::Span(s) => LineChildV::Span(s@),
            LineChild::Instruction(i) => LineChildV::Play(i@),
        }
    }
}

/// The views of a sequence of line children.
pub open spec fn children_view(v: Seq<LineChild>) -> Seq<LineChildV> {
    v.map_values(|c: LineChild| c@)
}

impl View for ChExpr {
    type V = ChExprV;

    open spec fn view(&self) -> ChExprV {
        match self {
            ChExpr::Action(Action::Await) => ChExprV::Await,
            ChExpr::Instruction(i) => ChExprV::Play(i@),
            ChExpr::Line { content } => ChExprV::Line(children_view(content@)),
        }
    }
}

/// The views of a sequence of chapter expressions.
pub open spec fn exprs_view(v: Seq<ChExpr>) -> Seq<ChExprV> {
    v.map_values(|e: ChExpr| e@)
}

impl View for Chapter {
    type V = ChapterV;

    open spec fn view(&self) -> ChapterV {
        ChapterV { voice: self.voice@, content: exprs_view(self.content@) }
    }
}

} // verus!
