//! Dialogue scripts: an XML authoring format compiled to a chapter of events,
//! a compact binary form of that chapter, and a tick-driven automaton that
//! reveals its lines character by character.

pub mod ast;
pub mod codec;
pub mod compile;
pub mod playback;
pub mod xml;
