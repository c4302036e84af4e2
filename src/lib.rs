//! Evaluation core of a complex-event-processing engine: indexed values,
//! leaf patterns evaluated per event, and a binary combinator that
//! merge-joins the output queues of two sub-patterns by bucket class; and
//! a recognizer for the textual pattern language.

pub mod idx;
pub mod time;
pub mod merge;
pub mod pattern;
pub mod couple;
pub mod laws;
pub mod grammar;
