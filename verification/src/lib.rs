//! A dialog-scripting engine: a parser that turns a text script into a graph
//! of named nodes, a resolution pass that checks every jump target, and a
//! runner that walks the graph one line at a time, producing dialog events,
//! honoring conditional branching, boolean variable state, jumps between
//! nodes, and external commands recorded through a registry.

pub mod components;
pub mod context;
pub mod errors;
pub mod parsing;
pub mod registry;
pub mod resolve;
pub mod runner;
pub mod runner_state;
pub mod textscan;
