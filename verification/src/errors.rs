//! The error taxonomy: load-time errors of the parser and resolution pass,
//! and runtime errors of the dialog runner.

use vstd::prelude::*;

use crate::runner_state::DialogState;

verus! {

/// Why a script could not be loaded.
#[derive(Clone, Debug, PartialEq)]
pub enum YarnSpinnerDialogLoaderError {
    /// The source text could not be read at all; produced by callers that
    /// do the reading, never by the parser itself.
    Io { message: String },
    /// The grammar was violated; `line` is the zero-based index of the
    /// offending physical line, or the line count when the script ended
    /// inside a section.
    ParsingError { line: usize },
    /// A jump or option targets `title`, but no section carries it.
    UnknownNode { title: String },
    /// Two sections carry the same `title`.
    DuplicateNodeTitle { title: String },
}

impl YarnSpinnerDialogLoaderError {
    /// A human-readable description of the error.
    pub fn message(&self) -> (r: String)
        ensures
            r@ == match self {
                YarnSpinnerDialogLoaderError::Io { message } => "could not read the script: "@
                    + message@,
                YarnSpinnerDialogLoaderError::ParsingError { .. } =>
                    "the script breaks the grammar"@,
                YarnSpinnerDialogLoaderError::UnknownNode { title } =>
                    "unknown node in jump target: "@ + title@,
                YarnSpinnerDialogLoaderError::DuplicateNodeTitle { title } =>
                    "duplicate node title: "@ + title@,
            },
    {
        match self {
            YarnSpinnerDialogLoaderError::Io { message } => {
                let mut r = String::new();
                r.append("could not read the script: ");
                r.append(message.as_str());
                r
            },
            YarnSpinnerDialogLoaderError::ParsingError { line: _ } => {
                let mut r = String::new();
                r.append("the script breaks the grammar");
                r
            },
            YarnSpinnerDialogLoaderError::UnknownNode { title } => {
                let mut r = String::new();
                r.append("unknown node in jump target: ");
                r.append(title.as_str());
                r
            },
            YarnSpinnerDialogLoaderError::DuplicateNodeTitle { title } => {
                let mut r = String::new();
                r.append("duplicate node title: ");
                r.append(title.as_str());
                r
            },
        }
    }
}

/// Why a runner operation could not be performed.
#[derive(Clone, Debug, PartialEq)]
pub enum DialogRunnerError {
    /// No node carries the requested starting title.
    StartingNodeNotFound { node_name: String },
    /// The decided title is not among the current option possibilities.
    UnknownNodeChosen { node_name: String },
    /// The operation is invalid in the current state machine state.
    WrongState { current: DialogState, expected: DialogState },
    /// A command line names a handler the registry does not know; fatal
    /// for this dialog instance.
    UnregisteredCommand { func_name: String },
    /// Control-flow lines cycled without ever reaching a dialog line, an
    /// option line or a node end; the script can never produce an event
    /// from here.
    EndlessLoop,
}

impl DialogRunnerError {
    /// A human-readable description of the error.
    pub fn message(&self) -> (r: String)
        ensures
            r@ == match self {
                DialogRunnerError::StartingNodeNotFound { node_name } =>
                    "selected starting node does not exist in this dialog: "@ + node_name@,
                DialogRunnerError::UnknownNodeChosen { node_name } => "unknown node chosen: "@
                    + node_name@,
                DialogRunnerError::WrongState { current, expected } => "current state: "@
                    + current.name_view() + ", expected to perform this operation: "@
                    + expected.name_view(),
                DialogRunnerError::UnregisteredCommand { func_name } =>
                    "no handler registered for command: "@ + func_name@,
                DialogRunnerError::EndlessLoop =>
                    "the script cycles through control lines without an event"@,
            },
    {
        match self {
            DialogRunnerError::StartingNodeNotFound { node_name } => {
                let mut r = String::new();
                r.append("selected starting node does not exist in this dialog: ");
                r.append(node_name.as_str());
                r
            },
            DialogRunnerError::UnknownNodeChosen { node_name } => {
                let mut r = String::new();
                r.append("unknown node chosen: ");
                r.append(node_name.as_str());
                r
            },
            DialogRunnerError::WrongState { current, expected } => {
                let mut r = String::new();
                r.append("current state: ");
                r.append(current.name());
                r.append(", expected to perform this operation: ");
                r.append(expected.name());
                r
            },
            DialogRunnerError::UnregisteredCommand { func_name } => {
                let mut r = String::new();
                r.append("no handler registered for command: ");
                r.append(func_name.as_str());
                r
            },
            DialogRunnerError::EndlessLoop => {
                let mut r = String::new();
                r.append("the script cycles through control lines without an event");
                r
            },
        }
    }
}

} // verus!
