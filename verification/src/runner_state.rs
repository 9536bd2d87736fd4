//! The dialog state machine's states and the events the runner emits.

use vstd::prelude::*;

use crate::components::{Tag, TagV};

verus! {

/// The runner's state machine state.
#[derive(Clone, Copy, Debug, PartialEq, Eq, Structural)]
pub enum DialogState {
    Start,
    Dialog,
    Waiting,
    End,
}

impl DialogState {
    /// The state's name as written in messages.
    pub open spec fn name_view(&self) -> Seq<char> {
        match self {
            DialogState::Start => "Start"@,
            DialogState::Dialog => "Dialog"@,
            DialogState::Waiting => "Waiting"@,
            DialogState::End => "End"@,
        }
    }

    /// The state's name as written in messages.
    pub fn name(&self) -> (r: &'static str)
        ensures
            r@ == self.name_view(),
    {
        match self {
            DialogState::Start => "Start",
            DialogState::Dialog => "Dialog",
            DialogState::Waiting => "Waiting",
            DialogState::End => "End",
        }
    }
}

/// One visible choice inside an `Options` event: its text, the title of
/// the node it leads to, and whether it was chosen before.
#[derive(Clone, Debug, PartialEq)]
pub struct DialogOption {
    pub text: String,
    pub node: String,
    pub used: bool,
}

/// The unit of output returned to the caller per advancement step.
#[derive(Clone, Debug, PartialEq)]
pub enum DialogEvent {
    Dialog { speaker: String, text: String, tags: Vec<Tag> },
    Options { speaker: String, options: Vec<DialogOption> },
    Waiting,
    End,
}

// ---------------------------------------------------------------------------
// Mathematical views
// ---------------------------------------------------------------------------

pub struct DialogOptionV {
    pub text: Seq<char>,
    pub node: Seq<char>,
    pub used: bool,
}

pub enum EventV {
    Dialog { speaker: Seq<char>, text: Seq<char>, tags: Seq<TagV> },
    Options { speaker: Seq<char>, options: Seq<DialogOptionV> },
    Waiting,
    End,
}

impl View for DialogOption {
    type V = DialogOptionV;

    open spec fn view(&self) -> DialogOptionV {
        DialogOptionV { text: self.text@, node: self.node@, used: self.used }
    }
}

impl View for DialogEvent {
    type V = EventV;

    open spec fn view(&self) -> EventV {
        match self {
            DialogEvent::Dialog { speaker, text, tags } => EventV::Dialog {
                speaker: speaker@,
                text: text@,
                tags: tags@.map_values(|t: Tag| t@),
            },
            DialogEvent::Options { speaker, options } => EventV::Options {
                speaker: speaker@,
                options: options@.map_values(|o: DialogOption| o@),
            },
            DialogEvent::Waiting => EventV::Waiting,
            DialogEvent::End => EventV::End,
        }
    }
}

} // verus!
