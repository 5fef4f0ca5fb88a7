//! The life of the thread that listens to the compositor: a sequence of steps,
//! each of which may fail and so end it.

use vstd::prelude::*;

verus! {

/// A step of the listener thread.
#[derive(Clone, Copy, Debug, PartialEq, Eq, Structural)]
pub enum Stage {
    /// Open the connection to the compositor.
    Connect,
    /// List the globals that the compositor offers.
    InitRegistry,
    /// Create the event loop.
    CreateLoop,
    /// Let the event loop watch the channel of requests.
    InsertRequests,
    /// Let the event loop watch the connection.
    InsertSource,
    /// Wait for events and handle them.
    Dispatch,
}

/// What the listener thread does after a step.
#[derive(Debug)]
pub enum Next {
    /// Perform this step.
    Perform(Stage),
    /// End, and report the message if there is one.
    Stop(Option<String>),
}

impl Stage {
    /// The step that follows a successful one. Dispatching goes on for ever.
    pub open spec fn successor(self) -> Stage {
        match self {
            Stage::Connect => Stage::InitRegistry,
            Stage::InitRegistry => Stage::CreateLoop,
            Stage::CreateLoop => Stage::InsertRequests,
            Stage::InsertRequests => Stage::InsertSource,
            Stage::InsertSource => Stage::Dispatch,
            Stage::Dispatch => Stage::Dispatch,
        }
    }

    /// What the report of a failed step begins with. A failure to dispatch is
    /// not reported.
    pub open spec fn failure(self) -> Option<Seq<char>> {
        match self {
            Stage::Connect => Some("wayland: failed to connect: "@),
            Stage::InitRegistry => Some("wayland: failed to init registry: "@),
            Stage::CreateLoop => Some("wayland: failed to create event loop: "@),
            Stage::InsertRequests => Some(
                "wayland: failed to insert request channel into event loop: "@,
            ),
            Stage::InsertSource => Some(
                "wayland: failed to insert wayland source into event loop: "@,
            ),
            Stage::Dispatch => None,
        }
    }

    fn next(self) -> (r: Stage)
        ensures
            r == self.successor(),
    {
        match self {
            Stage::Connect => Stage::InitRegistry,
            Stage::InitRegistry => Stage::CreateLoop,
            Stage::CreateLoop => Stage::InsertRequests,
            Stage::InsertRequests => Stage::InsertSource,
            Stage::InsertSource => Stage::Dispatch,
            Stage::Dispatch => Stage::Dispatch,
        }
    }

    fn failure_text(self) -> (r: Option<&'static str>)
        ensures
            match r {
                Some(text) => self.failure() == Some(text@),
                None => self.failure() is None,
            },
    {
        match self {
            Stage::Connect => Some("wayland: failed to connect: "),
            Stage::InitRegistry => Some("wayland: failed to init registry: "),
            Stage::CreateLoop => Some("wayland: failed to create event loop: "),
            Stage::InsertRequests => Some(
                "wayland: failed to insert request channel into event loop: ",
            ),
            Stage::InsertSource => Some(
                "wayland: failed to insert wayland source into event loop: ",
            ),
            Stage::Dispatch => None,
        }
    }
}

/// What follows the step `stage`, which succeeded or failed for the reason
/// given.
pub fn after_stage(stage: Stage, outcome: Result<(), String>) -> (r: Next)
    ensures
        match outcome {
            Ok(_) => r == Next::Perform(stage.successor()),
            Err(why) => match stage.failure() {
                Some(text) => r matches Next::Stop(Some(message)) && message@ == text + why@,
                None => r == Next::Stop(None),
            },
        },
{
    match outcome {
        Ok(_) => Next::Perform(stage.next()),
        Err(why) => match stage.failure_text() {
            Some(text) => {
                let mut message = text.to_owned();
                message.append(why.as_str());
                Next::Stop(Some(message))
            },
            None => Next::Stop(None),
        },
    }
}

} // verus!
