//! What the session host does with the events of a session: which record each
//! event asks for, and which command is running.

use vstd::prelude::*;
use crate::osc::{EventView, OscEvent};

verus! {

/// The kind under which the host records what the user typed.
pub const EVENT_USER_INPUT: &'static str = "user_in";

/// The kind under which the host records what the terminal printed.
pub const EVENT_TERMINAL_OUTPUT: &'static str = "pty_out";

/// What the host asks of its store for one event.
pub enum StoreRequest {
    /// Open a command record with the command line given.
    CreateCommand(String),
    /// Close the latest open command record with the exit code given.
    EndCommand(i32),
}

/// A store request as mathematical values.
pub enum StoreRequestView {
    CreateCommand(Seq<char>),
    EndCommand(int),
}

impl View for StoreRequest {
    type V = StoreRequestView;

    open spec fn view(&self) -> StoreRequestView {
        match self {
            StoreRequest::CreateCommand(text) => StoreRequestView::CreateCommand(text@),
            StoreRequest::EndCommand(code) => StoreRequestView::EndCommand(*code as int),
        }
    }
}

/// The request that an event stands for.
pub open spec fn request_of(event: EventView) -> StoreRequestView {
    match event {
        EventView::CommandStart(text) => StoreRequestView::CreateCommand(text),
        EventView::CommandEnd(code) => StoreRequestView::EndCommand(code),
    }
}

/// The request that the host makes for an event: a command start opens a
/// record, a command end closes one.
pub fn request_for(event: OscEvent) -> (request: StoreRequest)
    ensures
        request@ == request_of(event@),
{
    match event {
        OscEvent::CommandStart(text) => StoreRequest::CreateCommand(text),
        OscEvent::CommandEnd(code) => StoreRequest::EndCommand(code),
    }
}

/// The command that is running in a session, by the id of its record.
pub struct CommandTracker {
    current: Option<String>,
}

impl View for CommandTracker {
    type V = Option<Seq<char>>;

    closed spec fn view(&self) -> Option<Seq<char>> {
        match self.current {
            Some(id) => Some(id@),
            None => None,
        }
    }
}

impl CommandTracker {
    /// A tracker for a session in which no command is running.
    pub fn new() -> (tracker: CommandTracker)
        ensures
            tracker@ is None,
    {
        CommandTracker { current: None }
    }

    /// The store answered a `CreateCommand` request: with the id of the new
    /// record, which is then the running command, or with nothing because it
    /// failed, which changes nothing.
    pub fn command_created(&mut self, created: Option<String>)
        ensures
            final(self)@ == match created {
                Some(id) => Some(id@),
                None => old(self)@,
            },
    {
        match created {
            Some(id) => {
                self.current = Some(id);
            },
            None => {},
        }
    }

    /// An `EndCommand` request was made: whether or not the store obeyed, no
    /// command is running any more.
    pub fn command_ended(&mut self)
        ensures
            final(self)@ is None,
    {
        self.current = None;
    }

    /// The id of the running command's record, if a command is running.
    pub fn current(&self) -> (id: Option<&String>)
        ensures
            match id {
                Some(text) => self@ == Some(text@),
                None => self@ is None,
            },
    {
        self.current.as_ref()
    }
}

} // verus!
