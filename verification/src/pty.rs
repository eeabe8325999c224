//! The rules of a pseudo-terminal session: which shell it runs, the geometry
//! it asks for, and what its reader worker does with each read.
//!
//! The session itself, with its threads, queues and file descriptors, belongs
//! to the host program. It asks this module at every step.

use vstd::prelude::*;
use crate::osc::{event_views, events_of, state_after, OscEvent, OscParser};

verus! {

/// The size of the reader worker's buffer, in bytes.
pub const READ_BUFFER_LEN: usize = 8192;

/// The geometry of a terminal, in cells and in pixels.
#[derive(Debug, Clone, Copy, PartialEq, Eq, Structural)]
pub struct TerminalSize {
    pub rows: u16,
    pub cols: u16,
    pub pixel_width: u16,
    pub pixel_height: u16,
}

impl TerminalSize {
    /// A geometry given in cells alone. The pixel size is left at zero, which
    /// tells the pseudo-terminal that it is unknown.
    pub fn cells(cols: u16, rows: u16) -> (size: TerminalSize)
        ensures
            size == (TerminalSize { rows, cols, pixel_width: 0, pixel_height: 0 }),
    {
        TerminalSize { rows, cols, pixel_width: 0, pixel_height: 0 }
    }
}

/// The shell that a session runs: `/bin/zsh` on macOS; elsewhere the shell
/// that the environment names, or `/bin/bash` if it names none.
pub fn choose_shell(on_macos: bool, configured: Option<String>) -> (shell: String)
    ensures
        shell@ == if on_macos {
            "/bin/zsh"@
        } else {
            match configured {
                Some(named) => named@,
                None => "/bin/bash"@,
            }
        },
{
    if on_macos {
        "/bin/zsh".to_owned()
    } else {
        match configured {
            Some(named) => named,
            None => "/bin/bash".to_owned(),
        }
    }
}

/// What the reader worker does after a read.
pub enum ReaderAction {
    /// The stream has ended or failed: the worker ends, and no output will
    /// follow.
    Stop,
    /// Send the events to the event queue, then the output to the output
    /// queue, and read again.
    Deliver { events: Vec<OscEvent>, output: Vec<u8> },
}

/// Decides what the reader worker does after a read. `read` is the number of
/// bytes that the read put at the front of `buffer`, or `None` if it failed.
///
/// A read of no bytes is the end of the stream. Any other read is fed to the
/// parser, and handed on byte for byte: the parser looks at the output and
/// never changes it.
pub fn reader_step(parser: &mut OscParser, buffer: &[u8], read: Option<usize>) -> (action:
    ReaderAction)
    requires
        old(parser).wf(),
        read matches Some(n) ==> n <= buffer@.len(),
    ensures
        final(parser).wf(),
        match read {
            Some(n) => if n == 0 {
                &&& action is Stop
                &&& *final(parser) == *old(parser)
            } else {
                &&& action matches ReaderAction::Deliver { events, output }
                &&& output@ == buffer@.take(n as int)
                &&& event_views(events@) == events_of(old(parser)@, buffer@.take(n as int))
                &&& final(parser)@ == state_after(old(parser)@, buffer@.take(n as int))
            },
            None => {
                &&& action is Stop
                &&& *final(parser) == *old(parser)
            },
        },
{
    match read {
        Some(n) => {
            if n == 0 {
                ReaderAction::Stop
            } else {
                let data = &buffer[0..n];
                assert(data@ =~= buffer@.take(n as int));
                let output = vstd::slice::slice_to_vec(data);
                let events = parser.feed(data);
                ReaderAction::Deliver { events, output }
            }
        },
        None => ReaderAction::Stop,
    }
}

/// What can go wrong in the life of a session, by the step that failed.
#[derive(Debug, Clone, Copy, PartialEq, Eq, Structural)]
pub enum SessionError {
    /// No pseudo-terminal could be opened.
    OpenPty,
    /// The environment names no home directory.
    HomeNotSet,
    /// The start-up directory could not be made.
    CreateZdotdir,
    /// The template of the start-up file could not be read.
    ReadTemplate,
    /// The start-up file could not be written.
    WriteZshrc,
    /// The shell could not be started.
    SpawnShell,
    /// The pseudo-terminal gave no handle to read from.
    CloneReader,
    /// The pseudo-terminal gave no handle to write to.
    TakeWriter,
    /// Input was sent after the writer worker had ended.
    SendInput,
    /// The pseudo-terminal refused the new geometry.
    Resize,
    /// The start-up directory could not be removed.
    Cleanup,
}

/// The kinds of failure, by what they mean to the caller.
#[derive(Debug, Clone, Copy, PartialEq, Eq, Structural)]
pub enum ErrorClass {
    /// The shell integration could not be set up: the session is not created.
    Provisioning,
    /// Pseudo-terminal or shell could not be had: the session is not created.
    Spawn,
    /// An operation on a running session failed: the session stays.
    Operation,
    /// Teardown could not remove the start-up directory: logged, and never
    /// handed to a caller.
    Cleanup,
}

impl SessionError {
    /// The class of each failure.
    pub open spec fn class_of(self) -> ErrorClass {
        match self {
            SessionError::HomeNotSet
            | SessionError::CreateZdotdir
            | SessionError::ReadTemplate
            | SessionError::WriteZshrc => ErrorClass::Provisioning,
            SessionError::OpenPty
            | SessionError::SpawnShell
            | SessionError::CloneReader
            | SessionError::TakeWriter => ErrorClass::Spawn,
            SessionError::SendInput | SessionError::Resize => ErrorClass::Operation,
            SessionError::Cleanup => ErrorClass::Cleanup,
        }
    }

    /// The text of each failure.
    pub open spec fn message_of(self) -> Seq<char> {
        match self {
            SessionError::OpenPty => "Failed to create PTY"@,
            SessionError::HomeNotSet => "HOME not set"@,
            SessionError::CreateZdotdir => "Failed to create ZDOTDIR"@,
            SessionError::ReadTemplate => "Failed to read .zshrc.template"@,
            SessionError::WriteZshrc => "Failed to write .zshrc"@,
            SessionError::SpawnShell => "Failed to spawn shell"@,
            SessionError::CloneReader => "Failed to clone PTY reader"@,
            SessionError::TakeWriter => "Failed to take PTY writer"@,
            SessionError::SendInput => "Failed to send input to PTY"@,
            SessionError::Resize => "Failed to resize PTY"@,
            SessionError::Cleanup => "Failed to cleanup ZDOTDIR"@,
        }
    }

    /// Whether the session's start-up directory stands complete when this
    /// failure ends the creation of a session: then it is to be removed before
    /// the failure is reported.
    pub open spec fn leaves_artifact(self) -> bool {
        self == SessionError::SpawnShell || self == SessionError::CloneReader || self
            == SessionError::TakeWriter
    }

    pub fn class(&self) -> (class: ErrorClass)
        ensures
            class == self.class_of(),
    {
        match self {
            SessionError::HomeNotSet
            | SessionError::CreateZdotdir
            | SessionError::ReadTemplate
            | SessionError::WriteZshrc => ErrorClass::Provisioning,
            SessionError::OpenPty
            | SessionError::SpawnShell
            | SessionError::CloneReader
            | SessionError::TakeWriter => ErrorClass::Spawn,
            SessionError::SendInput | SessionError::Resize => ErrorClass::Operation,
            SessionError::Cleanup => ErrorClass::Cleanup,
        }
    }

    /// Whether this failure keeps a session from being created.
    pub fn prevents_creation(&self) -> (fatal: bool)
        ensures
            fatal == (self.class_of() == ErrorClass::Provisioning || self.class_of()
                == ErrorClass::Spawn),
    {
        match self.class() {
            ErrorClass::Provisioning | ErrorClass::Spawn => true,
            ErrorClass::Operation | ErrorClass::Cleanup => false,
        }
    }

    /// Whether the start-up directory must be removed before this failure is
    /// reported.
    pub fn must_remove_artifact(&self) -> (remove: bool)
        ensures
            remove == self.leaves_artifact(),
    {
        match self {
            SessionError::SpawnShell | SessionError::CloneReader | SessionError::TakeWriter => true,
            _ => false,
        }
    }

    /// The text under which this failure is reported.
    pub fn message(&self) -> (text: &'static str)
        ensures
            text@ == self.message_of(),
    {
        match self {
            SessionError::OpenPty => "Failed to create PTY",
            SessionError::HomeNotSet => "HOME not set",
            SessionError::CreateZdotdir => "Failed to create ZDOTDIR",
            SessionError::ReadTemplate => "Failed to read .zshrc.template",
            SessionError::WriteZshrc => "Failed to write .zshrc",
            SessionError::SpawnShell => "Failed to spawn shell",
            SessionError::CloneReader => "Failed to clone PTY reader",
            SessionError::TakeWriter => "Failed to take PTY writer",
            SessionError::SendInput => "Failed to send input to PTY",
            SessionError::Resize => "Failed to resize PTY",
            SessionError::Cleanup => "Failed to cleanup ZDOTDIR",
        }
    }
}

} // verus!
