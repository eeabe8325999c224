//! The records that the host keeps of sessions, commands, raw events and
//! interactions, and the ids and timestamps that they carry.
//!
//! The store itself belongs to the host program. This module makes the
//! records that go into it.

use vstd::prelude::*;

verus! {

/// A moment in time: whole seconds since 1970-01-01 00:00:00 UTC, and the
/// nanoseconds since the last whole second.
#[derive(Debug, Clone, Copy, PartialEq, Eq, Structural)]
pub struct Timestamp {
    pub secs: i64,
    pub nanos: u32,
}

/// One more than the last second that the clock can show.
pub const CLOCK_SECS_END: i64 = 185_542_587_187_200;

/// The RFC 3339 text of a moment in UTC, where the calendar reaches it.
pub uninterp spec fn rfc3339_text(secs: int, nanos: int) -> Option<Seq<char>>;

/// A lower-case hexadecimal digit.
pub open spec fn is_lower_hex(c: char) -> bool {
    ('0' <= c <= '9') || ('a' <= c <= 'f')
}

/// The text of a random UUID: 32 lower-case hexadecimal digits in groups of 8,
/// 4, 4, 4 and 12 with hyphens between them, the third group beginning with
/// the version `4`, the fourth with the variant, one of `8`, `9`, `a`, `b`.
pub open spec fn is_random_uuid(text: Seq<char>) -> bool {
    &&& text.len() == 36
    &&& forall|i: int|
        0 <= i < 36 ==> if i == 8 || i == 13 || i == 18 || i == 23 {
            #[trigger] text[i] == '-'
        } else {
            is_lower_hex(text[i])
        }
    &&& text[14] == '4'
    &&& (text[19] == '8' || text[19] == '9' || text[19] == 'a' || text[19] == 'b')
}

/// `Uuid::new_v4` of uuid, written by `to_string`. Claimed of it: the text has
/// the shape of a random UUID. `new_v4` sets the version and the variant bits
/// of a random number, and `to_string` writes the hyphenated lower-case form.
/// It panics if the operating system gives no random bytes.
#[verifier::external_body]
fn new_id() -> (id: String)
    ensures
        is_random_uuid(id@),
{
    uuid::Uuid::new_v4().to_string()
}

/// `Utc::now` of chrono, taken apart by `timestamp` and
/// `timestamp_subsec_nanos`. Claimed of it: the moment is not before 1970, its
/// day is one that 32 bits can count, the nanoseconds are less than a second,
/// and the moment has a text. `Utc::now` makes its value from the time since
/// 1970 by `DateTime::from_timestamp`, which refuses every other moment. It
/// panics if the system clock stands before 1970.
#[verifier::external_body]
fn clock_now() -> (now: Timestamp)
    ensures
        0 <= now.secs < CLOCK_SECS_END,
        now.nanos < 1_000_000_000,
        rfc3339_text(now.secs as int, now.nanos as int) is Some,
{
    let now = chrono::Utc::now();
    Timestamp { secs: now.timestamp(), nanos: now.timestamp_subsec_nanos() }
}

/// `DateTime::from_timestamp` of chrono, written by `to_rfc3339`. Claimed of
/// it: whether there is a text, and which, is a function of the two numbers
/// alone.
#[verifier::external_body]
fn format_rfc3339(secs: i64, nanos: u32) -> (text: Option<String>)
    ensures
        match text {
            Some(t) => rfc3339_text(secs as int, nanos as int) == Some(t@),
            None => rfc3339_text(secs as int, nanos as int) is None,
        },
{
    match chrono::DateTime::from_timestamp(secs, nanos) {
        Some(moment) => Some(moment.to_rfc3339()),
        None => None,
    }
}

impl Timestamp {
    /// A moment that the clock can show.
    pub open spec fn on_clock(&self) -> bool {
        &&& 0 <= self.secs < CLOCK_SECS_END
        &&& self.nanos < 1_000_000_000
        &&& rfc3339_text(self.secs as int, self.nanos as int) is Some
    }

    /// The present moment.
    pub fn now() -> (now: Timestamp)
        ensures
            now.on_clock(),
    {
        clock_now()
    }

    /// Whole milliseconds since 1970-01-01 00:00:00 UTC, if 64 bits can count
    /// them.
    pub fn millis(&self) -> (ms: Option<i64>)
        ensures
            match ms {
                Some(count) => count == self.secs * 1000 + self.nanos / 1_000_000,
                None => !(i64::MIN <= self.secs * 1000 + self.nanos / 1_000_000 <= i64::MAX),
            },
    {
        let count: i128 = (self.secs as i128) * 1000 + (self.nanos / 1_000_000) as i128;
        if count < i64::MIN as i128 || count > i64::MAX as i128 {
            None
        } else {
            Some(count as i64)
        }
    }

    /// The moment `hours` hours before this one (after it, where `hours` is
    /// negative), if its seconds can be counted in 64 bits.
    pub fn hours_before(&self, hours: i64) -> (earlier: Option<Timestamp>)
        ensures
            match earlier {
                Some(moment) => moment.secs == self.secs - hours * 3600 && moment.nanos
                    == self.nanos,
                None => !(i64::MIN <= self.secs - hours * 3600 <= i64::MAX),
            },
    {
        let secs: i128 = self.secs as i128 - (hours as i128) * 3600;
        if secs < i64::MIN as i128 || secs > i64::MAX as i128 {
            None
        } else {
            Some(Timestamp { secs: secs as i64, nanos: self.nanos })
        }
    }

    /// This moment as RFC 3339 text, if the calendar reaches it.
    pub fn to_rfc3339(&self) -> (text: Option<String>)
        ensures
            match text {
                Some(t) => rfc3339_text(self.secs as int, self.nanos as int) == Some(t@),
                None => rfc3339_text(self.secs as int, self.nanos as int) is None,
            },
    {
        format_rfc3339(self.secs, self.nanos)
    }
}

/// The whole milliseconds from 1970-01-01 00:00:00 UTC to a moment: a
/// thousand for each second, and one for each million nanoseconds.
pub open spec fn millis_of(moment: Timestamp) -> int {
    moment.secs * 1000 + moment.nanos / 1_000_000
}

/// The milliseconds of some moment that the clock can show.
pub open spec fn is_clock_millis(ms: int) -> bool {
    exists|moment: Timestamp| moment.on_clock() && #[trigger] millis_of(moment) == ms
}

/// Whole milliseconds from 1970-01-01 00:00:00 UTC to the present moment:
/// what `Timestamp::millis` counts for the moment that the clock shows.
pub fn now_millis() -> (ms: i64)
    ensures
        is_clock_millis(ms as int),
        0 <= ms < CLOCK_SECS_END * 1000,
{
    let now = Timestamp::now();
    match now.millis() {
        Some(ms) => {
            assert(millis_of(now) == ms);
            ms
        },
        None => {
            proof {
                assert(false);
            }
            0
        },
    }
}

/// The text of the moment `hours` hours before `now`, which parts the
/// interactions that count from the older ones. There is none where that
/// moment lies beyond the calendar.
pub open spec fn cutoff_of(now: Timestamp, hours: int) -> Option<Seq<char>> {
    if i64::MIN <= now.secs - hours * 3600 <= i64::MAX {
        rfc3339_text(now.secs - hours * 3600, now.nanos as int)
    } else {
        None
    }
}

/// The cutoff for a look back over the last `hours` hours from `now`, given
/// that no moment that 64 bits cannot count has a text.
pub fn cutoff(now: Timestamp, hours: i64) -> (text: Option<String>)
    ensures
        match text {
            Some(t) => cutoff_of(now, hours as int) == Some(t@),
            None => cutoff_of(now, hours as int) is None,
        },
{
    match now.hours_before(hours) {
        Some(moment) => moment.to_rfc3339(),
        None => None,
    }
}

/// A terminal session.
#[derive(Debug, Clone)]
pub struct Session {
    pub id: String,
    pub started_at: String,
    pub ended_at: Option<String>,
    pub cwd: String,
    pub shell: String,
}

/// A stretch of raw input or output, or a marker, as it was logged: `kind` is
/// `pty_out`, `user_in` or `marker`.
#[derive(Debug, Clone)]
pub struct Event {
    pub id: String,
    pub session_id: String,
    pub ts: String,
    pub kind: String,
    pub data: String,
}

/// A command that ran in a session. Times are in milliseconds since 1970.
#[derive(Debug, Clone)]
pub struct Command {
    pub id: String,
    pub session_id: String,
    pub input: Option<String>,
    pub exit_code: Option<i32>,
    pub started_at: i64,
    pub ended_at: Option<i64>,
}

/// A session with the number of its commands.
#[derive(Debug, Clone)]
pub struct SessionSummary {
    pub id: String,
    pub started_at: String,
    pub ended_at: Option<String>,
    pub cwd: String,
    pub shell: String,
    pub command_count: i64,
    pub commands: Vec<Command>,
}

/// Something that the user did, and how it went: `outcome` is `success`,
/// `friction`, `abandoned` or `error`.
#[derive(Debug, Clone)]
pub struct Interaction {
    pub id: String,
    pub session_id: String,
    pub timestamp: String,
    pub interaction_type: String,
    pub context: String,
    pub target: Option<String>,
    pub outcome: String,
    pub metadata: Option<String>,
}

/// The text behind an optional string.
pub open spec fn optional_text(text: Option<String>) -> Option<Seq<char>> {
    match text {
        Some(t) => Some(t@),
        None => None,
    }
}

/// The text behind an optional string slice.
pub open spec fn optional_str(text: Option<&str>) -> Option<Seq<char>> {
    match text {
        Some(t) => Some(t@),
        None => None,
    }
}

/// An owned copy of an optional string slice.
fn owned(text: Option<&str>) -> (copy: Option<String>)
    ensures
        optional_text(copy) == optional_str(text),
{
    match text {
        Some(t) => Some(t.to_owned()),
        None => None,
    }
}

/// The text of some moment that the clock can show.
pub open spec fn is_clock_text(text: Seq<char>) -> bool {
    exists|now: Timestamp| now.on_clock() && #[trigger] rfc3339_text(
        now.secs as int,
        now.nanos as int,
    ) == Some(text)
}

/// The present moment as RFC 3339 text.
fn text_now() -> (text: String)
    ensures
        is_clock_text(text@),
{
    let now = Timestamp::now();
    match now.to_rfc3339() {
        Some(text) => text,
        None => {
            proof {
                assert(false);
            }
            String::new()
        },
    }
}

impl Session {
    /// The record of a session that has the id given and began at the time
    /// given, and has not ended.
    pub fn started(id: String, started_at: String, cwd: &str, shell: &str) -> (session: Session)
        ensures
            session.id == id,
            session.started_at == started_at,
            session.ended_at is None,
            session.cwd@ == cwd@,
            session.shell@ == shell@,
    {
        Session { id, started_at, ended_at: None, cwd: cwd.to_owned(), shell: shell.to_owned() }
    }

    /// The record of a session that begins now, under a fresh id.
    pub fn begin(cwd: &str, shell: &str) -> (session: Session)
        ensures
            is_random_uuid(session.id@),
            is_clock_text(session.started_at@),
            session.ended_at is None,
            session.cwd@ == cwd@,
            session.shell@ == shell@,
    {
        Session::started(new_id(), text_now(), cwd, shell)
    }
}

impl Event {
    /// The record, under the id given, of something logged at the time given.
    pub fn logged(id: String, ts: String, session_id: &str, kind: &str, data: &str) -> (event:
        Event)
        ensures
            event.id == id,
            event.ts == ts,
            event.session_id@ == session_id@,
            event.kind@ == kind@,
            event.data@ == data@,
    {
        Event {
            id,
            session_id: session_id.to_owned(),
            ts,
            kind: kind.to_owned(),
            data: data.to_owned(),
        }
    }

    /// The record of something logged now in the session given, under a fresh
    /// id.
    pub fn record(session_id: &str, kind: &str, data: &str) -> (event: Event)
        ensures
            is_random_uuid(event.id@),
            is_clock_text(event.ts@),
            event.session_id@ == session_id@,
            event.kind@ == kind@,
            event.data@ == data@,
    {
        Event::logged(new_id(), text_now(), session_id, kind, data)
    }
}

impl Command {
    /// The record of a command that began at the time given and has not
    /// ended.
    pub fn started(id: String, session_id: &str, input: &str, started_at: i64) -> (command:
        Command)
        ensures
            command.id == id,
            command.session_id@ == session_id@,
            optional_text(command.input) == Some(input@),
            command.exit_code is None,
            command.started_at == started_at,
            command.ended_at is None,
    {
        Command {
            id,
            session_id: session_id.to_owned(),
            input: Some(input.to_owned()),
            exit_code: None,
            started_at,
            ended_at: None,
        }
    }

    /// The record of a command that begins now, under a fresh id.
    pub fn begin(session_id: &str, input: &str) -> (command: Command)
        ensures
            is_random_uuid(command.id@),
            command.session_id@ == session_id@,
            optional_text(command.input) == Some(input@),
            command.exit_code is None,
            0 <= command.started_at < CLOCK_SECS_END * 1000,
            command.ended_at is None,
    {
        Command::started(new_id(), session_id, input, now_millis())
    }
}

impl SessionSummary {
    /// The summary of a session with `command_count` commands, none of them
    /// listed.
    pub fn counted(session: Session, command_count: i64) -> (summary: SessionSummary)
        ensures
            summary.id == session.id,
            summary.started_at == session.started_at,
            summary.ended_at == session.ended_at,
            summary.cwd == session.cwd,
            summary.shell == session.shell,
            summary.command_count == command_count,
            summary.commands@.len() == 0,
    {
        SessionSummary {
            id: session.id,
            started_at: session.started_at,
            ended_at: session.ended_at,
            cwd: session.cwd,
            shell: session.shell,
            command_count,
            commands: Vec::new(),
        }
    }
}

impl Interaction {
    /// The record, under the id given, of an interaction at the time given.
    pub fn noted(
        id: String,
        timestamp: String,
        session_id: &str,
        interaction_type: &str,
        context: &str,
        target: Option<&str>,
        outcome: &str,
        metadata: Option<&str>,
    ) -> (interaction: Interaction)
        ensures
            interaction.id == id,
            interaction.timestamp == timestamp,
            interaction.session_id@ == session_id@,
            interaction.interaction_type@ == interaction_type@,
            interaction.context@ == context@,
            optional_text(interaction.target) == optional_str(target),
            interaction.outcome@ == outcome@,
            optional_text(interaction.metadata) == optional_str(metadata),
    {
        Interaction {
            id,
            session_id: session_id.to_owned(),
            timestamp,
            interaction_type: interaction_type.to_owned(),
            context: context.to_owned(),
            target: owned(target),
            outcome: outcome.to_owned(),
            metadata: owned(metadata),
        }
    }

    /// The record of an interaction tracked now, under a fresh id.
    pub fn track(
        session_id: &str,
        interaction_type: &str,
        context: &str,
        target: Option<&str>,
        outcome: &str,
        metadata: Option<&str>,
    ) -> (interaction: Interaction)
        ensures
            is_random_uuid(interaction.id@),
            is_clock_text(interaction.timestamp@),
            interaction.session_id@ == session_id@,
            interaction.interaction_type@ == interaction_type@,
            interaction.context@ == context@,
            optional_text(interaction.target) == optional_str(target),
            interaction.outcome@ == outcome@,
            optional_text(interaction.metadata) == optional_str(metadata),
    {
        Interaction::noted(
            new_id(),
            text_now(),
            session_id,
            interaction_type,
            context,
            target,
            outcome,
            metadata,
        )
    }
}

} // verus!
