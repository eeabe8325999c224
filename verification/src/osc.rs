//! The boundary protocol: markers that a shell writes into its terminal
//! output, and the streaming parser that turns them into events.
//!
//! A marker is the lead-in `ESC ] 7711 ;`, a body, and the lead-out `BEL`. The
//! body is `KIND ; SECRET ; PAYLOAD`. The first two fields hold no `;`; the
//! payload may, and the whole body holds no `BEL`. A marker counts only if its
//! secret is the one the parser was made with.

use vstd::prelude::*;
use vstd::utf8::{decode_utf8, encode_utf8, valid_utf8};
use crate::bytes::{bytes_equal, find_byte, first_index};
use crate::exit_code::{exit_code_of, parse_exit_code};

verus! {

/// The escape byte, with which the lead-in begins.
pub const ESC: u8 = 0x1b;

/// The bell byte: the lead-out.
pub const BEL: u8 = 0x07;

/// ASCII `;`, which parts the fields of a marker body.
pub const SEPARATOR: u8 = 0x3b;

/// The number of bytes in the lead-in.
pub const LEAD_IN_LEN: usize = 7;

/// The longest marker body, in bytes, that a parser made by `OscParser::new`
/// waits for.
pub const DEFAULT_MARKER_LIMIT: usize = 8192;

/// The lead-in: `ESC ] 7 7 1 1 ;`.
pub open spec fn lead_in() -> Seq<u8> {
    seq![0x1bu8, 0x5d, 0x37, 0x37, 0x31, 0x31, 0x3b]
}

/// The kind of a command-start marker: `CMD_START`.
pub open spec fn kind_command_start() -> Seq<u8> {
    seq![0x43u8, 0x4d, 0x44, 0x5f, 0x53, 0x54, 0x41, 0x52, 0x54]
}

/// The kind of a command-end marker: `CMD_END`.
pub open spec fn kind_command_end() -> Seq<u8> {
    seq![0x43u8, 0x4d, 0x44, 0x5f, 0x45, 0x4e, 0x44]
}

/// The text that a payload stands for. Where the payload is UTF-8 this is its
/// decoding; elsewhere it is what lossy decoding makes of it.
pub uninterp spec fn lossy_text(bytes: Seq<u8>) -> Seq<char>;

/// A command-lifecycle event. More kinds of marker may come to have events,
/// so a host that tells the events apart allows for others.
#[derive(Debug, Clone, PartialEq, Eq)]
#[non_exhaustive]
pub enum OscEvent {
    /// The shell is about to run the command line given.
    CommandStart(String),
    /// The last command ended with the exit code given.
    CommandEnd(i32),
}

/// What an event says, as mathematical values.
pub enum EventView {
    CommandStart(Seq<char>),
    CommandEnd(int),
}

impl View for OscEvent {
    type V = EventView;

    open spec fn view(&self) -> EventView {
        match self {
            OscEvent::CommandStart(text) => EventView::CommandStart(text@),
            OscEvent::CommandEnd(code) => EventView::CommandEnd(*code as int),
        }
    }
}

/// The views of a sequence of events, in order.
pub open spec fn event_views(events: Seq<OscEvent>) -> Seq<EventView> {
    events.map_values(|e: OscEvent| e@)
}

/// The three fields of a marker body.
pub struct MarkerFields {
    pub kind: Seq<u8>,
    pub secret: Seq<u8>,
    pub payload: Seq<u8>,
}

/// The body that carries the given fields.
pub open spec fn marker_body(fields: MarkerFields) -> Seq<u8> {
    fields.kind + seq![SEPARATOR] + fields.secret + seq![SEPARATOR] + fields.payload
}

/// A whole marker, as it stands in the stream.
pub open spec fn marker_bytes(fields: MarkerFields) -> Seq<u8> {
    lead_in() + marker_body(fields) + seq![BEL]
}

/// The fields of a body: kind and secret end at the first and the second
/// separator, the payload is the rest. A body with fewer than two separators
/// has no fields.
pub open spec fn split_fields(body: Seq<u8>) -> Option<MarkerFields> {
    let i = first_index(body, SEPARATOR);
    if i >= body.len() {
        None
    } else {
        let rest = body.skip(i + 1);
        let j = first_index(rest, SEPARATOR);
        if j >= rest.len() {
            None
        } else {
            Some(MarkerFields { kind: body.take(i), secret: rest.take(j), payload: rest.skip(j + 1) })
        }
    }
}

/// The event that well-formed fields of the right secret stand for.
pub open spec fn event_of_fields(fields: MarkerFields) -> Option<EventView> {
    if fields.kind == kind_command_start() {
        Some(EventView::CommandStart(lossy_text(fields.payload)))
    } else if fields.kind == kind_command_end() {
        Some(EventView::CommandEnd(exit_code_of(fields.payload)))
    } else {
        None
    }
}

/// The event that a marker body stands for, to a parser with the given
/// secret: none unless the body has three fields and its secret is that of
/// the parser, byte for byte.
pub open spec fn marker_event(secret: Seq<u8>, body: Seq<u8>) -> Option<EventView> {
    match split_fields(body) {
        Some(fields) => if fields.secret == secret {
            event_of_fields(fields)
        } else {
            None
        },
        None => None,
    }
}

/// The view of an event that may be absent.
pub open spec fn optional_view(event: Option<OscEvent>) -> Option<EventView> {
    match event {
        Some(e) => Some(e@),
        None => None,
    }
}

/// `String::from_utf8_lossy` of std, made into an owned string. Claimed of it:
/// the text is a function of the bytes alone, and for bytes that are UTF-8 it
/// is their decoding.
#[verifier::external_body]
fn text_of_bytes(bytes: &[u8]) -> (text: String)
    ensures
        text@ == lossy_text(bytes@),
        valid_utf8(bytes@) ==> text@ == decode_utf8(bytes@),
{
    String::from_utf8_lossy(bytes).into_owned()
}

/// Whether a kind is `CMD_START`.
fn is_command_start(kind: &[u8]) -> (yes: bool)
    ensures
        yes == (kind@ == kind_command_start()),
{
    let yes = kind.len() == 9 && kind[0] == 0x43 && kind[1] == 0x4d && kind[2] == 0x44 && kind[3]
        == 0x5f && kind[4] == 0x53 && kind[5] == 0x54 && kind[6] == 0x41 && kind[7] == 0x52
        && kind[8] == 0x54;
    proof {
        if yes {
            assert(kind@ =~= kind_command_start());
        }
    }
    yes
}

/// Whether a kind is `CMD_END`.
fn is_command_end(kind: &[u8]) -> (yes: bool)
    ensures
        yes == (kind@ == kind_command_end()),
{
    let yes = kind.len() == 7 && kind[0] == 0x43 && kind[1] == 0x4d && kind[2] == 0x44 && kind[3]
        == 0x5f && kind[4] == 0x45 && kind[5] == 0x4e && kind[6] == 0x44;
    proof {
        if yes {
            assert(kind@ =~= kind_command_end());
        }
    }
    yes
}

/// Decodes the body of a complete marker for a parser with the given secret.
pub fn decode_marker(secret: &[u8], body: &[u8]) -> (event: Option<OscEvent>)
    ensures
        optional_view(event) == marker_event(secret@, body@),
{
    let n = body.len();
    let i = find_byte(body, 0, SEPARATOR);
    assert(body@.skip(0) =~= body@);
    if i >= n {
        return None;
    }
    let j = find_byte(body, i + 1, SEPARATOR);
    if j >= n {
        return None;
    }
    let kind = &body[0..i];
    let marker_secret = &body[i + 1..j];
    let payload = &body[j + 1..n];
    proof {
        let rest = body@.skip(i + 1);
        assert(kind@ =~= body@.take(i as int));
        assert(marker_secret@ =~= rest.take(j - (i + 1)));
        assert(payload@ =~= rest.skip(j - (i + 1) + 1));
    }
    if !bytes_equal(marker_secret, secret) {
        return None;
    }
    if is_command_start(kind) {
        Some(OscEvent::CommandStart(text_of_bytes(payload)))
    } else if is_command_end(kind) {
        Some(OscEvent::CommandEnd(parse_exit_code(payload)))
    } else {
        None
    }
}

/// Where a parser stands in the stream.
pub enum Scan {
    /// Outside any marker. The last `matched` bytes were the first `matched`
    /// bytes of the lead-in.
    Ground { matched: nat },
    /// Inside a marker, behind its lead-in. `pending` is the body so far.
    Body { pending: Seq<u8> },
}

/// A parser as a mathematical value.
pub struct ParserView {
    /// The secret that a marker must carry.
    pub secret: Seq<u8>,
    /// The longest body that the parser waits for.
    pub limit: nat,
    pub scan: Scan,
}

/// The state of a parser that has seen nothing yet.
pub open spec fn fresh(secret: Seq<u8>, limit: nat) -> ParserView {
    ParserView { secret, limit, scan: Scan::Ground { matched: 0 } }
}

/// What a parser may hold at most: less than a lead-in while it scans, a body
/// within the limit while it is inside a marker.
pub open spec fn bounded(p: ParserView) -> bool {
    match p.scan {
        Scan::Ground { matched } => matched < lead_in().len(),
        Scan::Body { pending } => pending.len() <= p.limit,
    }
}

/// Scanning for the lead-in. A byte that continues it is counted, and the last
/// one opens a body. Any other byte starts over: with one byte matched if it is
/// `ESC`, with none otherwise.
pub open spec fn ground_after(matched: nat, b: u8) -> Scan {
    if matched < lead_in().len() && b == lead_in()[matched as int] {
        if matched + 1 == lead_in().len() {
            Scan::Body { pending: Seq::empty() }
        } else {
            Scan::Ground { matched: matched + 1 }
        }
    } else if b == ESC {
        Scan::Ground { matched: 1 }
    } else {
        Scan::Ground { matched: 0 }
    }
}

/// Where the parser stands after one more byte. Inside a marker `BEL` ends the
/// body, any other byte joins it while the limit allows, and a byte beyond the
/// limit abandons the marker and is scanned as ordinary output.
pub open spec fn scan_after(limit: nat, scan: Scan, b: u8) -> Scan {
    match scan {
        Scan::Ground { matched } => ground_after(matched, b),
        Scan::Body { pending } => if b == BEL {
            Scan::Ground { matched: 0 }
        } else if pending.len() < limit {
            Scan::Body { pending: pending.push(b) }
        } else {
            ground_after(0, b)
        },
    }
}

/// The event that one more byte completes, if it completes one.
pub open spec fn event_at(p: ParserView, b: u8) -> Option<EventView> {
    match p.scan {
        Scan::Ground { .. } => None,
        Scan::Body { pending } => if b == BEL {
            marker_event(p.secret, pending)
        } else {
            None
        },
    }
}

/// The parser after one more byte.
pub open spec fn step(p: ParserView, b: u8) -> ParserView {
    ParserView { secret: p.secret, limit: p.limit, scan: scan_after(p.limit, p.scan, b) }
}

/// The parser after a stretch of the stream.
pub open spec fn state_after(p: ParserView, bytes: Seq<u8>) -> ParserView
    decreases bytes.len(),
{
    if bytes.len() == 0 {
        p
    } else {
        step(state_after(p, bytes.drop_last()), bytes.last())
    }
}

/// The events that a stretch of the stream completes, in stream order.
pub open spec fn events_of(p: ParserView, bytes: Seq<u8>) -> Seq<EventView>
    decreases bytes.len(),
{
    if bytes.len() == 0 {
        Seq::empty()
    } else {
        let earlier = events_of(p, bytes.drop_last());
        match event_at(state_after(p, bytes.drop_last()), bytes.last()) {
            Some(event) => earlier.push(event),
            None => earlier,
        }
    }
}

/// A streaming parser for one session's markers.
pub struct OscParser {
    secret: Vec<u8>,
    limit: usize,
    in_body: bool,
    matched: usize,
    pending: Vec<u8>,
}

impl View for OscParser {
    type V = ParserView;

    closed spec fn view(&self) -> ParserView {
        ParserView {
            secret: self.secret@,
            limit: self.limit as nat,
            scan: if self.in_body {
                Scan::Body { pending: self.pending@ }
            } else {
                Scan::Ground { matched: self.matched as nat }
            },
        }
    }
}

/// The byte of the lead-in at index `k`.
fn lead_in_byte(k: usize) -> (b: u8)
    requires
        k < LEAD_IN_LEN,
    ensures
        b == lead_in()[k as int],
{
    if k == 0 {
        ESC
    } else if k == 1 {
        0x5d
    } else if k == 2 || k == 3 {
        0x37
    } else if k == 4 || k == 5 {
        0x31
    } else {
        SEPARATOR
    }
}

impl OscParser {
    /// The parser holds no more than `bounded` allows, and nothing stale.
    pub closed spec fn wf(&self) -> bool {
        &&& bounded(self@)
        &&& !self.in_body ==> self.pending@.len() == 0
    }

    /// A parser for the session whose secret is `nonce`, with the default limit.
    pub fn new(nonce: String) -> (parser: OscParser)
        ensures
            parser.wf(),
            bounded(parser@),
            parser@ == fresh(encode_utf8(nonce@), DEFAULT_MARKER_LIMIT as nat),
    {
        OscParser::with_limit(nonce, DEFAULT_MARKER_LIMIT)
    }

    /// A parser for the session whose secret is `nonce`, which gives a marker
    /// up once its body is longer than `limit` bytes.
    pub fn with_limit(nonce: String, limit: usize) -> (parser: OscParser)
        ensures
            parser.wf(),
            bounded(parser@),
            parser@ == fresh(encode_utf8(nonce@), limit as nat),
    {
        let secret = vstd::slice::slice_to_vec(nonce.as_str().as_bytes());
        OscParser { secret, limit, in_body: false, matched: 0, pending: Vec::new() }
    }

    /// Takes one byte of the stream.
    fn advance(&mut self, b: u8) -> (event: Option<OscEvent>)
        requires
            old(self).wf(),
        ensures
            final(self).wf(),
            final(self)@ == step(old(self)@, b),
            optional_view(event) == event_at(old(self)@, b),
    {
        if self.in_body {
            if b == BEL {
                let event = decode_marker(self.secret.as_slice(), self.pending.as_slice());
                self.pending.clear();
                self.in_body = false;
                self.matched = 0;
                event
            } else if self.pending.len() < self.limit {
                self.pending.push(b);
                None
            } else {
                self.pending.clear();
                self.in_body = false;
                self.matched = if b == ESC {
                    1
                } else {
                    0
                };
                None
            }
        } else {
            if b == lead_in_byte(self.matched) {
                if self.matched + 1 == LEAD_IN_LEN {
                    assert(self.pending@ =~= Seq::<u8>::empty());
                    self.matched = 0;
                    self.in_body = true;
                } else {
                    self.matched = self.matched + 1;
                }
            } else if b == ESC {
                self.matched = 1;
            } else {
                self.matched = 0;
            }
            None
        }
    }

    /// Takes the next chunk of the stream and returns the events that it
    /// completes, in the order in which their markers end.
    pub fn feed(&mut self, data: &[u8]) -> (events: Vec<OscEvent>)
        requires
            old(self).wf(),
        ensures
            final(self).wf(),
            bounded(final(self)@),
            final(self)@ == state_after(old(self)@, data@),
            event_views(events@) == events_of(old(self)@, data@),
    {
        let ghost start = self@;
        let mut events: Vec<OscEvent> = Vec::new();
        let mut i: usize = 0;
        assert(event_views(events@) =~= Seq::<EventView>::empty());
        while i < data.len()
            invariant
                i <= data.len(),
                self.wf(),
                self@ == state_after(start, data@.take(i as int)),
                event_views(events@) == events_of(start, data@.take(i as int)),
            decreases data.len() - i,
        {
            let ghost before = events@;
            proof {
                assert(data@.take(i + 1).drop_last() =~= data@.take(i as int));
            }
            match self.advance(data[i]) {
                Some(event) => {
                    events.push(event);
                    assert(event_views(events@) =~= event_views(before).push(event@));
                },
                None => {},
            }
            i = i + 1;
        }
        assert(data@.take(data.len() as int) =~= data@);
        events
    }
}

} // verus!
