//! What holds of the boundary protocol and its parser, for every stream.

use vstd::prelude::*;
use crate::bytes::{first_index, free_of, lemma_first_index, lemma_first_index_is};
use crate::exit_code::exit_code_of;
use crate::osc::{
    bounded, event_at, event_of_fields, events_of, kind_command_end, kind_command_start, lead_in,
    lossy_text, marker_body, marker_bytes, marker_event, split_fields, state_after, step,
    EventView, MarkerFields, ParserView, Scan, BEL, ESC, SEPARATOR,
};

verus! {

/// The parser `p` put back to scanning, with nothing matched.
pub open spec fn at_ground(p: ParserView) -> ParserView {
    ParserView { secret: p.secret, limit: p.limit, scan: Scan::Ground { matched: 0 } }
}

/// The parser `p` inside a marker whose body so far is `pending`.
pub open spec fn in_body(p: ParserView, pending: Seq<u8>) -> ParserView {
    ParserView { secret: p.secret, limit: p.limit, scan: Scan::Body { pending } }
}

/// No or one event, as a sequence.
pub open spec fn as_events(event: Option<EventView>) -> Seq<EventView> {
    match event {
        Some(e) => seq![e],
        None => Seq::empty(),
    }
}

/// Feeding a stream in two parts leaves the parser where feeding it at once
/// does, and yields the events of the first part followed by those of the
/// second.
pub proof fn lemma_feed_concat(p: ParserView, a: Seq<u8>, b: Seq<u8>)
    ensures
        state_after(p, a + b) == state_after(state_after(p, a), b),
        events_of(p, a + b) == events_of(p, a) + events_of(state_after(p, a), b),
    decreases b.len(),
{
    if b.len() == 0 {
        assert(a + b =~= a);
        assert(events_of(p, a) + Seq::<EventView>::empty() =~= events_of(p, a));
    } else {
        let ab = a + b;
        assert(ab.drop_last() =~= a + b.drop_last());
        assert(ab.last() == b.last());
        lemma_feed_concat(p, a, b.drop_last());
        assert(events_of(p, ab) =~= events_of(p, a) + events_of(state_after(p, a), b));
    }
}

/// A stream of one byte is one step.
pub proof fn lemma_single_byte(p: ParserView, b: u8)
    ensures
        state_after(p, seq![b]) == step(p, b),
        events_of(p, seq![b]) == as_events(event_at(p, b)),
{
    let one = seq![b];
    assert(one.drop_last() =~= Seq::<u8>::empty());
    assert(one.last() == b);
    assert(state_after(p, one.drop_last()) == p);
    assert(events_of(p, one.drop_last()) =~= Seq::<EventView>::empty());
    assert(events_of(p, one) =~= as_events(event_at(p, b)));
}

/// What was yielded stays: the events of a stream begin with the events of
/// each of its beginnings, in the same order.
pub proof fn lemma_events_only_grow(p: ParserView, a: Seq<u8>, b: Seq<u8>)
    ensures
        events_of(p, a).is_prefix_of(events_of(p, a + b)),
{
    lemma_feed_concat(p, a, b);
    let all = events_of(p, a) + events_of(state_after(p, a), b);
    assert(all.subrange(0, events_of(p, a).len() as int) =~= events_of(p, a));
}

/// No marker ends without a lead-out: a stretch of the stream that holds no
/// `BEL` yields no event.
pub proof fn lemma_no_event_without_lead_out(p: ParserView, bytes: Seq<u8>)
    requires
        free_of(bytes, BEL),
    ensures
        events_of(p, bytes) == Seq::<EventView>::empty(),
    decreases bytes.len(),
{
    if bytes.len() > 0 {
        let init = bytes.drop_last();
        assert forall|i: int| 0 <= i < init.len() implies init[i] != BEL by {
            assert(init[i] == bytes[i]);
        }
        assert(bytes.last() == bytes[bytes.len() - 1]);
        lemma_no_event_without_lead_out(p, init);
    }
}

/// The parser after it was fed the chunks given, one call for each.
pub open spec fn state_after_chunks(p: ParserView, chunks: Seq<Seq<u8>>) -> ParserView
    decreases chunks.len(),
{
    if chunks.len() == 0 {
        p
    } else {
        state_after(state_after_chunks(p, chunks.drop_last()), chunks.last())
    }
}

/// The events of all those calls, in the order in which they were returned.
pub open spec fn events_of_chunks(p: ParserView, chunks: Seq<Seq<u8>>) -> Seq<EventView>
    decreases chunks.len(),
{
    if chunks.len() == 0 {
        Seq::empty()
    } else {
        events_of_chunks(p, chunks.drop_last()) + events_of(
            state_after_chunks(p, chunks.drop_last()),
            chunks.last(),
        )
    }
}

/// Feeding chunks one by one is feeding their concatenation.
pub proof fn lemma_chunks_as_stream(p: ParserView, chunks: Seq<Seq<u8>>)
    ensures
        state_after_chunks(p, chunks) == state_after(p, chunks.flatten()),
        events_of_chunks(p, chunks) == events_of(p, chunks.flatten()),
    decreases chunks.len(),
{
    chunks.lemma_flatten_and_flatten_alt_are_equivalent();
    if chunks.len() > 0 {
        let init = chunks.drop_last();
        lemma_chunks_as_stream(p, init);
        init.lemma_flatten_and_flatten_alt_are_equivalent();
        assert(chunks.flatten() =~= init.flatten() + chunks.last());
        lemma_feed_concat(p, init.flatten(), chunks.last());
    }
}

/// Chunking invariance: however a stream is cut into chunks, the parser yields
/// the same events and ends in the same state.
pub proof fn lemma_chunking_invariance(
    p: ParserView,
    first: Seq<Seq<u8>>,
    second: Seq<Seq<u8>>,
)
    requires
        first.flatten() == second.flatten(),
    ensures
        events_of_chunks(p, first) == events_of_chunks(p, second),
        state_after_chunks(p, first) == state_after_chunks(p, second),
{
    lemma_chunks_as_stream(p, first);
    lemma_chunks_as_stream(p, second);
}

/// The parser stays within its bounds: it never holds more than a body of the
/// limit's length.
pub proof fn lemma_stays_bounded(p: ParserView, bytes: Seq<u8>)
    requires
        bounded(p),
    ensures
        bounded(state_after(p, bytes)),
    decreases bytes.len(),
{
    if bytes.len() > 0 {
        lemma_stays_bounded(p, bytes.drop_last());
    }
}

/// Secret and limit never change.
pub proof fn lemma_configuration_is_kept(p: ParserView, bytes: Seq<u8>)
    ensures
        state_after(p, bytes).secret == p.secret,
        state_after(p, bytes).limit == p.limit,
    decreases bytes.len(),
{
    if bytes.len() > 0 {
        lemma_configuration_is_kept(p, bytes.drop_last());
    }
}

/// From any scanning state, the first `k` bytes of the lead-in leave the
/// parser with `k` bytes matched and complete no marker.
proof fn lemma_lead_in_prefix(p: ParserView, k: int)
    requires
        p.scan is Ground,
        1 <= k < lead_in().len(),
    ensures
        state_after(p, lead_in().take(k)) == (ParserView {
            secret: p.secret,
            limit: p.limit,
            scan: Scan::Ground { matched: k as nat },
        }),
        events_of(p, lead_in().take(k)) == Seq::<EventView>::empty(),
    decreases k,
{
    let l = lead_in();
    let prefix = l.take(k);
    assert(prefix.last() == l[k - 1]);
    if k == 1 {
        assert(prefix.drop_last() =~= Seq::<u8>::empty());
        assert(state_after(p, prefix.drop_last()) == p);
        assert(events_of(p, prefix.drop_last()) == Seq::<EventView>::empty());
    } else {
        assert(prefix.drop_last() =~= l.take(k - 1));
        lemma_lead_in_prefix(p, k - 1);
    }
}

/// From any scanning state, the lead-in opens an empty body.
pub proof fn lemma_lead_in_opens_body(p: ParserView)
    requires
        p.scan is Ground,
    ensures
        state_after(p, lead_in()) == in_body(p, Seq::empty()),
        events_of(p, lead_in()) == Seq::<EventView>::empty(),
{
    let l = lead_in();
    assert(l.drop_last() =~= l.take(6));
    lemma_lead_in_prefix(p, 6);
}

/// Inside a marker, bytes other than the lead-out join the body while the
/// limit allows.
pub proof fn lemma_body_accumulates(p: ParserView, bytes: Seq<u8>)
    requires
        p.scan is Body,
        free_of(bytes, BEL),
        p.scan->pending.len() + bytes.len() <= p.limit,
    ensures
        state_after(p, bytes) == in_body(p, p.scan->pending + bytes),
        events_of(p, bytes) == Seq::<EventView>::empty(),
    decreases bytes.len(),
{
    let pending = p.scan->pending;
    if bytes.len() == 0 {
        assert(pending + bytes =~= pending);
    } else {
        let init = bytes.drop_last();
        assert(bytes.last() == bytes[bytes.len() - 1]);
        assert forall|i: int| 0 <= i < init.len() implies init[i] != BEL by {
            assert(init[i] == bytes[i]);
        }
        lemma_body_accumulates(p, init);
        assert((pending + init).push(bytes.last()) =~= pending + bytes);
    }
}

/// From any scanning state, a whole marker whose body is within the limit
/// yields the event of its body, if it has one, and leaves the parser scanning
/// with nothing matched.
pub proof fn lemma_marker_is_recognised(p: ParserView, body: Seq<u8>)
    requires
        p.scan is Ground,
        free_of(body, BEL),
        body.len() <= p.limit,
    ensures
        state_after(p, lead_in() + body + seq![BEL]) == at_ground(p),
        events_of(p, lead_in() + body + seq![BEL]) == as_events(marker_event(p.secret, body)),
{
    let opened = in_body(p, Seq::empty());
    let filled = in_body(p, body);
    let close = seq![BEL];
    lemma_lead_in_opens_body(p);
    lemma_body_accumulates(opened, body);
    assert(Seq::<u8>::empty() + body =~= body);
    lemma_feed_concat(p, lead_in(), body);
    lemma_single_byte(filled, BEL);
    lemma_feed_concat(p, lead_in() + body, close);
    assert(events_of(p, lead_in() + body + close) =~= as_events(marker_event(p.secret, body)));
}

/// A body splits into the fields it was built from.
pub proof fn lemma_split_fields_of_body(fields: MarkerFields)
    requires
        free_of(fields.kind, SEPARATOR),
        free_of(fields.secret, SEPARATOR),
    ensures
        split_fields(marker_body(fields)) == Some(fields),
{
    let body = marker_body(fields);
    let i = fields.kind.len() as int;
    assert(body.take(i) =~= fields.kind);
    assert(body[i] == SEPARATOR);
    lemma_first_index_is(body, SEPARATOR, i);
    let rest = body.skip(i + 1);
    assert(rest =~= fields.secret + seq![SEPARATOR] + fields.payload);
    let j = fields.secret.len() as int;
    assert(rest.take(j) =~= fields.secret);
    assert(rest[j] == SEPARATOR);
    lemma_first_index_is(rest, SEPARATOR, j);
    assert(rest.skip(j + 1) =~= fields.payload);
}

/// The fields of a body build that body again, and kind and secret hold no
/// separator.
pub proof fn lemma_body_of_split_fields(body: Seq<u8>)
    requires
        split_fields(body) is Some,
    ensures
        marker_body(split_fields(body)->0) == body,
        free_of(split_fields(body)->0.kind, SEPARATOR),
        free_of(split_fields(body)->0.secret, SEPARATOR),
{
    let i = first_index(body, SEPARATOR);
    lemma_first_index(body, SEPARATOR);
    let rest = body.skip(i + 1);
    let j = first_index(rest, SEPARATOR);
    lemma_first_index(rest, SEPARATOR);
    let fields = split_fields(body)->0;
    assert(marker_body(fields) =~= body);
}

/// A marker of the parser's secret and of kind `CMD_START` stands for the
/// start of the command that its payload spells.
pub proof fn lemma_command_start_event(secret: Seq<u8>, payload: Seq<u8>)
    requires
        free_of(secret, SEPARATOR),
    ensures
        marker_event(
            secret,
            marker_body(MarkerFields { kind: kind_command_start(), secret, payload }),
        ) == Some(EventView::CommandStart(lossy_text(payload))),
{
    let fields = MarkerFields { kind: kind_command_start(), secret, payload };
    lemma_split_fields_of_body(fields);
}

/// A marker of the parser's secret and of kind `CMD_END` always stands for the
/// end of a command: with the exit code that its payload spells, or with
/// `EXIT_CODE_UNKNOWN` where the payload spells none.
pub proof fn lemma_command_end_event(secret: Seq<u8>, payload: Seq<u8>)
    requires
        free_of(secret, SEPARATOR),
    ensures
        marker_event(
            secret,
            marker_body(MarkerFields { kind: kind_command_end(), secret, payload }),
        ) == Some(EventView::CommandEnd(exit_code_of(payload))),
{
    let fields = MarkerFields { kind: kind_command_end(), secret, payload };
    lemma_split_fields_of_body(fields);
    assert(kind_command_end().len() != kind_command_start().len());
}

/// Neither kind holds a separator.
pub proof fn lemma_kinds_hold_no_separator()
    ensures
        free_of(kind_command_start(), SEPARATOR),
        free_of(kind_command_end(), SEPARATOR),
{
}

/// A marker that arrives cut into chunks, however many and wherever cut,
/// yields what it yields in one piece: exactly one event, where it carries the
/// parser's secret and one of the two kinds.
pub proof fn lemma_split_marker_yields_one_event(
    p: ParserView,
    fields: MarkerFields,
    chunks: Seq<Seq<u8>>,
)
    requires
        p.scan is Ground,
        chunks.flatten() == marker_bytes(fields),
        fields.secret == p.secret,
        fields.kind == kind_command_start() || fields.kind == kind_command_end(),
        free_of(fields.secret, SEPARATOR),
        free_of(marker_body(fields), BEL),
        marker_body(fields).len() <= p.limit,
    ensures
        event_of_fields(fields) is Some,
        events_of_chunks(p, chunks) == events_of(p, marker_bytes(fields)),
        events_of_chunks(p, chunks) == seq![event_of_fields(fields)->0],
        state_after_chunks(p, chunks) == at_ground(p),
{
    lemma_chunks_as_stream(p, chunks);
    lemma_kinds_hold_no_separator();
    lemma_split_fields_of_body(fields);
    lemma_marker_is_recognised(p, marker_body(fields));
}

/// A marker that carries another secret than the parser's yields no event,
/// whatever its kind and its payload.
pub proof fn lemma_foreign_secret_yields_nothing(p: ParserView, fields: MarkerFields)
    requires
        p.scan is Ground,
        fields.secret != p.secret,
        free_of(fields.kind, SEPARATOR),
        free_of(fields.secret, SEPARATOR),
        free_of(marker_body(fields), BEL),
        marker_body(fields).len() <= p.limit,
    ensures
        marker_event(p.secret, marker_body(fields)) is None,
        events_of(p, marker_bytes(fields)) == Seq::<EventView>::empty(),
        state_after(p, marker_bytes(fields)) == at_ground(p),
{
    lemma_split_fields_of_body(fields);
    lemma_marker_is_recognised(p, marker_body(fields));
}

/// The `len` bytes of `hay` from index `at` on.
pub open spec fn window(hay: Seq<u8>, at: int, len: int) -> Seq<u8> {
    hay.subrange(at, at + len)
}

/// `needle` stands somewhere in `hay`, byte for byte.
pub open spec fn occurs_in(needle: Seq<u8>, hay: Seq<u8>) -> bool {
    exists|at: int|
        0 <= at && at + needle.len() <= hay.len() && #[trigger] window(
            hay,
            at,
            needle.len() as int,
        ) == needle
}

/// While the parser is inside a marker, the body so far is the end of what it
/// was fed since it last scanned.
proof fn lemma_pending_ends_stream(p: ParserView, bytes: Seq<u8>)
    requires
        p.scan is Ground,
    ensures
        state_after(p, bytes).scan is Body ==> {
            let pending = state_after(p, bytes).scan->pending;
            pending.len() <= bytes.len() && bytes.skip(bytes.len() - pending.len()) == pending
        },
    decreases bytes.len(),
{
    if bytes.len() > 0 {
        let init = bytes.drop_last();
        lemma_pending_ends_stream(p, init);
        let before = state_after(p, init);
        let after = state_after(p, bytes);
        if after.scan is Body {
            let pending = after.scan->pending;
            match before.scan {
                Scan::Ground { matched } => {
                    assert(pending.len() == 0);
                    assert(bytes.skip(bytes.len() - pending.len()) =~= pending);
                },
                Scan::Body { pending: earlier } => {
                    assert(pending == earlier.push(bytes.last()));
                    assert(bytes.skip(bytes.len() - pending.len()) =~= pending);
                },
            }
        }
    }
}

/// No event without the secret: a stream in which the parser's secret does not
/// occur completes no marker, whatever else it holds.
pub proof fn lemma_no_event_without_secret(p: ParserView, bytes: Seq<u8>)
    requires
        p.scan is Ground,
        !occurs_in(p.secret, bytes),
    ensures
        events_of(p, bytes) == Seq::<EventView>::empty(),
    decreases bytes.len(),
{
    if bytes.len() > 0 {
        let init = bytes.drop_last();
        let n = p.secret.len() as int;
        if occurs_in(p.secret, init) {
            let at = choose|at: int|
                0 <= at && at + p.secret.len() <= init.len() && #[trigger] window(init, at, n)
                    == p.secret;
            assert(window(bytes, at, n) =~= window(init, at, n));
        }
        lemma_no_event_without_secret(p, init);
        let before = state_after(p, init);
        lemma_configuration_is_kept(p, init);
        if event_at(before, bytes.last()) is Some {
            lemma_pending_ends_stream(p, init);
            let pending = before.scan->pending;
            let i = first_index(pending, SEPARATOR);
            lemma_first_index(pending, SEPARATOR);
            let rest = pending.skip(i + 1);
            let j = first_index(rest, SEPARATOR);
            lemma_first_index(rest, SEPARATOR);
            let offset = init.len() - pending.len();
            assert(rest.take(j) == p.secret);
            assert(window(bytes, offset + i + 1, n) =~= rest.take(j));
        }
    }
}

/// An overlong marker is given up: when the body has reached the limit and the
/// next byte is not the lead-out, that byte and all that follows are scanned
/// as ordinary output, and nothing of the abandoned body is kept.
pub proof fn lemma_overlong_marker_is_abandoned(p: ParserView, held: Seq<u8>, rest: Seq<u8>)
    requires
        p.scan is Body,
        p.scan->pending.len() + held.len() == p.limit,
        free_of(held, BEL),
        rest.len() > 0,
        rest[0] != BEL,
    ensures
        state_after(p, held + rest) == state_after(at_ground(p), rest),
        events_of(p, held + rest) == events_of(at_ground(p), rest),
{
    let full = in_body(p, p.scan->pending + held);
    let first = seq![rest[0]];
    let tail = rest.skip(1);
    lemma_body_accumulates(p, held);
    lemma_feed_concat(p, held, rest);
    assert(rest =~= first + tail);
    lemma_single_byte(full, rest[0]);
    lemma_single_byte(at_ground(p), rest[0]);
    lemma_feed_concat(full, first, tail);
    lemma_feed_concat(at_ground(p), first, tail);
    assert(events_of(p, held + rest) =~= events_of(at_ground(p), rest));
}

/// An unterminated marker does not block the markers behind it: after a
/// lead-in and one byte more than the limit without a lead-out, a whole marker
/// yields the event of its body as if nothing had come before.
pub proof fn lemma_marker_after_unterminated_marker(
    p: ParserView,
    noise: Seq<u8>,
    body: Seq<u8>,
)
    requires
        p.scan is Ground,
        noise.len() == p.limit + 1,
        free_of(noise, BEL),
        free_of(body, BEL),
        body.len() <= p.limit,
    ensures
        events_of(p, lead_in() + noise + (lead_in() + body + seq![BEL])) == as_events(
            marker_event(p.secret, body),
        ),
        state_after(p, lead_in() + noise + (lead_in() + body + seq![BEL])) == at_ground(p),
{
    let opened = in_body(p, Seq::empty());
    let held = noise.drop_last();
    let over = seq![noise.last()];
    let marker = lead_in() + body + seq![BEL];
    lemma_lead_in_opens_body(p);
    assert(noise =~= held + over);
    assert forall|i: int| 0 <= i < held.len() implies held[i] != BEL by {
        assert(held[i] == noise[i]);
    }
    assert(noise.last() == noise[noise.len() - 1]);
    lemma_overlong_marker_is_abandoned(opened, held, over);
    lemma_single_byte(at_ground(p), noise.last());
    lemma_feed_concat(p, lead_in(), noise);
    let resumed = state_after(p, lead_in() + noise);
    assert(resumed.scan is Ground);
    assert(events_of(p, lead_in() + noise) =~= Seq::<EventView>::empty());
    lemma_marker_is_recognised(resumed, body);
    lemma_feed_concat(p, lead_in() + noise, marker);
    assert(events_of(p, lead_in() + noise + marker) =~= as_events(marker_event(p.secret, body)));
}

/// `stream` ends with a lead-in followed by `body`.
pub open spec fn ends_in_marker_body(stream: Seq<u8>, body: Seq<u8>) -> bool {
    let open = lead_in() + body;
    open.len() <= stream.len() && stream.skip(stream.len() - open.len()) == open
}

/// What a parser that began scanning with nothing matched stands for: while
/// it scans, the stream ends with what it has matched of the lead-in; inside
/// a marker, the stream ends with a lead-in and the body so far, which holds
/// no lead-out and is within the limit.
proof fn lemma_scan_follows_stream(p: ParserView, bytes: Seq<u8>)
    requires
        p.scan == (Scan::Ground { matched: 0 }),
    ensures
        match state_after(p, bytes).scan {
            Scan::Ground { matched } => {
                &&& matched < lead_in().len()
                &&& matched <= bytes.len()
                &&& bytes.skip(bytes.len() - matched) == lead_in().take(matched as int)
            },
            Scan::Body { pending } => {
                &&& ends_in_marker_body(bytes, pending)
                &&& free_of(pending, BEL)
                &&& pending.len() <= p.limit
            },
        },
    decreases bytes.len(),
{
    let l = lead_in();
    if bytes.len() == 0 {
        assert(bytes.skip(0) =~= l.take(0));
    } else {
        let init = bytes.drop_last();
        let b = bytes.last();
        lemma_scan_follows_stream(p, init);
        lemma_configuration_is_kept(p, init);
        match state_after(p, init).scan {
            Scan::Ground { matched } => {
                let k = matched as int;
                let seen = init.skip(init.len() - k);
                if b == l[k] {
                    let grown = bytes.skip(bytes.len() - (k + 1));
                    assert(grown =~= seen.push(b));
                    assert(l.take(k + 1) =~= l.take(k).push(l[k]));
                    if k + 1 == l.len() {
                        assert(l.take(k + 1) =~= l);
                        assert(l + Seq::<u8>::empty() =~= l);
                    }
                } else if b == ESC {
                    assert(bytes.skip(bytes.len() - 1) =~= l.take(1));
                } else {
                    assert(bytes.skip(bytes.len() - 0) =~= l.take(0));
                }
            },
            Scan::Body { pending } => {
                if b == BEL {
                    assert(bytes.skip(bytes.len() - 0) =~= l.take(0));
                } else if pending.len() < p.limit {
                    let open = l + pending;
                    let grown = l + pending.push(b);
                    assert(grown =~= open.push(b));
                    assert(bytes.skip(bytes.len() - grown.len()) =~= init.skip(
                        init.len() - open.len(),
                    ).push(b));
                } else if b == ESC {
                    assert(bytes.skip(bytes.len() - 1) =~= l.take(1));
                } else {
                    assert(bytes.skip(bytes.len() - 0) =~= l.take(0));
                }
            },
        }
    }
}

/// No event without a marker: whenever a parser that began scanning with
/// nothing matched yields an event, the byte that completes it is the
/// lead-out, and the stream before it ends with a lead-in and a body that
/// holds no lead-out, is within the limit, and stands for that event.
pub proof fn lemma_event_comes_from_marker(p: ParserView, before: Seq<u8>, b: u8)
    requires
        p.scan == (Scan::Ground { matched: 0 }),
        event_at(state_after(p, before), b) is Some,
    ensures
        b == BEL,
        exists|body: Seq<u8>|
            {
                &&& #[trigger] ends_in_marker_body(before, body)
                &&& free_of(body, BEL)
                &&& body.len() <= p.limit
                &&& marker_event(p.secret, body) == event_at(state_after(p, before), b)
            },
{
    lemma_scan_follows_stream(p, before);
    lemma_configuration_is_kept(p, before);
    let body = state_after(p, before).scan->pending;
    assert(ends_in_marker_body(before, body));
}

/// Output in which the lead-in does not occur is no marker: a parser that
/// scans with nothing matched yields no event for it and goes on scanning.
pub proof fn lemma_output_without_lead_in(p: ParserView, output: Seq<u8>)
    requires
        p.scan == (Scan::Ground { matched: 0 }),
        !occurs_in(lead_in(), output),
    ensures
        state_after(p, output).scan is Ground,
        events_of(p, output) == Seq::<EventView>::empty(),
    decreases output.len(),
{
    let l = lead_in();
    lemma_scan_follows_stream(p, output);
    if state_after(p, output).scan is Body {
        let open = l + state_after(p, output).scan->pending;
        assert(window(output, output.len() - open.len(), l.len() as int) =~= l);
    }
    if output.len() > 0 {
        let init = output.drop_last();
        if occurs_in(l, init) {
            let at = choose|at: int|
                0 <= at && at + l.len() <= init.len() && #[trigger] window(init, at, l.len() as int)
                    == l;
            assert(window(output, at, l.len() as int) =~= window(init, at, l.len() as int));
        }
        lemma_output_without_lead_in(p, init);
    }
}

/// A stretch of a session: output in which the lead-in does not occur, then
/// one whole marker with the body given.
pub struct Exchange {
    pub output: Seq<u8>,
    pub body: Seq<u8>,
}

/// What a parser with the given limit takes for output followed by a marker.
pub open spec fn well_formed(limit: nat, exchange: Exchange) -> bool {
    &&& !occurs_in(lead_in(), exchange.output)
    &&& free_of(exchange.body, BEL)
    &&& exchange.body.len() <= limit
}

/// The bytes of a session that is a run of exchanges.
pub open spec fn transcript(exchanges: Seq<Exchange>) -> Seq<u8>
    decreases exchanges.len(),
{
    if exchanges.len() == 0 {
        Seq::empty()
    } else {
        transcript(exchanges.drop_last()) + exchanges.last().output + (lead_in()
            + exchanges.last().body + seq![BEL])
    }
}

/// The events of the markers of a session, in order.
pub open spec fn transcript_events(secret: Seq<u8>, exchanges: Seq<Exchange>) -> Seq<EventView>
    decreases exchanges.len(),
{
    if exchanges.len() == 0 {
        Seq::empty()
    } else {
        transcript_events(secret, exchanges.drop_last()) + as_events(
            marker_event(secret, exchanges.last().body),
        )
    }
}

/// The parser does what the protocol says: for a session that is a run of
/// well-formed exchanges, followed by more output, a parser that starts
/// scanning with nothing matched yields the events of the markers, each once
/// and in order, and no others.
pub proof fn lemma_session_events(p: ParserView, exchanges: Seq<Exchange>, trailing: Seq<u8>)
    requires
        p.scan == (Scan::Ground { matched: 0 }),
        forall|i: int| 0 <= i < exchanges.len() ==> well_formed(p.limit, #[trigger] exchanges[i]),
        !occurs_in(lead_in(), trailing),
    ensures
        state_after(p, transcript(exchanges)) == p,
        events_of(p, transcript(exchanges)) == transcript_events(p.secret, exchanges),
        events_of(p, transcript(exchanges) + trailing) == transcript_events(p.secret, exchanges),
    decreases exchanges.len(),
{
    if exchanges.len() > 0 {
        let init = exchanges.drop_last();
        let last = exchanges.last();
        let marker = lead_in() + last.body + seq![BEL];
        assert forall|i: int| 0 <= i < init.len() implies well_formed(
            p.limit,
            #[trigger] init[i],
        ) by {
            assert(init[i] == exchanges[i]);
        }
        assert(well_formed(p.limit, exchanges[exchanges.len() - 1]));
        lemma_session_events(p, init, last.output);
        let scanning = state_after(p, transcript(init) + last.output);
        lemma_feed_concat(p, transcript(init), last.output);
        lemma_output_without_lead_in(p, last.output);
        lemma_configuration_is_kept(p, transcript(init) + last.output);
        lemma_marker_is_recognised(scanning, last.body);
        lemma_feed_concat(p, transcript(init) + last.output, marker);
        assert(events_of(p, transcript(exchanges)) =~= transcript_events(p.secret, exchanges));
    }
    lemma_feed_concat(p, transcript(exchanges), trailing);
    lemma_output_without_lead_in(p, trailing);
    assert(events_of(p, transcript(exchanges) + trailing) =~= transcript_events(
        p.secret,
        exchanges,
    ));
}

} // verus!
