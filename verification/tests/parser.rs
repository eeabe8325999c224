use vibe_terminal::osc::{decode_marker, OscEvent, OscParser, DEFAULT_MARKER_LIMIT};

const SECRET: &str = "abc123abc123abc123abc123abc123ab";
const OTHER: &str = "zzz999zzz999zzz999zzz999zzz999zz";
const LEAD_IN: &[u8] = b"\x1b]7711;";

fn body(kind: &str, secret: &str, payload: &[u8]) -> Vec<u8> {
    let mut bytes = kind.as_bytes().to_vec();
    bytes.push(b';');
    bytes.extend_from_slice(secret.as_bytes());
    bytes.push(b';');
    bytes.extend_from_slice(payload);
    bytes
}

fn marker(kind: &str, secret: &str, payload: &[u8]) -> Vec<u8> {
    let mut bytes = LEAD_IN.to_vec();
    bytes.extend_from_slice(&body(kind, secret, payload));
    bytes.push(0x07);
    bytes
}

fn start(text: &str) -> OscEvent {
    OscEvent::CommandStart(text.to_string())
}

fn feed_whole(stream: &[u8]) -> Vec<OscEvent> {
    OscParser::new(SECRET.to_string()).feed(stream)
}

fn feed_in_chunks(stream: &[u8], cuts: &[usize]) -> Vec<OscEvent> {
    let mut parser = OscParser::new(SECRET.to_string());
    let mut events = Vec::new();
    let mut from = 0;
    for &cut in cuts {
        events.extend(parser.feed(&stream[from..cut]));
        from = cut;
    }
    events.extend(parser.feed(&stream[from..]));
    events
}

fn session_stream() -> Vec<u8> {
    let mut stream = b"user@host % ".to_vec();
    stream.extend_from_slice(&marker("CMD_START", SECRET, b"ls -la"));
    stream.extend_from_slice(b"total 0\r\n\x1b[1mfile\x1b[0m\r\n");
    stream.extend_from_slice(&marker("CMD_END", SECRET, b"0"));
    stream.extend_from_slice(b"user@host % ");
    stream.extend_from_slice(&marker("CMD_START", SECRET, b"false"));
    stream.extend_from_slice(&marker("CMD_END", SECRET, b"1"));
    stream
}

#[test]
fn command_start_split_over_two_chunks() {
    let mut parser = OscParser::new(SECRET.to_string());
    let mut chunk1 = LEAD_IN.to_vec();
    chunk1.extend_from_slice(&body("CMD_START", SECRET, b"ls -"));
    let chunk2 = b"la\x07more output".to_vec();
    let mut events = parser.feed(&chunk1);
    assert!(events.is_empty());
    events.extend(parser.feed(&chunk2));
    assert_eq!(events, vec![start("ls -la")]);
}

#[test]
fn command_end_with_zero() {
    assert_eq!(feed_whole(&marker("CMD_END", SECRET, b"0")), vec![OscEvent::CommandEnd(0)]);
}

#[test]
fn command_end_with_garbage_gives_sentinel() {
    assert_eq!(feed_whole(&marker("CMD_END", SECRET, b"oops")), vec![OscEvent::CommandEnd(-1)]);
}

#[test]
fn events_come_in_stream_order() {
    assert_eq!(
        feed_whole(&session_stream()),
        vec![start("ls -la"), OscEvent::CommandEnd(0), start("false"), OscEvent::CommandEnd(1)]
    );
}

#[test]
fn every_cut_in_two_gives_the_same_events() {
    let stream = session_stream();
    let whole = feed_whole(&stream);
    for cut in 0..=stream.len() {
        assert_eq!(feed_in_chunks(&stream, &[cut]), whole, "cut at {}", cut);
    }
}

#[test]
fn every_cut_in_three_gives_the_same_events() {
    let mut stream = b"x".to_vec();
    stream.extend_from_slice(&marker("CMD_START", SECRET, b"ls"));
    stream.extend_from_slice(&marker("CMD_END", SECRET, b"7"));
    let whole = feed_whole(&stream);
    assert_eq!(whole, vec![start("ls"), OscEvent::CommandEnd(7)]);
    for first in 0..=stream.len() {
        for second in first..=stream.len() {
            assert_eq!(feed_in_chunks(&stream, &[first, second]), whole);
        }
    }
}

#[test]
fn byte_by_byte_gives_the_same_events() {
    let stream = session_stream();
    let cuts: Vec<usize> = (1..stream.len()).collect();
    assert_eq!(feed_in_chunks(&stream, &cuts), feed_whole(&stream));
}

#[test]
fn marker_in_n_chunks_gives_one_event() {
    let whole = marker("CMD_START", SECRET, b"cargo build --release");
    for n in 1..=whole.len() {
        let size = (whole.len() + n - 1) / n;
        let cuts: Vec<usize> = (1..n).map(|k| (k * size).min(whole.len())).collect();
        assert_eq!(feed_in_chunks(&whole, &cuts), vec![start("cargo build --release")]);
    }
}

#[test]
fn empty_chunks_change_nothing() {
    let whole = marker("CMD_END", SECRET, b"3");
    let mut parser = OscParser::new(SECRET.to_string());
    assert!(parser.feed(b"").is_empty());
    assert!(parser.feed(&whole[..10]).is_empty());
    assert!(parser.feed(b"").is_empty());
    assert_eq!(parser.feed(&whole[10..]), vec![OscEvent::CommandEnd(3)]);
    assert!(parser.feed(b"").is_empty());
}

#[test]
fn foreign_secret_gives_no_event() {
    assert!(feed_whole(&marker("CMD_START", OTHER, b"rm -rf /")).is_empty());
    assert!(feed_whole(&marker("CMD_END", OTHER, b"0")).is_empty());
    assert!(feed_whole(&marker("CMD_END", "", b"0")).is_empty());
}

#[test]
fn secret_must_match_byte_for_byte() {
    let longer = format!("{}x", SECRET);
    let shorter = &SECRET[..31];
    let upper = SECRET.to_uppercase();
    assert!(feed_whole(&marker("CMD_END", &longer, b"0")).is_empty());
    assert!(feed_whole(&marker("CMD_END", shorter, b"0")).is_empty());
    assert!(feed_whole(&marker("CMD_END", &upper, b"0")).is_empty());
}

#[test]
fn foreign_marker_does_not_disturb_the_next() {
    let mut stream = marker("CMD_START", OTHER, b"forged");
    stream.extend_from_slice(&marker("CMD_START", SECRET, b"real"));
    assert_eq!(feed_whole(&stream), vec![start("real")]);
}

#[test]
fn secret_in_the_payload_does_not_count() {
    let payload = format!("x;{};y", SECRET);
    assert!(feed_whole(&marker("CMD_START", OTHER, payload.as_bytes())).is_empty());
}

#[test]
fn unknown_kind_gives_no_event() {
    assert!(feed_whole(&marker("PROMPT", SECRET, b"")).is_empty());
    assert!(feed_whole(&marker("cmd_start", SECRET, b"ls")).is_empty());
    assert!(feed_whole(&marker("CMD_START ", SECRET, b"ls")).is_empty());
    assert!(feed_whole(&marker("", SECRET, b"ls")).is_empty());
}

#[test]
fn body_with_too_few_fields_gives_no_event() {
    let mut stream = LEAD_IN.to_vec();
    stream.extend_from_slice(b"CMD_START\x07");
    stream.extend_from_slice(LEAD_IN);
    stream.extend_from_slice(b"CMD_START;");
    stream.extend_from_slice(SECRET.as_bytes());
    stream.push(0x07);
    stream.extend_from_slice(LEAD_IN);
    stream.push(0x07);
    assert!(feed_whole(&stream).is_empty());
}

#[test]
fn payload_may_hold_separators_and_escapes() {
    assert_eq!(
        feed_whole(&marker("CMD_START", SECRET, b"a; b; \x1b]7711;c")),
        vec![start("a; b; \x1b]7711;c")]
    );
    assert_eq!(feed_whole(&marker("CMD_START", SECRET, b"")), vec![start("")]);
}

#[test]
fn payload_is_decoded_as_utf8() {
    assert_eq!(
        feed_whole(&marker("CMD_START", SECRET, "echo héllo ✓".as_bytes())),
        vec![start("echo héllo ✓")]
    );
}

#[test]
fn payload_that_is_not_utf8_is_decoded_lossily() {
    assert_eq!(
        feed_whole(&marker("CMD_START", SECRET, b"a\xffb")),
        vec![start("a\u{fffd}b")]
    );
}

#[test]
fn lead_in_restarts_on_escape() {
    let mut stream = b"\x1b\x1b]77\x1b]7711".to_vec();
    stream.extend_from_slice(&marker("CMD_END", SECRET, b"2"));
    assert_eq!(feed_whole(&stream), vec![OscEvent::CommandEnd(2)]);
}

#[test]
fn other_escape_sequences_are_no_markers() {
    let mut stream = b"\x1b]0;window title\x07\x1b[31mred\x1b[0m\x1b]7710;x\x07".to_vec();
    stream.extend_from_slice(&marker("CMD_END", SECRET, b"4"));
    assert_eq!(feed_whole(&stream), vec![OscEvent::CommandEnd(4)]);
}

#[test]
fn exit_codes_are_signed_decimal_integers() {
    let cases: [(&[u8], i32); 12] = [
        (b"0", 0),
        (b"1", 1),
        (b"127", 127),
        (b"255", 255),
        (b"-1", -1),
        (b"-7", -7),
        (b"+7", 7),
        (b"007", 7),
        (b"-0", 0),
        (b"2147483647", 2147483647),
        (b"-2147483648", -2147483648),
        (b"0000000000000000000042", 42),
    ];
    for (payload, code) in cases {
        assert_eq!(
            feed_whole(&marker("CMD_END", SECRET, payload)),
            vec![OscEvent::CommandEnd(code)]
        );
    }
}

#[test]
fn other_payloads_give_the_sentinel() {
    let cases: [&[u8]; 14] = [
        b"",
        b"+",
        b"-",
        b"oops",
        b"12a",
        b"a12",
        b" 1",
        b"1 ",
        b"1.0",
        b"--1",
        b"0x10",
        b"2147483648",
        b"-2147483649",
        b"99999999999999999999999999",
    ];
    for payload in cases {
        assert_eq!(
            feed_whole(&marker("CMD_END", SECRET, payload)),
            vec![OscEvent::CommandEnd(-1)]
        );
    }
}

#[test]
fn body_of_the_limit_is_accepted() {
    let prefix = body("CMD_START", SECRET, b"").len();
    let limit = prefix + 5;
    let mut parser = OscParser::with_limit(SECRET.to_string(), limit);
    assert_eq!(parser.feed(&marker("CMD_START", SECRET, b"12345")), vec![start("12345")]);
}

#[test]
fn body_beyond_the_limit_is_abandoned() {
    let prefix = body("CMD_START", SECRET, b"").len();
    let limit = prefix + 5;
    let mut parser = OscParser::with_limit(SECRET.to_string(), limit);
    assert!(parser.feed(&marker("CMD_START", SECRET, b"123456")).is_empty());
    assert_eq!(parser.feed(&marker("CMD_END", SECRET, b"0")), vec![OscEvent::CommandEnd(0)]);
}

#[test]
fn unterminated_marker_does_not_block_later_markers() {
    let mut parser = OscParser::new(SECRET.to_string());
    let mut stream = LEAD_IN.to_vec();
    stream.extend_from_slice(&body("CMD_START", SECRET, b"never ends"));
    stream.extend_from_slice(&vec![b'x'; DEFAULT_MARKER_LIMIT + 1]);
    assert!(parser.feed(&stream).is_empty());
    assert_eq!(parser.feed(&marker("CMD_START", SECRET, b"pwd")), vec![start("pwd")]);
    assert_eq!(parser.feed(&marker("CMD_END", SECRET, b"0")), vec![OscEvent::CommandEnd(0)]);
}

#[test]
fn scanning_resumes_at_the_byte_that_did_not_fit() {
    let mut parser = OscParser::with_limit(SECRET.to_string(), 60);
    let mut stream = LEAD_IN.to_vec();
    stream.extend_from_slice(&vec![b'x'; 60]);
    stream.extend_from_slice(&marker("CMD_END", SECRET, b"9"));
    assert_eq!(parser.feed(&stream), vec![OscEvent::CommandEnd(9)]);
}

#[test]
fn marker_inside_an_unterminated_marker_is_part_of_it() {
    let mut parser = OscParser::with_limit(SECRET.to_string(), 200);
    let mut stream = LEAD_IN.to_vec();
    stream.extend_from_slice(b"junk");
    stream.extend_from_slice(&marker("CMD_END", SECRET, b"9"));
    assert!(parser.feed(&stream).is_empty());
    assert_eq!(parser.feed(&marker("CMD_END", SECRET, b"5")), vec![OscEvent::CommandEnd(5)]);
}

#[test]
fn limit_of_zero_accepts_no_body() {
    let mut parser = OscParser::with_limit(SECRET.to_string(), 0);
    assert!(parser.feed(&marker("CMD_END", SECRET, b"0")).is_empty());
}

#[test]
fn decode_marker_reads_a_body() {
    let secret = SECRET.as_bytes();
    assert_eq!(decode_marker(secret, &body("CMD_START", SECRET, b"ls -la")), Some(start("ls -la")));
    assert_eq!(
        decode_marker(secret, &body("CMD_END", SECRET, b"130")),
        Some(OscEvent::CommandEnd(130))
    );
    assert_eq!(decode_marker(secret, &body("CMD_END", OTHER, b"130")), None);
    assert_eq!(decode_marker(secret, &body("OTHER", SECRET, b"130")), None);
    assert_eq!(decode_marker(secret, b"CMD_END"), None);
    assert_eq!(decode_marker(secret, b""), None);
}
