use tool_supervisor::{LineFramer, OutputEvent, OutputRelay, Stream};

fn event(tool: &str, message: &str, stream: Stream) -> OutputEvent {
    OutputEvent { tool: tool.to_string(), message: message.to_string(), stream }
}

#[test]
fn two_lines_give_two_events_in_order() {
    let mut r = OutputRelay::new("parser".to_string(), Stream::Stdout);
    let events = r.on_chunk(b"A\nB\n");
    assert_eq!(events, vec![event("parser", "A", Stream::Stdout), event("parser", "B", Stream::Stdout)]);
    r.on_close();
    assert!(r.is_stopped());
}

#[test]
fn trailing_fragment_is_discarded() {
    let mut r = OutputRelay::new("parser".to_string(), Stream::Stdout);
    let events = r.on_chunk(b"A\nB");
    assert_eq!(events, vec![event("parser", "A", Stream::Stdout)]);
    r.on_close();
    assert!(r.on_chunk(b"\n").is_empty());
}

#[test]
fn chunk_boundaries_do_not_matter() {
    let mut r = OutputRelay::new("parser".to_string(), Stream::Stdout);
    let mut events = r.on_chunk(b"A");
    assert!(events.is_empty());
    events.extend(r.on_chunk(b"\nB"));
    events.extend(r.on_chunk(b"\n"));
    assert_eq!(events, vec![event("parser", "A", Stream::Stdout), event("parser", "B", Stream::Stdout)]);
}

#[test]
fn carriage_return_before_line_feed_is_stripped() {
    let mut r = OutputRelay::new("viewer".to_string(), Stream::Stderr);
    let events = r.on_chunk(b"warn\r\nx\ry\n\r\n");
    assert_eq!(
        events,
        vec![
            event("viewer", "warn", Stream::Stderr),
            event("viewer", "x\ry", Stream::Stderr),
            event("viewer", "", Stream::Stderr),
        ]
    );
}

#[test]
fn empty_line_gives_an_empty_message() {
    let mut r = OutputRelay::new("parser".to_string(), Stream::Stdout);
    assert_eq!(r.on_chunk(b"\n"), vec![event("parser", "", Stream::Stdout)]);
}

#[test]
fn multibyte_text_is_decoded() {
    let mut r = OutputRelay::new("parser".to_string(), Stream::Stdout);
    let events = r.on_chunk("café ✓\n".as_bytes());
    assert_eq!(events, vec![event("parser", "café ✓", Stream::Stdout)]);
}

#[test]
fn multibyte_character_split_across_chunks() {
    let mut r = OutputRelay::new("parser".to_string(), Stream::Stdout);
    let bytes = "é\n".as_bytes();
    assert!(r.on_chunk(&bytes[..1]).is_empty());
    assert_eq!(r.on_chunk(&bytes[1..]), vec![event("parser", "é", Stream::Stdout)]);
}

#[test]
fn invalid_utf8_line_stops_the_relay() {
    let mut r = OutputRelay::new("parser".to_string(), Stream::Stdout);
    let events = r.on_chunk(b"ok\n\xff\xfe\nlater\n");
    assert_eq!(events, vec![event("parser", "ok", Stream::Stdout)]);
    assert!(r.is_stopped());
    assert!(r.on_chunk(b"more\n").is_empty());
}

#[test]
fn streams_are_relayed_independently() {
    let mut out = OutputRelay::new("parser".to_string(), Stream::Stdout);
    let mut err = OutputRelay::new("parser".to_string(), Stream::Stderr);
    let mut seen_out = Vec::new();
    let mut seen_err = Vec::new();
    seen_out.extend(out.on_chunk(b"o1\n"));
    seen_err.extend(err.on_chunk(b"e1\ne"));
    seen_out.extend(out.on_chunk(b"o2\n"));
    seen_err.extend(err.on_chunk(b"2\n"));
    assert_eq!(seen_out, vec![event("parser", "o1", Stream::Stdout), event("parser", "o2", Stream::Stdout)]);
    assert_eq!(seen_err, vec![event("parser", "e1", Stream::Stderr), event("parser", "e2", Stream::Stderr)]);
}

#[test]
fn stream_tags() {
    assert_eq!(Stream::Stdout.tag(), "stdout");
    assert_eq!(Stream::Stderr.tag(), "stderr");
}

#[test]
fn framer_returns_raw_lines_and_keeps_the_partial_one() {
    let mut f = LineFramer::new();
    assert_eq!(f.feed(b"ab\ncd"), vec![b"ab".to_vec()]);
    assert_eq!(f.feed(b"e\r\n\xff\n"), vec![b"cde".to_vec(), vec![0xff]]);
    assert!(f.feed(b"tail").is_empty());
    f.finish();
    assert_eq!(f.feed(b"\n"), vec![Vec::<u8>::new()]);
}

#[test]
fn query_args_with_every_option() {
    let args = tool_supervisor::query_args(
        "cli.php".to_string(),
        "list".to_string(),
        "slot1".to_string(),
        Some("gold".to_string()),
        Some(50),
        Some(100),
        Some("k1".to_string()),
    );
    assert_eq!(
        args,
        vec![
            "cli.php", "list", "--save", "slot1", "--filter", "gold", "--limit", "50", "--offset", "100",
            "--cache-key", "k1"
        ]
    );
}

#[test]
fn query_args_skip_absent_and_empty_options() {
    let args = tool_supervisor::query_args(
        "cli.php".to_string(),
        "stats".to_string(),
        "slot2".to_string(),
        Some(String::new()),
        None,
        Some(0),
        Some(String::new()),
    );
    assert_eq!(args, vec!["cli.php", "stats", "--save", "slot2", "--offset", "0"]);
}
