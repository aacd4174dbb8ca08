use chat_stream::event::{data_payload, Chart, StreamEvent};
use chat_stream::frame::{trim_bytes, FrameParser};
use chat_stream::render::{
    chart_title, has_content, in_flight_html, in_flight_visible, message_html, tool_label,
};
use chat_stream::session::{is_blank_str, Message, Role, Session};

fn text(s: &str) -> StreamEvent {
    StreamEvent::Text { content: s.to_string() }
}

fn field(v: &serde_json::Value, key: &str) -> Option<String> {
    v.get(key).and_then(|f| f.as_str()).map(|s| s.to_string())
}

/// Decodes a payload the way the page does, through serde_json.
fn decode(payload: &[u8]) -> Option<StreamEvent> {
    let v: serde_json::Value = serde_json::from_slice(payload).ok()?;
    match field(&v, "type")?.as_str() {
        "text" => Some(StreamEvent::Text { content: field(&v, "content")? }),
        "tool_start" => Some(StreamEvent::ToolStart { name: field(&v, "name")? }),
        "tool_end" => Some(StreamEvent::ToolEnd { name: field(&v, "name")? }),
        "chart" => Some(StreamEvent::Chart {
            symbol: field(&v, "symbol")?,
            html: field(&v, "html")?,
        }),
        "done" => Some(StreamEvent::Done),
        "error" => Some(StreamEvent::Error { message: field(&v, "message")? }),
        _ => None,
    }
}

/// Feeds fragments through parser, payload extraction and decoding into the
/// session; returns whether the turn was still in flight when they ran out.
fn stream(session: &mut Session, fragments: &[&[u8]]) -> bool {
    let mut parser = FrameParser::new();
    for f in fragments {
        for line in parser.push(f) {
            if let Some(p) = data_payload(&line) {
                if let Some(e) = decode(&p) {
                    if !session.apply(e) {
                        return false;
                    }
                }
            }
        }
    }
    session.is_loading()
}

fn all_lines(fragments: &[&[u8]]) -> (Vec<Vec<u8>>, bool) {
    let mut parser = FrameParser::new();
    let mut out = Vec::new();
    for f in fragments {
        out.extend(parser.push(f));
    }
    (out, parser.has_pending())
}

fn started(input: &str) -> Session {
    let mut s = Session::new();
    assert!(s.submit(input).is_some());
    s
}

fn last(s: &Session) -> &Message {
    s.messages().last().unwrap()
}

#[test]
fn chunking_does_not_change_lines() {
    let whole: &[u8] = b"data: {\"type\":\"text\",\"content\":\"Hel\"}\r\n\nevent: x\n  data: {\"type\":\"done\"}  \npartial";
    let (expected, pending) = all_lines(&[whole]);
    assert_eq!(
        expected,
        vec![
            b"data: {\"type\":\"text\",\"content\":\"Hel\"}".to_vec(),
            Vec::new(),
            b"event: x".to_vec(),
            b"data: {\"type\":\"done\"}".to_vec(),
        ]
    );
    assert!(pending);
    for size in 1..whole.len() {
        let pieces: Vec<&[u8]> = whole.chunks(size).collect();
        assert_eq!(all_lines(&pieces), (expected.clone(), true));
    }
}

#[test]
fn split_line_matches_whole_line() {
    let line: &[u8] = b"data: {\"type\":\"text\",\"content\":\"h\xc3\xa9llo\"}\n";
    let (whole, _) = all_lines(&[line]);
    assert_eq!(whole.len(), 1);
    for k in 0..=line.len() {
        let (split, pending) = all_lines(&[&line[..k], &line[k..]]);
        assert_eq!(split, whole);
        assert!(!pending);
    }
}

#[test]
fn trailing_bytes_without_newline_are_not_emitted() {
    let (lines, pending) = all_lines(&[b"data: {\"type\":\"done\"}"]);
    assert!(lines.is_empty());
    assert!(pending);
}

#[test]
fn trim_removes_ascii_whitespace_only() {
    assert_eq!(trim_bytes(b" \t\r abc d \x0b\x0c"), b"abc d".to_vec());
    assert_eq!(trim_bytes(b"   "), Vec::<u8>::new());
    assert_eq!(trim_bytes(b""), Vec::<u8>::new());
    assert_eq!(trim_bytes(b"\xc2\xa0x"), b"\xc2\xa0x".to_vec());
}

#[test]
fn payload_needs_the_data_prefix() {
    assert_eq!(data_payload(b"data: {}"), Some(b"{}".to_vec()));
    assert_eq!(data_payload(b"data: "), Some(Vec::new()));
    assert_eq!(data_payload(b"data:{}"), None);
    assert_eq!(data_payload(b": comment"), None);
    assert_eq!(data_payload(b""), None);
    assert_eq!(data_payload(b"Data: {}"), None);
}

#[test]
fn malformed_and_unknown_lines_are_dropped() {
    let mut s = started("hi");
    let still = stream(
        &mut s,
        &[b"data: {not json\ndata: {\"type\":\"mystery\"}\nretry: 5\ndata: {\"type\":\"text\",\"content\":\"ok\"}\n"],
    );
    assert!(still);
    assert_eq!(s.in_flight_text(), "ok");
    assert_eq!(s.messages().len(), 1);
}

#[test]
fn canonical_stream_gives_hello() {
    let mut s = started("greet me");
    let still = stream(
        &mut s,
        &[
            b"data: {\"type\":\"text\",\"content\":\"Hel\"}\n",
            b"data: {\"type\":\"text\",\"content\":\"lo\"}\n",
            b"data: {\"type\":\"done\"}\n",
        ],
    );
    assert!(!still);
    assert!(!s.is_loading());
    let m = last(&s);
    assert_eq!(m.role, Role::Assistant);
    assert_eq!(m.content, "Hello");
    assert_eq!(m.id, 1);
    assert_eq!(s.in_flight_text(), "");
}

#[test]
fn canonical_stream_in_odd_fragments() {
    let whole: &[u8] = b"data: {\"type\":\"text\",\"content\":\"Hel\"}\ndata: {\"type\":\"text\",\"content\":\"lo\"}\ndata: {\"type\":\"done\"}\n";
    for size in 1..whole.len() {
        let mut s = started("greet me");
        let pieces: Vec<&[u8]> = whole.chunks(size).collect();
        assert!(!stream(&mut s, &pieces));
        assert_eq!(last(&s).content, "Hello");
    }
}

#[test]
fn tool_end_inserts_break_where_it_stands() {
    let mut s = started("q");
    assert!(s.apply(StreamEvent::ToolStart { name: "scan".to_string() }));
    assert_eq!(s.active_tool().as_deref(), Some("scan"));
    assert!(s.apply(StreamEvent::ToolEnd { name: "scan".to_string() }));
    assert_eq!(s.active_tool(), &None);
    assert!(s.apply(text("A")));
    assert!(s.apply(text("B")));
    assert!(!s.apply(StreamEvent::Done));
    assert_eq!(last(&s).content, "\n\nAB");
}

#[test]
fn tool_end_between_texts_separates_paragraphs() {
    let mut s = started("q");
    s.apply(text("A"));
    s.apply(StreamEvent::ToolStart { name: "t".to_string() });
    s.apply(StreamEvent::ToolEnd { name: "t".to_string() });
    s.apply(text("B"));
    s.apply(StreamEvent::Done);
    assert_eq!(last(&s).content, "A\n\nB");
}

#[test]
fn error_event_replaces_the_answer() {
    let mut s = started("q");
    s.apply(text("partial"));
    s.apply(StreamEvent::Chart { symbol: "X".to_string(), html: "<p>x</p>".to_string() });
    assert!(!s.apply(StreamEvent::Error { message: "rate limited".to_string() }));
    assert!(!s.is_loading());
    let m = last(&s);
    assert_eq!(m.content, "Error: rate limited");
    assert_eq!(m.role, Role::Assistant);
    assert!(m.charts.is_empty());
    assert_eq!(s.in_flight_text(), "");
    assert!(s.pending_charts().is_empty());
}

#[test]
fn submit_while_loading_changes_nothing() {
    let mut s = started("first");
    s.apply(text("x"));
    assert!(s.submit("second").is_none());
    assert_eq!(s.messages().len(), 1);
    assert_eq!(s.next_id(), 1);
    assert_eq!(s.in_flight_text(), "x");
    assert!(s.is_loading());
}

#[test]
fn blank_submission_is_rejected() {
    let mut s = Session::new();
    assert!(s.submit("").is_none());
    assert!(s.submit(" \t\n\u{3000}\u{a0}").is_none());
    assert!(s.messages().is_empty());
    assert!(!s.is_loading());
    assert!(is_blank_str("\u{2028} "));
    assert!(!is_blank_str(" a "));
}

#[test]
fn history_excludes_the_new_message() {
    let mut s = started("one");
    s.apply(text("answer one"));
    s.apply(StreamEvent::Done);
    let req = s.submit("two").unwrap();
    assert_eq!(req.message, "two");
    assert_eq!(req.history.len(), 2);
    assert_eq!(req.history[0].role, Role::User);
    assert_eq!(req.history[0].content, "one");
    assert_eq!(req.history[1].role, Role::Assistant);
    assert_eq!(req.history[1].content, "answer one");
    assert_eq!(s.messages().len(), 3);
    assert_eq!(last(&s).content, "two");

    let mut fresh = Session::new();
    assert!(fresh.submit("hello").unwrap().history.is_empty());
}

#[test]
fn ids_increase_without_gaps() {
    let mut s = Session::new();
    assert!(s.submit("  ").is_none());
    s.submit("a").unwrap();
    assert!(s.submit("b").is_none());
    s.apply(StreamEvent::Done);
    s.submit("c").unwrap();
    s.fail("HTTP 500");
    s.submit("d").unwrap();
    s.end_of_stream();
    let ids: Vec<usize> = s.messages().iter().map(|m| m.id).collect();
    assert_eq!(ids, vec![0, 1, 2, 3, 4, 5]);
    assert_eq!(s.next_id(), 6);
}

#[test]
fn transport_failure_and_truncation() {
    let mut s = started("q");
    s.apply(text("half"));
    s.fail("HTTP 503");
    assert_eq!(last(&s).content, "Error: HTTP 503");
    assert!(!s.is_loading());
    s.fail("late");
    assert_eq!(s.messages().len(), 2);

    let mut t = started("q");
    assert!(stream(&mut t, &[b"data: {\"type\":\"text\",\"content\":\"cut\"}\ndata: {\"ty"]));
    t.end_of_stream();
    assert_eq!(last(&t).content, "Error: connection closed unexpectedly");
    t.end_of_stream();
    assert_eq!(t.messages().len(), 2);
}

#[test]
fn events_without_a_turn_are_ignored() {
    let mut s = Session::new();
    assert!(!s.apply(text("stray")));
    assert!(!s.apply(StreamEvent::Done));
    assert!(s.messages().is_empty());
    assert_eq!(s.in_flight_text(), "");
}

#[test]
fn charts_are_committed_in_order() {
    let mut s = started("chart please");
    s.apply(StreamEvent::Chart { symbol: "AAA".to_string(), html: "<b>1</b>".to_string() });
    s.apply(text("see"));
    s.apply(StreamEvent::Chart { symbol: "BBB".to_string(), html: "<b>2</b>".to_string() });
    assert_eq!(s.pending_charts().len(), 2);
    s.apply(StreamEvent::Done);
    let m = last(&s);
    assert_eq!(m.charts.len(), 2);
    assert_eq!(m.charts[0].symbol, "AAA");
    assert_eq!(m.charts[1].html, "<b>2</b>");
    assert!(s.pending_charts().is_empty());
    assert!(s.messages()[0].charts.is_empty());
}

#[test]
fn markdown_renders_and_repeats() {
    let mut s = started("**raw**");
    s.apply(text("**bold**"));
    assert_eq!(in_flight_html(&s), "<p><strong>bold</strong></p>\n");
    s.apply(StreamEvent::Done);
    let answer = last(&s);
    let first = message_html(answer);
    assert_eq!(first, "<p><strong>bold</strong></p>\n");
    assert_eq!(message_html(answer), first);
    assert_eq!(message_html(&s.messages()[0]), "**raw**");
}

#[test]
fn empty_markdown_renders_empty() {
    let s = started("q");
    assert_eq!(in_flight_html(&s), "");
}

#[test]
fn visibility_of_answer_in_flight() {
    let mut s = Session::new();
    assert!(!has_content(&s));
    s.submit("q").unwrap();
    assert!(has_content(&s));
    assert!(!in_flight_visible(&s));
    s.apply(StreamEvent::ToolStart { name: "n".to_string() });
    assert!(in_flight_visible(&s));
}

#[test]
fn labels() {
    let c = Chart::new("ABC".to_string(), "<div></div>".to_string());
    assert_eq!(chart_title(&c), "ABC Wave Analysis");
    assert_eq!(chart_title(&c.copy()), "ABC Wave Analysis");
    assert_eq!(tool_label("search"), "Using search...");
    assert!(StreamEvent::Done.is_terminal());
    assert!(StreamEvent::Error { message: String::new() }.is_terminal());
    assert!(!text("x").is_terminal());
}
