//! The events a response stream carries, and the payload of a data line.
use vstd::prelude::*;

verus! {

/// A chart produced during a turn: a short label and a fragment of HTML from
/// the server, rendered only inside a sandboxed frame.
pub struct Chart {
    pub symbol: String,
    pub html: String,
}

/// The contents of a chart.
pub struct ChartView {
    pub symbol: Seq<char>,
    pub html: Seq<char>,
}

impl View for Chart {
    type V = ChartView;

    open spec fn view(&self) -> ChartView {
        ChartView { symbol: self.symbol@, html: self.html@ }
    }
}

impl Chart {
    /// A chart with the given label and HTML.
    pub fn new(symbol: String, html: String) -> (c: Chart)
        ensures
            c@ == (ChartView { symbol: symbol@, html: html@ }),
    {
        Chart { symbol, html }
    }

    /// A copy of this chart.
    pub fn copy(&self) -> (c: Chart)
        ensures
            c@ == self@,
    {
        Chart { symbol: self.symbol.clone(), html: self.html.clone() }
    }
}

/// One decoded event of a response stream.
pub enum StreamEvent {
    /// Text to append to the answer.
    Text { content: String },
    /// A named tool invocation began.
    ToolStart { name: String },
    /// That tool invocation ended.
    ToolEnd { name: String },
    /// A chart was produced.
    Chart { symbol: String, html: String },
    /// The turn completed; nothing follows.
    Done,
    /// The turn failed on the server; nothing follows.
    Error { message: String },
}

/// The contents of a stream event.
pub enum EventView {
    Text(Seq<char>),
    ToolStart(Seq<char>),
    ToolEnd(Seq<char>),
    Chart(ChartView),
    Done,
    Error(Seq<char>),
}

impl View for StreamEvent {
    type V = EventView;

    open spec fn view(&self) -> EventView {
        match self {
            StreamEvent::Text { content } => EventView::Text(content@),
            StreamEvent::ToolStart { name } => EventView::ToolStart(name@),
            StreamEvent::ToolEnd { name } => EventView::ToolEnd(name@),
            StreamEvent::Chart { symbol, html } => EventView::Chart(
                ChartView { symbol: symbol@, html: html@ },
            ),
            StreamEvent::Done => EventView::Done,
            StreamEvent::Error { message } => EventView::Error(message@),
        }
    }
}

impl EventView {
    /// Whether the event ends the turn.
    pub open spec fn is_terminal(self) -> bool {
        self is Done || self is Error
    }
}

impl StreamEvent {
    /// Whether the event ends the turn.
    pub fn is_terminal(&self) -> (r: bool)
        ensures
            r == self@.is_terminal(),
    {
        match self {
            StreamEvent::Done => true,
            StreamEvent::Error { .. } => true,
            _ => false,
        }
    }
}

/// The prefix of a data line, `data: `.
pub open spec fn data_prefix() -> Seq<u8> {
    seq![100u8, 97u8, 116u8, 97u8, 58u8, 32u8]
}

/// What follows the prefix of a data line; nothing for any other line.
pub open spec fn payload_of(line: Seq<u8>) -> Option<Seq<u8>> {
    if line.len() >= 6 && line.take(6) == data_prefix() {
        Some(line.skip(6))
    } else {
        None
    }
}

/// The encoded event that a line carries, if it is a data line. Blank lines,
/// comments and other fields carry none.
pub fn data_payload(line: &[u8]) -> (r: Option<Vec<u8>>)
    ensures
        match (r, payload_of(line@)) {
            (Some(v), Some(p)) => v@ == p,
            (None, None) => true,
            _ => false,
        },
{
    let n = line.len();
    if n < 6 {
        return None;
    }
    if !(line[0] == 100 && line[1] == 97 && line[2] == 116 && line[3] == 97 && line[4] == 58
        && line[5] == 32) {
        assert(line@.take(6)[0] == line@[0] && line@.take(6)[1] == line@[1] && line@.take(6)[2]
            == line@[2] && line@.take(6)[3] == line@[3] && line@.take(6)[4] == line@[4]
            && line@.take(6)[5] == line@[5]);
        assert(line@.take(6) != data_prefix());
        return None;
    }
    assert(line@.take(6) =~= data_prefix());
    let mut v: Vec<u8> = Vec::new();
    let mut i: usize = 6;
    while i < n
        invariant
            6 <= i <= n == line@.len(),
            v@ == line@.subrange(6, i as int),
        decreases n - i,
    {
        v.push(line[i]);
        i = i + 1;
        assert(v@ =~= line@.subrange(6, i as int));
    }
    assert(v@ =~= line@.skip(6));
    Some(v)
}

} // verus!
