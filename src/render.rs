//! What the page shows of messages: markdown rendered to HTML by
//! pulldown-cmark, chart titles and the label of a running tool.
use vstd::prelude::*;
use vstd::string::*;
use crate::event::{Chart, ChartView};
use crate::session::{Message, MessageView, Role, Session, SessionView};

verus! {

/// The HTML that pulldown-cmark renders from markdown source `md`.
pub uninterp spec fn markdown_html(md: Seq<char>) -> Seq<char>;

/// Relies on pulldown_cmark::Parser::new and pulldown_cmark::html::push_html:
/// the HTML pushed into an empty string depends on the source alone, and an
/// empty source yields no events, hence no HTML.
#[verifier::external_body]
fn markdown_to_html(md: &str) -> (r: String)
    ensures
        r@ == markdown_html(md@),
        md@.len() == 0 ==> r@.len() == 0,
{
    let mut html = String::new();
    pulldown_cmark::html::push_html(&mut html, pulldown_cmark::Parser::new(md));
    html
}

/// What a message shows: a user's text as it was typed, an answer's
/// markdown rendered to HTML.
pub open spec fn message_html_of(m: MessageView) -> Seq<char> {
    match m.role {
        Role::User => m.content,
        Role::Assistant => markdown_html(m.content),
    }
}

/// The HTML shown for a message.
pub fn message_html(m: &Message) -> (r: String)
    ensures
        r@ == message_html_of(m@),
{
    match m.role {
        Role::User => m.content.clone(),
        Role::Assistant => markdown_to_html(m.content.as_str()),
    }
}

/// The HTML shown for the answer streamed so far.
pub fn in_flight_html(s: &Session) -> (r: String)
    ensures
        r@ == markdown_html(s@.turn.buffer),
{
    markdown_to_html(s.in_flight_text().as_str())
}

/// Whether the answer in flight is shown: it has text, or a tool runs.
pub open spec fn shows_in_flight(s: SessionView) -> bool {
    s.turn.buffer.len() > 0 || s.turn.tool is Some
}

/// Whether the answer in flight is shown.
pub fn in_flight_visible(s: &Session) -> (r: bool)
    ensures
        r == shows_in_flight(s@),
{
    !s.in_flight_text().as_str().is_empty() || s.active_tool().is_some()
}

/// Whether the conversation has anything to show yet.
pub fn has_content(s: &Session) -> (r: bool)
    ensures
        r == (s@.messages.len() > 0 || s@.turn.buffer.len() > 0),
{
    s.messages().len() > 0 || !s.in_flight_text().as_str().is_empty()
}

/// The title of a chart's frame: its label followed by ` Wave Analysis`.
pub fn chart_title(c: &Chart) -> (r: String)
    ensures
        r@ == c@.symbol + " Wave Analysis"@,
{
    c.symbol.clone().concat(" Wave Analysis")
}

/// The label shown while tool `name` runs: `Using `, the name, `...`.
pub fn tool_label(name: &str) -> (r: String)
    ensures
        r@ == "Using "@ + name@ + "..."@,
{
    String::from_str("Using ").concat(name).concat("...")
}

/// Rendering is a function of a message's role and content: the same
/// finished message renders to the same HTML every time, and so do two
/// messages that differ only in id or charts.
pub proof fn lemma_render_idempotent(a: MessageView, b: MessageView)
    requires
        a.role == b.role,
        a.content == b.content,
    ensures
        message_html_of(a) == message_html_of(b),
{
}

} // verus!
