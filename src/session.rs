//! The conversation and the state machine of a turn.
//!
//! A session holds the append-only list of finished messages and the state
//! of the turn in flight. A submission starts a turn; the events of the
//! response stream then change the turn until one of them, or a transport
//! failure, ends it with a new assistant message.
use vstd::prelude::*;
use vstd::string::*;
use crate::event::{Chart, ChartView, EventView, StreamEvent};

verus! {

/// Who wrote a message.
#[derive(Clone, Copy, PartialEq, Eq, Debug, Structural)]
pub enum Role {
    User,
    Assistant,
}

/// A finished message of the conversation.
pub struct Message {
    /// Unique within the session; ids count up from zero in insertion order.
    pub id: usize,
    pub role: Role,
    /// The raw input for a user message, markdown source for an answer.
    pub content: String,
    /// Charts of an answer; none for a user message.
    pub charts: Vec<Chart>,
}

/// The contents of a message.
pub struct MessageView {
    pub id: nat,
    pub role: Role,
    pub content: Seq<char>,
    pub charts: Seq<ChartView>,
}

impl View for Message {
    type V = MessageView;

    open spec fn view(&self) -> MessageView {
        MessageView {
            id: self.id as nat,
            role: self.role,
            content: self.content@,
            charts: self.charts@.map_values(|c: Chart| c@),
        }
    }
}

/// A message as a request carries it: role and content only.
pub struct HistoryEntry {
    pub role: Role,
    pub content: String,
}

/// Role and content of each entry.
pub open spec fn entries_view(h: Seq<HistoryEntry>) -> Seq<(Role, Seq<char>)> {
    h.map_values(|e: HistoryEntry| (e.role, e.content@))
}

/// What a submission sends: the new text and the conversation before it.
pub struct ChatRequest {
    pub message: String,
    pub history: Vec<HistoryEntry>,
}

/// The contents of a request.
pub struct RequestView {
    pub message: Seq<char>,
    pub history: Seq<(Role, Seq<char>)>,
}

impl View for ChatRequest {
    type V = RequestView;

    open spec fn view(&self) -> RequestView {
        RequestView {
            message: self.message@,
            history: entries_view(self.history@),
        }
    }
}

/// The state of the turn in flight: the answer so far, its charts, the tool
/// running now, and whether a turn is in flight at all.
pub struct TurnView {
    pub buffer: Seq<char>,
    pub charts: Seq<ChartView>,
    pub tool: Option<Seq<char>>,
    pub loading: bool,
}

/// The state of a session.
pub struct SessionView {
    pub messages: Seq<MessageView>,
    pub next_id: nat,
    pub turn: TurnView,
}

/// Unicode white space, as `char::is_whitespace` has it.
pub open spec fn is_white_space(c: char) -> bool {
    let u = c as u32;
    (9 <= u && u <= 13) || u == 32 || u == 0x85 || u == 0xa0 || u == 0x1680 || (0x2000 <= u
        && u <= 0x200a) || u == 0x2028 || u == 0x2029 || u == 0x202f || u == 0x205f || u
        == 0x3000
}

/// Empty, or white space only.
pub open spec fn is_blank(s: Seq<char>) -> bool {
    forall|i: int| 0 <= i < s.len() ==> is_white_space(#[trigger] s[i])
}

/// What a tool's end adds to the answer: a paragraph break.
pub open spec fn paragraph_break() -> Seq<char> {
    "\n\n"@
}

/// The content of the message that reports a failure.
pub open spec fn error_content(reason: Seq<char>) -> Seq<char> {
    "Error: "@ + reason
}

/// The reason given when a stream ends before its terminal event.
pub open spec fn truncation_reason() -> Seq<char> {
    "connection closed unexpectedly"@
}

/// No turn in flight, nothing buffered.
pub open spec fn idle_turn() -> TurnView {
    TurnView { buffer: Seq::empty(), charts: Seq::empty(), tool: None, loading: false }
}

/// A session that has seen nothing.
pub open spec fn initial_session() -> SessionView {
    SessionView { messages: Seq::empty(), next_id: 0, turn: idle_turn() }
}

impl SessionView {
    /// Ids are the positions of the messages, and the counter is the next
    /// position.
    pub open spec fn wf(self) -> bool {
        &&& self.next_id == self.messages.len()
        &&& forall|i: int| 0 <= i < self.messages.len() ==> (#[trigger] self.messages[i]).id == i
    }

    /// The messages as a request carries them.
    pub open spec fn history(self) -> Seq<(Role, Seq<char>)> {
        self.messages.map_values(|m: MessageView| (m.role, m.content))
    }

    /// A submission of `input` starts a turn.
    pub open spec fn accepts(self, input: Seq<char>) -> bool {
        !self.turn.loading && !is_blank(input)
    }

    /// The request that a submission of `input` sends.
    pub open spec fn request(self, input: Seq<char>) -> RequestView {
        RequestView { message: input, history: self.history() }
    }

    /// The session after a submission of `input` is accepted.
    pub open spec fn submitted(self, input: Seq<char>) -> SessionView {
        SessionView {
            messages: self.messages.push(
                MessageView { id: self.next_id, role: Role::User, content: input, charts: Seq::empty() },
            ),
            next_id: self.next_id + 1,
            turn: TurnView { buffer: Seq::empty(), charts: Seq::empty(), tool: None, loading: true },
        }
    }

    /// The session after an answer is committed and the turn reset.
    pub open spec fn commit(self, content: Seq<char>, charts: Seq<ChartView>) -> SessionView {
        SessionView {
            messages: self.messages.push(
                MessageView { id: self.next_id, role: Role::Assistant, content, charts },
            ),
            next_id: self.next_id + 1,
            turn: idle_turn(),
        }
    }

    /// The session after the turn failed for `reason`: what was streamed is
    /// dropped and only the error is shown.
    pub open spec fn failed(self, reason: Seq<char>) -> SessionView {
        self.commit(error_content(reason), Seq::empty())
    }

    /// The session with the turn replaced.
    pub open spec fn with_turn(self, turn: TurnView) -> SessionView {
        SessionView { messages: self.messages, next_id: self.next_id, turn }
    }

    /// The session after one event of the stream. Without a turn in flight an
    /// event changes nothing.
    pub open spec fn step(self, e: EventView) -> SessionView {
        let t = self.turn;
        if !t.loading {
            self
        } else {
            match e {
                EventView::Text(c) => self.with_turn(
                    TurnView { buffer: t.buffer + c, charts: t.charts, tool: t.tool, loading: true },
                ),
                EventView::Chart(c) => self.with_turn(
                    TurnView { buffer: t.buffer, charts: t.charts.push(c), tool: t.tool, loading: true },
                ),
                EventView::ToolStart(n) => self.with_turn(
                    TurnView { buffer: t.buffer, charts: t.charts, tool: Some(n), loading: true },
                ),
                EventView::ToolEnd(_) => self.with_turn(
                    TurnView {
                        buffer: t.buffer + paragraph_break(),
                        charts: t.charts,
                        tool: None,
                        loading: true,
                    },
                ),
                EventView::Done => self.commit(t.buffer, t.charts),
                EventView::Error(m) => self.failed(m),
            }
        }
    }

    /// The session after the transport failed for `reason`.
    pub open spec fn on_failure(self, reason: Seq<char>) -> SessionView {
        if self.turn.loading {
            self.failed(reason)
        } else {
            self
        }
    }
}

/// Everything that can happen to a session.
pub enum Action {
    Submit(Seq<char>),
    Event(EventView),
    Failure(Seq<char>),
    EndOfStream,
}

/// The session after one action.
pub open spec fn perform(s: SessionView, a: Action) -> SessionView {
    match a {
        Action::Submit(input) => if s.accepts(input) {
            s.submitted(input)
        } else {
            s
        },
        Action::Event(e) => s.step(e),
        Action::Failure(reason) => s.on_failure(reason),
        Action::EndOfStream => s.on_failure(truncation_reason()),
    }
}

/// The session after a sequence of actions, in order.
pub open spec fn run(s: SessionView, actions: Seq<Action>) -> SessionView
    decreases actions.len(),
{
    if actions.len() == 0 {
        s
    } else {
        run(perform(s, actions[0]), actions.drop_first())
    }
}

proof fn lemma_commit_wf(s: SessionView, content: Seq<char>, charts: Seq<ChartView>)
    requires
        s.wf(),
    ensures
        s.commit(content, charts).wf(),
{
    let r = s.commit(content, charts);
    assert forall|i: int| 0 <= i < r.messages.len() implies (#[trigger] r.messages[i]).id == i by {
        if i < s.messages.len() {
            assert(r.messages[i] == s.messages[i]);
        }
    }
}

/// Every action keeps ids equal to positions, and only appends messages.
pub proof fn lemma_perform(s: SessionView, a: Action)
    requires
        s.wf(),
    ensures
        perform(s, a).wf(),
        s.messages.is_prefix_of(perform(s, a).messages),
{
    let r = perform(s, a);
    if r.messages.len() > s.messages.len() {
        assert forall|i: int| 0 <= i < r.messages.len() implies (#[trigger] r.messages[i]).id
            == i by {
            if i < s.messages.len() {
                assert(r.messages[i] == s.messages[i]);
            }
        }
    }
    assert(s.messages =~= r.messages.subrange(0, s.messages.len() as int));
}

/// Across any sequence of turns, submissions and failures, each message's id
/// is its position: ids strictly increase, none is reused, and a rejected
/// submission leaves no gap. Messages are only ever appended.
pub proof fn lemma_ids_across_turns(s: SessionView, actions: Seq<Action>)
    requires
        s.wf(),
    ensures
        run(s, actions).wf(),
        s.messages.is_prefix_of(run(s, actions).messages),
        forall|i: int, j: int|
            0 <= i < j < run(s, actions).messages.len() ==> run(s, actions).messages[i].id
                < run(s, actions).messages[j].id,
    decreases actions.len(),
{
    if actions.len() > 0 {
        let next = perform(s, actions[0]);
        lemma_perform(s, actions[0]);
        lemma_ids_across_turns(next, actions.drop_first());
    }
    let r = run(s, actions);
    assert forall|i: int, j: int| 0 <= i < j < r.messages.len() implies r.messages[i].id
        < r.messages[j].id by {
        assert(r.messages[i].id == i);
        assert(r.messages[j].id == j);
    }
}

/// A request's history is the conversation as it stood before the
/// submission: the message that the submission appends is never in it.
pub proof fn lemma_history_excludes_own_message(s: SessionView, input: Seq<char>)
    requires
        s.wf(),
        s.accepts(input),
    ensures
        s.request(input).history.len() + 1 == s.submitted(input).messages.len(),
        s.request(input).history == s.submitted(input).messages.drop_last().map_values(
            |m: MessageView| (m.role, m.content),
        ),
        s.submitted(input).messages.last().id == s.next_id,
        forall|i: int|
            0 <= i < s.request(input).history.len() ==> s.submitted(input).messages[i].id
                < s.next_id,
{
    assert(s.submitted(input).messages.drop_last() =~= s.messages);
}

/// The answer that the events of a turn build before its terminal event: the
/// texts in arrival order, with one paragraph break for each tool end.
pub open spec fn answer_text(events: Seq<EventView>) -> Seq<char>
    decreases events.len(),
{
    if events.len() == 0 {
        Seq::empty()
    } else {
        let prev = answer_text(events.drop_last());
        match events.last() {
            EventView::Text(c) => prev + c,
            EventView::ToolEnd(_) => prev + paragraph_break(),
            _ => prev,
        }
    }
}

/// The session after a sequence of events, in order.
pub open spec fn steps(s: SessionView, events: Seq<EventView>) -> SessionView
    decreases events.len(),
{
    if events.len() == 0 {
        s
    } else {
        steps(s, events.drop_last()).step(events.last())
    }
}

/// Events that are not terminal keep the turn in flight, leave the messages
/// alone and grow the answer by their text.
proof fn lemma_open_steps(s: SessionView, events: Seq<EventView>)
    requires
        s.turn.loading,
        forall|i: int| 0 <= i < events.len() ==> !(#[trigger] events[i]).is_terminal(),
    ensures
        steps(s, events).turn.loading,
        steps(s, events).messages == s.messages,
        steps(s, events).next_id == s.next_id,
        steps(s, events).turn.buffer == s.turn.buffer + answer_text(events),
    decreases events.len(),
{
    if events.len() == 0 {
        assert(s.turn.buffer + Seq::empty() =~= s.turn.buffer);
    } else {
        let init = events.drop_last();
        assert forall|i: int| 0 <= i < init.len() implies !(#[trigger] init[i]).is_terminal() by {
            assert(init[i] == events[i]);
        }
        lemma_open_steps(s, init);
        assert(!events[events.len() - 1].is_terminal());
        match events.last() {
            EventView::Text(c) => {
                assert(s.turn.buffer + answer_text(init) + c =~= s.turn.buffer + (answer_text(init)
                    + c));
            },
            EventView::ToolEnd(_) => {
                assert(s.turn.buffer + answer_text(init) + paragraph_break() =~= s.turn.buffer + (
                answer_text(init) + paragraph_break()));
            },
            _ => {},
        }
    }
}

/// A turn started by a submission and ended by `Done` commits one assistant
/// message whose content is exactly its texts in order, with a paragraph
/// break for each tool end; ended by `Error`, it commits `Error: ` followed by
/// the server's message, and no streamed text. Either way the turn is over.
pub proof fn lemma_turn_answer(
    s: SessionView,
    input: Seq<char>,
    events: Seq<EventView>,
    message: Seq<char>,
)
    requires
        s.wf(),
        s.accepts(input),
        forall|i: int| 0 <= i < events.len() ==> !(#[trigger] events[i]).is_terminal(),
    ensures
        ({
            let done = steps(s.submitted(input), events.push(EventView::Done));
            &&& done.messages.len() == s.messages.len() + 2
            &&& done.messages.last().role == Role::Assistant
            &&& done.messages.last().content == answer_text(events)
            &&& !done.turn.loading
        }),
        ({
            let failed = steps(s.submitted(input), events.push(EventView::Error(message)));
            &&& failed.messages.len() == s.messages.len() + 2
            &&& failed.messages.last().role == Role::Assistant
            &&& failed.messages.last().content == error_content(message)
            &&& !failed.turn.loading
        }),
{
    let t = s.submitted(input);
    lemma_open_steps(t, events);
    assert(events.push(EventView::Done).drop_last() =~= events);
    assert(events.push(EventView::Error(message)).drop_last() =~= events);
    assert(Seq::<char>::empty() + answer_text(events) =~= answer_text(events));
}

/// Whether `c` is white space.
pub fn is_white_space_char(c: char) -> (r: bool)
    ensures
        r == is_white_space(c),
{
    let u = c as u32;
    (9 <= u && u <= 13) || u == 32 || u == 0x85 || u == 0xa0 || u == 0x1680 || (0x2000 <= u
        && u <= 0x200a) || u == 0x2028 || u == 0x2029 || u == 0x202f || u == 0x205f || u
        == 0x3000
}

/// Whether `s` is empty or white space only.
pub fn is_blank_str(s: &str) -> (r: bool)
    ensures
        r == is_blank(s@),
{
    broadcast use vstd::string::group_string_axioms;
    for c in it: s.chars()
        invariant
            it.seq() == s@,
            forall|j: int| 0 <= j < it.index() ==> is_white_space(#[trigger] s@[j]),
    {
        if !is_white_space_char(c) {
            return false;
        }
    }
    true
}

/// The turn in flight.
struct Turn {
    buffer: String,
    charts: Vec<Chart>,
    tool: Option<String>,
    loading: bool,
}

impl Turn {
    closed spec fn view(&self) -> TurnView {
        TurnView {
            buffer: self.buffer@,
            charts: self.charts@.map_values(|c: Chart| c@),
            tool: match self.tool {
                Some(t) => Some(t@),
                None => None,
            },
            loading: self.loading,
        }
    }

    fn idle() -> (t: Turn)
        ensures
            t.view() == idle_turn(),
    {
        let t = Turn { buffer: String::new(), charts: Vec::new(), tool: None, loading: false };
        assert(t.charts@.map_values(|c: Chart| c@) =~= Seq::<ChartView>::empty());
        t
    }
}

/// A chat session: the conversation so far and the turn in flight.
pub struct Session {
    messages: Vec<Message>,
    next_id: usize,
    turn: Turn,
}

impl View for Session {
    type V = SessionView;

    closed spec fn view(&self) -> SessionView {
        SessionView {
            messages: self.messages@.map_values(|m: Message| m@),
            next_id: self.next_id as nat,
            turn: self.turn.view(),
        }
    }
}

impl Session {
    /// Ids are positions, and a turn in flight has an id left for its answer.
    pub closed spec fn wf(&self) -> bool {
        &&& self@.wf()
        &&& (self.turn.loading ==> self.next_id < usize::MAX)
    }

    /// A session with no messages and no turn in flight.
    pub fn new() -> (s: Session)
        ensures
            s.wf(),
            s@ == initial_session(),
    {
        let s = Session { messages: Vec::new(), next_id: 0, turn: Turn::idle() };
        assert(s@.messages =~= Seq::<MessageView>::empty());
        s
    }

    /// The messages as a request carries them.
    fn history(&self) -> (h: Vec<HistoryEntry>)
        ensures
            entries_view(h@) == self@.history(),
    {
        let mut h: Vec<HistoryEntry> = Vec::new();
        let n = self.messages.len();
        for i in 0..n
            invariant
                n == self.messages@.len(),
                h@.len() == i,
                entries_view(h@) =~= self@.history().take(i as int),
        {
            let m = &self.messages[i];
            let entry = HistoryEntry { role: m.role, content: m.content.clone() };
            let ghost prev = h@;
            h.push(entry);
            assert(h@ =~= prev.push(entry));
            assert(self@.history()[i as int] == (m.role, m.content@));
            assert forall|j: int| 0 <= j <= i implies #[trigger] entries_view(h@)[j]
                == self@.history()[j] by {
                if j < i {
                    assert(h@[j] == prev[j]);
                    assert(entries_view(prev)[j] == self@.history().take(i as int)[j]);
                }
            }
            assert(entries_view(h@) =~= self@.history().take(i + 1));
        }
        assert(self@.history().take(n as int) =~= self@.history());
        h
    }

    /// Submits `input`. While a turn is in flight, or when the input is blank,
    /// nothing changes and nothing is sent. Otherwise the conversation as it
    /// stands is taken as the history, the user's message is appended, a new
    /// turn starts and the request to send is returned.
    pub fn submit(&mut self, input: &str) -> (r: Option<ChatRequest>)
        requires
            old(self).wf(),
            old(self)@.next_id + 2 <= usize::MAX,
        ensures
            final(self).wf(),
            if old(self)@.accepts(input@) {
                &&& r is Some
                &&& r->0@ == old(self)@.request(input@)
                &&& final(self)@ == old(self)@.submitted(input@)
            } else {
                &&& r is None
                &&& final(self)@ == old(self)@
            },
    {
        if self.turn.loading || is_blank_str(input) {
            return None;
        }
        let history = self.history();
        let id = self.next_id;
        let ghost before = self@;
        self.messages.push(
            Message { id, role: Role::User, content: input.to_owned(), charts: Vec::new() },
        );
        self.next_id = id + 1;
        self.turn = Turn {
            buffer: String::new(),
            charts: Vec::new(),
            tool: None,
            loading: true,
        };
        let request = ChatRequest { message: input.to_owned(), history };
        proof {
            let m = self.messages@.last();
            assert(m.charts@.map_values(|c: Chart| c@) =~= Seq::<ChartView>::empty());
            assert(self@.messages =~= before.submitted(input@).messages);
            assert(self@.turn.charts =~= Seq::<ChartView>::empty());
            lemma_perform(before, Action::Submit(input@));
        }
        Some(request)
    }

    /// Appends an answer with the next id and resets the turn.
    fn commit(&mut self, content: String, charts: Vec<Chart>)
        requires
            old(self).wf(),
            old(self).turn.loading,
        ensures
            final(self).wf(),
            final(self)@ == old(self)@.commit(content@, charts@.map_values(|c: Chart| c@)),
    {
        let ghost before = self@;
        let id = self.next_id;
        self.messages.push(Message { id, role: Role::Assistant, content, charts });
        self.next_id = id + 1;
        self.turn = Turn::idle();
        proof {
            assert(self@.messages =~= before.commit(
                content@,
                charts@.map_values(|c: Chart| c@),
            ).messages);
            lemma_commit_wf(before, content@, charts@.map_values(|c: Chart| c@));
        }
    }

    /// Ends the turn with the message that reports `reason`.
    fn commit_failure(&mut self, reason: &str)
        requires
            old(self).wf(),
            old(self).turn.loading,
        ensures
            final(self).wf(),
            final(self)@ == old(self)@.failed(reason@),
    {
        let content = String::from_str("Error: ").concat(reason);
        let charts: Vec<Chart> = Vec::new();
        assert(charts@.map_values(|c: Chart| c@) =~= Seq::<ChartView>::empty());
        self.commit(content, charts);
    }

    /// Applies one event of the response stream, and returns whether a turn
    /// is still in flight after it. Text and tool ends grow the answer,
    /// charts are collected, `Done` commits the answer and `Error` commits the
    /// error message. Without a turn in flight the event changes nothing.
    pub fn apply(&mut self, event: StreamEvent) -> (in_flight: bool)
        requires
            old(self).wf(),
        ensures
            final(self).wf(),
            final(self)@ == old(self)@.step(event@),
            in_flight == final(self)@.turn.loading,
    {
        if !self.turn.loading {
            return false;
        }
        let ghost before = self@;
        match event {
            StreamEvent::Text { content } => {
                self.turn.buffer.append(content.as_str());
                true
            },
            StreamEvent::Chart { symbol, html } => {
                self.turn.charts.push(Chart { symbol, html });
                assert(self@.turn.charts =~= before.turn.charts.push(
                    ChartView { symbol: symbol@, html: html@ },
                ));
                true
            },
            StreamEvent::ToolStart { name } => {
                self.turn.tool = Some(name);
                true
            },
            StreamEvent::ToolEnd { .. } => {
                self.turn.tool = None;
                self.turn.buffer.append("\n\n");
                true
            },
            StreamEvent::Done => {
                let mut content = String::new();
                let mut charts: Vec<Chart> = Vec::new();
                std::mem::swap(&mut content, &mut self.turn.buffer);
                std::mem::swap(&mut charts, &mut self.turn.charts);
                self.commit(content, charts);
                false
            },
            StreamEvent::Error { message } => {
                self.commit_failure(message.as_str());
                false
            },
        }
    }

    /// Reports that the transport failed for `reason`: a turn in flight ends
    /// with the message `Error: ` followed by the reason.
    pub fn fail(&mut self, reason: &str)
        requires
            old(self).wf(),
        ensures
            final(self).wf(),
            final(self)@ == old(self)@.on_failure(reason@),
    {
        if self.turn.loading {
            self.commit_failure(reason);
        }
    }

    /// Reports that the stream ended. A turn still in flight had no terminal
    /// event: it fails, as the connection closed unexpectedly.
    pub fn end_of_stream(&mut self)
        requires
            old(self).wf(),
        ensures
            final(self).wf(),
            final(self)@ == old(self)@.on_failure(truncation_reason()),
    {
        self.fail("connection closed unexpectedly");
    }

    /// The finished messages, in order.
    pub fn messages(&self) -> (r: &Vec<Message>)
        ensures
            r@.map_values(|m: Message| m@) == self@.messages,
    {
        &self.messages
    }

    /// The answer streamed so far in the turn in flight.
    pub fn in_flight_text(&self) -> (r: &String)
        ensures
            r@ == self@.turn.buffer,
    {
        &self.turn.buffer
    }

    /// The charts collected so far in the turn in flight.
    pub fn pending_charts(&self) -> (r: &Vec<Chart>)
        ensures
            r@.map_values(|c: Chart| c@) == self@.turn.charts,
    {
        &self.turn.charts
    }

    /// The tool running now, if any.
    pub fn active_tool(&self) -> (r: &Option<String>)
        ensures
            match (r, self@.turn.tool) {
                (Some(t), Some(v)) => t@ == v,
                (None, None) => true,
                _ => false,
            },
    {
        &self.turn.tool
    }

    /// Whether a turn is in flight.
    pub fn is_loading(&self) -> (r: bool)
        ensures
            r == self@.turn.loading,
    {
        self.turn.loading
    }

    /// The id the next message will get.
    pub fn next_id(&self) -> (r: usize)
        ensures
            r == self@.next_id,
    {
        self.next_id
    }
}

} // verus!
