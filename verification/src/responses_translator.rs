//! The Responses translator backend: conversation state lives on the server,
//! so each completed response's id is kept and sent as the next turn's
//! `previous_response_id`. Here are its state, the events that change it,
//! what each turn's request carries, and how a response stream becomes
//! events.

use vstd::prelude::*;

use crate::translator::{
    append_delta, build_instructions, build_turn_text, cancel_applied, cancel_exchange, complete_exchange,
    completion_applied, delta_applied, exchange_index, fail_exchange, failure_applied, instructions_text,
    nonempty_addendum, opt_chars, start_exchange, started, strip_newlines, turn_text, at_exchange,
    without_newlines, ExchangeId, ExchangeView, UsageView,
};

verus! {

/// State of the Responses backend.
#[derive(Debug)]
pub struct ResponsesState {
    pub exchanges: Vec<ExchangeView>,
    pub models: Vec<String>,
    pub last_error: Option<String>,
    /// Text added to the instructions of every turn (the visual-novel
    /// context).
    pub system_addendum: Option<String>,
    /// Id of the last completed response, which the next turn continues;
    /// `None` starts a fresh conversation.
    pub previous_response_id: Option<String>,
}

/// Events from the adapter tasks (and the synchronous start of a turn).
#[derive(Debug)]
pub enum ResponsesEvent {
    Started { id: ExchangeId, model: String },
    Delta { id: ExchangeId, content: String },
    /// `response_id` continues the conversation; empty when there is none.
    Completed { id: ExchangeId, response_id: String, usage: Option<UsageView> },
    Failed { id: ExchangeId, error: String },
    Cancelled { id: ExchangeId },
    ModelsRefreshed(Vec<String>),
    Error(String),
}

/// The fields an event leaves alone besides the exchanges.
pub open spec fn keeps_rest(old: ResponsesState, new: ResponsesState) -> bool {
    &&& new.models == old.models
    &&& new.last_error == old.last_error
    &&& new.system_addendum == old.system_addendum
    &&& new.previous_response_id == old.previous_response_id
}

/// How an event changes the state.
pub open spec fn reduced(old: ResponsesState, new: ResponsesState, event: ResponsesEvent) -> bool {
    match event {
        ResponsesEvent::Started { id, model } => started(old.exchanges@, new.exchanges@, id, model@)
            && keeps_rest(old, new),
        ResponsesEvent::Delta { id, content } => at_exchange(
            old.exchanges@,
            new.exchanges@,
            id,
            delta_applied(content@),
        ) && keeps_rest(old, new),
        ResponsesEvent::Completed { id, response_id, usage } => {
            &&& at_exchange(old.exchanges@, new.exchanges@, id, completion_applied(usage))
            &&& new.models == old.models
            &&& new.last_error == old.last_error
            &&& new.system_addendum == old.system_addendum
            &&& new.previous_response_id == if (exchange_index(old.exchanges@, id) matches Some(k)
                && old.exchanges@[k].response is Streaming) && response_id@.len() > 0 {
                Some(response_id)
            } else {
                old.previous_response_id
            }
        },
        ResponsesEvent::Failed { id, error } => {
            &&& at_exchange(old.exchanges@, new.exchanges@, id, failure_applied(error@))
            &&& new.last_error == Some(error)
            &&& new.models == old.models
            &&& new.system_addendum == old.system_addendum
            &&& new.previous_response_id == old.previous_response_id
        },
        ResponsesEvent::Cancelled { id } => at_exchange(
            old.exchanges@,
            new.exchanges@,
            id,
            cancel_applied(),
        ) && keeps_rest(old, new),
        ResponsesEvent::ModelsRefreshed(models) => {
            &&& new.exchanges@ == old.exchanges@
            &&& new.models == models
            &&& new.last_error == old.last_error
            &&& new.system_addendum == old.system_addendum
            &&& new.previous_response_id == old.previous_response_id
        },
        ResponsesEvent::Error(err) => {
            &&& new.exchanges@ == old.exchanges@
            &&& new.last_error == Some(err)
            &&& new.models == old.models
            &&& new.system_addendum == old.system_addendum
            &&& new.previous_response_id == old.previous_response_id
        },
    }
}

/// Applies an event to the state. The conversation moves on to a completed
/// response only when it finished a streaming turn and has an id.
pub fn reduce(state: &mut ResponsesState, event: ResponsesEvent)
    ensures
        reduced(*old(state), *final(state), event),
{
    match event {
        ResponsesEvent::Started { id, model } => {
            start_exchange(&mut state.exchanges, id, model);
        },
        ResponsesEvent::Delta { id, content } => {
            append_delta(&mut state.exchanges, id, content.as_str());
        },
        ResponsesEvent::Completed { id, response_id, usage } => {
            let done = complete_exchange(&mut state.exchanges, id, usage);
            if done && !response_id.as_str().is_empty() {
                state.previous_response_id = Some(response_id);
            }
        },
        ResponsesEvent::Failed { id, error } => {
            fail_exchange(&mut state.exchanges, id, error.clone());
            state.last_error = Some(error);
        },
        ResponsesEvent::Cancelled { id } => {
            cancel_exchange(&mut state.exchanges, id);
        },
        ResponsesEvent::ModelsRefreshed(models) => {
            state.models = models;
        },
        ResponsesEvent::Error(err) => {
            state.last_error = Some(err);
        },
    }
}

impl ResponsesState {
    /// A fresh state: no exchanges, no conversation.
    pub fn new() -> (s: Self)
        ensures
            s.exchanges@.len() == 0,
            s.models@.len() == 0,
            s.last_error is None,
            s.system_addendum is None,
            s.previous_response_id is None,
    {
        ResponsesState {
            exchanges: Vec::new(),
            models: Vec::new(),
            last_error: None,
            system_addendum: None,
            previous_response_id: None,
        }
    }

    /// The exchange with `id`.
    pub fn exchange(&self, id: ExchangeId) -> (r: Option<&ExchangeView>)
        ensures
            match exchange_index(self.exchanges@, id) {
                Some(k) => r == Some(&self.exchanges@[k]),
                None => r is None,
            },
    {
        match crate::translator::find_exchange(&self.exchanges, id) {
            Some(k) => Some(&self.exchanges[k]),
            None => None,
        }
    }

    /// Starts a fresh conversation: the chain is dropped and the exchanges
    /// cleared.
    pub fn reset_chain(&mut self)
        ensures
            final(self).previous_response_id is None,
            final(self).exchanges@.len() == 0,
            final(self).models == old(self).models,
            final(self).last_error == old(self).last_error,
            final(self).system_addendum == old(self).system_addendum,
    {
        self.previous_response_id = None;
        self.exchanges.clear();
    }

    /// Sets the addendum to the instructions; an empty one counts as none.
    pub fn set_system_addendum(&mut self, text: Option<String>)
        ensures
            final(self).system_addendum == match text {
                Some(t) => if t@.len() > 0 {
                    Some(t)
                } else {
                    None
                },
                None => None,
            },
            final(self).exchanges == old(self).exchanges,
            final(self).previous_response_id == old(self).previous_response_id,
            final(self).models == old(self).models,
            final(self).last_error == old(self).last_error,
    {
        self.system_addendum = nonempty_addendum(text);
    }
}

/// What a turn's request carries besides the model and the sampling
/// settings.
#[derive(Debug)]
pub struct RequestPlan {
    /// System prompt and addendum, resent every turn.
    pub instructions: String,
    /// The user line.
    pub user_line: String,
    /// Whether the server keeps the response.
    pub store: bool,
    /// The response this turn continues.
    pub previous_response_id: Option<String>,
}

/// Plans a turn: the instructions and user line, and, when chaining, the
/// stored response that the turn continues; an unchained turn is neither
/// stored nor continues anything.
pub fn plan_request(state: &ResponsesState, system_prompt: &str, chain: bool, text: &str) -> (p: RequestPlan)
    ensures
        p.instructions@ == instructions_text(system_prompt@, opt_chars(state.system_addendum)),
        p.user_line@ == turn_text(text@),
        p.store == chain,
        chain ==> opt_chars(p.previous_response_id) == opt_chars(state.previous_response_id),
        !chain ==> p.previous_response_id is None,
{
    let instructions = build_instructions(system_prompt, &state.system_addendum);
    let user_line = build_turn_text(text);
    let previous_response_id = if chain {
        match &state.previous_response_id {
            Some(r) => Some(r.clone()),
            None => None,
        }
    } else {
        None
    };
    RequestPlan { instructions, user_line, store: chain, previous_response_id }
}

/// Token accounting of a Responses usage report, with absent details
/// counted as zero.
pub fn usage_view(
    input_tokens: u32,
    cached_tokens: Option<u32>,
    output_tokens: u32,
    reasoning_tokens: Option<u32>,
    total_tokens: u32,
) -> (u: UsageView)
    ensures
        u.input_tokens == input_tokens,
        u.cached_tokens == match cached_tokens {
            Some(c) => c,
            None => 0,
        },
        u.output_tokens == output_tokens,
        u.reasoning_tokens == match reasoning_tokens {
            Some(r) => r,
            None => 0,
        },
        u.total_tokens == total_tokens,
{
    UsageView {
        input_tokens,
        cached_tokens: match cached_tokens {
            Some(c) => c,
            None => 0,
        },
        output_tokens,
        reasoning_tokens: match reasoning_tokens {
            Some(r) => r,
            None => 0,
        },
        total_tokens,
    }
}

/// What the adapter needs to know of one event of a response stream.
#[derive(Debug)]
pub enum StreamEventView {
    Created { response_id: String },
    OutputTextDelta { delta: String },
    ReasoningSummaryTextDelta,
    Completed { response_id: String, usage: Option<UsageView> },
    Incomplete { response_id: String, usage: Option<UsageView> },
    /// The response failed, with the server's message if it gave one.
    Failed { error: Option<String> },
    Error { message: String },
    Other,
}

/// The id a finished turn reports: the response id when chaining, else
/// empty, so an unstored response never seeds the chain.
pub open spec fn chain_id(chain: bool, id: Seq<char>) -> Seq<char> {
    if chain {
        id
    } else {
        Seq::empty()
    }
}

fn chained_id(chain: bool, id: String) -> (r: String)
    ensures
        r@ == chain_id(chain, id@),
{
    if chain {
        id
    } else {
        String::new()
    }
}

/// The message of a failed response: the server's, or a stock one.
pub open spec fn failure_text(message: Option<String>) -> Seq<char> {
    match message {
        Some(m) => m@,
        None => "response failed"@,
    }
}

/// Turns the events of one streamed response into backend events.
#[derive(Debug)]
pub struct ResponseStream {
    pub id: ExchangeId,
    pub chain: bool,
    /// Id the server gave the response, once it said.
    pub response_id: String,
    pub usage: Option<UsageView>,
}

/// How a stream event is turned into a backend event: what is emitted, and
/// whether the stream is finished.
pub open spec fn stream_step(
    s: ResponseStream,
    ev: StreamEventView,
    out: Option<ResponsesEvent>,
    done: bool,
) -> bool {
    match ev {
        StreamEventView::Created { .. } => out is None && !done,
        StreamEventView::OutputTextDelta { delta } => !done && (out matches Some(
            ResponsesEvent::Delta { id, content },
        ) && id == s.id && content@ == without_newlines(delta@)),
        StreamEventView::ReasoningSummaryTextDelta => out is None && !done,
        StreamEventView::Completed { response_id, usage } => done && (out matches Some(
            ResponsesEvent::Completed { id, response_id: r, usage: u },
        ) && id == s.id && r@ == chain_id(s.chain, response_id@) && u == usage),
        StreamEventView::Incomplete { response_id, usage } => done && (out matches Some(
            ResponsesEvent::Completed { id, response_id: r, usage: u },
        ) && id == s.id && r@ == chain_id(s.chain, response_id@) && u == usage),
        StreamEventView::Failed { error: message } => done && (out matches Some(
            ResponsesEvent::Failed { id, error },
        ) && id == s.id && error@ == failure_text(message)),
        StreamEventView::Error { message } => done && (out matches Some(
            ResponsesEvent::Failed { id, error },
        ) && id == s.id && error@ == message@),
        StreamEventView::Other => out is None && !done,
    }
}

impl ResponseStream {
    /// A stream for exchange `id`.
    pub fn new(id: ExchangeId, chain: bool) -> (s: Self)
        ensures
            s.id == id,
            s.chain == chain,
            s.response_id@ == Seq::<char>::empty(),
            s.usage is None,
    {
        ResponseStream { id, chain, response_id: String::new(), usage: None }
    }

    /// Handles one stream event: the backend event to emit, if any, and
    /// whether the stream is finished. A `Created` event records the
    /// response id; streamed text loses its newlines.
    pub fn on_event(&mut self, ev: StreamEventView) -> (r: (Option<ResponsesEvent>, bool))
        ensures
            stream_step(*old(self), ev, r.0, r.1),
            final(self).id == old(self).id,
            final(self).chain == old(self).chain,
            final(self).usage == old(self).usage,
            ev matches StreamEventView::Created { response_id } ==> final(self).response_id
                == response_id,
            !(ev is Created) ==> final(self).response_id == old(self).response_id,
    {
        match ev {
            StreamEventView::Created { response_id } => {
                self.response_id = response_id;
                (None, false)
            },
            StreamEventView::OutputTextDelta { delta } => {
                (Some(ResponsesEvent::Delta { id: self.id, content: strip_newlines(delta.as_str()) }), false)
            },
            StreamEventView::ReasoningSummaryTextDelta => (None, false),
            StreamEventView::Completed { response_id, usage } => {
                (
                    Some(
                        ResponsesEvent::Completed {
                            id: self.id,
                            response_id: chained_id(self.chain, response_id),
                            usage,
                        },
                    ),
                    true,
                )
            },
            StreamEventView::Incomplete { response_id, usage } => {
                (
                    Some(
                        ResponsesEvent::Completed {
                            id: self.id,
                            response_id: chained_id(self.chain, response_id),
                            usage,
                        },
                    ),
                    true,
                )
            },
            StreamEventView::Failed { error: message } => {
                let error = match message {
                    Some(m) => m,
                    None => String::from_str("response failed"),
                };
                (Some(ResponsesEvent::Failed { id: self.id, error }), true)
            },
            StreamEventView::Error { message } => {
                (Some(ResponsesEvent::Failed { id: self.id, error: message }), true)
            },
            StreamEventView::Other => (None, false),
        }
    }

    /// The stream ended without a final event: the turn completes with what
    /// was recorded.
    pub fn on_end(self) -> (e: ResponsesEvent)
        ensures
            e matches ResponsesEvent::Completed { id, response_id, usage } && id == self.id
                && response_id@ == chain_id(self.chain, self.response_id@) && usage == self.usage,
    {
        ResponsesEvent::Completed {
            id: self.id,
            response_id: chained_id(self.chain, self.response_id),
            usage: self.usage,
        }
    }

    /// Reading the stream failed: the turn fails with the error's text.
    pub fn on_error(&self, message: String) -> (e: ResponsesEvent)
        ensures
            e matches ResponsesEvent::Failed { id, error } && id == self.id && error == message,
    {
        ResponsesEvent::Failed { id: self.id, error: message }
    }

    /// The turn was cancelled.
    pub fn on_cancel(&self) -> (e: ResponsesEvent)
        ensures
            e matches ResponsesEvent::Cancelled { id } && id == self.id,
    {
        ResponsesEvent::Cancelled { id: self.id }
    }
}

/// The events for a whole (unstreamed) response: its text, when there is
/// any, then the completion.
pub fn single_response_events(
    id: ExchangeId,
    chain: bool,
    content: String,
    response_id: String,
    usage: Option<UsageView>,
) -> (evs: Vec<ResponsesEvent>)
    ensures
        content@.len() > 0 ==> evs@.len() == 2 && (evs@[0] matches ResponsesEvent::Delta { id: i, content: c }
            && i == id && c == content),
        content@.len() == 0 ==> evs@.len() == 1,
        evs@.last() matches ResponsesEvent::Completed { id: i, response_id: r, usage: u } && i == id
            && r@ == chain_id(chain, response_id@) && u == usage,
{
    let mut evs: Vec<ResponsesEvent> = Vec::new();
    if !content.as_str().is_empty() {
        evs.push(ResponsesEvent::Delta { id, content });
    }
    evs.push(ResponsesEvent::Completed { id, response_id: chained_id(chain, response_id), usage });
    evs
}

/// A turn that was not chained never moves the conversation on: the
/// completion it reports carries no id, and a completion without an id
/// leaves the stored response id as it was.
pub proof fn law_unchained_turn_keeps_chain(
    s: ResponseStream,
    ev: StreamEventView,
    out: Option<ResponsesEvent>,
    done: bool,
    old: ResponsesState,
    new: ResponsesState,
)
    requires
        !s.chain,
        stream_step(s, ev, out, done),
        out matches Some(e) && reduced(old, new, e),
    ensures
        new.previous_response_id == old.previous_response_id,
{
}

/// A turn translating `text` begins: its request is planned against the
/// conversation as it is, then its exchange is opened.
pub fn begin_turn(
    state: &mut ResponsesState,
    id: ExchangeId,
    model: String,
    system_prompt: &str,
    chain: bool,
    text: &str,
) -> (p: RequestPlan)
    ensures
        p.instructions@ == instructions_text(system_prompt@, opt_chars(old(state).system_addendum)),
        p.user_line@ == turn_text(text@),
        p.store == chain,
        chain ==> opt_chars(p.previous_response_id) == opt_chars(old(state).previous_response_id),
        !chain ==> p.previous_response_id is None,
        reduced(*old(state), *final(state), ResponsesEvent::Started { id, model }),
{
    let plan = plan_request(state, system_prompt, chain, text);
    reduce(state, ResponsesEvent::Started { id, model });
    plan
}

} // verus!
