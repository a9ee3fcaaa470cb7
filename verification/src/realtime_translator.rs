//! The Realtime translator backend: one always-streaming session per
//! connection. Here are its state and the events that change it, and the
//! decisions of a connection: which exchange a server event belongs to
//! (by the server's response id, so a late event of a cancelled response
//! never lands on the next exchange), what a cancel or a dropped socket
//! reports, and when a fresh connection is needed.

use vstd::prelude::*;

use crate::translator::{
    append_delta, at_exchange, cancel_applied, cancel_exchange, complete_exchange, completion_applied,
    delta_applied, exchange_index, fail_exchange, failure_applied, nonempty_addendum, start_exchange, started,
    strip_newlines, without_newlines, ExchangeId, ExchangeView, UsageView,
};

verus! {

/// State of the Realtime backend.
#[derive(Debug)]
pub struct RealtimeState {
    pub exchanges: Vec<ExchangeView>,
    pub models: Vec<String>,
    pub last_error: Option<String>,
    /// Text added to the session instructions (the visual-novel context).
    pub system_addendum: Option<String>,
    /// Whether a session is open.
    pub connected: bool,
}

/// Events from the connection task (and the model refresh).
#[derive(Debug)]
pub enum RealtimeEvent {
    Started { id: ExchangeId, model: String },
    Delta { id: ExchangeId, content: String },
    Completed { id: ExchangeId, usage: Option<UsageView> },
    Failed { id: ExchangeId, error: String },
    Cancelled { id: ExchangeId },
    Connected,
    Disconnected,
    ModelsRefreshed(Vec<String>),
    Error(String),
}

/// The fields an event leaves alone besides the exchanges.
pub open spec fn keeps_rest(old: RealtimeState, new: RealtimeState) -> bool {
    &&& new.models == old.models
    &&& new.last_error == old.last_error
    &&& new.system_addendum == old.system_addendum
    &&& new.connected == old.connected
}

/// How an event changes the state.
pub open spec fn reduced(old: RealtimeState, new: RealtimeState, event: RealtimeEvent) -> bool {
    match event {
        RealtimeEvent::Started { id, model } => started(old.exchanges@, new.exchanges@, id, model@)
            && keeps_rest(old, new),
        RealtimeEvent::Delta { id, content } => at_exchange(
            old.exchanges@,
            new.exchanges@,
            id,
            delta_applied(content@),
        ) && keeps_rest(old, new),
        RealtimeEvent::Completed { id, usage } => at_exchange(
            old.exchanges@,
            new.exchanges@,
            id,
            completion_applied(usage),
        ) && keeps_rest(old, new),
        RealtimeEvent::Failed { id, error } => {
            &&& at_exchange(old.exchanges@, new.exchanges@, id, failure_applied(error@))
            &&& new.last_error == Some(error)
            &&& new.models == old.models
            &&& new.system_addendum == old.system_addendum
            &&& new.connected == old.connected
        },
        RealtimeEvent::Cancelled { id } => at_exchange(
            old.exchanges@,
            new.exchanges@,
            id,
            cancel_applied(),
        ) && keeps_rest(old, new),
        RealtimeEvent::Connected => {
            &&& new.exchanges@ == old.exchanges@
            &&& new.connected
            &&& new.models == old.models
            &&& new.last_error == old.last_error
            &&& new.system_addendum == old.system_addendum
        },
        RealtimeEvent::Disconnected => {
            &&& new.exchanges@ == old.exchanges@
            &&& !new.connected
            &&& new.models == old.models
            &&& new.last_error == old.last_error
            &&& new.system_addendum == old.system_addendum
        },
        RealtimeEvent::ModelsRefreshed(models) => {
            &&& new.exchanges@ == old.exchanges@
            &&& new.models == models
            &&& new.last_error == old.last_error
            &&& new.system_addendum == old.system_addendum
            &&& new.connected == old.connected
        },
        RealtimeEvent::Error(err) => {
            &&& new.exchanges@ == old.exchanges@
            &&& new.last_error == Some(err)
            &&& new.models == old.models
            &&& new.system_addendum == old.system_addendum
            &&& new.connected == old.connected
        },
    }
}

/// Applies an event to the state.
pub fn reduce(state: &mut RealtimeState, event: RealtimeEvent)
    ensures
        reduced(*old(state), *final(state), event),
{
    match event {
        RealtimeEvent::Started { id, model } => {
            start_exchange(&mut state.exchanges, id, model);
        },
        RealtimeEvent::Delta { id, content } => {
            append_delta(&mut state.exchanges, id, content.as_str());
        },
        RealtimeEvent::Completed { id, usage } => {
            complete_exchange(&mut state.exchanges, id, usage);
        },
        RealtimeEvent::Failed { id, error } => {
            fail_exchange(&mut state.exchanges, id, error.clone());
            state.last_error = Some(error);
        },
        RealtimeEvent::Cancelled { id } => {
            cancel_exchange(&mut state.exchanges, id);
        },
        RealtimeEvent::Connected => {
            state.connected = true;
        },
        RealtimeEvent::Disconnected => {
            state.connected = false;
        },
        RealtimeEvent::ModelsRefreshed(models) => {
            state.models = models;
        },
        RealtimeEvent::Error(err) => {
            state.last_error = Some(err);
        },
    }
}

impl RealtimeState {
    /// A fresh state: no exchanges, not connected.
    pub fn new() -> (s: Self)
        ensures
            s.exchanges@.len() == 0,
            s.models@.len() == 0,
            s.last_error is None,
            s.system_addendum is None,
            !s.connected,
    {
        RealtimeState {
            exchanges: Vec::new(),
            models: Vec::new(),
            last_error: None,
            system_addendum: None,
            connected: false,
        }
    }

    /// The exchange with `id`.
    pub fn exchange(&self, id: ExchangeId) -> (r: Option<&ExchangeView>)
        ensures
            match exchange_index(self.exchanges@, id) {
                Some(k) => r == Some(&self.exchanges@[k]),
                None => r is None,
            },
    {
        match crate::translator::find_exchange(&self.exchanges, id) {
            Some(k) => Some(&self.exchanges[k]),
            None => None,
        }
    }

    /// The server-side conversation is dropped: the exchanges are cleared
    /// and the session counts as closed.
    pub fn reset_conversation(&mut self)
        ensures
            final(self).exchanges@.len() == 0,
            !final(self).connected,
            final(self).models == old(self).models,
            final(self).last_error == old(self).last_error,
            final(self).system_addendum == old(self).system_addendum,
    {
        self.exchanges.clear();
        self.connected = false;
    }

    /// Sets the addendum to the instructions; an empty one counts as none.
    pub fn set_system_addendum(&mut self, text: Option<String>)
        ensures
            final(self).system_addendum == match text {
                Some(t) => if t@.len() > 0 {
                    Some(t)
                } else {
                    None
                },
                None => None,
            },
            final(self).exchanges == old(self).exchanges,
            final(self).connected == old(self).connected,
            final(self).models == old(self).models,
            final(self).last_error == old(self).last_error,
    {
        self.system_addendum = nonempty_addendum(text);
    }
}

/// Token accounting of a Realtime usage report: absent input details count
/// as no cached tokens, and there is no reasoning accounting.
pub fn usage_view(input_tokens: u32, cached_tokens: Option<u32>, output_tokens: u32, total_tokens: u32) -> (u:
    UsageView)
    ensures
        u.input_tokens == input_tokens,
        u.cached_tokens == match cached_tokens {
            Some(c) => c,
            None => 0,
        },
        u.output_tokens == output_tokens,
        u.reasoning_tokens == 0,
        u.total_tokens == total_tokens,
{
    UsageView {
        input_tokens,
        cached_tokens: match cached_tokens {
            Some(c) => c,
            None => 0,
        },
        output_tokens,
        reasoning_tokens: 0,
        total_tokens,
    }
}

/// The response a connection is driving: the exchange it belongs to, and
/// the server's id for it once the server has said.
#[derive(Debug)]
pub struct Active {
    pub exchange: ExchangeId,
    pub response_id: Option<String>,
}

/// The active response is the one the server calls `rid`.
pub open spec fn active_is(a: Option<Active>, rid: Seq<char>) -> bool {
    a matches Some(x) && (x.response_id matches Some(r) && r@ == rid)
}

impl Active {
    /// Whether this is the response the server calls `response_id`.
    pub fn is_response(&self, response_id: &str) -> (b: bool)
        ensures
            b == (self.response_id matches Some(r) && r@ == response_id@),
    {
        match &self.response_id {
            Some(r) => r.eq(&String::from_str(response_id)),
            None => false,
        }
    }
}

/// What a connection needs to know of one server event.
#[derive(Debug)]
pub enum ServerEventView {
    ResponseCreated { response_id: String },
    OutputTextDelta { response_id: String, delta: String },
    OutputTextDone,
    /// A response ended. `status` is the server's status word; `error` is
    /// the message of a failure, when it gave one.
    ResponseDone { response_id: String, status: Option<String>, error: Option<String>, usage: Option<UsageView> },
    Error { message: String },
    Other,
}

/// The message of a failed response: the server's, or a stock one.
pub open spec fn failure_text(error: Option<String>) -> Seq<char> {
    match error {
        Some(m) => m@,
        None => "response failed"@,
    }
}

/// The status word says the response was cancelled.
pub open spec fn is_cancelled_status(status: Option<String>) -> bool {
    status matches Some(s) && s@ == "cancelled"@
}

/// The status word says the response failed or was cut short.
pub open spec fn is_failed_status(status: Option<String>) -> bool {
    status matches Some(s) && (s@ == "failed"@ || s@ == "incomplete"@)
}

/// How a server event is routed: what the active response becomes and
/// which backend event, if any, is emitted.
pub open spec fn routed(old: Option<Active>, new: Option<Active>, ev: ServerEventView, out: Option<RealtimeEvent>) -> bool {
    match ev {
        ServerEventView::ResponseCreated { response_id } => {
            &&& out is None
            &&& match old {
                Some(a) => new matches Some(b) && b.exchange == a.exchange && if a.response_id is None {
                    b.response_id == Some(response_id)
                } else {
                    b.response_id == a.response_id
                },
                None => new is None,
            }
        },
        ServerEventView::OutputTextDelta { response_id, delta } => {
            &&& new == old
            &&& if active_is(old, response_id@) {
                out matches Some(RealtimeEvent::Delta { id, content }) && id == old->0.exchange && content@
                    == without_newlines(delta@)
            } else {
                out is None
            }
        },
        ServerEventView::OutputTextDone => new == old && out is None,
        ServerEventView::ResponseDone { response_id, status, error, usage } => if active_is(
            old,
            response_id@,
        ) {
            &&& new is None
            &&& if is_cancelled_status(status) {
                out matches Some(RealtimeEvent::Cancelled { id }) && id == old->0.exchange
            } else if is_failed_status(status) {
                out matches Some(RealtimeEvent::Failed { id, error: e }) && id == old->0.exchange && e@
                    == failure_text(error)
            } else {
                out matches Some(RealtimeEvent::Completed { id, usage: u }) && id == old->0.exchange && u
                    == usage
            }
        } else {
            new == old && out is None
        },
        ServerEventView::Error { message } => {
            &&& new is None
            &&& match old {
                Some(a) => out matches Some(RealtimeEvent::Failed { id, error }) && id == a.exchange
                    && error == message,
                None => out matches Some(RealtimeEvent::Error(e)) && e == message,
            }
        },
        ServerEventView::Other => new == old && out is None,
    }
}

/// Routes one server event to the active response by the server's response
/// id. Events of any other response (such as the late end of a cancelled
/// one) are dropped.
pub fn route_server_event(active: &mut Option<Active>, ev: ServerEventView) -> (out: Option<RealtimeEvent>)
    ensures
        routed(*old(active), *final(active), ev, out),
{
    match ev {
        ServerEventView::ResponseCreated { response_id } => {
            match active {
                Some(a) => {
                    if a.response_id.is_none() {
                        a.response_id = Some(response_id);
                    }
                },
                None => {},
            }
            None
        },
        ServerEventView::OutputTextDelta { response_id, delta } => {
            match active {
                Some(a) => {
                    if a.is_response(response_id.as_str()) {
                        Some(RealtimeEvent::Delta { id: a.exchange, content: strip_newlines(delta.as_str()) })
                    } else {
                        None
                    }
                },
                None => None,
            }
        },
        ServerEventView::OutputTextDone => None,
        ServerEventView::ResponseDone { response_id, status, error, usage } => {
            let matches = match active {
                Some(a) => a.is_response(response_id.as_str()),
                None => false,
            };
            if !matches {
                return None;
            }
            let a = active.take().unwrap();
            let id = a.exchange;
            let (cancelled, failed) = match &status {
                Some(s) => {
                    let c = s.eq(&String::from_str("cancelled"));
                    let f = s.eq(&String::from_str("failed")) || s.eq(&String::from_str("incomplete"));
                    (c, f)
                },
                None => (false, false),
            };
            if cancelled {
                Some(RealtimeEvent::Cancelled { id })
            } else if failed {
                let msg = match error {
                    Some(m) => m,
                    None => String::from_str("response failed"),
                };
                Some(RealtimeEvent::Failed { id, error: msg })
            } else {
                Some(RealtimeEvent::Completed { id, usage })
            }
        },
        ServerEventView::Error { message } => {
            match active.take() {
                Some(a) => Some(RealtimeEvent::Failed { id: a.exchange, error: message }),
                None => Some(RealtimeEvent::Error(message)),
            }
        },
        ServerEventView::Other => None,
    }
}

/// A turn begins on the connection: its exchange becomes the active one,
/// with no response id yet.
pub fn begin_turn(active: &mut Option<Active>, id: ExchangeId, model: String) -> (e: RealtimeEvent)
    ensures
        *final(active) matches Some(a) && a.exchange == id && a.response_id is None,
        e matches RealtimeEvent::Started { id: i, model: m } && i == id && m == model,
{
    *active = Some(Active { exchange: id, response_id: None });
    RealtimeEvent::Started { id, model }
}

/// A cancel for exchange `id` arrives. Only the exchange in flight is
/// cancelled (the server is asked to stop, and the turn is detached so its
/// late events are dropped); a cancel for anything else does nothing.
pub fn cancel_turn(active: &mut Option<Active>, id: ExchangeId) -> (e: Option<RealtimeEvent>)
    ensures
        (*old(active) matches Some(a) && a.exchange == id) ==> *final(active) is None && (e matches Some(
            RealtimeEvent::Cancelled { id: i },
        ) && i == id),
        !(*old(active) matches Some(a) && a.exchange == id) ==> *final(active) == *old(active) && e is None,
{
    let hit = match active {
        Some(a) => a.exchange == id,
        None => false,
    };
    if hit {
        *active = None;
        Some(RealtimeEvent::Cancelled { id })
    } else {
        None
    }
}

/// The socket failed or closed with `message`: the turn in flight fails
/// with it, and the session is reported closed.
pub fn connection_lost(active: &mut Option<Active>, message: String) -> (evs: Vec<RealtimeEvent>)
    ensures
        *final(active) is None,
        match *old(active) {
            Some(a) => evs@.len() == 2 && (evs@[0] matches RealtimeEvent::Failed { id, error } && id
                == a.exchange && error == message),
            None => evs@.len() == 1,
        },
        evs@.last() is Disconnected,
{
    let mut evs: Vec<RealtimeEvent> = Vec::new();
    match active.take() {
        Some(a) => evs.push(RealtimeEvent::Failed { id: a.exchange, error: message }),
        None => {},
    }
    evs.push(RealtimeEvent::Disconnected);
    evs
}

/// The connection could not be opened: the events that report the error
/// and mark the session closed.
pub fn connect_failed(error: String) -> (evs: Vec<RealtimeEvent>)
    ensures
        evs@.len() == 2,
        evs@[0] matches RealtimeEvent::Error(e) && e == error,
        evs@[1] is Disconnected,
{
    let mut evs: Vec<RealtimeEvent> = Vec::new();
    evs.push(RealtimeEvent::Error(error));
    evs.push(RealtimeEvent::Disconnected);
    evs
}

/// A fresh connection is needed when there is none that is alive, when it
/// was opened for another model, or when turns are not chained (so no
/// server-side history is carried).
pub fn needs_new_connection(alive: bool, current_model: &Option<String>, model: &str, chain: bool) -> (b: bool)
    ensures
        b == (!alive || !(current_model matches Some(m) && m@ == model@) || !chain),
{
    let same_model = match current_model {
        Some(m) => m.eq(&String::from_str(model)),
        None => false,
    };
    !alive || !same_model || !chain
}

/// Once a response has ended, later events that carry its id go nowhere:
/// whatever response is active after the end, a second end for the same id
/// is dropped without changing it.
pub proof fn law_ended_response_is_not_reattributed(
    a0: Option<Active>,
    a1: Option<Active>,
    a2: Option<Active>,
    rid: Seq<char>,
    status: Option<String>,
    error: Option<String>,
    usage: Option<UsageView>,
    out1: Option<RealtimeEvent>,
    out2: Option<RealtimeEvent>,
    late: ServerEventView,
)
    requires
        active_is(a0, rid),
        late matches ServerEventView::ResponseDone { response_id, .. } && response_id@ == rid,
        routed(a0, a1, late, out1),
        routed(a1, a2, late, out2),
    ensures
        a1 is None,
        out2 is None,
        a2 is None,
{
}

/// The instructions and user message of a turn translating `text`: the
/// system prompt with the state's addendum, and the anchored line.
pub fn turn_texts(state: &RealtimeState, system_prompt: &str, text: &str) -> (r: (String, String))
    ensures
        r.0@ == crate::translator::instructions_text(
            system_prompt@,
            crate::translator::opt_chars(state.system_addendum),
        ),
        r.1@ == crate::translator::turn_text(text@),
{
    (crate::translator::build_instructions(system_prompt, &state.system_addendum), crate::translator::build_turn_text(text))
}

} // verus!
