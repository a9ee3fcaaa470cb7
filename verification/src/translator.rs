//! State shared by the Responses and Realtime translator backends: the
//! exchanges shown to the user, their assistant turns and token accounting,
//! and the text sent with every turn.

use vstd::prelude::*;

use crate::text::{push_str, sort_texts, text_le};

verus! {

/// Identifies one translation exchange.
#[derive(Debug, Clone, Copy, PartialEq, Eq, Hash, Structural)]
pub struct ExchangeId(pub u64);

/// Token accounting of one exchange, the same for every backend.
#[derive(Debug, Clone, Copy, PartialEq, Eq, Structural)]
pub struct UsageView {
    pub input_tokens: u32,
    pub cached_tokens: u32,
    pub output_tokens: u32,
    pub reasoning_tokens: u32,
    pub total_tokens: u32,
}

impl Default for UsageView {
    fn default() -> (u: Self)
        ensures
            u == (UsageView {
                input_tokens: 0,
                cached_tokens: 0,
                output_tokens: 0,
                reasoning_tokens: 0,
                total_tokens: 0,
            }),
    {
        UsageView { input_tokens: 0, cached_tokens: 0, output_tokens: 0, reasoning_tokens: 0, total_tokens: 0 }
    }
}

/// The assistant turn of an exchange.
#[derive(Debug)]
pub enum Response {
    /// Still streaming: the text and reasoning received so far.
    Streaming { content: String, reasoning: String },
    /// Finished.
    Completed { content: String, reasoning: String },
    /// Failed with a message.
    Errored(String),
    /// Cancelled before it finished.
    Cancelled,
}

/// The text of a turn so far; empty for failed and cancelled turns.
pub open spec fn content_of(r: Response) -> Seq<char> {
    match r {
        Response::Streaming { content, .. } => content@,
        Response::Completed { content, .. } => content@,
        _ => Seq::empty(),
    }
}

/// The reasoning of a turn so far; empty for failed and cancelled turns.
pub open spec fn reasoning_of(r: Response) -> Seq<char> {
    match r {
        Response::Streaming { reasoning, .. } => reasoning@,
        Response::Completed { reasoning, .. } => reasoning@,
        _ => Seq::empty(),
    }
}

impl Response {
    /// The text rendered for the turn so far.
    pub fn content(&self) -> (s: &str)
        ensures
            s@ == content_of(*self),
    {
        match self {
            Response::Streaming { content, .. } => content.as_str(),
            Response::Completed { content, .. } => content.as_str(),
            Response::Errored(_) => {
                proof {
                    reveal_strlit("");
                }
                ""
            },
            Response::Cancelled => {
                proof {
                    reveal_strlit("");
                }
                ""
            },
        }
    }

    /// The reasoning trace of the turn so far.
    pub fn reasoning(&self) -> (s: &str)
        ensures
            s@ == reasoning_of(*self),
    {
        match self {
            Response::Streaming { reasoning, .. } => reasoning.as_str(),
            Response::Completed { reasoning, .. } => reasoning.as_str(),
            Response::Errored(_) => {
                proof {
                    reveal_strlit("");
                }
                ""
            },
            Response::Cancelled => {
                proof {
                    reveal_strlit("");
                }
                ""
            },
        }
    }

    /// Whether the turn has ended (finished, failed or cancelled).
    pub fn is_terminal(&self) -> (b: bool)
        ensures
            b == !(*self is Streaming),
    {
        match self {
            Response::Streaming { .. } => false,
            _ => true,
        }
    }
}

/// One exchange as the UI sees it.
#[derive(Debug)]
pub struct ExchangeView {
    pub id: ExchangeId,
    pub model: String,
    pub response: Response,
    pub usage: Option<UsageView>,
}

/// Position of the first exchange with `id`, from `k` on.
pub open spec fn exchange_from(ex: Seq<ExchangeView>, id: ExchangeId, k: int) -> Option<int>
    decreases ex.len() - k,
{
    if k < 0 || k >= ex.len() {
        None
    } else if ex[k].id == id {
        Some(k)
    } else {
        exchange_from(ex, id, k + 1)
    }
}

/// Position of the first exchange with `id`.
pub open spec fn exchange_index(ex: Seq<ExchangeView>, id: ExchangeId) -> Option<int> {
    exchange_from(ex, id, 0)
}

pub proof fn lemma_exchange_from(ex: Seq<ExchangeView>, id: ExchangeId, k: int)
    requires
        0 <= k,
    ensures
        exchange_from(ex, id, k) matches Some(j) ==> k <= j < ex.len() && ex[j].id == id,
    decreases ex.len() - k,
{
    if k < ex.len() && ex[k].id != id {
        lemma_exchange_from(ex, id, k + 1);
    }
}

/// Position of the first exchange with `id`.
pub fn find_exchange(ex: &Vec<ExchangeView>, id: ExchangeId) -> (r: Option<usize>)
    ensures
        match r {
            Some(i) => exchange_index(ex@, id) == Some(i as int) && i < ex@.len(),
            None => exchange_index(ex@, id) is None,
        },
{
    let mut i: usize = 0;
    while i < ex.len()
        invariant
            i <= ex@.len(),
            exchange_index(ex@, id) == exchange_from(ex@, id, i as int),
        decreases ex@.len() - i,
    {
        if ex[i].id == id {
            return Some(i);
        }
        i = i + 1;
    }
    None
}

/// `new` equals `old` except at `k`.
pub open spec fn same_except(old: Seq<ExchangeView>, new: Seq<ExchangeView>, k: int) -> bool {
    &&& new.len() == old.len()
    &&& forall|j: int| 0 <= j < old.len() && j != k ==> new[j] == old[j]
}

/// `new` is `old` plus a fresh streaming exchange `id` on `model`.
pub open spec fn started(old: Seq<ExchangeView>, new: Seq<ExchangeView>, id: ExchangeId, model: Seq<char>) -> bool {
    &&& new.len() == old.len() + 1
    &&& new.take(old.len() as int) == old
    &&& new.last().id == id
    &&& new.last().model@ == model
    &&& new.last().response is Streaming
    &&& content_of(new.last().response) == Seq::<char>::empty()
    &&& reasoning_of(new.last().response) == Seq::<char>::empty()
    &&& new.last().usage is None
}

/// `new` is `old` with the change `changed` made to the first exchange with
/// `id`, or `old` itself when there is none.
pub open spec fn at_exchange(
    old: Seq<ExchangeView>,
    new: Seq<ExchangeView>,
    id: ExchangeId,
    changed: spec_fn(ExchangeView, ExchangeView) -> bool,
) -> bool {
    match exchange_index(old, id) {
        Some(k) => same_except(old, new, k) && new[k].id == old[k].id && new[k].model == old[k].model
            && changed(old[k], new[k]),
        None => new == old,
    }
}

/// A streaming turn gets `delta` appended to its text; any other is left
/// alone.
pub open spec fn delta_applied(delta: Seq<char>) -> spec_fn(ExchangeView, ExchangeView) -> bool {
    |o: ExchangeView, n: ExchangeView|
        n.usage == o.usage && if o.response is Streaming {
            &&& n.response is Streaming
            &&& content_of(n.response) == content_of(o.response) + delta
            &&& reasoning_of(n.response) == reasoning_of(o.response)
        } else {
            n.response == o.response
        }
}

/// A streaming turn becomes finished with its text and reasoning kept and
/// `usage` recorded; any other is left alone.
pub open spec fn completion_applied(usage: Option<UsageView>) -> spec_fn(ExchangeView, ExchangeView) -> bool {
    |o: ExchangeView, n: ExchangeView|
        if o.response is Streaming {
            &&& n.response is Completed
            &&& content_of(n.response) == content_of(o.response)
            &&& reasoning_of(n.response) == reasoning_of(o.response)
            &&& n.usage == usage
        } else {
            n.response == o.response && n.usage == o.usage
        }
}

/// The turn fails with `error`, whatever it was.
pub open spec fn failure_applied(error: Seq<char>) -> spec_fn(ExchangeView, ExchangeView) -> bool {
    |o: ExchangeView, n: ExchangeView|
        n.usage == o.usage && (n.response matches Response::Errored(e) && e@ == error)
}

/// A streaming turn is cancelled; any other is left alone.
pub open spec fn cancel_applied() -> spec_fn(ExchangeView, ExchangeView) -> bool {
    |o: ExchangeView, n: ExchangeView|
        n.usage == o.usage && if o.response is Streaming {
            n.response is Cancelled
        } else {
            n.response == o.response
        }
}

/// Opens a streaming exchange `id` on `model`.
pub fn start_exchange(ex: &mut Vec<ExchangeView>, id: ExchangeId, model: String)
    ensures
        started(old(ex)@, final(ex)@, id, model@),
{
    ex.push(
        ExchangeView {
            id,
            model,
            response: Response::Streaming { content: String::new(), reasoning: String::new() },
            usage: None,
        },
    );
    assert(ex@.take(old(ex)@.len() as int) =~= old(ex)@);
}

/// Appends streamed text to exchange `id` while it streams.
pub fn append_delta(ex: &mut Vec<ExchangeView>, id: ExchangeId, delta: &str)
    ensures
        at_exchange(old(ex)@, final(ex)@, id, delta_applied(delta@)),
{
    let found = find_exchange(ex, id);
    if found.is_none() {
        return;
    }
    let k = found.unwrap();
    let ghost before = ex@;
    let e = ex.remove(k);
    let ExchangeView { id: eid, model, response, usage } = e;
    let response = match response {
        Response::Streaming { content, reasoning } => {
            let mut content = content;
            push_str(&mut content, delta);
            Response::Streaming { content, reasoning }
        },
        other => other,
    };
    ex.insert(k, ExchangeView { id: eid, model, response, usage });
    assert(same_except(before, ex@, k as int));
}

/// Finishes exchange `id` with `usage` if it is streaming; returns whether
/// it did.
pub fn complete_exchange(ex: &mut Vec<ExchangeView>, id: ExchangeId, usage: Option<UsageView>) -> (done: bool)
    ensures
        at_exchange(old(ex)@, final(ex)@, id, completion_applied(usage)),
        done == (exchange_index(old(ex)@, id) matches Some(k) && old(ex)@[k].response is Streaming),
{
    let found = find_exchange(ex, id);
    if found.is_none() {
        return false;
    }
    let k = found.unwrap();
    if ex[k].response.is_terminal() {
        return false;
    }
    let ghost before = ex@;
    let e = ex.remove(k);
    let ExchangeView { id: eid, model, response, usage: _ } = e;
    let response = match response {
        Response::Streaming { content, reasoning } => Response::Completed { content, reasoning },
        Response::Completed { content, reasoning } => Response::Completed { content, reasoning },
        Response::Errored(m) => Response::Errored(m),
        Response::Cancelled => Response::Cancelled,
    };
    ex.insert(k, ExchangeView { id: eid, model, response, usage });
    assert(same_except(before, ex@, k as int));
    true
}

/// Marks exchange `id` failed with `error`.
pub fn fail_exchange(ex: &mut Vec<ExchangeView>, id: ExchangeId, error: String)
    ensures
        at_exchange(old(ex)@, final(ex)@, id, failure_applied(error@)),
{
    let found = find_exchange(ex, id);
    if found.is_none() {
        return;
    }
    let k = found.unwrap();
    let ghost before = ex@;
    let e = ex.remove(k);
    let ExchangeView { id: eid, model, response: _, usage } = e;
    ex.insert(k, ExchangeView { id: eid, model, response: Response::Errored(error), usage });
    assert(same_except(before, ex@, k as int));
}

/// Marks exchange `id` cancelled if it is streaming.
pub fn cancel_exchange(ex: &mut Vec<ExchangeView>, id: ExchangeId)
    ensures
        at_exchange(old(ex)@, final(ex)@, id, cancel_applied()),
{
    let found = find_exchange(ex, id);
    if found.is_none() {
        return;
    }
    let k = found.unwrap();
    if ex[k].response.is_terminal() {
        return;
    }
    let ghost before = ex@;
    let e = ex.remove(k);
    let ExchangeView { id: eid, model, response: _, usage } = e;
    ex.insert(k, ExchangeView { id: eid, model, response: Response::Cancelled, usage });
    assert(same_except(before, ex@, k as int));
}

/// The instructions sent with every turn: the system prompt, then the
/// addendum (when it is not empty) after a blank line, or the addendum alone
/// when the prompt is empty.
pub open spec fn instructions_text(system_prompt: Seq<char>, addendum: Option<Seq<char>>) -> Seq<char> {
    match addendum {
        Some(extra) => if extra.len() == 0 {
            system_prompt
        } else if system_prompt.len() == 0 {
            extra
        } else {
            system_prompt + "\n\n"@ + extra
        },
        None => system_prompt,
    }
}

/// The characters of an optional string.
pub open spec fn opt_chars(o: Option<String>) -> Option<Seq<char>> {
    match o {
        Some(s) => Some(s@),
        None => None,
    }
}

/// Builds the instructions of a turn (see [`instructions_text`]).
pub fn build_instructions(system_prompt: &str, addendum: &Option<String>) -> (s: String)
    ensures
        s@ == instructions_text(system_prompt@, opt_chars(*addendum)),
{
    let mut instructions = String::from_str(system_prompt);
    match addendum {
        Some(extra) => {
            if !extra.as_str().is_empty() {
                if !instructions.as_str().is_empty() {
                    push_str(&mut instructions, "\n\n");
                }
                push_str(&mut instructions, extra.as_str());
            }
        },
        None => {},
    }
    instructions
}

/// The user message of a turn: the line to translate, anchored.
pub open spec fn turn_text(text: Seq<char>) -> Seq<char> {
    "Translate this line:\n"@ + text
}

/// Builds the user message of a turn (see [`turn_text`]).
pub fn build_turn_text(text: &str) -> (s: String)
    ensures
        s@ == turn_text(text@),
{
    let mut s = String::from_str("Translate this line:\n");
    push_str(&mut s, text);
    s
}

/// An addendum is kept only when it is not empty.
pub fn nonempty_addendum(text: Option<String>) -> (r: Option<String>)
    ensures
        match text {
            Some(t) => if t@.len() > 0 {
                r == Some(t)
            } else {
                r is None
            },
            None => r is None,
        },
{
    match text {
        Some(t) => if t.as_str().is_empty() {
            None
        } else {
            Some(t)
        },
        None => None,
    }
}

/// `s` with every newline removed.
pub open spec fn without_newlines(s: Seq<char>) -> Seq<char> {
    crate::text::without_char(s, '\n')
}

/// Removes every newline from streamed text (`str::replace('\n', "")`).
pub fn strip_newlines(s: &str) -> (r: String)
    ensures
        r@ == without_newlines(s@),
{
    crate::text::remove_char(s, '\n')
}

/// The DeepL backend: Japanese source text, US English translations, one
/// text per request.
#[derive(Debug, Clone, Copy)]
pub struct DeepLTranslator;

/// What a DeepL translation request carries.
#[derive(Debug)]
pub struct DeepLRequest {
    pub source_language: Option<String>,
    pub target_language: String,
    pub texts: Vec<String>,
}

impl DeepLTranslator {
    /// The request translating `text` from Japanese to US English.
    pub fn request(&self, text: String) -> (r: DeepLRequest)
        ensures
            r.source_language matches Some(l) && l@ == "JA"@,
            r.target_language@ == "EN-US"@,
            r.texts@ == seq![text],
    {
        let texts = vec![text];
        DeepLRequest {
            source_language: Some(String::from_str("JA")),
            target_language: String::from_str("EN-US"),
            texts,
        }
    }

    /// The translation shown: the first returned text, trimmed; `None`
    /// when DeepL returned none.
    pub fn translation_text(&self, texts: &Vec<String>) -> (r: Option<String>)
        ensures
            texts@.len() == 0 ==> r is None,
            texts@.len() > 0 ==> (r matches Some(t) && t@ == crate::text::trim(texts@[0]@)),
    {
        if texts.len() == 0 {
            None
        } else {
            Some(crate::text::trim_string(texts[0].as_str()))
        }
    }
}

/// The model list a refresh reports: the listed models in ascending order.
pub fn sorted_models(models: Vec<String>) -> (r: Vec<String>)
    ensures
        r@.to_multiset() == models@.to_multiset(),
        forall|i: int, j: int| 0 <= i < j < r@.len() ==> text_le(#[trigger] r@[i]@, #[trigger] r@[j]@),
{
    sort_texts(models)
}

} // verus!
