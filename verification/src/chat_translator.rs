//! Chat Completions translator state: the editable context buffer, the
//! exchanges in flight and done, and how events from the adapter tasks
//! change them.

use std::collections::VecDeque;

use vstd::prelude::*;

use crate::chat::{message_tokens, sat_u64, tokens_of, Message, Role, Usage};
use crate::segment::{
    parse_segment_translations, segment_translations, span_triple, TranslationSpan,
};
use crate::text::{push_char, push_decimal, push_str};

verus! {

/// Format instruction inserted before the segment list of a translation.
pub const SEGMENT_INSTRUCTION: &'static str = "\
You will receive a numbered list of Japanese text segments, one per line, \
formatted as `<index>\\t<segment>`. Some segments may be punctuation, \
quotes, whitespace, Latin text, names, or other non-Japanese fragments; \
use them as part of the source text and preserve their meaning naturally \
in the translation. Translate the input into natural \
English, choosing where to break translations to preserve fluent phrasing \
-- a single English clause may span multiple Japanese segments, and \
breaks must fall between segments (never mid-segment). Each English span \
must cover all source segments used by its English text: if the English \
phrase mentions information from a later segment (for example a time, \
place, object, or verb moved earlier for English word order), `j` must \
include that later segment. Do not put content from future segments outside \
`i..=j` into `t`. Output one JSON object per line (NDJSON) describing \
each translation span: `{{\"i\":<start>,\"j\":<end>,\"t\":\"<English>\"}}` \
where `start` and `end` are the inclusive first and last segment indices \
the span covers (`start <= end`). Spans are emitted in order, are contiguous, and \
together cover every segment exactly once (no overlap, no gaps). Output \
no prose, no markdown fences, and nothing between or after the lines. \
Escape `\"` and `\\` per JSON; do not include literal newlines, tabs, \
or other control characters in `t`.";

broadcast use vstd::std_specs::vecdeque::group_vec_dequeue_axioms;

/// Identifies one translation exchange.
#[derive(Debug, Clone, Copy, PartialEq, Eq, Hash, Structural)]
pub struct ExchangeId(pub u64);

/// Identifies one message of the context buffer.
#[derive(Debug, Clone, Copy, PartialEq, Eq, Hash, Structural)]
pub struct MsgId(pub u64);

/// A context-buffer message with its identifier.
#[derive(Debug)]
pub struct ContextMessage {
    pub id: MsgId,
    pub message: Message,
}

impl Clone for ContextMessage {
    fn clone(&self) -> (c: Self)
        ensures
            c == *self,
    {
        ContextMessage { id: self.id, message: self.message.clone() }
    }
}

/// Assistant turn of an exchange.
#[derive(Debug)]
pub enum Response {
    /// Still streaming: raw output so far and the spans parsed from it.
    Streaming { content: String, translations: Vec<TranslationSpan> },
    /// Finished: raw output and its spans.
    Completed { content: String, translations: Vec<TranslationSpan> },
    /// Failed with a message.
    Errored(String),
    /// Cancelled before it finished.
    Cancelled,
}

impl Response {
    /// Raw output so far (empty for failed and cancelled turns).
    pub fn content(&self) -> (s: &str)
        ensures
            s@ == match *self {
                Response::Streaming { content, .. } => content@,
                Response::Completed { content, .. } => content@,
                _ => Seq::<char>::empty(),
            },
    {
        match self {
            Response::Streaming { content, .. } => content.as_str(),
            Response::Completed { content, .. } => content.as_str(),
            Response::Errored(_) => {
                proof {
                    reveal_strlit("");
                }
                ""
            },
            Response::Cancelled => {
                proof {
                    reveal_strlit("");
                }
                ""
            },
        }
    }

    /// Spans parsed so far (none for failed and cancelled turns).
    pub fn translations(&self) -> (t: &[TranslationSpan])
        ensures
            t@ == match *self {
                Response::Streaming { translations, .. } => translations@,
                Response::Completed { translations, .. } => translations@,
                _ => Seq::<TranslationSpan>::empty(),
            },
    {
        match self {
            Response::Streaming { translations, .. } => translations.as_slice(),
            Response::Completed { translations, .. } => translations.as_slice(),
            Response::Errored(_) => &[],
            Response::Cancelled => &[],
        }
    }

    /// Whether the turn is over (anything but streaming).
    pub fn is_terminal(&self) -> (b: bool)
        ensures
            b == !(*self is Streaming),
    {
        match self {
            Response::Streaming { .. } => false,
            _ => true,
        }
    }
}

/// One exchange as the UI sees it.
#[derive(Debug)]
pub struct ExchangeView {
    pub id: ExchangeId,
    pub model: String,
    pub user_message: Message,
    pub response: Response,
    pub usage: Option<Usage>,
    /// Segments submitted for translation.
    pub segments: Vec<String>,
}

/// State of the chat translator.
#[derive(Debug)]
pub struct ChatState {
    pub context: VecDeque<ContextMessage>,
    /// Identifier the next context message gets.
    pub next_msg_id: u64,
    pub exchanges: Vec<ExchangeView>,
    pub models: Vec<String>,
    pub last_error: Option<String>,
}

/// Changes to the context buffer requested from the UI.
#[derive(Debug)]
pub enum ContextEdit {
    Insert { idx: usize, message: Message },
    Delete(usize),
    Swap(usize, usize),
    SetContent { idx: usize, content: String },
    SetRole { idx: usize, role: Role },
    SetName { idx: usize, name: Option<String> },
}

/// Events from the adapter tasks (and the synchronous start of a
/// translation).
#[derive(Debug)]
pub enum ChatEvent {
    Started { id: ExchangeId, model: String, user_message: Message, segments: Vec<String> },
    Delta { id: ExchangeId, content: String },
    Completed { id: ExchangeId, usage: Option<Usage>, max_context_tokens: [u32; 2] },
    Failed { id: ExchangeId, error: String },
    Cancelled { id: ExchangeId },
    ModelsRefreshed(Vec<String>),
    Error(String),
}

/// Position of the first exchange with `id`.
pub open spec fn exchange_index(ex: Seq<ExchangeView>, id: ExchangeId) -> Option<int>
    decreases ex.len(),
{
    if ex.len() == 0 {
        None
    } else if ex[0].id == id {
        Some(0)
    } else {
        match exchange_index(ex.drop_first(), id) {
            Some(k) => Some(k + 1),
            None => None,
        }
    }
}

proof fn lemma_exchange_index(ex: Seq<ExchangeView>, id: ExchangeId)
    ensures
        match exchange_index(ex, id) {
            Some(k) => 0 <= k < ex.len() && ex[k].id == id && forall|j: int|
                0 <= j < k ==> ex[j].id != id,
            None => forall|j: int| 0 <= j < ex.len() ==> ex[j].id != id,
        },
    decreases ex.len(),
{
    if ex.len() > 0 && ex[0].id != id {
        lemma_exchange_index(ex.drop_first(), id);
        assert forall|j: int| 1 <= j < ex.len() implies ex[j].id == ex.drop_first()[j - 1].id by {}
    }
}

fn find_exchange(ex: &Vec<ExchangeView>, id: ExchangeId) -> (r: Option<usize>)
    ensures
        match r {
            Some(i) => exchange_index(ex@, id) == Some(i as int) && i < ex@.len(),
            None => exchange_index(ex@, id) is None,
        },
{
    proof {
        lemma_exchange_index(ex@, id);
    }
    let mut i: usize = 0;
    while i < ex.len()
        invariant
            i <= ex@.len(),
            forall|j: int| 0 <= j < i ==> ex@[j].id != id,
            match exchange_index(ex@, id) {
                Some(k) => 0 <= k < ex@.len() && ex@[k].id == id && forall|j: int|
                    0 <= j < k ==> ex@[j].id != id,
                None => forall|j: int| 0 <= j < ex@.len() ==> ex@[j].id != id,
            },
        decreases ex@.len() - i,
    {
        if ex[i].id == id {
            return Some(i);
        }
        i = i + 1;
    }
    None
}

/// Tokens of the messages of a context buffer.
pub open spec fn ctx_tokens(ctx: Seq<ContextMessage>) -> nat {
    tokens_of(ctx.map_values(|c: ContextMessage| c.message))
}

/// Index of the first user message at or after `idx`.
pub open spec fn next_user_ctx(ctx: Seq<ContextMessage>, idx: int) -> int
    decreases ctx.len() - idx,
{
    if idx < 0 || idx >= ctx.len() {
        ctx.len() as int
    } else if ctx[idx].message.role == Role::User {
        idx
    } else {
        next_user_ctx(ctx, idx + 1)
    }
}

pub proof fn lemma_next_user_ctx(ctx: Seq<ContextMessage>, idx: int)
    requires
        0 <= idx <= ctx.len(),
    ensures
        idx <= next_user_ctx(ctx, idx) <= ctx.len(),
        next_user_ctx(ctx, idx) < ctx.len() ==> ctx[next_user_ctx(ctx, idx)].message.role == Role::User,
        forall|k: int| idx <= k < next_user_ctx(ctx, idx) ==> ctx[k].message.role != Role::User,
    decreases ctx.len() - idx,
{
    if idx < ctx.len() && ctx[idx].message.role != Role::User {
        lemma_next_user_ctx(ctx, idx + 1);
    }
}

/// Trimming of the context buffer with the scan at `idx`: while over
/// `limit`, a named (pinned) message is skipped; any other is removed
/// together with the non-user messages after it, so the buffer resumes at a
/// user turn.
pub open spec fn trim_ctx(ctx: Seq<ContextMessage>, idx: int, limit: nat) -> Seq<ContextMessage>
    decreases ctx.len() - idx,
{
    if idx < 0 || ctx_tokens(ctx) <= limit || idx >= ctx.len() {
        ctx
    } else if ctx[idx].message.name is Some {
        trim_ctx(ctx, idx + 1, limit)
    } else {
        let r = ctx.remove(idx);
        proof {
            lemma_next_user_ctx(r, idx);
        }
        trim_ctx(r.take(idx) + r.skip(next_user_ctx(r, idx)), idx, limit)
    }
}

/// The context after enforcing the limits `[target, threshold]`: nothing
/// happens while the buffer is within `threshold`; otherwise it is trimmed
/// down to `target`.
pub open spec fn enforce_limits(ctx: Seq<ContextMessage>, limits: [u32; 2]) -> Seq<ContextMessage> {
    if ctx_tokens(ctx) <= limits[1] as nat {
        ctx
    } else {
        trim_ctx(ctx, 0, limits[0] as nat)
    }
}

proof fn lemma_ctx_tokens_push(s: Seq<ContextMessage>, c: ContextMessage)
    ensures
        ctx_tokens(s.push(c)) == ctx_tokens(s) + message_tokens(c.message),
{
    let m = s.map_values(|c: ContextMessage| c.message);
    assert(s.push(c).map_values(|c: ContextMessage| c.message) =~= m.push(c.message));
    crate::chat_buffer::lemma_tokens_of_push(m, c.message);
}

fn count_tokens(ctx: &VecDeque<ContextMessage>) -> (n: u64)
    ensures
        n == sat_u64(ctx_tokens(ctx@) as int),
{
    let mut acc: u64 = 0;
    let mut i: usize = 0;
    while i < ctx.len()
        invariant
            i <= ctx@.len(),
            acc == sat_u64(ctx_tokens(ctx@.take(i as int)) as int),
        decreases ctx@.len() - i,
    {
        let t = ctx[i].message.tokens_u64();
        proof {
            assert(ctx@.take(i + 1) =~= ctx@.take(i as int).push(ctx@[i as int]));
            lemma_ctx_tokens_push(ctx@.take(i as int), ctx@[i as int]);
        }
        if acc > u64::MAX - t {
            acc = u64::MAX;
        } else {
            acc = acc + t;
        }
        i = i + 1;
    }
    assert(ctx@.take(i as int) =~= ctx@);
    acc
}

/// Trims the oldest unpinned messages until the buffer is within
/// `limits[0]`, once it has grown past `limits[1]` (see [`enforce_limits`]).
pub fn enforce_context_limit(context: &mut VecDeque<ContextMessage>, limits: &[u32; 2])
    ensures
        final(context)@ == enforce_limits(old(context)@, *limits),
{
    let threshold = limits[1];
    let target = limits[0];
    if count_tokens(context) <= threshold as u64 {
        return;
    }
    let ghost start = context@;
    let mut idx: usize = 0;
    loop
        invariant
            idx <= context@.len(),
            trim_ctx(start, 0, target as nat) == trim_ctx(context@, idx as int, target as nat),
        ensures
            trim_ctx(start, 0, target as nat) == context@,
        decreases context@.len() - idx,
    {
        let total = count_tokens(context);
        if !(total > target as u64 && idx < context.len()) {
            break;
        }
        if context[idx].message.name.is_some() {
            idx = idx + 1;
            continue;
        }
        context.remove(idx);
        let ghost mid = context@;
        proof {
            lemma_next_user_ctx(mid, idx as int);
        }
        let ghost mut r: int = 0;
        assert(context@ =~= mid.take(idx as int) + mid.skip(idx + r));
        while idx < context.len() && context[idx].message.role != Role::User
            invariant
                idx <= mid.len(),
                0 <= r,
                idx + r <= next_user_ctx(mid, idx as int) <= mid.len(),
                context@ == mid.take(idx as int) + mid.skip(idx + r),
                forall|k: int|
                    idx <= k < next_user_ctx(mid, idx as int) ==> mid[k].message.role != Role::User,
                next_user_ctx(mid, idx as int) < mid.len() ==> mid[next_user_ctx(
                    mid,
                    idx as int,
                )].message.role == Role::User,
            decreases context@.len() - idx,
        {
            context.remove(idx);
            proof {
                r = r + 1;
                assert(context@ =~= mid.take(idx as int) + mid.skip(idx + r));
            }
        }
        proof {
            if idx + r < next_user_ctx(mid, idx as int) {
                assert(context@[idx as int] == mid[idx + r]);
            }
            assert(context@ =~= mid.take(idx as int) + mid.skip(next_user_ctx(mid, idx as int)));
        }
    }
}

/// The texts of `spans` joined by single spaces.
pub open spec fn join_texts(spans: Seq<TranslationSpan>) -> Seq<char>
    decreases spans.len(),
{
    if spans.len() == 0 {
        Seq::empty()
    } else if spans.len() == 1 {
        spans[0].text@
    } else {
        join_texts(spans.drop_last()) + seq![' '] + spans.last().text@
    }
}

fn join_span_texts(spans: &Vec<TranslationSpan>) -> (s: String)
    ensures
        s@ == join_texts(spans@),
{
    let mut s = String::new();
    let mut i: usize = 0;
    while i < spans.len()
        invariant
            i <= spans@.len(),
            s@ == join_texts(spans@.take(i as int)),
        decreases spans@.len() - i,
    {
        if i > 0 {
            push_char(&mut s, ' ');
        }
        push_str(&mut s, spans[i].text.as_str());
        assert(spans@.take(i + 1).drop_last() =~= spans@.take(i as int));
        proof {
            if i == 0 {
                assert(spans@.take(1)[0] == spans@[0]);
            }
        }
        i = i + 1;
    }
    assert(spans@.take(i as int) =~= spans@);
    s
}

/// The assistant message recorded in the context for a finished exchange:
/// the span texts joined by spaces, or the raw output when no span parsed.
pub open spec fn assistant_text(content: Seq<char>, spans: Seq<TranslationSpan>) -> Seq<char> {
    if spans.len() == 0 {
        content
    } else {
        join_texts(spans)
    }
}

/// Spans read from a response, as triples.
pub open spec fn triples(spans: Seq<TranslationSpan>) -> Seq<(nat, nat, Seq<char>)> {
    spans.map_values(|s: TranslationSpan| span_triple(s))
}

/// Every message of `ctx` has a distinct identifier below `next`.
pub open spec fn ids_fresh_in(ctx: Seq<ContextMessage>, next: u64) -> bool {
    &&& forall|k: int| 0 <= k < ctx.len() ==> (#[trigger] ctx[k]).id.0 < next
    &&& forall|a: int, b: int| 0 <= a < ctx.len() && 0 <= b < ctx.len() && a != b ==> (#[trigger] ctx[a]).id != (#[trigger] ctx[b]).id
}

impl ChatState {
    /// A state with no context, exchanges or models.
    pub fn new() -> (s: Self)
        ensures
            s.context@ == Seq::<ContextMessage>::empty(),
            s.exchanges@ == Seq::<ExchangeView>::empty(),
            s.models@ == Seq::<String>::empty(),
            s.last_error is None,
            s.spec_next_msg_id() == 0,
    {
        ChatState {
            context: VecDeque::new(),
            next_msg_id: 0,
            exchanges: Vec::new(),
            models: Vec::new(),
            last_error: None,
        }
    }

    /// The identifier the next context message will get.
    pub open spec fn spec_next_msg_id(&self) -> u64 {
        self.next_msg_id
    }

    /// Every context message has a distinct identifier below the next one
    /// to be handed out.
    pub open spec fn ids_fresh(&self) -> bool {
        ids_fresh_in(self.context@, self.next_msg_id)
    }

    /// The first exchange with `id`.
    pub fn exchange(&self, id: ExchangeId) -> (r: Option<&ExchangeView>)
        ensures
            match exchange_index(self.exchanges@, id) {
                Some(k) => r == Some(&self.exchanges@[k]),
                None => r is None,
            },
    {
        match find_exchange(&self.exchanges, id) {
            Some(i) => Some(&self.exchanges[i]),
            None => None,
        }
    }

    fn mint_id(&mut self) -> (id: MsgId)
        requires
            old(self).spec_next_msg_id() < u64::MAX,
        ensures
            id.0 == old(self).spec_next_msg_id(),
            final(self).spec_next_msg_id() == old(self).spec_next_msg_id() + 1,
            final(self).context == old(self).context,
            final(self).exchanges == old(self).exchanges,
            final(self).models == old(self).models,
            final(self).last_error == old(self).last_error,
    {
        let id = MsgId(self.next_msg_id);
        self.next_msg_id = self.next_msg_id + 1;
        id
    }

    fn push_back(&mut self, message: Message)
        requires
            old(self).spec_next_msg_id() < u64::MAX,
        ensures
            final(self).context@ == old(self).context@.push(
                ContextMessage { id: MsgId(old(self).spec_next_msg_id()), message },
            ),
            final(self).spec_next_msg_id() == old(self).spec_next_msg_id() + 1,
            final(self).exchanges == old(self).exchanges,
            final(self).models == old(self).models,
            final(self).last_error == old(self).last_error,
    {
        let id = self.mint_id();
        self.context.push_back(ContextMessage { id, message });
    }
}

} // verus!

verus! {

/// The messages sent for a turn: the system prompt, the context, the user
/// message.
pub open spec fn prompt_of(
    ctx: Seq<ContextMessage>,
    system_prompt: Seq<char>,
    user: Message,
) -> Seq<(Role, Option<Seq<char>>, Option<Seq<char>>)> {
    seq![(Role::System, Some(system_prompt), None::<Seq<char>>)] + ctx.map_values(
        |c: ContextMessage| message_view(c.message),
    ) + seq![message_view(user)]
}

/// A message as role, content text and name text.
pub open spec fn message_view(m: Message) -> (Role, Option<Seq<char>>, Option<Seq<char>>) {
    (
        m.role,
        match m.content {
            Some(c) => Some(c@),
            None => None,
        },
        match m.name {
            Some(n) => Some(n@),
            None => None,
        },
    )
}

/// Views of a sequence of messages.
pub open spec fn messages_view(ms: Seq<Message>) -> Seq<(Role, Option<Seq<char>>, Option<Seq<char>>)> {
    ms.map_values(|m: Message| message_view(m))
}

/// Builds the plain prompt of a turn (see [`prompt_of`]).
pub fn build_prompt(state: &ChatState, system_prompt: &str, user: &Message) -> (p: Vec<Message>)
    ensures
        messages_view(p@) == prompt_of(state.context@, system_prompt@, *user),
{
    let mut prompt: Vec<Message> = Vec::new();
    prompt.push(
        Message { role: Role::System, content: Some(String::from_str(system_prompt)), name: None },
    );
    let mut i: usize = 0;
    while i < state.context.len()
        invariant
            i <= state.context@.len(),
            messages_view(prompt@) == seq![(Role::System, Some(system_prompt@), None::<Seq<char>>)]
                + state.context@.take(i as int).map_values(|c: ContextMessage| message_view(c.message)),
        decreases state.context@.len() - i,
    {
        let ghost before = messages_view(prompt@);
        prompt.push(state.context[i].message.clone());
        assert(messages_view(prompt@) =~= before.push(message_view(state.context@[i as int].message)));
        assert(state.context@.take(i + 1) =~= state.context@.take(i as int).push(state.context@[i as int]));
        assert(messages_view(prompt@) =~= seq![(Role::System, Some(system_prompt@), None::<Seq<char>>)]
            + state.context@.take(i + 1).map_values(|c: ContextMessage| message_view(c.message)));
        i = i + 1;
    }
    let ghost before = messages_view(prompt@);
    prompt.push(user.clone());
    assert(messages_view(prompt@) =~= before.push(message_view(*user)));
    assert(state.context@.take(i as int) =~= state.context@);
    assert(messages_view(prompt@) =~= prompt_of(state.context@, system_prompt@, *user));
    prompt
}

/// The numbered segment list: `<i>\t<segment>\n` for each segment.
pub open spec fn segment_list(segments: Seq<String>) -> Seq<char>
    decreases segments.len(),
{
    if segments.len() == 0 {
        Seq::empty()
    } else {
        segment_list(segments.drop_last()) + crate::text::decimal((segments.len() - 1) as nat)
            + seq!['\t'] + segments.last()@ + seq!['\n']
    }
}

/// `s` without its trailing newlines (`trim_end_matches('\n')`).
pub open spec fn trim_trailing_newlines(s: Seq<char>) -> Seq<char>
    decreases s.len(),
{
    if s.len() > 0 && s.last() == '\n' {
        trim_trailing_newlines(s.drop_last())
    } else {
        s
    }
}

/// The prompt of a segment translation: the plain prompt with the format
/// instruction inserted as a system message just before the user turn, and
/// the user turn's content replaced by the numbered segment list.
pub open spec fn segment_prompt_of(
    ctx: Seq<ContextMessage>,
    system_prompt: Seq<char>,
    user: Message,
    segments: Seq<String>,
) -> Seq<(Role, Option<Seq<char>>, Option<Seq<char>>)> {
    let base = prompt_of(ctx, system_prompt, user);
    let n = base.len() - 1;
    base.take(n) + seq![(Role::System, Some(SEGMENT_INSTRUCTION@), None::<Seq<char>>)] + seq![
        (user.role, Some(trim_trailing_newlines(segment_list(segments))), message_view(user).2),
    ]
}

/// Builds the prompt of a segment translation (see [`segment_prompt_of`]).
pub fn build_segment_prompt(
    state: &ChatState,
    system_prompt: &str,
    user: &Message,
    segments: &Vec<String>,
) -> (p: Vec<Message>)
    ensures
        messages_view(p@) == segment_prompt_of(state.context@, system_prompt@, *user, segments@),
{
    let mut prompt = build_prompt(state, system_prompt, user);
    let mut body = String::new();
    let mut i: usize = 0;
    while i < segments.len()
        invariant
            i <= segments@.len(),
            body@ == segment_list(segments@.take(i as int)),
        decreases segments@.len() - i,
    {
        push_decimal(&mut body, i);
        push_char(&mut body, '\t');
        push_str(&mut body, segments[i].as_str());
        push_char(&mut body, '\n');
        assert(segments@.take(i + 1).drop_last() =~= segments@.take(i as int));
        i = i + 1;
    }
    assert(segments@.take(i as int) =~= segments@);
    let body = trim_newlines_end(body);
    let ghost before = messages_view(prompt@);
    assert(before.len() == prompt@.len());
    let user_idx = prompt.len() - 1;
    let instruction = Message {
        role: Role::System,
        content: Some(String::from_str(SEGMENT_INSTRUCTION)),
        name: None,
    };
    let ghost instr_view = message_view(instruction);
    assert(instr_view == (Role::System, Some(SEGMENT_INSTRUCTION@), None::<Seq<char>>));
    let ghost p0 = prompt@;
    assert(before[user_idx as int] == message_view(p0[user_idx as int]));
    assert(before[user_idx as int] == message_view(*user));
    prompt.insert(user_idx, instruction);
    assert(prompt@[user_idx + 1] == p0[user_idx as int]);
    let new_user_idx = prompt.len() - 1;
    let mut last = prompt.remove(new_user_idx);
    assert(message_view(last) == message_view(*user));
    let ghost mid = messages_view(prompt@);
    assert(mid =~= before.take(user_idx as int).push(instr_view));
    last.content = Some(body);
    prompt.push(last);
    assert(messages_view(prompt@) =~= mid.push(message_view(last)));
    assert(messages_view(prompt@) =~= segment_prompt_of(
        state.context@,
        system_prompt@,
        *user,
        segments@,
    ));
    prompt
}

fn trim_newlines_end(s: String) -> (t: String)
    ensures
        t@ == trim_trailing_newlines(s@),
{
    let v = crate::text::chars_of(s.as_str());
    let mut j = v.len();
    assert(v@.take(j as int) =~= v@);
    while j > 0 && v[j - 1] == '\n'
        invariant
            j <= v@.len(),
            trim_trailing_newlines(v@) == trim_trailing_newlines(v@.take(j as int)),
        decreases j,
    {
        assert(v@.take(j as int).drop_last() =~= v@.take(j - 1));
        j = j - 1;
    }
    proof {
        if j > 0 {
            assert(v@.take(j as int).last() == v@[j - 1]);
        }
    }
    crate::text::string_of(&v, 0, j)
}

/// The context after a context edit, given the identifier the next message
/// gets: inserts clamp the position to the end and take the next
/// identifier; the other edits apply only at positions in range.
pub open spec fn edited_context(ctx: Seq<ContextMessage>, next: u64, edit: ContextEdit) -> Seq<ContextMessage> {
    match edit {
        ContextEdit::Insert { idx, message } => {
            let i = if idx < ctx.len() {
                idx as int
            } else {
                ctx.len() as int
            };
            ctx.insert(i, ContextMessage { id: MsgId(next), message })
        },
        ContextEdit::Delete(idx) => if idx < ctx.len() {
            ctx.remove(idx as int)
        } else {
            ctx
        },
        ContextEdit::Swap(a, b) => if a < ctx.len() && b < ctx.len() {
            ctx.update(a as int, ctx[b as int]).update(b as int, ctx[a as int])
        } else {
            ctx
        },
        ContextEdit::SetContent { idx, content } => if idx < ctx.len() {
            ctx.update(
                idx as int,
                ContextMessage {
                    id: ctx[idx as int].id,
                    message: Message {
                        role: ctx[idx as int].message.role,
                        content: Some(content),
                        name: ctx[idx as int].message.name,
                    },
                },
            )
        } else {
            ctx
        },
        ContextEdit::SetRole { idx, role } => if idx < ctx.len() {
            ctx.update(
                idx as int,
                ContextMessage {
                    id: ctx[idx as int].id,
                    message: Message {
                        role,
                        content: ctx[idx as int].message.content,
                        name: ctx[idx as int].message.name,
                    },
                },
            )
        } else {
            ctx
        },
        ContextEdit::SetName { idx, name } => if idx < ctx.len() {
            ctx.update(
                idx as int,
                ContextMessage {
                    id: ctx[idx as int].id,
                    message: Message {
                        role: ctx[idx as int].message.role,
                        content: ctx[idx as int].message.content,
                        name,
                    },
                },
            )
        } else {
            ctx
        },
    }
}

/// Applies an edit to the context buffer (see [`edited_context`]). Only an
/// insert hands out an identifier.
pub fn apply_edit(state: &mut ChatState, edit: ContextEdit)
    requires
        edit is Insert ==> old(state).next_msg_id < u64::MAX,
    ensures
        final(state).context@ == edited_context(old(state).context@, old(state).next_msg_id, edit),
        final(state).next_msg_id == if edit is Insert {
            old(state).next_msg_id + 1
        } else {
            old(state).next_msg_id as int
        },
        final(state).exchanges == old(state).exchanges,
        final(state).models == old(state).models,
        final(state).last_error == old(state).last_error,
{
    let len = state.context.len();
    match edit {
        ContextEdit::Insert { idx, message } => {
            let i = if idx < len {
                idx
            } else {
                len
            };
            let id = MsgId(state.next_msg_id);
            state.next_msg_id = state.next_msg_id + 1;
            state.context.insert(i, ContextMessage { id, message });
        },
        ContextEdit::Delete(idx) => {
            if idx < len {
                state.context.remove(idx);
            }
        },
        ContextEdit::Swap(a, b) => {
            if a < len && b < len && a != b {
                let (lo, hi) = if a < b {
                    (a, b)
                } else {
                    (b, a)
                };
                let ghost c = state.context@;
                let x_hi = state.context.remove(hi).unwrap();
                let x_lo = state.context.remove(lo).unwrap();
                state.context.insert(lo, x_hi);
                state.context.insert(hi, x_lo);
                assert(state.context@ =~= c.update(a as int, c[b as int]).update(b as int, c[a as int]));
            } else if a < len && b < len {
                assert(state.context@ =~= state.context@.update(a as int, state.context@[b as int]).update(
                    b as int,
                    state.context@[a as int],
                ));
            }
        },
        ContextEdit::SetContent { idx, content } => {
            if idx < len {
                let mut entry = state.context.remove(idx).unwrap();
                entry.message.content = Some(content);
                state.context.insert(idx, entry);
            }
        },
        ContextEdit::SetRole { idx, role } => {
            if idx < len {
                let mut entry = state.context.remove(idx).unwrap();
                entry.message.role = role;
                state.context.insert(idx, entry);
            }
        },
        ContextEdit::SetName { idx, name } => {
            if idx < len {
                let mut entry = state.context.remove(idx).unwrap();
                entry.message.name = name;
                state.context.insert(idx, entry);
            }
        },
    }
}

} // verus!

verus! {

/// Raw output of a response (empty for failed and cancelled turns).
pub open spec fn response_content(r: Response) -> Seq<char> {
    match r {
        Response::Streaming { content, .. } => content@,
        Response::Completed { content, .. } => content@,
        _ => Seq::empty(),
    }
}

/// Spans of a response (none for failed and cancelled turns).
pub open spec fn response_translations(r: Response) -> Seq<TranslationSpan> {
    match r {
        Response::Streaming { translations, .. } => translations@,
        Response::Completed { translations, .. } => translations@,
        _ => Seq::empty(),
    }
}

/// Two exchanges agree on everything but the response and usage.
pub open spec fn same_request(a: ExchangeView, b: ExchangeView) -> bool {
    &&& a.id == b.id
    &&& a.model == b.model
    &&& a.user_message == b.user_message
    &&& a.segments == b.segments
}

/// `new` is `old` after the streamed text `delta`: a streaming response
/// gets the text appended and its spans re-read from the whole output; a
/// finished one is left alone.
pub open spec fn delta_applied(
    old: ExchangeView,
    new: ExchangeView,
    delta: Seq<char>,
    parsed: Seq<Option<TranslationSpan>>,
) -> bool {
    &&& same_request(old, new)
    &&& new.usage == old.usage
    &&& if old.response is Streaming {
        &&& new.response is Streaming
        &&& response_content(new.response) == response_content(old.response) + delta
        &&& triples(response_translations(new.response)) == segment_translations(
            response_content(new.response),
            old.segments@.len() as nat,
            parsed,
        )
    } else {
        new.response == old.response
    }
}

/// `new` is `old` completed with `usage`: the output so far becomes the
/// final output with its spans re-read.
pub open spec fn completion_applied(
    old: ExchangeView,
    new: ExchangeView,
    usage: Option<Usage>,
    parsed: Seq<Option<TranslationSpan>>,
) -> bool {
    &&& same_request(old, new)
    &&& new.usage == usage
    &&& new.response is Completed
    &&& response_content(new.response) == response_content(old.response)
    &&& triples(response_translations(new.response)) == segment_translations(
        response_content(old.response),
        old.segments@.len() as nat,
        parsed,
    )
}

/// `new` equals `old` except at `k`.
pub open spec fn same_except(old: Seq<ExchangeView>, new: Seq<ExchangeView>, k: int) -> bool {
    &&& new.len() == old.len()
    &&& forall|j: int| 0 <= j < old.len() && j != k ==> new[j] == old[j]
}

/// The context after a completed exchange: the user message and the
/// assistant message, with the next two identifiers, appended and the
/// limits enforced.
pub open spec fn completed_context(
    ctx: Seq<ContextMessage>,
    next: u64,
    user: Message,
    assistant: Message,
    limits: [u32; 2],
) -> Seq<ContextMessage> {
    enforce_limits(
        ctx.push(ContextMessage { id: MsgId(next), message: user }).push(
            ContextMessage { id: MsgId((next + 1) as u64), message: assistant },
        ),
        limits,
    )
}

/// `m` is the assistant message recorded for output `content` with spans
/// `spans`.
pub open spec fn is_assistant_record(m: Message, content: Seq<char>, spans: Seq<TranslationSpan>) -> bool {
    &&& m.role == Role::Assistant
    &&& m.name is None
    &&& m.content is Some
    &&& m.content->0@ == assistant_text(content, spans)
}

/// How an event changes the state. `parsed` is the JSON parser's reading
/// of the completed lines of the affected exchange's output after the event
/// (used by `Delta` and `Completed`).
pub open spec fn reduced(
    old: ChatState,
    new: ChatState,
    event: ChatEvent,
    parsed: Seq<Option<TranslationSpan>>,
) -> bool {
    match event {
        ChatEvent::Started { id, model, user_message, segments } => {
            &&& new.context == old.context
            &&& new.next_msg_id == old.next_msg_id
            &&& new.models == old.models
            &&& new.last_error == old.last_error
            &&& new.exchanges@.len() == old.exchanges@.len() + 1
            &&& new.exchanges@.take(old.exchanges@.len() as int) == old.exchanges@
            &&& new.exchanges@.last().id == id
            &&& new.exchanges@.last().model == model
            &&& new.exchanges@.last().user_message == user_message
            &&& new.exchanges@.last().segments == segments
            &&& new.exchanges@.last().usage is None
            &&& new.exchanges@.last().response is Streaming
            &&& response_content(new.exchanges@.last().response) == Seq::<char>::empty()
            &&& response_translations(new.exchanges@.last().response) == Seq::<TranslationSpan>::empty()
        },
        ChatEvent::Delta { id, content } => match exchange_index(old.exchanges@, id) {
            None => new == old,
            Some(k) => {
                &&& new.context == old.context
                &&& new.next_msg_id == old.next_msg_id
                &&& new.models == old.models
                &&& new.last_error == old.last_error
                &&& same_except(old.exchanges@, new.exchanges@, k)
                &&& delta_applied(old.exchanges@[k], new.exchanges@[k], content@, parsed)
            },
        },
        ChatEvent::Completed { id, usage, max_context_tokens } => match exchange_index(
            old.exchanges@,
            id,
        ) {
            None => new == old,
            Some(k) => if old.exchanges@[k].response is Streaming {
                &&& new.models == old.models
                &&& new.last_error == old.last_error
                &&& new.next_msg_id == old.next_msg_id + 2
                &&& same_except(old.exchanges@, new.exchanges@, k)
                &&& completion_applied(old.exchanges@[k], new.exchanges@[k], usage, parsed)
                &&& exists|a: Message|
                    is_assistant_record(
                        a,
                        response_content(old.exchanges@[k].response),
                        response_translations(new.exchanges@[k].response),
                    ) && new.context@ == #[trigger] completed_context(
                        old.context@,
                        old.next_msg_id,
                        old.exchanges@[k].user_message,
                        a,
                        max_context_tokens,
                    )
            } else {
                new == old
            },
        },
        ChatEvent::Failed { id, error } => {
            &&& new.context == old.context
            &&& new.next_msg_id == old.next_msg_id
            &&& new.models == old.models
            &&& new.last_error == Some(error)
            &&& match exchange_index(old.exchanges@, id) {
                None => new.exchanges == old.exchanges,
                Some(k) => {
                    &&& same_except(old.exchanges@, new.exchanges@, k)
                    &&& same_request(old.exchanges@[k], new.exchanges@[k])
                    &&& new.exchanges@[k].usage == old.exchanges@[k].usage
                    &&& new.exchanges@[k].response is Errored
                    &&& new.exchanges@[k].response->Errored_0@ == error@
                },
            }
        },
        ChatEvent::Cancelled { id } => match exchange_index(old.exchanges@, id) {
            None => new == old,
            Some(k) => if old.exchanges@[k].response is Streaming {
                &&& new.context == old.context
                &&& new.next_msg_id == old.next_msg_id
                &&& new.models == old.models
                &&& new.last_error == old.last_error
                &&& same_except(old.exchanges@, new.exchanges@, k)
                &&& same_request(old.exchanges@[k], new.exchanges@[k])
                &&& new.exchanges@[k].usage == old.exchanges@[k].usage
                &&& new.exchanges@[k].response is Cancelled
            } else {
                new == old
            },
        },
        ChatEvent::ModelsRefreshed(models) => {
            &&& new.context == old.context
            &&& new.next_msg_id == old.next_msg_id
            &&& new.exchanges == old.exchanges
            &&& new.last_error == old.last_error
            &&& new.models == models
        },
        ChatEvent::Error(e) => {
            &&& new.context == old.context
            &&& new.next_msg_id == old.next_msg_id
            &&& new.exchanges == old.exchanges
            &&& new.models == old.models
            &&& new.last_error == Some(e)
        },
    }
}

/// Whether `event` completes an exchange of `exchanges` that is still
/// streaming: the one event that hands out identifiers (two of them).
pub open spec fn completes_streaming(exchanges: Seq<ExchangeView>, event: ChatEvent) -> bool {
    &&& event matches ChatEvent::Completed { id, .. }
    &&& exchange_index(exchanges, id) matches Some(k)
    &&& exchanges[k].response is Streaming
}

/// Applies an event to the state (see [`reduced`]).
pub fn reduce(state: &mut ChatState, event: ChatEvent, parsed: &Vec<Option<TranslationSpan>>)
    requires
        completes_streaming(old(state).exchanges@, event) ==> old(state).next_msg_id < u64::MAX - 1,
    ensures
        reduced(*old(state), *final(state), event, parsed@),
{
    match event {
        ChatEvent::Started { id, model, user_message, segments } => {
            let ghost before = state.exchanges@;
            state.exchanges.push(
                ExchangeView {
                    id,
                    model,
                    user_message,
                    response: Response::Streaming { content: String::new(), translations: Vec::new() },
                    usage: None,
                    segments,
                },
            );
            assert(state.exchanges@.take(before.len() as int) =~= before);
        },
        ChatEvent::Delta { id, content } => {
            let found = find_exchange(&state.exchanges, id);
            if found.is_none() {
                return;
            }
            let k = found.unwrap();
            let ghost before = state.exchanges@;
            let ex = state.exchanges.remove(k);
            let ExchangeView { id: ex_id, model, user_message, response, usage, segments } = ex;
            let seg_len = segments.len();
            let new_response = match response {
                Response::Streaming { content: acc, translations: _ } => {
                    let mut acc = acc;
                    push_str(&mut acc, content.as_str());
                    let translations = parse_segment_translations(acc.as_str(), seg_len, parsed);
                    Response::Streaming { content: acc, translations }
                },
                other => other,
            };
            state.exchanges.insert(
                k,
                ExchangeView { id: ex_id, model, user_message, response: new_response, usage, segments },
            );
            assert(same_except(before, state.exchanges@, k as int));
        },
        ChatEvent::Completed { id, usage, max_context_tokens } => {
            let found = find_exchange(&state.exchanges, id);
            if found.is_none() {
                return;
            }
            let k = found.unwrap();
            if !state.exchanges[k].response.is_streaming() {
                return;
            }
            let ghost before = state.exchanges@;
            let ghost old_state = *state;
            let ex = state.exchanges.remove(k);
            let ExchangeView { id: ex_id, model, user_message, response, usage: _, segments } = ex;
            let content = match response {
                Response::Streaming { content, translations: _ } => content,
                Response::Completed { content, translations: _ } => content,
                Response::Errored(_) => String::new(),
                Response::Cancelled => String::new(),
            };
            let translations = parse_segment_translations(content.as_str(), segments.len(), parsed);
            let assistant_content = if translations.len() == 0 {
                content.clone()
            } else {
                join_span_texts(&translations)
            };
            let assistant = Message {
                role: Role::Assistant,
                content: Some(assistant_content),
                name: None,
            };
            let user_clone = user_message.clone();
            let ghost spans = translations@;
            state.exchanges.insert(
                k,
                ExchangeView {
                    id: ex_id,
                    model,
                    user_message,
                    response: Response::Completed { content, translations },
                    usage,
                    segments,
                },
            );
            assert(same_except(before, state.exchanges@, k as int));
            let ghost a = assistant;
            state.push_back(user_clone);
            state.push_back(assistant);
            enforce_context_limit(&mut state.context, &max_context_tokens);
            assert(is_assistant_record(a, response_content(before[k as int].response), spans));
            assert(state.context@ == completed_context(
                old_state.context@,
                old_state.next_msg_id,
                before[k as int].user_message,
                a,
                max_context_tokens,
            ));
        },
        ChatEvent::Failed { id, error } => {
            let found = find_exchange(&state.exchanges, id);
            if found.is_some() {
                let k = found.unwrap();
                let ghost before = state.exchanges@;
                let ex = state.exchanges.remove(k);
                let ExchangeView { id: ex_id, model, user_message, response: _, usage, segments } = ex;
                state.exchanges.insert(
                    k,
                    ExchangeView {
                        id: ex_id,
                        model,
                        user_message,
                        response: Response::Errored(error.clone()),
                        usage,
                        segments,
                    },
                );
                assert(same_except(before, state.exchanges@, k as int));
            }
            state.last_error = Some(error);
        },
        ChatEvent::Cancelled { id } => {
            let found = find_exchange(&state.exchanges, id);
            if found.is_none() {
                return;
            }
            let k = found.unwrap();
            if !state.exchanges[k].response.is_streaming() {
                return;
            }
            let ghost before = state.exchanges@;
            let ex = state.exchanges.remove(k);
            let ExchangeView { id: ex_id, model, user_message, response: _, usage, segments } = ex;
            state.exchanges.insert(
                k,
                ExchangeView { id: ex_id, model, user_message, response: Response::Cancelled, usage, segments },
            );
            assert(same_except(before, state.exchanges@, k as int));
        },
        ChatEvent::ModelsRefreshed(models) => {
            state.models = models;
        },
        ChatEvent::Error(err) => {
            state.last_error = Some(err);
        },
    }
}

/// Records a translation whose adapter task now runs; an exchange already
/// in flight is recorded once.
pub fn mark_in_flight(in_flight: &mut Vec<ExchangeId>, id: ExchangeId)
    ensures
        final(in_flight)@ == if old(in_flight)@.contains(id) {
            old(in_flight)@
        } else {
            old(in_flight)@.push(id)
        },
{
    let mut k: usize = 0;
    while k < in_flight.len()
        invariant
            k <= in_flight@.len(),
            in_flight@ == old(in_flight)@,
            forall|j: int| 0 <= j < k ==> in_flight@[j] != id,
        decreases in_flight@.len() - k,
    {
        if in_flight[k] == id {
            assert(old(in_flight)@.contains(id));
            return;
        }
        k = k + 1;
    }
    in_flight.push(id);
}

/// Every exchange but `id`.
pub open spec fn other_than(id: ExchangeId) -> spec_fn(ExchangeId) -> bool {
    |x: ExchangeId| x != id
}

/// A cancel request: only an exchange whose task is in flight is cancelled.
/// It leaves the in-flight record and is reduced as cancelled; the result
/// says whether its task must be stopped. Any other request changes
/// nothing.
pub fn cancel_exchange(state: &mut ChatState, in_flight: &mut Vec<ExchangeId>, id: ExchangeId) -> (stop_task: bool)
    ensures
        stop_task == old(in_flight)@.contains(id),
        final(in_flight)@ == old(in_flight)@.filter(other_than(id)),
        stop_task ==> reduced(*old(state), *final(state), ChatEvent::Cancelled { id }, Seq::empty()),
        !stop_task ==> *final(state) == *old(state),
{
    let ghost before = in_flight@;
    let mut kept: Vec<ExchangeId> = Vec::new();
    let mut found = false;
    let mut k: usize = 0;
    proof {
        reveal(Seq::filter);
        assert(before.take(0) =~= Seq::<ExchangeId>::empty());
    }
    while k < in_flight.len()
        invariant
            k <= in_flight@.len(),
            in_flight@ == before,
            kept@ == before.take(k as int).filter(other_than(id)),
            found == before.take(k as int).contains(id),
        decreases in_flight@.len() - k,
    {
        let x = in_flight[k];
        proof {
            assert(before.take(k + 1).drop_last() =~= before.take(k as int));
            assert(before.take(k + 1).last() == x);
        }
        if x == id {
            found = true;
            proof {
                assert(before.take(k + 1)[k as int] == id);
                reveal(Seq::filter);
                assert(before.take(k + 1).filter(other_than(id)) == before.take(k as int).filter(other_than(id)));
            }
        } else {
            kept.push(x);
            proof {
                reveal(Seq::filter);
                assert(before.take(k + 1).filter(other_than(id)) == before.take(k as int).filter(other_than(id)).push(x));
            }
            proof {
                let t1 = before.take(k + 1);
                let t0 = before.take(k as int);
                if t1.contains(id) {
                    let j = choose|j: int| 0 <= j < t1.len() && #[trigger] t1[j] == id;
                    assert(t0[j] == id);
                }
            }
        }
        proof {
            let t1 = before.take(k + 1);
            let t0 = before.take(k as int);
            if t0.contains(id) {
                let j = choose|j: int| 0 <= j < t0.len() && #[trigger] t0[j] == id;
                assert(t1[j] == id);
            }
        }
        k = k + 1;
    }
    assert(before.take(k as int) =~= before);
    *in_flight = kept;
    if found {
        let none: Vec<Option<TranslationSpan>> = Vec::new();
        reduce(state, ChatEvent::Cancelled { id }, &none);
    }
    found
}

/// Clears the context buffer; exchanges, models and identifiers stay.
pub fn clear_context(state: &mut ChatState)
    ensures
        final(state).context@ == Seq::<ContextMessage>::empty(),
        final(state).next_msg_id == old(state).next_msg_id,
        final(state).exchanges == old(state).exchanges,
        final(state).models == old(state).models,
        final(state).last_error == old(state).last_error,
{
    state.context.clear();
}

/// The prompt of a turn sends every context message, in order, between the
/// system prompt and the user turn: it is two longer than the context, and
/// its message `k + 1` is context message `k`.
pub proof fn law_prompt_sends_the_whole_context(ctx: Seq<ContextMessage>, system_prompt: Seq<char>, user: Message)
    ensures
        prompt_of(ctx, system_prompt, user).len() == ctx.len() + 2,
        prompt_of(ctx, system_prompt, user)[0] == (Role::System, Some(system_prompt), None::<Seq<char>>),
        forall|k: int|
            0 <= k < ctx.len() ==> prompt_of(ctx, system_prompt, user)[k + 1] == message_view(
                (#[trigger] ctx[k]).message,
            ),
        prompt_of(ctx, system_prompt, user)[ctx.len() + 1int] == message_view(user),
{
    let p = prompt_of(ctx, system_prompt, user);
    let mid = ctx.map_values(|c: ContextMessage| message_view(c.message));
    assert forall|k: int| 0 <= k < ctx.len() implies p[k + 1] == message_view((#[trigger] ctx[k]).message) by {
        assert(p[k + 1] == mid[k]);
    }
}

/// The prompt of a segment translation sends the system prompt, every
/// context message in order, the format instruction, then the user turn
/// with its content replaced by the numbered segment list.
pub proof fn law_segment_prompt_layout(
    ctx: Seq<ContextMessage>,
    system_prompt: Seq<char>,
    user: Message,
    segments: Seq<String>,
)
    ensures
        segment_prompt_of(ctx, system_prompt, user, segments).len() == ctx.len() + 3,
        segment_prompt_of(ctx, system_prompt, user, segments)[0] == (Role::System, Some(system_prompt), None::<
            Seq<char>,
        >),
        forall|k: int|
            0 <= k < ctx.len() ==> segment_prompt_of(ctx, system_prompt, user, segments)[k + 1] == message_view(
                (#[trigger] ctx[k]).message,
            ),
        segment_prompt_of(ctx, system_prompt, user, segments)[ctx.len() + 1int] == (Role::System, Some(
            SEGMENT_INSTRUCTION@,
        ), None::<Seq<char>>),
        segment_prompt_of(ctx, system_prompt, user, segments)[ctx.len() + 2int] == (user.role, Some(
            trim_trailing_newlines(segment_list(segments)),
        ), message_view(user).2),
{
    law_prompt_sends_the_whole_context(ctx, system_prompt, user);
    let p = segment_prompt_of(ctx, system_prompt, user, segments);
    let base = prompt_of(ctx, system_prompt, user);
    assert forall|k: int| 0 <= k < ctx.len() implies p[k + 1] == message_view((#[trigger] ctx[k]).message) by {
        assert(p[k + 1] == base[k + 1]);
    }
}

/// In the numbered segment list, segment `k` has a line of its own, its
/// index `k`, a tab and its text, after the lines of the segments before it.
pub proof fn law_segment_list_numbers_each_segment(segments: Seq<String>, k: int)
    requires
        0 <= k < segments.len(),
    ensures
        segment_list(segments.take(k + 1)) == segment_list(segments.take(k)) + crate::text::decimal(k as nat)
            + seq!['\t'] + segments[k]@ + seq!['\n'],
{
    assert(segments.take(k + 1).drop_last() =~= segments.take(k));
    assert(segments.take(k + 1).last() == segments[k]);
}

/// When a finished exchange keeps the context within its threshold, the
/// context becomes the old one followed by the user turn and then the
/// reply, under the next two identifiers.
pub proof fn law_finished_turn_appends_user_then_reply(
    ctx: Seq<ContextMessage>,
    next: u64,
    user: Message,
    assistant: Message,
    limits: [u32; 2],
)
    requires
        next < u64::MAX,
        ctx_tokens(ctx) + message_tokens(user) + message_tokens(assistant) <= limits[1] as nat,
    ensures
        completed_context(ctx, next, user, assistant, limits).len() == ctx.len() + 2,
        completed_context(ctx, next, user, assistant, limits).take(ctx.len() as int) == ctx,
        completed_context(ctx, next, user, assistant, limits)[ctx.len() as int] == (ContextMessage {
            id: MsgId(next),
            message: user,
        }),
        completed_context(ctx, next, user, assistant, limits)[ctx.len() + 1int] == (ContextMessage {
            id: MsgId((next + 1) as u64),
            message: assistant,
        }),
{
    let c1 = ctx.push(ContextMessage { id: MsgId(next), message: user });
    let c2 = c1.push(ContextMessage { id: MsgId((next + 1) as u64), message: assistant });
    lemma_ctx_tokens_push(ctx, ContextMessage { id: MsgId(next), message: user });
    lemma_ctx_tokens_push(c1, ContextMessage { id: MsgId((next + 1) as u64), message: assistant });
    assert(c2.take(ctx.len() as int) =~= ctx);
}

/// A finished exchange whose response reads into no spans is recorded with
/// the raw response text as the assistant message.
pub proof fn law_assistant_record_without_spans_is_the_raw_reply(m: Message, content: Seq<char>)
    requires
        is_assistant_record(m, content, Seq::<TranslationSpan>::empty()),
    ensures
        m.role == Role::Assistant,
        m.content->0@ == content,
{
}

/// The characters the texts of `spans` take with one separator after each.
pub open spec fn spaced_len(spans: Seq<TranslationSpan>) -> nat
    decreases spans.len(),
{
    if spans.len() == 0 {
        0
    } else {
        spaced_len(spans.drop_last()) + spans.last().text@.len() + 1
    }
}

proof fn lemma_spaced_len_prefix(s: Seq<TranslationSpan>, k: int)
    requires
        0 <= k < s.len(),
    ensures
        spaced_len(s.take(k + 1)) == spaced_len(s.take(k)) + s[k].text@.len() + 1,
        spaced_len(s.take(k + 1)) <= spaced_len(s),
    decreases s.len(),
{
    assert(s.take(k + 1).drop_last() =~= s.take(k));
    if k + 1 < s.len() {
        lemma_spaced_len_prefix(s.drop_last(), k);
        assert(s.drop_last().take(k + 1) =~= s.take(k + 1));
        assert(s.drop_last().take(k) =~= s.take(k));
    } else {
        assert(s.take(k + 1) =~= s);
    }
}

#[verifier::spinoff_prover]
#[verifier::rlimit(40)]
proof fn lemma_join_places_every_span(spans: Seq<TranslationSpan>)
    requires
        spans.len() > 0,
    ensures
        join_texts(spans).len() + 1 == spaced_len(spans),
        forall|k: int|
            0 <= k < spans.len() ==> join_texts(spans).subrange(
                spaced_len(spans.take(k)) as int,
                spaced_len(spans.take(k)) + (#[trigger] spans[k]).text@.len() as int,
            ) == spans[k].text@,
        forall|k: int|
            0 <= k < spans.len() - 1 ==> join_texts(spans)[spaced_len(#[trigger] spans.take(k + 1)) - 1] == ' ',
    decreases spans.len(),
{
    let p = spans.drop_last();
    let j = join_texts(spans);
    let last = spans.last().text@;
    assert(spans.take(spans.len() - 1) =~= p);
    if spans.len() == 1 {
        assert(spans.take(0) =~= Seq::<TranslationSpan>::empty());
        assert(p =~= Seq::<TranslationSpan>::empty());
        assert(j.subrange(0, last.len() as int) =~= last);
    } else {
        lemma_join_places_every_span(p);
        let jp = join_texts(p);
        assert(j == jp + seq![' '] + last);
        assert forall|k: int|
            0 <= k < spans.len() implies j.subrange(
                spaced_len(spans.take(k)) as int,
                spaced_len(spans.take(k)) + (#[trigger] spans[k]).text@.len() as int,
            ) == spans[k].text@ by {
            if k < p.len() {
                assert(spans.take(k) =~= p.take(k));
                assert(spans[k] == p[k]);
                let o = spaced_len(p.take(k)) as int;
                lemma_spaced_len_prefix(p, k);
                assert(jp.subrange(o, o + p[k].text@.len()) == p[k].text@);
                assert(j.subrange(o, o + p[k].text@.len()) =~= jp.subrange(o, o + p[k].text@.len()));
            } else {
                assert(j.subrange(jp.len() + 1int, j.len() as int) =~= last);
            }
        }
        assert forall|k: int|
            0 <= k < spans.len() - 1 implies j[spaced_len(#[trigger] spans.take(k + 1)) - 1] == ' ' by {
            if k < p.len() - 1 {
                assert(spans.take(k + 1) =~= p.take(k + 1));
                lemma_spaced_len_prefix(p, k + 1);
                assert(jp[spaced_len(p.take(k + 1)) - 1] == ' ');
            } else {
                assert(spans.take(k + 1) =~= p);
            }
        }
    }
}

/// The assistant message recorded for a finished exchange whose response
/// was read into spans holds every span's text, in order, each followed by
/// a single space but the last: the text of span `k` starts where the
/// texts before it and one space after each end, and the whole text is
/// exactly that long.
pub proof fn law_assistant_record_holds_every_span(m: Message, content: Seq<char>, spans: Seq<TranslationSpan>)
    requires
        is_assistant_record(m, content, spans),
        spans.len() > 0,
    ensures
        m.content->0@.len() + 1 == spaced_len(spans),
        forall|k: int|
            0 <= k < spans.len() ==> m.content->0@.subrange(
                spaced_len(spans.take(k)) as int,
                spaced_len(spans.take(k)) + (#[trigger] spans[k]).text@.len() as int,
            ) == spans[k].text@,
        forall|k: int|
            0 <= k < spans.len() - 1 ==> m.content->0@[spaced_len(#[trigger] spans.take(k + 1)) - 1] == ' ',
{
    lemma_join_places_every_span(spans);
}

impl Response {
    /// Whether the turn is still streaming.
    pub fn is_streaming(&self) -> (b: bool)
        ensures
            b == (*self is Streaming),
    {
        match self {
            Response::Streaming { .. } => true,
            _ => false,
        }
    }
}

} // verus!

verus! {

proof fn lemma_fresh_drop_range(ctx: Seq<ContextMessage>, next: u64, i: int, j: int)
    requires
        ids_fresh_in(ctx, next),
        0 <= i <= j <= ctx.len(),
    ensures
        ids_fresh_in(ctx.take(i) + ctx.skip(j), next),
{
    let r = ctx.take(i) + ctx.skip(j);
    assert forall|k: int| 0 <= k < r.len() implies r[k] == ctx[if k < i { k } else { k - i + j }] by {}
    assert forall|a: int, b: int| 0 <= a < r.len() && 0 <= b < r.len() && a != b implies (
    #[trigger] r[a]).id != (#[trigger] r[b]).id by {
        let ia = if a < i { a } else { a - i + j };
        let ib = if b < i { b } else { b - i + j };
        assert(r[a] == ctx[ia]);
        assert(r[b] == ctx[ib]);
    }
    assert forall|k: int| 0 <= k < r.len() implies (#[trigger] r[k]).id.0 < next by {
        let ik = if k < i { k } else { k - i + j };
        assert(r[k] == ctx[ik]);
    }
}

proof fn lemma_fresh_trim(ctx: Seq<ContextMessage>, idx: int, limit: nat, next: u64)
    requires
        ids_fresh_in(ctx, next),
        0 <= idx,
    ensures
        ids_fresh_in(trim_ctx(ctx, idx, limit), next),
    decreases ctx.len() - idx,
{
    if ctx_tokens(ctx) <= limit || idx >= ctx.len() {
    } else if ctx[idx].message.name is Some {
        lemma_fresh_trim(ctx, idx + 1, limit, next);
    } else {
        let r = ctx.remove(idx);
        assert(r =~= ctx.take(idx) + ctx.skip(idx + 1));
        lemma_fresh_drop_range(ctx, next, idx, idx + 1);
        lemma_next_user_ctx(r, idx);
        lemma_fresh_drop_range(r, next, idx, next_user_ctx(r, idx));
        lemma_fresh_trim(r.take(idx) + r.skip(next_user_ctx(r, idx)), idx, limit, next);
    }
}

proof fn lemma_fresh_enforce(ctx: Seq<ContextMessage>, limits: [u32; 2], next: u64)
    requires
        ids_fresh_in(ctx, next),
    ensures
        ids_fresh_in(enforce_limits(ctx, limits), next),
{
    if ctx_tokens(ctx) > limits[1] as nat {
        lemma_fresh_trim(ctx, 0, limits[0] as nat, next);
    }
}

proof fn lemma_fresh_push(ctx: Seq<ContextMessage>, next: u64, m: Message)
    requires
        ids_fresh_in(ctx, next),
        next < u64::MAX,
    ensures
        ids_fresh_in(ctx.push(ContextMessage { id: MsgId(next), message: m }), (next + 1) as u64),
{
    let r = ctx.push(ContextMessage { id: MsgId(next), message: m });
    assert forall|a: int, b: int| 0 <= a < r.len() && 0 <= b < r.len() && a != b implies (
    #[trigger] r[a]).id != (#[trigger] r[b]).id by {
        if a < ctx.len() && b < ctx.len() {
            assert(r[a] == ctx[a] && r[b] == ctx[b]);
        } else if a < ctx.len() {
            assert(r[a] == ctx[a]);
        } else if b < ctx.len() {
            assert(r[b] == ctx[b]);
        }
    }
    assert forall|k: int| 0 <= k < r.len() implies (#[trigger] r[k]).id.0 < next + 1 by {
        if k < ctx.len() {
            assert(r[k] == ctx[k]);
        }
    }
}

/// Every event keeps the context identifiers distinct and below the next
/// identifier to be handed out.
pub proof fn law_reduce_keeps_ids_fresh(
    old: ChatState,
    new: ChatState,
    event: ChatEvent,
    parsed: Seq<Option<TranslationSpan>>,
)
    requires
        old.ids_fresh(),
        completes_streaming(old.exchanges@, event) ==> old.next_msg_id < u64::MAX - 1,
        reduced(old, new, event, parsed),
    ensures
        new.ids_fresh(),
{
    match event {
        ChatEvent::Completed { id, usage, max_context_tokens } => {
            match exchange_index(old.exchanges@, id) {
                None => {},
                Some(k) => {
                    if old.exchanges@[k].response is Streaming {
                        let a = choose|a: Message|
                            is_assistant_record(
                                a,
                                response_content(old.exchanges@[k].response),
                                response_translations(new.exchanges@[k].response),
                            ) && new.context@ == #[trigger] completed_context(
                                old.context@,
                                old.next_msg_id,
                                old.exchanges@[k].user_message,
                                a,
                                max_context_tokens,
                            );
                        let n = old.next_msg_id;
                        let c1 = old.context@.push(
                            ContextMessage { id: MsgId(n), message: old.exchanges@[k].user_message },
                        );
                        lemma_fresh_push(old.context@, n, old.exchanges@[k].user_message);
                        lemma_fresh_push(c1, (n + 1) as u64, a);
                        lemma_fresh_enforce(
                            c1.push(ContextMessage { id: MsgId((n + 1) as u64), message: a }),
                            max_context_tokens,
                            (n + 2) as u64,
                        );
                    }
                },
            }
        },
        _ => {},
    }
}

/// Every context edit keeps the context identifiers distinct and below the
/// next identifier to be handed out.
pub proof fn law_edit_keeps_ids_fresh(ctx: Seq<ContextMessage>, next: u64, edit: ContextEdit)
    requires
        ids_fresh_in(ctx, next),
        edit is Insert ==> next < u64::MAX,
    ensures
        ids_fresh_in(
            edited_context(ctx, next, edit),
            if edit is Insert {
                (next + 1) as u64
            } else {
                next
            },
        ),
{
    let r = edited_context(ctx, next, edit);
    match edit {
        ContextEdit::Insert { idx, message } => {
            let i = if idx < ctx.len() {
                idx as int
            } else {
                ctx.len() as int
            };
            let c = ContextMessage { id: MsgId(next), message };
            assert forall|k: int| 0 <= k < r.len() implies r[k] == (if k < i {
                ctx[k]
            } else if k == i {
                c
            } else {
                ctx[k - 1]
            }) by {}
            assert forall|a: int, b: int| 0 <= a < r.len() && 0 <= b < r.len() && a != b implies (
            #[trigger] r[a]).id != (#[trigger] r[b]).id by {
                let ia = if a < i { a } else { a - 1 };
                let ib = if b < i { b } else { b - 1 };
                if a != i && b != i {
                    assert(r[a] == ctx[ia] && r[b] == ctx[ib]);
                } else if a != i {
                    assert(r[a] == ctx[ia]);
                } else if b != i {
                    assert(r[b] == ctx[ib]);
                }
            }
            assert forall|k: int| 0 <= k < r.len() implies (#[trigger] r[k]).id.0 < next + 1 by {
                if k < i {
                    assert(r[k] == ctx[k]);
                } else if k > i {
                    assert(r[k] == ctx[k - 1]);
                }
            }
        },
        ContextEdit::Delete(idx) => {
            if idx < ctx.len() {
                assert(r =~= ctx.take(idx as int) + ctx.skip(idx + 1));
                lemma_fresh_drop_range(ctx, next, idx as int, idx + 1);
            }
        },
        ContextEdit::Swap(a0, b0) => {
            if a0 < ctx.len() && b0 < ctx.len() {
                let p = |k: int| if k == a0 { b0 as int } else if k == b0 { a0 as int } else { k };
                assert forall|k: int| 0 <= k < r.len() implies r[k] == ctx[p(k)] by {}
                assert forall|a: int, b: int| 0 <= a < r.len() && 0 <= b < r.len() && a != b implies (
                #[trigger] r[a]).id != (#[trigger] r[b]).id by {
                    assert(r[a] == ctx[p(a)] && r[b] == ctx[p(b)]);
                }
                assert forall|k: int| 0 <= k < r.len() implies (#[trigger] r[k]).id.0 < next by {
                    assert(r[k] == ctx[p(k)]);
                }
            }
        },
        _ => {
            assert forall|k: int| 0 <= k < r.len() implies (#[trigger] r[k]).id == ctx[k].id by {}
            assert forall|a: int, b: int| 0 <= a < r.len() && 0 <= b < r.len() && a != b implies (
            #[trigger] r[a]).id != (#[trigger] r[b]).id by {
                assert(r[a].id == ctx[a].id && r[b].id == ctx[b].id);
            }
        },
    }
}

/// What the adapter needs to know of one streamed completion chunk: its
/// usage report, if any, and the text delta of each choice.
#[derive(Debug)]
pub struct ChunkView {
    pub usage: Option<Usage>,
    pub contents: Vec<Option<String>>,
}

/// The texts of the choices of a chunk that carry one, in order.
pub open spec fn chunk_deltas(contents: Seq<Option<String>>) -> Seq<Seq<char>>
    decreases contents.len(),
{
    if contents.len() == 0 {
        Seq::empty()
    } else {
        match contents.last() {
            Some(c) => chunk_deltas(contents.drop_last()).push(c@),
            None => chunk_deltas(contents.drop_last()),
        }
    }
}

/// Turns one streamed completion into events.
#[derive(Debug)]
pub struct ChatStream {
    pub id: ExchangeId,
    /// The last usage report seen.
    pub usage: Option<Usage>,
    pub max_context_tokens: [u32; 2],
}

/// The contents of a list of delta events for exchange `id`.
pub open spec fn delta_texts(id: ExchangeId, evs: Seq<ChatEvent>) -> Option<Seq<Seq<char>>>
    decreases evs.len(),
{
    if evs.len() == 0 {
        Some(Seq::empty())
    } else {
        match (evs.last(), delta_texts(id, evs.drop_last())) {
            (ChatEvent::Delta { id: i, content }, Some(rest)) => if i == id {
                Some(rest.push(content@))
            } else {
                None
            },
            _ => None,
        }
    }
}

impl ChatStream {
    /// A stream for exchange `id`.
    pub fn new(id: ExchangeId, max_context_tokens: [u32; 2]) -> (s: Self)
        ensures
            s.id == id,
            s.usage is None,
            s.max_context_tokens == max_context_tokens,
    {
        ChatStream { id, usage: None, max_context_tokens }
    }

    /// Handles one chunk: a usage report is kept, and each choice's text
    /// becomes a delta event, newlines kept (spans are read line by line).
    pub fn on_chunk(&mut self, chunk: ChunkView) -> (evs: Vec<ChatEvent>)
        ensures
            delta_texts(old(self).id, evs@) == Some(chunk_deltas(chunk.contents@)),
            final(self).id == old(self).id,
            final(self).max_context_tokens == old(self).max_context_tokens,
            final(self).usage == match chunk.usage {
                Some(u) => Some(u),
                None => old(self).usage,
            },
    {
        match chunk.usage {
            Some(u) => {
                self.usage = Some(u);
            },
            None => {},
        }
        let contents = chunk.contents;
        let mut evs: Vec<ChatEvent> = Vec::new();
        let mut k: usize = 0;
        while k < contents.len()
            invariant
                k <= contents@.len(),
                delta_texts(self.id, evs@) == Some(chunk_deltas(contents@.take(k as int))),
            decreases contents@.len() - k,
        {
            let ghost before = evs@;
            proof {
                assert(contents@.take(k + 1).drop_last() =~= contents@.take(k as int));
                assert(contents@.take(k + 1).last() == contents@[k as int]);
            }
            match &contents[k] {
                Some(c) => {
                    evs.push(ChatEvent::Delta { id: self.id, content: c.clone() });
                    assert(evs@.drop_last() =~= before);
                },
                None => {},
            }
            k = k + 1;
        }
        assert(contents@.take(k as int) =~= contents@);
        evs
    }

    /// The stream ended: the turn completes with the last usage report.
    pub fn on_end(self) -> (e: ChatEvent)
        ensures
            e matches ChatEvent::Completed { id, usage, max_context_tokens } && id == self.id && usage
                == self.usage && max_context_tokens == self.max_context_tokens,
    {
        ChatEvent::Completed { id: self.id, usage: self.usage, max_context_tokens: self.max_context_tokens }
    }

    /// Reading the stream failed.
    pub fn on_error(&self, message: String) -> (e: ChatEvent)
        ensures
            e matches ChatEvent::Failed { id, error } && id == self.id && error == message,
    {
        ChatEvent::Failed { id: self.id, error: message }
    }

    /// The turn was cancelled.
    pub fn on_cancel(&self) -> (e: ChatEvent)
        ensures
            e matches ChatEvent::Cancelled { id } && id == self.id,
    {
        ChatEvent::Cancelled { id: self.id }
    }
}

/// The events of a whole (unstreamed) completion: the first choice's text,
/// when it has any, then the completion with its usage.
pub fn single_completion_events(
    id: ExchangeId,
    content: Option<String>,
    usage: Usage,
    max_context_tokens: [u32; 2],
) -> (evs: Vec<ChatEvent>)
    ensures
        content is Some ==> evs@.len() == 2 && (evs@[0] matches ChatEvent::Delta { id: i, content: c }
            && i == id && Some(c) == content),
        content is None ==> evs@.len() == 1,
        evs@.last() matches ChatEvent::Completed { id: i, usage: u, max_context_tokens: m } && i == id
            && u == Some(usage) && m == max_context_tokens,
{
    let mut evs: Vec<ChatEvent> = Vec::new();
    match content {
        Some(c) => evs.push(ChatEvent::Delta { id, content: c }),
        None => {},
    }
    evs.push(ChatEvent::Completed { id, usage: Some(usage), max_context_tokens });
    evs
}

/// The context starts with pinned messages followed by a user turn (or by
/// nothing).
pub open spec fn ctx_pinned_then_user(ctx: Seq<ContextMessage>) -> bool {
    exists|k: int|
        0 <= k <= ctx.len() && (forall|j: int| 0 <= j < k ==> (#[trigger] ctx[j]).message.name is Some)
            && (k == ctx.len() || ctx[k].message.role == Role::User)
}

proof fn lemma_trim_ctx_resumes_at_user(ctx: Seq<ContextMessage>, idx: int, limit: nat)
    requires
        0 <= idx <= ctx.len(),
        forall|j: int| 0 <= j < idx ==> (#[trigger] ctx[j]).message.name is Some,
        ctx_tokens(ctx) > limit || idx == ctx.len() || ctx[idx].message.role == Role::User,
    ensures
        ctx_pinned_then_user(trim_ctx(ctx, idx, limit)),
    decreases ctx.len() - idx,
{
    if ctx_tokens(ctx) <= limit || idx >= ctx.len() {
        assert(forall|j: int| 0 <= j < idx ==> (#[trigger] ctx[j]).message.name is Some);
    } else if ctx[idx].message.name is Some {
        lemma_trim_ctx_resumes_at_user(ctx, idx + 1, limit);
    } else {
        let r = ctx.remove(idx);
        let nu = next_user_ctx(r, idx);
        lemma_next_user_ctx(r, idx);
        let next = r.take(idx) + r.skip(nu);
        assert forall|j: int| 0 <= j < idx implies (#[trigger] next[j]).message.name is Some by {
            assert(next[j] == r[j]);
            assert(r[j] == ctx[j]);
        }
        if nu < r.len() {
            assert(next[idx] == r[nu]);
        }
        lemma_trim_ctx_resumes_at_user(next, idx, limit);
    }
}

/// Trimming a context that has grown past both its threshold and its
/// target leaves it starting at a user turn, after any pinned messages.
pub proof fn law_enforced_context_resumes_at_user_turn(ctx: Seq<ContextMessage>, limits: [u32; 2])
    requires
        ctx_tokens(ctx) > limits[1] as nat,
        ctx_tokens(ctx) > limits[0] as nat,
    ensures
        ctx_pinned_then_user(enforce_limits(ctx, limits)),
{
    lemma_trim_ctx_resumes_at_user(ctx, 0, limits[0] as nat);
}

proof fn lemma_trim_ctx_pinned_prefix(ctx: Seq<ContextMessage>, idx: int, limit: nat)
    requires
        0 <= idx <= ctx.len(),
        forall|k: int| 0 <= k < idx ==> (#[trigger] ctx[k]).message.name is Some,
    ensures
        ctx_tokens(trim_ctx(ctx, idx, limit)) <= limit || forall|k: int|
            0 <= k < trim_ctx(ctx, idx, limit).len() ==> (#[trigger] trim_ctx(
                ctx,
                idx,
                limit,
            )[k]).message.name is Some,
    decreases ctx.len() - idx,
{
    if ctx_tokens(ctx) <= limit || idx >= ctx.len() {
    } else if ctx[idx].message.name is Some {
        lemma_trim_ctx_pinned_prefix(ctx, idx + 1, limit);
    } else {
        let r = ctx.remove(idx);
        let nu = next_user_ctx(r, idx);
        lemma_next_user_ctx(r, idx);
        let next = r.take(idx) + r.skip(nu);
        assert forall|k: int| 0 <= k < idx implies (#[trigger] next[k]).message.name is Some by {
            assert(next[k] == r[k]);
            assert(r[k] == ctx[k]);
        }
        lemma_trim_ctx_pinned_prefix(next, idx, limit);
    }
}

proof fn lemma_trim_ctx_all_pinned(ctx: Seq<ContextMessage>, idx: int, limit: nat)
    requires
        0 <= idx <= ctx.len(),
        forall|k: int| 0 <= k < ctx.len() ==> (#[trigger] ctx[k]).message.name is Some,
    ensures
        trim_ctx(ctx, idx, limit) == ctx,
    decreases ctx.len() - idx,
{
    if idx < ctx.len() {
        assert(ctx[idx].message.name is Some);
        lemma_trim_ctx_all_pinned(ctx, idx + 1, limit);
    }
}

/// Enforcing the same limits twice is the same as enforcing them once:
/// what the first pass leaves is either within the target or made only of
/// pinned messages, and the second pass keeps both.
pub proof fn law_enforce_limits_is_idempotent(ctx: Seq<ContextMessage>, limits: [u32; 2])
    ensures
        enforce_limits(enforce_limits(ctx, limits), limits) == enforce_limits(ctx, limits),
{
    if ctx_tokens(ctx) > limits[1] as nat {
        let r = trim_ctx(ctx, 0, limits[0] as nat);
        lemma_trim_ctx_pinned_prefix(ctx, 0, limits[0] as nat);
        if ctx_tokens(r) > limits[0] as nat {
            lemma_trim_ctx_all_pinned(r, 0, limits[0] as nat);
        }
    }
}

/// A translation of `text`, split into `segments`, begins: the grammar that
/// constrains the reply and the prompt are built against the context as it
/// is, then the exchange is opened with `text` as its user message.
pub fn begin_translation(
    state: &mut ChatState,
    id: ExchangeId,
    model: String,
    system_prompt: &str,
    text: String,
    segments: Vec<String>,
) -> (r: (String, Vec<Message>))
    ensures
        r.0@ == crate::segment::segment_grammar(segments@.len() as nat),
        reduced(
            *old(state),
            *final(state),
            (ChatEvent::Started {
                id,
                model,
                user_message: (Message { role: Role::User, content: Some(text), name: None }),
                segments,
            }),
            Seq::empty(),
        ),
        messages_view(r.1@) == segment_prompt_of(
            old(state).context@,
            system_prompt@,
            final(state).exchanges@.last().user_message,
            segments@,
        ),
{
    let grammar = crate::segment::build_segment_grammar(segments.len());
    let user_message = Message { role: Role::User, content: Some(text), name: None };
    let prompt = build_segment_prompt(state, system_prompt, &user_message, &segments);
    let none: Vec<Option<TranslationSpan>> = Vec::new();
    reduce(state, ChatEvent::Started { id, model, user_message, segments }, &none);
    (grammar, prompt)
}

} // verus!
