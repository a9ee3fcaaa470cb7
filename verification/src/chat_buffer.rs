//! A conversation kept as a context buffer of past messages, from which each
//! new exchange is built.

use std::collections::VecDeque;

use vstd::prelude::*;

use crate::chat::{message_tokens, sat_u32, sat_u64, tokens_of, Message, PartialMessage, Role, Usage};

verus! {

broadcast use vstd::std_specs::vecdeque::group_vec_dequeue_axioms;

/// Index of the first message at or after `idx` whose role is `User`, or
/// `ctx.len()` if there is none.
pub open spec fn next_user_at(ctx: Seq<Message>, idx: int) -> int
    decreases ctx.len() - idx,
{
    if idx < 0 || idx >= ctx.len() {
        ctx.len() as int
    } else if ctx[idx].role == Role::User {
        idx
    } else {
        next_user_at(ctx, idx + 1)
    }
}

/// `ctx` with the run of non-user messages that starts at `idx` removed.
pub open spec fn drop_non_users_at(ctx: Seq<Message>, idx: int) -> Seq<Message> {
    ctx.take(idx) + ctx.skip(next_user_at(ctx, idx))
}

/// The context left by [`ChatBuffer::enforce_context_limit`] when the scan
/// stands at `idx`: while the buffer is over `limit` and `idx` is in range,
/// a message with a name is kept and the scan moves past it, any other is
/// removed; either way the non-user messages that then follow at the scan
/// position are removed too.
pub open spec fn trim_context(ctx: Seq<Message>, idx: int, limit: nat) -> Seq<Message>
    decreases ctx.len() - idx,
{
    if idx < 0 || tokens_of(ctx) <= limit || idx >= ctx.len() {
        ctx
    } else if ctx[idx].name is Some {
        proof {
            lemma_next_user_at_bounds(ctx, idx + 1);
        }
        trim_context(drop_non_users_at(ctx, idx + 1), idx + 1, limit)
    } else {
        proof {
            lemma_next_user_at_bounds(ctx.remove(idx), idx);
        }
        trim_context(drop_non_users_at(ctx.remove(idx), idx), idx, limit)
    }
}

/// [`next_user_at`] lies between `idx` and the length of the context.
pub proof fn lemma_next_user_at_bounds(ctx: Seq<Message>, idx: int)
    requires
        0 <= idx <= ctx.len(),
    ensures
        idx <= next_user_at(ctx, idx) <= ctx.len(),
        next_user_at(ctx, idx) < ctx.len() ==> ctx[next_user_at(ctx, idx)].role == Role::User,
        forall|k: int| idx <= k < next_user_at(ctx, idx) ==> ctx[k].role != Role::User,
    decreases ctx.len() - idx,
{
    if idx < ctx.len() && ctx[idx].role != Role::User {
        lemma_next_user_at_bounds(ctx, idx + 1);
    }
}

/// Tokens of a message sequence split at its last element.
pub proof fn lemma_tokens_of_push(s: Seq<Message>, m: Message)
    ensures
        tokens_of(s.push(m)) == tokens_of(s) + message_tokens(m),
{
    assert(s.push(m).drop_last() =~= s);
}

/// Tokens of a concatenation are the sum of the tokens of its parts.
pub proof fn lemma_tokens_of_add(a: Seq<Message>, b: Seq<Message>)
    ensures
        tokens_of(a + b) == tokens_of(a) + tokens_of(b),
    decreases b.len(),
{
    if b.len() == 0 {
        assert(a + b =~= a);
    } else {
        lemma_tokens_of_add(a, b.drop_last());
        assert((a + b).drop_last() =~= a + b.drop_last());
    }
}

/// The response after appending the streamed text `delta` to `old`: a first
/// fragment starts an assistant message holding `delta`; a later one extends
/// the content of the existing message, if it has any.
pub open spec fn response_after_partial(old: Option<Message>, new: Option<Message>, delta: Seq<char>) -> bool {
    match new {
        None => false,
        Some(r) => match old {
            None => {
                &&& r.role == Role::Assistant
                &&& r.name is None
                &&& r.content is Some
                &&& r.content->0@ == delta
            },
            Some(o) => {
                &&& r.role == o.role
                &&& r.name == o.name
                &&& r.content is Some <==> o.content is Some
                &&& o.content is Some ==> r.content->0@ == o.content->0@ + delta
            },
        },
    }
}

/// A conversation context: the messages that precede each new request.
#[derive(Debug)]
pub struct ChatBuffer {
    context: VecDeque<Message>,
}

impl View for ChatBuffer {
    type V = Seq<Message>;

    closed spec fn view(&self) -> Seq<Message> {
        self.context@
    }
}

/// One request-response round built from a [`ChatBuffer`]: the system
/// message, a snapshot of the context, the request, and the response and
/// usage once they are known.
pub struct Exchange {
    system: Message,
    context: VecDeque<Message>,
    request: Message,
    response: Option<Message>,
    usage: Option<Usage>,
}

impl Exchange {
    /// The system message of the exchange.
    pub closed spec fn spec_system(&self) -> Message {
        self.system
    }

    /// The context snapshot taken when the exchange started.
    pub closed spec fn spec_context(&self) -> Seq<Message> {
        self.context@
    }

    /// The request message.
    pub closed spec fn spec_request(&self) -> Message {
        self.request
    }

    /// The response received so far.
    pub closed spec fn spec_response(&self) -> Option<Message> {
        self.response
    }

    /// The usage, set once the exchange is committed.
    pub closed spec fn spec_usage(&self) -> Option<Usage> {
        self.usage
    }

    /// The messages sent to the model: system message, context, request.
    pub open spec fn spec_prompt(&self) -> Seq<Message> {
        seq![self.spec_system()] + self.spec_context() + seq![self.spec_request()]
    }

    /// The response as a sequence of zero or one messages.
    pub open spec fn spec_response_seq(&self) -> Seq<Message> {
        match self.spec_response() {
            Some(m) => seq![m],
            None => Seq::empty(),
        }
    }

    /// The usage an exchange is given when committed: prompt tokens of the
    /// context, system message and request plus two for the reply primer,
    /// completion tokens of the response, each clamped to `u32`.
    pub open spec fn spec_estimated_usage(&self) -> Usage {
        let prompt = sat_u32(
            tokens_of(self.spec_context()) + message_tokens(self.spec_system()) + message_tokens(
                self.spec_request(),
            ) + 2 as int,
        );
        let completion = sat_u32(tokens_of(self.spec_response_seq()) as int);
        Usage {
            prompt_tokens: prompt,
            completion_tokens: completion,
            total_tokens: sat_u32(prompt + completion),
        }
    }
}

/// Sum of message tokens of a context, clamped to `u64`.
fn context_tokens(ctx: &VecDeque<Message>) -> (n: u64)
    ensures
        n == sat_u64(tokens_of(ctx@) as int),
{
    let mut acc: u64 = 0;
    let mut i: usize = 0;
    while i < ctx.len()
        invariant
            i <= ctx@.len(),
            acc == sat_u64(tokens_of(ctx@.take(i as int)) as int),
        decreases ctx@.len() - i,
    {
        let t = ctx[i].tokens_u64();
        proof {
            assert(ctx@.take(i + 1) =~= ctx@.take(i as int).push(ctx@[i as int]));
            lemma_tokens_of_push(ctx@.take(i as int), ctx@[i as int]);
        }
        if acc > u64::MAX - t {
            acc = u64::MAX;
        } else {
            acc = acc + t;
        }
        i = i + 1;
    }
    assert(ctx@.take(i as int) =~= ctx@);
    acc
}

impl ChatBuffer {
    /// An empty buffer.
    pub fn new() -> (b: Self)
        ensures
            b@ == Seq::<Message>::empty(),
    {
        ChatBuffer { context: VecDeque::new() }
    }

    /// Starts an exchange for `request` over the current context. The buffer
    /// is left unchanged until the exchange is committed.
    pub fn start_exchange(&mut self, system: Message, request: Message) -> (e: Exchange)
        ensures
            final(self)@ == old(self)@,
            e.spec_system() == system,
            e.spec_context() == old(self)@,
            e.spec_request() == request,
            e.spec_response() is None,
            e.spec_usage() is None,
    {
        Exchange {
            system,
            context: self.context.clone(),
            request,
            response: None,
            usage: None,
        }
    }

    /// Commits an exchange: the context becomes the exchange's context
    /// followed by its request and its response (if any), and the exchange
    /// is given its estimated usage. An exchange that already has a usage is
    /// committed already and nothing changes.
    pub fn commit(&mut self, exchange: &mut Exchange)
        ensures
            old(exchange).spec_usage() is None ==> {
                &&& final(self)@ == old(exchange).spec_context().push(old(exchange).spec_request())
                    + old(exchange).spec_response_seq()
                &&& final(exchange).spec_usage() == Some(old(exchange).spec_estimated_usage())
            },
            old(exchange).spec_usage() is Some ==> final(self)@ == old(self)@ && final(exchange).spec_usage()
                == old(exchange).spec_usage(),
            final(exchange).spec_system() == old(exchange).spec_system(),
            final(exchange).spec_context() == old(exchange).spec_context(),
            final(exchange).spec_request() == old(exchange).spec_request(),
            final(exchange).spec_response() == old(exchange).spec_response(),
    {
        if exchange.usage.is_none() {
            let mut ctx = exchange.context.clone();
            ctx.push_back(exchange.request.clone());
            match &exchange.response {
                Some(r) => {
                    ctx.push_back(r.clone());
                },
                None => {},
            }
            self.context = ctx;
            let usage = exchange.estimate_usage();
            exchange.usage = Some(usage);
        }
    }

    /// Trims the context until its estimated tokens are within `limit`,
    /// following [`trim_context`] from the first message.
    pub fn enforce_context_limit(&mut self, limit: u32)
        ensures
            final(self)@ == trim_context(old(self)@, 0, limit as nat),
    {
        let mut idx: usize = 0;
        let ghost start = self.context@;
        loop
            invariant
                idx <= self.context@.len(),
                trim_context(start, 0, limit as nat) == trim_context(self.context@, idx as int, limit as nat),
            ensures
                trim_context(start, 0, limit as nat) == self.context@,
            decreases self.context@.len() - idx,
        {
            let total = context_tokens(&self.context);
            if total <= limit as u64 || idx >= self.context.len() {
                break;
            }
            let ghost before = self.context@;
            let pinned = self.context[idx].name.is_some();
            if pinned {
                idx = idx + 1;
            } else {
                self.context.remove(idx);
            }
            let ghost mid = self.context@;
            proof {
                lemma_next_user_at_bounds(mid, idx as int);
            }
            let ghost mut r: int = 0;
            assert(self.context@ =~= mid.take(idx as int) + mid.skip(idx + r));
            while idx < self.context.len() && self.context[idx].role != Role::User
                invariant
                    idx <= mid.len(),
                    0 <= r,
                    idx + r <= next_user_at(mid, idx as int) <= mid.len(),
                    self.context@ == mid.take(idx as int) + mid.skip(idx + r),
                    forall|k: int|
                        idx <= k < next_user_at(mid, idx as int) ==> mid[k].role != Role::User,
                    next_user_at(mid, idx as int) < mid.len() ==> mid[next_user_at(mid, idx as int)].role == Role::User,
                decreases self.context@.len() - idx,
            {
                self.context.remove(idx);
                proof {
                    r = r + 1;
                    assert(self.context@ =~= mid.take(idx as int) + mid.skip(idx + r));
                }
            }
            proof {
                if idx + r < next_user_at(mid, idx as int) {
                    assert(self.context@[idx as int] == mid[idx + r]);
                }
            }
            proof {
                assert(self.context@ =~= drop_non_users_at(mid, idx as int));
            }
        }
    }

    /// Removes every message.
    pub fn clear(&mut self)
        ensures
            final(self)@ == Seq::<Message>::empty(),
    {
        self.context.clear();
    }

    /// The context messages.
    pub fn context(&self) -> (c: &VecDeque<Message>)
        ensures
            c@ == self@,
    {
        &self.context
    }

    /// Mutable access to the context messages.
    pub fn context_mut(&mut self) -> (c: &mut VecDeque<Message>)
        ensures
            c@ == old(self)@,
            final(self)@ == final(c)@,
    {
        &mut self.context
    }
}

impl Default for ChatBuffer {
    fn default() -> (b: Self)
        ensures
            b@ == Seq::<Message>::empty(),
    {
        ChatBuffer::new()
    }
}

impl Exchange {
    /// Appends a streamed fragment to the response. The first fragment
    /// starts an assistant message with the fragment's content; later ones
    /// extend its content (a response without content is left as it is).
    pub fn append_partial(&mut self, partial: &PartialMessage)
        ensures
            final(self).spec_system() == old(self).spec_system(),
            final(self).spec_context() == old(self).spec_context(),
            final(self).spec_request() == old(self).spec_request(),
            final(self).spec_usage() == old(self).spec_usage(),
            response_after_partial(old(self).spec_response(), final(self).spec_response(), partial.content@),
    {
        match &mut self.response {
            Some(last) => {
                match &mut last.content {
                    Some(content) => {
                        crate::text::push_str(content, partial.content.as_str());
                    },
                    None => {},
                }
            },
            None => {
                let message = Message {
                    role: Role::Assistant,
                    content: Some(partial.content.clone()),
                    name: None,
                };
                self.response = Some(message);
            },
        }
    }

    /// Sets the complete response.
    pub fn set_complete(&mut self, message: Message)
        ensures
            final(self).spec_response() == Some(message),
            final(self).spec_system() == old(self).spec_system(),
            final(self).spec_context() == old(self).spec_context(),
            final(self).spec_request() == old(self).spec_request(),
            final(self).spec_usage() == old(self).spec_usage(),
    {
        self.response = Some(message);
    }

    /// The messages to send: system message, context, request.
    pub fn prompt(&self) -> (p: Vec<Message>)
        ensures
            p@ == self.spec_prompt(),
    {
        let mut messages: Vec<Message> = Vec::new();
        messages.push(self.system.clone());
        let mut i: usize = 0;
        while i < self.context.len()
            invariant
                i <= self.context@.len(),
                messages@ == seq![self.system] + self.context@.take(i as int),
            decreases self.context@.len() - i,
        {
            messages.push(self.context[i].clone());
            assert(self.context@.take(i + 1) =~= self.context@.take(i as int).push(self.context@[i as int]));
            i = i + 1;
        }
        messages.push(self.request.clone());
        assert(self.context@.take(i as int) =~= self.context@);
        messages
    }

    fn estimate_usage(&self) -> (u: Usage)
        ensures
            u == self.spec_estimated_usage(),
    {
        let ctx = context_tokens(&self.context);
        let sys = self.system.tokens_u64();
        let req = self.request.tokens_u64();
        let prompt = clamp_u32(ctx as u128 + sys as u128 + req as u128 + 2);
        let completion = match &self.response {
            Some(r) => r.estimate_tokens(),
            None => 0,
        };
        proof {
            if self.response is Some {
                let r = self.response->0;
                lemma_tokens_of_push(Seq::empty(), r);
                assert(seq![r] =~= Seq::<Message>::empty().push(r));
            } else {
                assert(self.spec_response_seq() =~= Seq::<Message>::empty());
            }
        }
        let total = clamp_u32(prompt as u128 + completion as u128);
        Usage { prompt_tokens: prompt, completion_tokens: completion, total_tokens: total }
    }

    /// The response received so far.
    pub fn response(&self) -> (r: Option<&Message>)
        ensures
            match self.spec_response() {
                Some(m) => r == Some(&m),
                None => r is None,
            },
    {
        self.response.as_ref()
    }

    /// The usage, once committed.
    pub fn usage(&self) -> (u: Option<&Usage>)
        ensures
            match self.spec_usage() {
                Some(x) => u == Some(&x),
                None => u is None,
            },
    {
        self.usage.as_ref()
    }
}

fn clamp_u32(x: u128) -> (r: u32)
    ensures
        r == sat_u32(x as int),
{
    if x > u32::MAX as u128 {
        u32::MAX
    } else {
        x as u32
    }
}

} // verus!

verus! {

/// Trimming a context that is already within the limit leaves it unchanged.
pub proof fn law_trim_within_limit_is_identity(ctx: Seq<Message>, limit: nat)
    requires
        tokens_of(ctx) <= limit,
    ensures
        trim_context(ctx, 0, limit) == ctx,
{
}

/// Trimming ends either within the limit or with only named (pinned)
/// messages left: every unnamed message is removed before the limit is
/// given up on.
pub proof fn law_trim_reaches_limit_or_only_pinned(ctx: Seq<Message>, limit: nat)
    ensures
        tokens_of(trim_context(ctx, 0, limit)) <= limit || forall|k: int|
            0 <= k < trim_context(ctx, 0, limit).len() ==> (#[trigger] trim_context(ctx, 0, limit)[k]).name is Some,
{
    lemma_trim_pinned_prefix(ctx, 0, limit);
}

proof fn lemma_trim_pinned_prefix(ctx: Seq<Message>, idx: int, limit: nat)
    requires
        0 <= idx <= ctx.len(),
        forall|k: int| 0 <= k < idx ==> (#[trigger] ctx[k]).name is Some,
    ensures
        tokens_of(trim_context(ctx, idx, limit)) <= limit || forall|k: int|
            0 <= k < trim_context(ctx, idx, limit).len() ==> (#[trigger] trim_context(ctx, idx, limit)[k]).name is Some,
    decreases ctx.len() - idx,
{
    if tokens_of(ctx) <= limit || idx >= ctx.len() {
    } else if ctx[idx].name is Some {
        let next = drop_non_users_at(ctx, idx + 1);
        lemma_next_user_at_bounds(ctx, idx + 1);
        assert forall|k: int| 0 <= k < idx + 1 implies (#[trigger] next[k]).name is Some by {
            assert(next[k] == ctx[k]);
        }
        lemma_trim_pinned_prefix(next, idx + 1, limit);
    } else {
        let removed = ctx.remove(idx);
        let next = drop_non_users_at(removed, idx);
        lemma_next_user_at_bounds(removed, idx);
        assert forall|k: int| 0 <= k < idx implies (#[trigger] next[k]).name is Some by {
            assert(next[k] == removed[k]);
            assert(removed[k] == ctx[k]);
        }
        lemma_trim_pinned_prefix(next, idx, limit);
    }
}

/// Tokens of a subrange bounded by the whole.
proof fn lemma_tokens_of_drop_middle(ctx: Seq<Message>, i: int, n: int)
    requires
        0 <= i <= n <= ctx.len(),
    ensures
        tokens_of(ctx.take(i) + ctx.skip(n)) <= tokens_of(ctx),
{
    lemma_tokens_of_add(ctx.take(i), ctx.skip(n));
    lemma_tokens_of_add(ctx.take(i), ctx.skip(i));
    assert(ctx.take(i) + ctx.skip(i) =~= ctx);
    lemma_tokens_of_add(ctx.subrange(i, n), ctx.skip(n));
    assert(ctx.subrange(i, n) + ctx.skip(n) =~= ctx.skip(i));
}

/// Trimming never adds tokens, and never adds messages.
pub proof fn law_trim_never_grows(ctx: Seq<Message>, limit: nat)
    ensures
        tokens_of(trim_context(ctx, 0, limit)) <= tokens_of(ctx),
        trim_context(ctx, 0, limit).len() <= ctx.len(),
{
    lemma_trim_never_grows(ctx, 0, limit);
}

proof fn lemma_trim_never_grows(ctx: Seq<Message>, idx: int, limit: nat)
    requires
        0 <= idx,
    ensures
        tokens_of(trim_context(ctx, idx, limit)) <= tokens_of(ctx),
        trim_context(ctx, idx, limit).len() <= ctx.len(),
    decreases ctx.len() - idx,
{
    if tokens_of(ctx) <= limit || idx >= ctx.len() {
    } else if ctx[idx].name is Some {
        lemma_next_user_at_bounds(ctx, idx + 1);
        lemma_tokens_of_drop_middle(ctx, idx + 1, next_user_at(ctx, idx + 1));
        lemma_trim_never_grows(drop_non_users_at(ctx, idx + 1), idx + 1, limit);
    } else {
        let removed = ctx.remove(idx);
        assert(removed =~= ctx.take(idx) + ctx.skip(idx + 1));
        lemma_tokens_of_drop_middle(ctx, idx, idx + 1);
        lemma_next_user_at_bounds(removed, idx);
        lemma_tokens_of_drop_middle(removed, idx, next_user_at(removed, idx));
        lemma_trim_never_grows(drop_non_users_at(removed, idx), idx, limit);
    }
}

/// The buffer starts with pinned messages followed by a user turn (or by
/// nothing).
pub open spec fn pinned_then_user(ctx: Seq<Message>) -> bool {
    exists|k: int|
        0 <= k <= ctx.len() && (forall|j: int| 0 <= j < k ==> (#[trigger] ctx[j]).name is Some) && (k
            == ctx.len() || ctx[k].role == Role::User)
}

proof fn lemma_trim_resumes_at_user(ctx: Seq<Message>, idx: int, limit: nat)
    requires
        0 <= idx <= ctx.len(),
        forall|j: int| 0 <= j < idx ==> (#[trigger] ctx[j]).name is Some,
        tokens_of(ctx) > limit || idx == ctx.len() || ctx[idx].role == Role::User,
    ensures
        pinned_then_user(trim_context(ctx, idx, limit)),
    decreases ctx.len() - idx,
{
    if tokens_of(ctx) <= limit || idx >= ctx.len() {
        assert(forall|j: int| 0 <= j < idx ==> (#[trigger] ctx[j]).name is Some);
    } else if ctx[idx].name is Some {
        let next = drop_non_users_at(ctx, idx + 1);
        let nu = next_user_at(ctx, idx + 1);
        lemma_next_user_at_bounds(ctx, idx + 1);
        assert forall|j: int| 0 <= j < idx + 1 implies (#[trigger] next[j]).name is Some by {
            assert(next[j] == ctx[j]);
        }
        if nu < ctx.len() {
            assert(next[idx + 1] == ctx[nu]);
        }
        lemma_trim_resumes_at_user(next, idx + 1, limit);
    } else {
        let removed = ctx.remove(idx);
        let next = drop_non_users_at(removed, idx);
        let nu = next_user_at(removed, idx);
        lemma_next_user_at_bounds(removed, idx);
        assert forall|j: int| 0 <= j < idx implies (#[trigger] next[j]).name is Some by {
            assert(next[j] == removed[j]);
            assert(removed[j] == ctx[j]);
        }
        if nu < removed.len() {
            assert(next[idx] == removed[nu]);
        }
        lemma_trim_resumes_at_user(next, idx, limit);
    }
}

/// Trimming an over-limit buffer leaves it starting at a user turn, after
/// any pinned messages: a removed message takes the non-user messages
/// after it along.
pub proof fn law_trimmed_context_resumes_at_user_turn(ctx: Seq<Message>, limit: nat)
    requires
        tokens_of(ctx) > limit,
    ensures
        pinned_then_user(trim_context(ctx, 0, limit)),
{
    lemma_trim_resumes_at_user(ctx, 0, limit);
}

/// Every message after the first that trimming keeps while still over the
/// limit is a user turn: each step removes the non-user run at the scan
/// position.
proof fn lemma_trim_leaves_user_turns(ctx: Seq<Message>, idx: int, limit: nat)
    requires
        0 <= idx <= ctx.len(),
        forall|j: int| 1 <= j <= idx && j < ctx.len() ==> (#[trigger] ctx[j]).role == Role::User,
    ensures
        tokens_of(trim_context(ctx, idx, limit)) > limit ==> forall|j: int|
            1 <= j < trim_context(ctx, idx, limit).len() ==> (#[trigger] trim_context(
                ctx,
                idx,
                limit,
            )[j]).role == Role::User,
    decreases ctx.len() - idx,
{
    if tokens_of(ctx) <= limit || idx >= ctx.len() {
    } else if ctx[idx].name is Some {
        let next = drop_non_users_at(ctx, idx + 1);
        let nu = next_user_at(ctx, idx + 1);
        lemma_next_user_at_bounds(ctx, idx + 1);
        assert forall|j: int| 1 <= j <= idx + 1 && j < next.len() implies (
        #[trigger] next[j]).role == Role::User by {
            if j <= idx {
                assert(next[j] == ctx[j]);
            } else {
                assert(next[j] == ctx[nu]);
            }
        }
        lemma_trim_leaves_user_turns(next, idx + 1, limit);
    } else {
        let removed = ctx.remove(idx);
        let next = drop_non_users_at(removed, idx);
        let nu = next_user_at(removed, idx);
        lemma_next_user_at_bounds(removed, idx);
        assert forall|j: int| 1 <= j <= idx && j < next.len() implies (
        #[trigger] next[j]).role == Role::User by {
            if j < idx {
                assert(next[j] == removed[j]);
                assert(removed[j] == ctx[j]);
            } else {
                assert(next[j] == removed[nu]);
            }
        }
        lemma_trim_leaves_user_turns(next, idx, limit);
    }
}

/// A buffer over the limit made only of named messages, each after the
/// first a user turn, is left as it is by trimming.
proof fn lemma_trim_fixed_point(ctx: Seq<Message>, idx: int, limit: nat)
    requires
        0 <= idx <= ctx.len(),
        tokens_of(ctx) > limit,
        forall|k: int| 0 <= k < ctx.len() ==> (#[trigger] ctx[k]).name is Some,
        forall|j: int| 1 <= j < ctx.len() ==> (#[trigger] ctx[j]).role == Role::User,
    ensures
        trim_context(ctx, idx, limit) == ctx,
    decreases ctx.len() - idx,
{
    if idx < ctx.len() {
        assert(ctx[idx].name is Some);
        if idx + 1 < ctx.len() {
            assert(ctx[idx + 1].role == Role::User);
        }
        assert(next_user_at(ctx, idx + 1) == idx + 1);
        assert(drop_non_users_at(ctx, idx + 1) =~= ctx);
        lemma_trim_fixed_point(ctx, idx + 1, limit);
    }
}

/// Trimming is idempotent: enforcing the same limit a second time (see
/// [`ChatBuffer::enforce_context_limit`]) leaves the context unchanged.
pub proof fn law_trim_is_idempotent(ctx: Seq<Message>, limit: nat)
    ensures
        trim_context(trim_context(ctx, 0, limit), 0, limit) == trim_context(ctx, 0, limit),
{
    let r = trim_context(ctx, 0, limit);
    if tokens_of(r) > limit {
        law_trim_reaches_limit_or_only_pinned(ctx, limit);
        lemma_trim_leaves_user_turns(ctx, 0, limit);
        lemma_trim_fixed_point(r, 0, limit);
    }
}

proof fn lemma_tokens_of_single(m: Message)
    ensures
        tokens_of(seq![m]) == message_tokens(m),
{
    assert(seq![m].drop_last() =~= Seq::<Message>::empty());
    assert(seq![m].last() == m);
    assert(tokens_of(Seq::<Message>::empty()) == 0);
}

proof fn lemma_prompt_tokens(e: Exchange)
    ensures
        tokens_of(e.spec_prompt()) == message_tokens(e.spec_system()) + tokens_of(e.spec_context())
            + message_tokens(e.spec_request()),
{
    lemma_tokens_of_add(seq![e.spec_system()] + e.spec_context(), seq![e.spec_request()]);
    lemma_tokens_of_add(seq![e.spec_system()], e.spec_context());
    lemma_tokens_of_single(e.spec_system());
    lemma_tokens_of_single(e.spec_request());
}

/// The usage an exchange records when committed counts what was sent and
/// received: its prompt tokens are those of every message of the prompt
/// (system message, each context message, request) plus two for the reply
/// primer, its completion tokens those of the response, and the total their
/// sum, each clamped to `u32`.
pub proof fn law_usage_counts_every_message_sent(e: Exchange)
    ensures
        e.spec_estimated_usage().prompt_tokens == sat_u32(tokens_of(e.spec_prompt()) + 2int),
        e.spec_estimated_usage().completion_tokens == sat_u32(tokens_of(e.spec_response_seq()) as int),
        e.spec_estimated_usage().total_tokens == sat_u32(
            e.spec_estimated_usage().prompt_tokens + e.spec_estimated_usage().completion_tokens,
        ),
{
    lemma_prompt_tokens(e);
}

/// One more context message, everything else the same, adds its tokens to
/// the prompt tokens recorded at commit (until they reach the `u32` cap).
pub proof fn law_usage_grows_with_the_context(e1: Exchange, e2: Exchange, m: Message)
    requires
        e2.spec_system() == e1.spec_system(),
        e2.spec_request() == e1.spec_request(),
        e2.spec_context() == e1.spec_context().push(m),
    ensures
        e2.spec_estimated_usage().prompt_tokens >= e1.spec_estimated_usage().prompt_tokens,
        e1.spec_estimated_usage().prompt_tokens < u32::MAX ==> e2.spec_estimated_usage().prompt_tokens
            == sat_u32(e1.spec_estimated_usage().prompt_tokens + message_tokens(m)),
{
    lemma_prompt_tokens(e1);
    lemma_prompt_tokens(e2);
    lemma_tokens_of_push(e1.spec_context(), m);
}

} // verus!
