//! Chat Completions protocol types and token estimation.

use vstd::prelude::*;

verus! {

/// Chat models known to the client.
#[derive(Debug, Clone, Copy, PartialEq, Eq, Structural)]
pub enum Model {
    Gpt35Turbo,
    Gpt35Turbo0125,
    Gpt4o,
    Gpt4o20240513,
    Gpt4oMini,
    Gpt4oMini20240718,
    Gpt41,
    Gpt41_20250414,
    Gpt41Mini,
    Gpt41Mini20250414,
    Gpt41Nano,
    Gpt41Nano20250414,
    Gpt5,
    Gpt5_20250807,
    Gpt5Mini,
    Gpt5Mini20250807,
    Gpt5Nano,
    Gpt5Nano20250807,
}

impl Default for Model {
    fn default() -> (m: Self)
        ensures
            m == Model::Gpt5Mini,
    {
        Model::Gpt5Mini
    }
}

impl Model {
    /// The identifier the API uses for this model.
    pub fn api_name(&self) -> (s: &'static str)
        ensures
            s@ == model_api_name(*self),
    {
        match self {
            Model::Gpt35Turbo => "gpt-3.5-turbo",
            Model::Gpt35Turbo0125 => "gpt-3.5-turbo-0125",
            Model::Gpt4o => "gpt-4o",
            Model::Gpt4o20240513 => "gpt-4o-2024-05-13",
            Model::Gpt4oMini => "gpt-4o-mini",
            Model::Gpt4oMini20240718 => "gpt-4o-mini-2024-07-18",
            Model::Gpt41 => "gpt-4.1",
            Model::Gpt41_20250414 => "gpt-4.1-2025-04-14",
            Model::Gpt41Mini => "gpt-4.1-mini",
            Model::Gpt41Mini20250414 => "gpt-4.1-mini-2025-04-14",
            Model::Gpt41Nano => "gpt-4.1-nano",
            Model::Gpt41Nano20250414 => "gpt-4.1-nano-2025-04-14",
            Model::Gpt5 => "gpt-5",
            Model::Gpt5_20250807 => "gpt-5-2025-08-07",
            Model::Gpt5Mini => "gpt-5-mini",
            Model::Gpt5Mini20250807 => "gpt-5-mini-2025-08-07",
            Model::Gpt5Nano => "gpt-5-nano",
            Model::Gpt5Nano20250807 => "gpt-5-nano-2025-08-07",
        }
    }
}

/// The API identifier of each model.
pub open spec fn model_api_name(m: Model) -> Seq<char> {
    match m {
        Model::Gpt35Turbo => "gpt-3.5-turbo"@,
        Model::Gpt35Turbo0125 => "gpt-3.5-turbo-0125"@,
        Model::Gpt4o => "gpt-4o"@,
        Model::Gpt4o20240513 => "gpt-4o-2024-05-13"@,
        Model::Gpt4oMini => "gpt-4o-mini"@,
        Model::Gpt4oMini20240718 => "gpt-4o-mini-2024-07-18"@,
        Model::Gpt41 => "gpt-4.1"@,
        Model::Gpt41_20250414 => "gpt-4.1-2025-04-14"@,
        Model::Gpt41Mini => "gpt-4.1-mini"@,
        Model::Gpt41Mini20250414 => "gpt-4.1-mini-2025-04-14"@,
        Model::Gpt41Nano => "gpt-4.1-nano"@,
        Model::Gpt41Nano20250414 => "gpt-4.1-nano-2025-04-14"@,
        Model::Gpt5 => "gpt-5"@,
        Model::Gpt5_20250807 => "gpt-5-2025-08-07"@,
        Model::Gpt5Mini => "gpt-5-mini"@,
        Model::Gpt5Mini20250807 => "gpt-5-mini-2025-08-07"@,
        Model::Gpt5Nano => "gpt-5-nano"@,
        Model::Gpt5Nano20250807 => "gpt-5-nano-2025-08-07"@,
    }
}

/// Author of a chat message.
#[derive(Debug, Clone, Copy, PartialEq, Eq, Structural)]
pub enum Role {
    System,
    User,
    Assistant,
}

impl Default for Role {
    fn default() -> (r: Self)
        ensures
            r == Role::User,
    {
        Role::User
    }
}

/// One chat message. A message with a `name` is treated as pinned by the
/// context trimming in [`crate::chat_buffer`].
#[derive(Debug)]
pub struct Message {
    pub role: Role,
    pub content: Option<String>,
    pub name: Option<String>,
}

impl Clone for Message {
    fn clone(&self) -> (m: Self)
        ensures
            m == *self,
    {
        Message { role: self.role, content: self.content.clone(), name: self.name.clone() }
    }
}

impl Default for Message {
    fn default() -> (m: Self)
        ensures
            m.role == Role::User,
            m.content is None,
            m.name is None,
    {
        Message { role: Role::User, content: None, name: None }
    }
}

/// Number of cl100k_base tokens `tiktoken-rs` produces for a text (special
/// tokens allowed).
pub uninterp spec fn cl100k_token_count(text: Seq<char>) -> nat;

/// `tiktoken_rs::cl100k_base_singleton().encode_with_special_tokens(text).len()`:
/// the number of cl100k_base tokens of `text`, special tokens allowed. The
/// count is claimed to be a function of the text alone. The crate unwraps a
/// regex error that fancy-regex reports only when its backtracking limit is
/// hit; the contract says nothing of that case.
#[verifier::external_body]
fn cl100k_tokens(text: &str) -> (n: usize)
    ensures
        n as nat == cl100k_token_count(text@),
{
    tiktoken_rs::cl100k_base_singleton().encode_with_special_tokens(text).len()
}

/// Tokens a message costs in a prompt: `<im_start>{role}\n{content}<im_end>\n`
/// adds four tokens around the content; a message without content costs none.
pub open spec fn message_tokens(m: Message) -> nat {
    match m.content {
        Some(c) => 4 + cl100k_token_count(c@),
        None => 0,
    }
}

/// Sum of [`message_tokens`] over a sequence of messages.
pub open spec fn tokens_of(s: Seq<Message>) -> nat
    decreases s.len(),
{
    if s.len() == 0 {
        0
    } else {
        tokens_of(s.drop_last()) + message_tokens(s.last())
    }
}

/// `x` clamped to the range of `u32`.
pub open spec fn sat_u32(x: int) -> u32 {
    if x > u32::MAX {
        u32::MAX
    } else if x < 0 {
        0
    } else {
        x as u32
    }
}

/// `x` clamped to the range of `u64`.
pub open spec fn sat_u64(x: int) -> u64 {
    if x > u64::MAX {
        u64::MAX
    } else if x < 0 {
        0
    } else {
        x as u64
    }
}

impl Message {
    /// Estimated prompt tokens of this message (see [`message_tokens`]),
    /// clamped to `u32::MAX`.
    pub fn estimate_tokens(&self) -> (n: u32)
        ensures
            n == sat_u32(message_tokens(*self) as int),
    {
        let t = self.tokens_u64();
        if t > u32::MAX as u64 {
            u32::MAX
        } else {
            t as u32
        }
    }

    /// [`message_tokens`] clamped to `u64::MAX`.
    pub fn tokens_u64(&self) -> (n: u64)
        ensures
            n == sat_u64(message_tokens(*self) as int),
    {
        match &self.content {
            Some(c) => {
                let k = cl100k_tokens(c.as_str());
                let k64 = k as u64;
                if k64 > u64::MAX - 4 {
                    u64::MAX
                } else {
                    k64 + 4
                }
            },
            None => 0,
        }
    }
}

/// Options for streamed completions.
#[derive(Debug, Clone, Copy, PartialEq, Eq, Structural)]
pub struct StreamOptions {
    pub include_obfuscation: bool,
    pub include_usage: bool,
}

/// A streamed fragment of an assistant message.
#[derive(Debug)]
pub struct PartialMessage {
    pub role: Option<Role>,
    pub content: String,
}

/// A complete choice of a completion.
#[derive(Debug)]
pub struct Choice {
    pub message: Message,
}

/// Token accounting of one exchange.
#[derive(Debug, Clone, Copy, PartialEq, Eq, Structural)]
pub struct Usage {
    pub prompt_tokens: u32,
    pub completion_tokens: u32,
    pub total_tokens: u32,
}

/// A streamed choice.
#[derive(Debug)]
pub struct PartialChoice {
    pub delta: PartialMessage,
}

/// A complete (non-streamed) completion.
#[derive(Debug)]
pub struct Completion {
    pub id: String,
    pub object: String,
    pub created: u32,
    pub model: Model,
    pub usage: Usage,
    pub choices: Vec<Choice>,
}

/// One streamed completion chunk.
#[derive(Debug)]
pub struct PartialCompletion {
    pub id: String,
    pub object: String,
    pub created: u32,
    pub model: Model,
    pub choices: Vec<PartialChoice>,
}

} // verus!
