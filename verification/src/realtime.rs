//! Records of the OpenAI Realtime protocol: identifiers, session and
//! conversation items, response status and usage, and the server events
//! about response output.

use vstd::prelude::*;

use crate::text::{parse_u32, u32_from_str};

verus! {

/// Identifier of a session.
#[derive(Debug, Clone)]
pub struct SessionId(pub String);

/// Identifier of a conversation.
#[derive(Debug, Clone)]
pub struct ConversationId(pub String);

/// Identifier of a conversation item.
#[derive(Debug, Clone)]
pub struct ConversationItemId(pub String);

/// Identifier of a function call.
#[derive(Debug, Clone)]
pub struct FunctionCallId(pub String);

/// Identifier of a client event.
#[derive(Debug, Clone)]
pub struct EventId(pub String);

/// Identifier of a response.
#[derive(Debug, Clone)]
pub struct ResponseId(pub String);

/// A Realtime model.
#[derive(Debug, Clone, Copy, PartialEq, Eq, Structural)]
pub enum Model {
    Gpt4oRealtimePreview,
    Gpt4oRealtimePreview20241217,
    Gpt4oMiniRealtimePreview,
    Gpt4oMiniRealtimePreview20241217,
}

/// The model's name in the API.
pub open spec fn model_name(m: Model) -> Seq<char> {
    match m {
        Model::Gpt4oRealtimePreview => "gpt-4o-realtime-preview"@,
        Model::Gpt4oRealtimePreview20241217 => "gpt-4o-realtime-preview-2024-12-17"@,
        Model::Gpt4oMiniRealtimePreview => "gpt-4o-mini-realtime-preview"@,
        Model::Gpt4oMiniRealtimePreview20241217 => "gpt-4o-mini-realtime-preview-2024-12-17"@,
    }
}

impl Model {
    /// The model's name in the API.
    pub fn api_name(&self) -> (s: &'static str)
        ensures
            s@ == model_name(*self),
    {
        match self {
            Model::Gpt4oRealtimePreview => "gpt-4o-realtime-preview",
            Model::Gpt4oRealtimePreview20241217 => "gpt-4o-realtime-preview-2024-12-17",
            Model::Gpt4oMiniRealtimePreview => "gpt-4o-mini-realtime-preview",
            Model::Gpt4oMiniRealtimePreview20241217 => "gpt-4o-mini-realtime-preview-2024-12-17",
        }
    }
}

impl Default for Model {
    fn default() -> (m: Self)
        ensures
            m == Model::Gpt4oMiniRealtimePreview,
    {
        Model::Gpt4oMiniRealtimePreview
    }
}

/// A cap on the tokens of one response: a number, or no cap (`inf` on the
/// wire).
#[derive(Debug, Clone, Copy, PartialEq, Eq, Structural)]
pub enum MaxResponseOutputTokens {
    Finite(u32),
    Infinite,
}

impl MaxResponseOutputTokens {
    /// Reads the wire form: `inf` is no cap, a decimal `u32` is a cap, and
    /// anything else is refused.
    pub fn parse(s: &str) -> (r: Option<MaxResponseOutputTokens>)
        ensures
            s@ == "inf"@ ==> r == Some(MaxResponseOutputTokens::Infinite),
            s@ != "inf"@ ==> match u32_from_str(s@) {
                Some(n) => r == Some(MaxResponseOutputTokens::Finite(n as u32)),
                None => r is None,
            },
    {
        if String::from_str(s).eq(&String::from_str("inf")) {
            return Some(MaxResponseOutputTokens::Infinite);
        }
        match parse_u32(s) {
            Some(n) => Some(MaxResponseOutputTokens::Finite(n)),
            None => None,
        }
    }
}

/// A kind of content a session exchanges.
#[derive(Debug, Clone, Copy, PartialEq, Eq, Structural)]
pub enum Modality {
    Audio,
    Text,
}

/// An ephemeral key for a session.
#[derive(Debug, Clone)]
pub struct ClientSecret {
    pub value: String,
    pub expires_at: u64,
}

/// Progress of a conversation item.
#[derive(Debug, Clone, Copy, PartialEq, Eq, Structural)]
pub enum ConversationItemStatus {
    Incomplete,
    InProgress,
    Completed,
}

impl Default for ConversationItemStatus {
    fn default() -> (s: Self)
        ensures
            s == ConversationItemStatus::Incomplete,
    {
        ConversationItemStatus::Incomplete
    }
}

/// Author of a conversation message.
#[derive(Debug, Clone, Copy, PartialEq, Eq, Structural)]
pub enum Role {
    User,
    Assistant,
    Function,
}

impl Default for Role {
    fn default() -> (r: Self)
        ensures
            r == Role::User,
    {
        Role::User
    }
}

/// One piece of a conversation message.
#[derive(Debug, Clone)]
pub enum ConversationItemContent {
    InputText { text: String },
    InputAudio { audio: String, transcript: String },
    ItemReference { id: ConversationItemId },
    Text { text: String },
}

/// What a conversation item holds.
#[derive(Debug, Clone)]
pub enum ConversationItemBody {
    Message { role: Role, content: Vec<ConversationItemContent> },
    FunctionCall { call_id: FunctionCallId, name: String, arguments: String },
    FunctionCallOutput { call_id: FunctionCallId, output: String },
}

/// An item of a conversation.
#[derive(Debug, Clone)]
pub struct ConversationItem {
    pub id: Option<ConversationItemId>,
    pub status: ConversationItemStatus,
    pub body: ConversationItemBody,
}

impl ConversationItem {
    /// A user message holding one piece of input text; it has no id yet and
    /// is incomplete.
    pub fn input_text(message: String) -> (item: ConversationItem)
        ensures
            item.id is None,
            item.status == ConversationItemStatus::Incomplete,
            item.body matches ConversationItemBody::Message { role, content } && role == Role::User
                && content@.len() == 1 && (content@[0] matches ConversationItemContent::InputText { text }
                && text == message),
    {
        ConversationItem {
            id: None,
            status: ConversationItemStatus::Incomplete,
            body: ConversationItemBody::Message {
                role: Role::User,
                content: vec![ConversationItemContent::InputText { text: message }],
            },
        }
    }
}

/// Which conversation a response goes to.
#[derive(Debug, Clone, Copy, PartialEq, Eq, Structural)]
pub enum ResponseConversation {
    Auto,
    Detached,
}

impl Default for ResponseConversation {
    fn default() -> (c: Self)
        ensures
            c == ResponseConversation::Auto,
    {
        ResponseConversation::Auto
    }
}

/// Progress of a response.
#[derive(Debug, Clone, Copy, PartialEq, Eq, Structural)]
pub enum ResponseStatus {
    Completed,
    Cancelled,
    Incomplete,
    Failed,
    InProgress,
}

/// Input tokens of a response by kind.
#[derive(Debug, Clone, Copy, PartialEq, Eq, Structural)]
pub struct InputTokenDetails {
    pub cached_tokens: u32,
    pub text_tokens: u32,
    pub audio_tokens: u32,
}

/// Output tokens of a response by kind.
#[derive(Debug, Clone, Copy, PartialEq, Eq, Structural)]
pub struct OutputTokenDetails {
    pub text_tokens: u32,
    pub audio_tokens: u32,
}

/// Token accounting of a response.
#[derive(Debug, Clone, Copy, PartialEq, Eq, Structural)]
pub struct Usage {
    pub total_tokens: u32,
    pub input_tokens: u32,
    pub output_tokens: u32,
    pub input_token_details: InputTokenDetails,
    pub output_token_details: OutputTokenDetails,
}

/// A content part of a response.
#[derive(Debug, Clone)]
pub enum Part {
    Text { text: String },
    Audio { audio: Option<String>, transcript: String },
}

/// What a rate limit counts.
#[derive(Debug, Clone, Copy, PartialEq, Eq, Structural)]
pub enum RateLimitName {
    Requests,
    Tokens,
}

/// A conversation item was created.
#[derive(Debug, Clone)]
pub struct ConversationItemCreated {
    pub previous_item_id: Option<ConversationItemId>,
    pub item: ConversationItem,
}

/// An output item of a response was added or finished.
#[derive(Debug, Clone)]
pub struct ResponseOutputItem {
    pub response_id: ResponseId,
    pub output_index: u32,
    pub item: ConversationItem,
}

/// A content part of a response was added or finished.
#[derive(Debug, Clone)]
pub struct ResponseContentPart {
    pub response_id: ResponseId,
    pub item_id: ConversationItemId,
    pub output_index: u32,
    pub content_index: u32,
    pub part: Part,
}

/// More text of a response.
#[derive(Debug, Clone)]
pub struct ResponseTextDelta {
    pub response_id: ResponseId,
    pub item_id: ConversationItemId,
    pub output_index: u32,
    pub content_index: u32,
    pub delta: String,
}

/// The whole text of a response part.
#[derive(Debug, Clone)]
pub struct ResponseTextDone {
    pub response_id: ResponseId,
    pub item_id: ConversationItemId,
    pub output_index: u32,
    pub content_index: u32,
    pub text: String,
}

/// More arguments of a function call.
#[derive(Debug, Clone)]
pub struct ResponseFunctionCallArgumentsDelta {
    pub response_id: ResponseId,
    pub item_id: ConversationItemId,
    pub output_index: u32,
    pub call_id: FunctionCallId,
    pub delta: String,
}

/// The whole arguments of a function call.
#[derive(Debug, Clone)]
pub struct ResponseFunctionCallArgumentsDone {
    pub response_id: ResponseId,
    pub item_id: ConversationItemId,
    pub output_index: u32,
    pub call_id: FunctionCallId,
    pub arguments: String,
}

} // verus!
