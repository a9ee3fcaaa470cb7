//! Verified core of niinii: conversation buffers, translation-span parsing,
//! dictionary-entry rendering and the other text logic behind the glossing
//! frontend.

pub mod chat;
pub mod chat_buffer;
pub mod lisp;
pub mod dict;
pub mod pool;
pub mod segment;
pub mod chat_translator;
pub mod text;
pub mod bbcode;
pub mod vndb;
pub mod translator;
pub mod responses_translator;
pub mod realtime_translator;
pub mod settings;
pub mod scroll_lock;
pub mod realtime;
pub mod regex;
pub mod clean_fixpoint;
pub mod romanize;
pub mod ichiran_state;
