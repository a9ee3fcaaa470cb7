use std::collections::VecDeque;

use niinii::chat::{Message, Model, PartialMessage, Role};
use niinii::chat_buffer::ChatBuffer;
use niinii::chat_translator::{
    apply_edit, build_prompt, build_segment_prompt, enforce_context_limit, reduce, ChatEvent, ChatState,
    ContextEdit, ContextMessage, ExchangeId, MsgId, Response, SEGMENT_INSTRUCTION,
};
use niinii::segment::TranslationSpan;

fn msg(role: Role, content: &str) -> Message {
    Message { role, content: Some(content.to_string()), name: None }
}

fn named(role: Role, content: &str, name: &str) -> Message {
    Message { role, content: Some(content.to_string()), name: Some(name.to_string()) }
}

fn contents(ms: &[Message]) -> Vec<String> {
    ms.iter().map(|m| m.content.clone().unwrap_or_default()).collect()
}

#[test]
fn model_names() {
    assert_eq!(Model::default().api_name(), "gpt-5-mini");
    assert_eq!(Model::Gpt41Nano20250414.api_name(), "gpt-4.1-nano-2025-04-14");
    assert_eq!(Model::Gpt35Turbo.api_name(), "gpt-3.5-turbo");
}

#[test]
fn message_defaults() {
    let m = Message::default();
    assert_eq!(m.role, Role::User);
    assert!(m.content.is_none() && m.name.is_none());
}

#[test]
fn estimate_tokens_counts_cl100k_tokens_plus_framing() {
    assert_eq!(msg(Role::User, "hello").estimate_tokens(), 5);
    assert_eq!(msg(Role::User, "hello world").estimate_tokens(), 6);
    assert_eq!(Message::default().estimate_tokens(), 0);
    assert_eq!(msg(Role::User, "").estimate_tokens(), 4);
}

#[test]
fn exchange_prompt_orders_messages() {
    let mut buf = ChatBuffer::new();
    let mut ex = buf.start_exchange(msg(Role::System, "s"), msg(Role::User, "q1"));
    ex.set_complete(msg(Role::Assistant, "a1"));
    buf.commit(&mut ex);
    let ex2 = buf.start_exchange(msg(Role::System, "s"), msg(Role::User, "q2"));
    assert_eq!(contents(&ex2.prompt()), vec!["s", "q1", "a1", "q2"]);
}

#[test]
fn append_partial_accumulates_the_response() {
    let mut buf = ChatBuffer::default();
    let mut ex = buf.start_exchange(msg(Role::System, "s"), msg(Role::User, "q"));
    assert!(ex.response().is_none());
    ex.append_partial(&PartialMessage { role: Some(Role::Assistant), content: "Hel".to_string() });
    ex.append_partial(&PartialMessage { role: None, content: "lo".to_string() });
    let r = ex.response().unwrap();
    assert_eq!(r.role, Role::Assistant);
    assert_eq!(r.content.as_deref(), Some("Hello"));
}

#[test]
fn commit_records_usage_once() {
    let mut buf = ChatBuffer::new();
    let mut ex = buf.start_exchange(msg(Role::System, "s"), msg(Role::User, "q"));
    ex.set_complete(msg(Role::Assistant, "r"));
    buf.commit(&mut ex);
    let u = *ex.usage().unwrap();
    assert_eq!(u.prompt_tokens, 12);
    assert_eq!(u.completion_tokens, 5);
    assert_eq!(u.total_tokens, 17);
    assert_eq!(contents(&buf.context().iter().cloned().collect::<Vec<_>>()), vec!["q", "r"]);
    buf.commit(&mut ex);
    assert_eq!(buf.context().len(), 2);
    buf.clear();
    assert!(buf.context().is_empty());
}

#[test]
fn context_limit_drops_oldest_turns() {
    let mut buf = ChatBuffer::new();
    for m in [msg(Role::User, "a"), msg(Role::Assistant, "b"), msg(Role::User, "c"), msg(Role::Assistant, "d")] {
        buf.context_mut().push_back(m);
    }
    buf.enforce_context_limit(10);
    assert_eq!(contents(&buf.context().iter().cloned().collect::<Vec<_>>()), vec!["c", "d"]);
    buf.enforce_context_limit(100);
    assert_eq!(buf.context().len(), 2);
}

#[test]
fn context_limit_keeps_pinned_messages() {
    let mut buf = ChatBuffer::new();
    for m in [named(Role::User, "a", "x"), msg(Role::User, "b"), msg(Role::Assistant, "c")] {
        buf.context_mut().push_back(m);
    }
    buf.enforce_context_limit(5);
    assert_eq!(contents(&buf.context().iter().cloned().collect::<Vec<_>>()), vec!["a"]);
}

#[test]
fn context_limit_twice_is_once() {
    let mut buf = ChatBuffer::new();
    for m in [
        named(Role::System, "rules", "x"),
        msg(Role::Assistant, "b"),
        named(Role::User, "pinned question", "y"),
        msg(Role::User, "c"),
        msg(Role::Assistant, "d"),
    ] {
        buf.context_mut().push_back(m);
    }
    buf.enforce_context_limit(3);
    let once = contents(&buf.context().iter().cloned().collect::<Vec<_>>());
    buf.enforce_context_limit(3);
    assert_eq!(contents(&buf.context().iter().cloned().collect::<Vec<_>>()), once);
}

fn ctx(ms: Vec<Message>) -> VecDeque<ContextMessage> {
    ms.into_iter().enumerate().map(|(i, m)| ContextMessage { id: MsgId(i as u64), message: m }).collect()
}

#[test]
fn translator_context_limit_has_a_threshold() {
    let mut c = ctx(vec![msg(Role::User, "a"), msg(Role::Assistant, "b"), msg(Role::User, "c"), msg(Role::Assistant, "d")]);
    enforce_context_limit(&mut c, &[10, 20]);
    assert_eq!(c.len(), 4);
    enforce_context_limit(&mut c, &[10, 15]);
    let left: Vec<u64> = c.iter().map(|e| e.id.0).collect();
    assert_eq!(left, vec![2, 3]);
}

#[test]
fn translator_context_limit_twice_is_once() {
    let mut c = ctx(vec![
        named(Role::User, "pinned", "x"),
        msg(Role::Assistant, "b"),
        msg(Role::User, "c"),
        msg(Role::Assistant, "d"),
    ]);
    enforce_context_limit(&mut c, &[2, 3]);
    let once: Vec<u64> = c.iter().map(|e| e.id.0).collect();
    enforce_context_limit(&mut c, &[2, 3]);
    let twice: Vec<u64> = c.iter().map(|e| e.id.0).collect();
    assert_eq!(twice, once);
}

#[test]
fn chat_prompt_puts_context_between_system_and_user() {
    let mut state = ChatState::new();
    apply_edit(&mut state, ContextEdit::Insert { idx: 0, message: msg(Role::User, "old") });
    let p = build_prompt(&state, "sys", &msg(Role::User, "new"));
    assert_eq!(contents(&p), vec!["sys", "old", "new"]);
    assert_eq!(p[0].role, Role::System);
}

#[test]
fn segment_prompt_lists_segments() {
    let state = ChatState::new();
    let segs = vec!["こんにちは".to_string(), "。".to_string()];
    let p = build_segment_prompt(&state, "sys", &msg(Role::User, "こんにちは。"), &segs);
    assert_eq!(p.len(), 3);
    assert_eq!(p[1].role, Role::System);
    assert_eq!(p[1].content.as_deref(), Some(SEGMENT_INSTRUCTION));
    assert_eq!(p[2].content.as_deref(), Some("0\tこんにちは\n1\t。"));
    assert_eq!(p[2].role, Role::User);
}

#[test]
fn context_edits() {
    let mut state = ChatState::new();
    apply_edit(&mut state, ContextEdit::Insert { idx: 5, message: msg(Role::User, "a") });
    apply_edit(&mut state, ContextEdit::Insert { idx: 0, message: msg(Role::User, "b") });
    let ids: Vec<u64> = state.context.iter().map(|e| e.id.0).collect();
    assert_eq!(ids, vec![1, 0]);
    apply_edit(&mut state, ContextEdit::Swap(0, 1));
    apply_edit(&mut state, ContextEdit::SetContent { idx: 1, content: "B".to_string() });
    apply_edit(&mut state, ContextEdit::SetRole { idx: 0, role: Role::Assistant });
    apply_edit(&mut state, ContextEdit::SetName { idx: 0, name: Some("n".to_string()) });
    apply_edit(&mut state, ContextEdit::Delete(7));
    let got: Vec<(u64, Role, String, Option<String>)> = state
        .context
        .iter()
        .map(|e| (e.id.0, e.message.role, e.message.content.clone().unwrap_or_default(), e.message.name.clone()))
        .collect();
    assert_eq!(
        got,
        vec![(0, Role::Assistant, "a".to_string(), Some("n".to_string())), (1, Role::User, "B".to_string(), None)]
    );
    apply_edit(&mut state, ContextEdit::Delete(0));
    assert_eq!(state.context.len(), 1);
    assert_eq!(state.next_msg_id, 2);
}

#[test]
fn chat_reduce_completes_an_exchange() {
    let mut state = ChatState::new();
    let id = ExchangeId(1);
    let none: Vec<Option<TranslationSpan>> = Vec::new();
    reduce(
        &mut state,
        ChatEvent::Started {
            id,
            model: "gpt-5-mini".to_string(),
            user_message: msg(Role::User, "猫。"),
            segments: vec!["猫".to_string(), "。".to_string()],
        },
        &none,
    );
    reduce(&mut state, ChatEvent::Delta { id, content: "{\"i\":0,\"j\":1,\"t\":\"A c".to_string() }, &none);
    let ex = state.exchange(id).unwrap();
    assert!(ex.response.is_streaming());
    assert_eq!(ex.response.translations().len(), 1);
    assert_eq!(ex.response.translations()[0].text, "A c");
    reduce(&mut state, ChatEvent::Delta { id, content: "at.\"}\n".to_string() }, &none);
    let parsed = vec![Some(TranslationSpan { start: 0, end: 1, text: "A cat.".to_string() })];
    reduce(&mut state, ChatEvent::Completed { id, usage: None, max_context_tokens: [1000, 1000] }, &parsed);
    let ex = state.exchange(id).unwrap();
    assert!(ex.response.is_terminal());
    assert_eq!(ex.response.translations()[0].text, "A cat.");
    let ctx: Vec<(Role, String)> = state
        .context
        .iter()
        .map(|e| (e.message.role, e.message.content.clone().unwrap_or_default()))
        .collect();
    assert_eq!(ctx, vec![(Role::User, "猫。".to_string()), (Role::Assistant, "A cat.".to_string())]);
    assert_eq!(state.next_msg_id, 2);
}

#[test]
fn chat_reduce_failures_and_cancels() {
    let mut state = ChatState::new();
    let none: Vec<Option<TranslationSpan>> = Vec::new();
    for n in 1..=2u64 {
        reduce(
            &mut state,
            ChatEvent::Started { id: ExchangeId(n), model: "m".to_string(), user_message: msg(Role::User, "x"), segments: Vec::new() },
            &none,
        );
    }
    reduce(&mut state, ChatEvent::Failed { id: ExchangeId(1), error: "e".to_string() }, &none);
    reduce(&mut state, ChatEvent::Cancelled { id: ExchangeId(2) }, &none);
    reduce(&mut state, ChatEvent::Cancelled { id: ExchangeId(1) }, &none);
    assert!(matches!(&state.exchange(ExchangeId(1)).unwrap().response, Response::Errored(e) if e == "e"));
    assert!(matches!(state.exchange(ExchangeId(2)).unwrap().response, Response::Cancelled));
    assert_eq!(state.last_error.as_deref(), Some("e"));
    assert!(state.context.is_empty());
    reduce(&mut state, ChatEvent::ModelsRefreshed(vec!["a".to_string()]), &none);
    assert_eq!(state.models, vec!["a".to_string()]);
}

#[test]
fn edits_that_hand_out_no_id_work_with_a_full_counter() {
    let mut state = ChatState::new();
    apply_edit(&mut state, ContextEdit::Insert { idx: 0, message: msg(Role::User, "a") });
    apply_edit(&mut state, ContextEdit::Insert { idx: 1, message: msg(Role::User, "b") });
    state.next_msg_id = u64::MAX;
    apply_edit(&mut state, ContextEdit::Swap(0, 1));
    apply_edit(&mut state, ContextEdit::Delete(0));
    assert_eq!(state.next_msg_id, u64::MAX);
    let left: Vec<String> = state.context.iter().map(|c| c.message.content.clone().unwrap()).collect();
    assert_eq!(left, vec!["a".to_string()]);
}
