use niinii::chat::{Message, Role};
use niinii::chat_translator::{
    apply_edit, begin_translation, cancel_exchange, clear_context, mark_in_flight, ChatState, ContextEdit, ExchangeId,
    Response,
};
use niinii::ichiran_state::IchiranState;
use niinii::romanize::{assemble_segments, queries_to_fetch, split_queries, SegmentSource, Split};
use niinii::segment::build_segment_grammar;
use niinii::translator::sorted_models;

fn texts(v: &[&str]) -> Vec<String> {
    v.iter().map(|s| s.to_string()).collect()
}

#[test]
fn in_flight_exchanges_are_recorded_once() {
    let mut in_flight = Vec::new();
    mark_in_flight(&mut in_flight, ExchangeId(1));
    mark_in_flight(&mut in_flight, ExchangeId(2));
    mark_in_flight(&mut in_flight, ExchangeId(1));
    assert_eq!(in_flight, vec![ExchangeId(1), ExchangeId(2)]);
}

#[test]
fn only_an_exchange_in_flight_is_cancelled() {
    let mut state = ChatState::new();
    let _ = begin_translation(&mut state, ExchangeId(7), "m".to_string(), "sys", "猫".to_string(), vec!["猫".to_string()]);
    let mut in_flight = vec![ExchangeId(7)];
    assert!(!cancel_exchange(&mut state, &mut in_flight, ExchangeId(8)));
    assert!(matches!(state.exchange(ExchangeId(7)).unwrap().response, Response::Streaming { .. }));
    assert!(cancel_exchange(&mut state, &mut in_flight, ExchangeId(7)));
    assert!(in_flight.is_empty());
    assert!(matches!(state.exchange(ExchangeId(7)).unwrap().response, Response::Cancelled));
    assert!(!cancel_exchange(&mut state, &mut in_flight, ExchangeId(7)));
}

#[test]
fn clearing_the_context_keeps_the_rest() {
    let mut state = ChatState::new();
    apply_edit(&mut state, ContextEdit::Insert { idx: 0, message: Message { role: Role::User, content: Some("a".to_string()), name: None } });
    clear_context(&mut state);
    assert!(state.context.is_empty());
    assert_eq!(state.next_msg_id, 1);
}

#[test]
fn refreshed_models_are_sorted() {
    assert_eq!(sorted_models(texts(&["gpt-5", "gpt-4o", "o3", "gpt-4o", "gpt-4.1"])), texts(&["gpt-4.1", "gpt-4o", "gpt-4o", "gpt-5", "o3"]));
    assert_eq!(sorted_models(texts(&["b", "ab", "a", "é", "z"])), texts(&["a", "ab", "b", "z", "é"]));
    assert!(sorted_models(Vec::new()).is_empty());
}

#[test]
fn romanize_queries_each_text_once_in_order() {
    let splits = vec![
        (Split::Text, "猫".to_string()),
        (Split::Skip, "、".to_string()),
        (Split::Text, "犬".to_string()),
        (Split::Text, "猫".to_string()),
    ];
    let q = split_queries(&splits);
    assert_eq!(q, texts(&["犬", "猫"]));
    assert_eq!(queries_to_fetch(&q, &texts(&["猫"])), texts(&["犬"]));
    assert_eq!(queries_to_fetch(&q, &Vec::new()), q);
    let r = assemble_segments(&splits, &q);
    assert!(matches!(r[0], SegmentSource::Queried(1)));
    assert!(matches!(&r[1], SegmentSource::Skipped(t) if t == "、"));
    assert!(matches!(r[2], SegmentSource::Queried(0)));
    assert!(matches!(r[3], SegmentSource::Queried(1)));
}

#[test]
fn segment_cache_is_emptied_by_custom_entries() {
    let mut st = IchiranState::new();
    let q = texts(&["猫", "犬"]);
    assert_eq!(st.cached_segments(&q), vec![None, None]);
    st.store_segment("猫".to_string(), "{\"seg\":1}".to_string());
    assert_eq!(st.cached_segments(&q), vec![Some("{\"seg\":1}".to_string()), None]);
    let first = st.next_seq();
    assert_eq!(st.allocate_custom_seq(), first);
    assert_eq!(st.cached_segments(&q)[0].as_deref(), Some("{\"seg\":1}"));
    st.custom_entry_loaded();
    assert_eq!(st.cached_segments(&q), vec![None, None]);
    assert_eq!(st.allocate_custom_seq(), first + 1);
    st.store_segment("犬".to_string(), "x".to_string());
    st.custom_entries_cleared();
    assert_eq!(st.next_seq(), first);
    assert_eq!(st.cached_segments(&q), vec![None, None]);
}

#[test]
fn segment_grammars_share_all_but_root_and_idx() {
    let g2 = build_segment_grammar(2);
    let g3 = build_segment_grammar(3);
    let l2: Vec<&str> = g2.lines().collect();
    let l3: Vec<&str> = g3.lines().collect();
    assert_eq!(l2[0], "root ::= line{1,2}");
    assert_eq!(l3[0], "root ::= line{1,3}");
    assert_eq!(l2[2], "idx ::= \"0\" | \"1\"");
    assert_eq!(l3[2], "idx ::= \"0\" | \"1\" | \"2\"");
    assert_eq!(l2.len(), l3.len());
    for k in 0..l2.len() {
        if k != 0 && k != 2 {
            assert_eq!(l2[k], l3[k]);
        }
    }
}
