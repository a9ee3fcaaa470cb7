use niinii::realtime_translator::{
    self as rt, begin_turn, cancel_turn, connect_failed, connection_lost, needs_new_connection,
    route_server_event, Active, RealtimeEvent, RealtimeState, ServerEventView,
};
use niinii::responses_translator::{
    self as rs, plan_request, single_response_events, ResponseStream, ResponsesEvent, ResponsesState,
    StreamEventView,
};
use niinii::translator::{build_instructions, build_turn_text, strip_newlines, ExchangeId, Response, UsageView};

fn usage(total: u32) -> UsageView {
    UsageView { input_tokens: 1, cached_tokens: 0, output_tokens: 2, reasoning_tokens: 0, total_tokens: total }
}

#[test]
fn instructions_join_prompt_and_addendum() {
    assert_eq!(build_instructions("Translate.", &Some("Cast: A".to_string())), "Translate.\n\nCast: A");
    assert_eq!(build_instructions("Translate.", &Some(String::new())), "Translate.");
    assert_eq!(build_instructions("Translate.", &None), "Translate.");
    assert_eq!(build_instructions("", &Some("Cast: A".to_string())), "Cast: A");
}

#[test]
fn turn_text_anchors_the_line() {
    assert_eq!(build_turn_text("こんにちは"), "Translate this line:\nこんにちは");
}

#[test]
fn strip_newlines_removes_all_newlines() {
    assert_eq!(strip_newlines("a\nb\n\nc\r"), "abc\r");
}

#[test]
fn responses_reduce_runs_an_exchange() {
    let mut state = ResponsesState::new();
    let id = ExchangeId(7);
    rs::reduce(&mut state, ResponsesEvent::Started { id, model: "gpt-5-mini".to_string() });
    rs::reduce(&mut state, ResponsesEvent::Delta { id, content: "Hel".to_string() });
    rs::reduce(&mut state, ResponsesEvent::Delta { id, content: "lo".to_string() });
    assert_eq!(state.exchange(id).unwrap().response.content(), "Hello");
    assert!(!state.exchange(id).unwrap().response.is_terminal());
    rs::reduce(&mut state, ResponsesEvent::Completed { id, response_id: "resp_1".to_string(), usage: Some(usage(3)) });
    let ex = state.exchange(id).unwrap();
    assert!(matches!(ex.response, Response::Completed { .. }));
    assert_eq!(ex.response.content(), "Hello");
    assert_eq!(ex.usage, Some(usage(3)));
    assert_eq!(state.previous_response_id.as_deref(), Some("resp_1"));
}

#[test]
fn responses_chain_moves_only_on_success_with_an_id() {
    let mut state = ResponsesState::new();
    let a = ExchangeId(1);
    let b = ExchangeId(2);
    rs::reduce(&mut state, ResponsesEvent::Started { id: a, model: "m".to_string() });
    rs::reduce(&mut state, ResponsesEvent::Completed { id: a, response_id: String::new(), usage: None });
    assert_eq!(state.previous_response_id, None);
    rs::reduce(&mut state, ResponsesEvent::Started { id: b, model: "m".to_string() });
    rs::reduce(&mut state, ResponsesEvent::Cancelled { id: b });
    rs::reduce(&mut state, ResponsesEvent::Completed { id: b, response_id: "late".to_string(), usage: None });
    assert_eq!(state.previous_response_id, None);
    assert!(matches!(state.exchange(b).unwrap().response, Response::Cancelled));
}

#[test]
fn responses_failure_is_recorded() {
    let mut state = ResponsesState::new();
    let id = ExchangeId(3);
    rs::reduce(&mut state, ResponsesEvent::Started { id, model: "m".to_string() });
    rs::reduce(&mut state, ResponsesEvent::Failed { id, error: "rate limited".to_string() });
    assert!(matches!(&state.exchange(id).unwrap().response, Response::Errored(e) if e == "rate limited"));
    assert_eq!(state.last_error.as_deref(), Some("rate limited"));
    rs::reduce(&mut state, ResponsesEvent::Delta { id, content: "x".to_string() });
    assert_eq!(state.exchange(id).unwrap().response.content(), "");
}

#[test]
fn responses_reset_and_addendum() {
    let mut state = ResponsesState::new();
    state.previous_response_id = Some("r".to_string());
    rs::reduce(&mut state, ResponsesEvent::Started { id: ExchangeId(1), model: "m".to_string() });
    state.reset_chain();
    assert!(state.exchanges.is_empty());
    assert_eq!(state.previous_response_id, None);
    state.set_system_addendum(Some(String::new()));
    assert_eq!(state.system_addendum, None);
    state.set_system_addendum(Some("cast".to_string()));
    assert_eq!(state.system_addendum.as_deref(), Some("cast"));
}

#[test]
fn plan_request_chains_only_when_asked() {
    let mut state = ResponsesState::new();
    state.previous_response_id = Some("resp_9".to_string());
    state.system_addendum = Some("Cast".to_string());
    let chained = plan_request(&state, "Sys", true, "行く");
    assert_eq!(chained.instructions, "Sys\n\nCast");
    assert_eq!(chained.user_line, "Translate this line:\n行く");
    assert!(chained.store);
    assert_eq!(chained.previous_response_id.as_deref(), Some("resp_9"));
    let single = plan_request(&state, "Sys", false, "行く");
    assert!(!single.store);
    assert_eq!(single.previous_response_id, None);
}

#[test]
fn response_stream_events() {
    let id = ExchangeId(5);
    let mut s = ResponseStream::new(id, true);
    let (e, done) = s.on_event(StreamEventView::Created { response_id: "resp_a".to_string() });
    assert!(e.is_none() && !done);
    let (e, done) = s.on_event(StreamEventView::OutputTextDelta { delta: "a\nb".to_string() });
    assert!(!done);
    assert!(matches!(e, Some(ResponsesEvent::Delta { content, .. }) if content == "ab"));
    let (e, done) = s.on_event(StreamEventView::Failed { error: None });
    assert!(done);
    assert!(matches!(e, Some(ResponsesEvent::Failed { error, .. }) if error == "response failed"));
    let end = s.on_end();
    assert!(matches!(end, ResponsesEvent::Completed { response_id, .. } if response_id == "resp_a"));
}

#[test]
fn unchained_stream_reports_no_id() {
    let mut s = ResponseStream::new(ExchangeId(1), false);
    let (e, done) = s.on_event(StreamEventView::Completed { response_id: "resp_b".to_string(), usage: None });
    assert!(done);
    assert!(matches!(e, Some(ResponsesEvent::Completed { response_id, .. }) if response_id.is_empty()));
}

#[test]
fn single_response_events_skip_empty_text() {
    let evs = single_response_events(ExchangeId(1), true, String::new(), "r".to_string(), None);
    assert_eq!(evs.len(), 1);
    let evs = single_response_events(ExchangeId(1), true, "Hi".to_string(), "r".to_string(), Some(usage(4)));
    assert_eq!(evs.len(), 2);
    assert!(matches!(&evs[0], ResponsesEvent::Delta { content, .. } if content == "Hi"));
    assert!(matches!(&evs[1], ResponsesEvent::Completed { response_id, .. } if response_id == "r"));
}

#[test]
fn usage_views_fill_missing_details_with_zero() {
    let u = rs::usage_view(10, None, 5, Some(2), 15);
    assert_eq!(u, UsageView { input_tokens: 10, cached_tokens: 0, output_tokens: 5, reasoning_tokens: 2, total_tokens: 15 });
    let u = rt::usage_view(10, Some(4), 5, 15);
    assert_eq!(u, UsageView { input_tokens: 10, cached_tokens: 4, output_tokens: 5, reasoning_tokens: 0, total_tokens: 15 });
}

#[test]
fn realtime_reduce_tracks_connection_and_exchanges() {
    let mut state = RealtimeState::new();
    rt::reduce(&mut state, RealtimeEvent::Connected);
    assert!(state.connected);
    let id = ExchangeId(1);
    rt::reduce(&mut state, RealtimeEvent::Started { id, model: "gpt-realtime".to_string() });
    rt::reduce(&mut state, RealtimeEvent::Delta { id, content: "Good".to_string() });
    rt::reduce(&mut state, RealtimeEvent::Completed { id, usage: None });
    assert_eq!(state.exchange(id).unwrap().response.content(), "Good");
    assert!(state.exchange(id).unwrap().response.is_terminal());
    rt::reduce(&mut state, RealtimeEvent::Disconnected);
    assert!(!state.connected);
    state.reset_conversation();
    assert!(state.exchanges.is_empty());
}

#[test]
fn realtime_routes_by_response_id() {
    let mut active: Option<Active> = None;
    let started = begin_turn(&mut active, ExchangeId(1), "m".to_string());
    assert!(matches!(started, RealtimeEvent::Started { id: ExchangeId(1), .. }));
    assert!(route_server_event(&mut active, ServerEventView::ResponseCreated { response_id: "r1".to_string() }).is_none());
    assert!(route_server_event(&mut active, ServerEventView::ResponseCreated { response_id: "r0".to_string() }).is_none());
    assert_eq!(active.as_ref().unwrap().response_id.as_deref(), Some("r1"));
    let e = route_server_event(&mut active, ServerEventView::OutputTextDelta { response_id: "r1".to_string(), delta: "Hi\n".to_string() });
    assert!(matches!(e, Some(RealtimeEvent::Delta { id: ExchangeId(1), content }) if content == "Hi"));
    let e = route_server_event(&mut active, ServerEventView::OutputTextDelta { response_id: "r0".to_string(), delta: "x".to_string() });
    assert!(e.is_none());
    let e = route_server_event(&mut active, ServerEventView::ResponseDone { response_id: "r0".to_string(), status: None, error: None, usage: None });
    assert!(e.is_none());
    assert!(active.is_some());
    let e = route_server_event(&mut active, ServerEventView::ResponseDone { response_id: "r1".to_string(), status: Some("completed".to_string()), error: None, usage: None });
    assert!(matches!(e, Some(RealtimeEvent::Completed { id: ExchangeId(1), .. })));
    assert!(active.is_none());
    let e = route_server_event(&mut active, ServerEventView::ResponseDone { response_id: "r1".to_string(), status: None, error: None, usage: None });
    assert!(e.is_none());
}

#[test]
fn realtime_done_statuses() {
    let mut active = Some(Active { exchange: ExchangeId(2), response_id: Some("r".to_string()) });
    let e = route_server_event(&mut active, ServerEventView::ResponseDone { response_id: "r".to_string(), status: Some("cancelled".to_string()), error: None, usage: None });
    assert!(matches!(e, Some(RealtimeEvent::Cancelled { id: ExchangeId(2) })));
    let mut active = Some(Active { exchange: ExchangeId(3), response_id: Some("r".to_string()) });
    let e = route_server_event(&mut active, ServerEventView::ResponseDone { response_id: "r".to_string(), status: Some("incomplete".to_string()), error: None, usage: None });
    assert!(matches!(e, Some(RealtimeEvent::Failed { id: ExchangeId(3), error }) if error == "response failed"));
    let mut active = Some(Active { exchange: ExchangeId(4), response_id: Some("r".to_string()) });
    let e = route_server_event(&mut active, ServerEventView::ResponseDone { response_id: "r".to_string(), status: Some("failed".to_string()), error: Some("bad".to_string()), usage: None });
    assert!(matches!(e, Some(RealtimeEvent::Failed { error, .. }) if error == "bad"));
}

#[test]
fn realtime_errors() {
    let mut active = Some(Active { exchange: ExchangeId(5), response_id: None });
    let e = route_server_event(&mut active, ServerEventView::Error { message: "oops".to_string() });
    assert!(matches!(e, Some(RealtimeEvent::Failed { id: ExchangeId(5), error }) if error == "oops"));
    let e = route_server_event(&mut active, ServerEventView::Error { message: "session".to_string() });
    assert!(matches!(e, Some(RealtimeEvent::Error(m)) if m == "session"));
}

#[test]
fn realtime_cancel_only_in_flight() {
    let mut active = Some(Active { exchange: ExchangeId(1), response_id: None });
    assert!(cancel_turn(&mut active, ExchangeId(2)).is_none());
    assert!(active.is_some());
    assert!(matches!(cancel_turn(&mut active, ExchangeId(1)), Some(RealtimeEvent::Cancelled { id: ExchangeId(1) })));
    assert!(active.is_none());
}

#[test]
fn realtime_connection_loss() {
    let mut active = Some(Active { exchange: ExchangeId(8), response_id: None });
    let evs = connection_lost(&mut active, "connection closed".to_string());
    assert_eq!(evs.len(), 2);
    assert!(matches!(&evs[0], RealtimeEvent::Failed { id: ExchangeId(8), error } if error == "connection closed"));
    assert!(matches!(evs[1], RealtimeEvent::Disconnected));
    let evs = connection_lost(&mut active, "again".to_string());
    assert_eq!(evs.len(), 1);
    let evs = connect_failed("realtime connect timed out".to_string());
    assert!(matches!(&evs[0], RealtimeEvent::Error(e) if e == "realtime connect timed out"));
    assert!(matches!(evs[1], RealtimeEvent::Disconnected));
}

#[test]
fn realtime_reconnect_decision() {
    let model = Some("gpt-realtime".to_string());
    assert!(!needs_new_connection(true, &model, "gpt-realtime", true));
    assert!(needs_new_connection(false, &model, "gpt-realtime", true));
    assert!(needs_new_connection(true, &model, "gpt-realtime-2", true));
    assert!(needs_new_connection(true, &model, "gpt-realtime", false));
    assert!(needs_new_connection(true, &None, "gpt-realtime", true));
}
