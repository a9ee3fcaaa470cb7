use niinii::realtime::{
    ConversationItem, ConversationItemBody, ConversationItemContent, ConversationItemStatus, MaxResponseOutputTokens,
    Model as RealtimeModel, ResponseConversation, Role as RealtimeRole,
};
use niinii::scroll_lock::{ScrollLockSync, SCROLL_LOCK_SETTLE_TIMEOUT_MS};
use niinii::settings::{
    preview_style, ruby_for_plain, ruby_for_term, skipped_style, term_style, underline_for_term, ConnectionPolicy,
    KanjiStyle, RendererType, RubyTextMode, RubyTextType, TranslatorType, TruncationMode, UnderlineMode,
};

#[test]
fn mode_names() {
    assert_eq!(RendererType::Direct3D11.name(), "Direct3D11");
    assert_eq!(RubyTextType::Off.name(), "None");
    assert_eq!(RubyTextType::Furigana.name(), "Furigana");
    assert_eq!(TranslatorType::Responses.name(), "Responses");
    assert_eq!(TruncationMode::RetentionRatio.name(), "Retention ratio");
    assert_eq!(TruncationMode::variants().len(), 3);
    assert_eq!(RubyTextType::variants(), vec![RubyTextType::Off, RubyTextType::Furigana, RubyTextType::Romaji]);
    assert_eq!(TranslatorType::variants()[2], TranslatorType::Realtime);
    assert_eq!(RendererType::variants(), vec![RendererType::Glow, RendererType::Direct3D11]);
}

#[test]
fn renderer_from_number() {
    assert_eq!(RendererType::from_u32(0), Some(RendererType::Glow));
    assert_eq!(RendererType::from_u32(1), Some(RendererType::Direct3D11));
    assert_eq!(RendererType::from_u32(2), None);
}

#[test]
fn ruby_choice() {
    assert_eq!(ruby_for_term(RubyTextType::Off, "猫", "ねこ", "neko"), RubyTextMode::Off);
    assert_eq!(ruby_for_term(RubyTextType::Furigana, "猫", "ねこ", "neko"), RubyTextMode::Text("ねこ"));
    assert_eq!(ruby_for_term(RubyTextType::Furigana, "ねこ", "ねこ", "neko"), RubyTextMode::Pad);
    assert_eq!(ruby_for_term(RubyTextType::Romaji, "ねこ", "ねこ", "neko"), RubyTextMode::Text("neko"));
    assert_eq!(ruby_for_plain(RubyTextType::Off), RubyTextMode::Off);
    assert_eq!(ruby_for_plain(RubyTextType::Romaji), RubyTextMode::Pad);
}

#[test]
fn underline_choice() {
    assert_eq!(underline_for_term(1, 0, 3), UnderlineMode::Off);
    assert_eq!(underline_for_term(2, 0, 3), UnderlineMode::Pad);
    assert_eq!(underline_for_term(2, 2, 3), UnderlineMode::Normal);
}

#[test]
fn styles() {
    assert_eq!(
        skipped_style(false, true),
        KanjiStyle { highlight: false, stroke: true, preview: false, underline: UnderlineMode::Off }
    );
    assert!(!skipped_style(true, true).stroke);
    assert_eq!(preview_style(), KanjiStyle { highlight: true, stroke: false, preview: true, underline: UnderlineMode::Off });
    assert_eq!(
        term_style(true, UnderlineMode::Normal),
        KanjiStyle { highlight: true, stroke: true, preview: false, underline: UnderlineMode::Normal }
    );
}

#[test]
fn connection_policy_defaults() {
    let p = ConnectionPolicy::default();
    assert_eq!(p.timeout_ms, 10_000);
    assert_eq!(p.connect_timeout_ms, 3_000);
}

#[test]
fn scroll_lock_injected_toggle_settles() {
    let (mut sync, toggle) = ScrollLockSync::new(true, false, 1_000);
    assert!(toggle);
    assert!(sync.state);
    assert_eq!(sync.poll(false, 1_100), None);
    assert!(sync.state);
    assert_eq!(sync.poll(true, 1_200), None);
    assert_eq!(sync.pending_since, None);
}

#[test]
fn scroll_lock_reports_outside_toggles() {
    let (mut sync, toggle) = ScrollLockSync::new(false, false, 0);
    assert!(!toggle);
    assert_eq!(sync.poll(true, 10), Some(true));
    assert!(sync.state);
    assert!(!sync.set(true, true, 20));
    assert!(sync.set(false, true, 30));
    assert_eq!(sync.poll(true, 30 + SCROLL_LOCK_SETTLE_TIMEOUT_MS), Some(true));
}

#[test]
fn realtime_input_text_item() {
    let item = ConversationItem::input_text("翻訳して".to_string());
    assert!(item.id.is_none());
    assert_eq!(item.status, ConversationItemStatus::Incomplete);
    match item.body {
        ConversationItemBody::Message { role, content } => {
            assert_eq!(role, RealtimeRole::User);
            assert_eq!(content.len(), 1);
            assert!(matches!(&content[0], ConversationItemContent::InputText { text } if text == "翻訳して"));
        }
        _ => panic!("expected a message"),
    }
}

#[test]
fn realtime_defaults_and_names() {
    assert_eq!(RealtimeModel::default().api_name(), "gpt-4o-mini-realtime-preview");
    assert_eq!(RealtimeModel::Gpt4oRealtimePreview20241217.api_name(), "gpt-4o-realtime-preview-2024-12-17");
    assert_eq!(RealtimeRole::default(), RealtimeRole::User);
    assert_eq!(ResponseConversation::default(), ResponseConversation::Auto);
    assert_eq!(ConversationItemStatus::default(), ConversationItemStatus::Incomplete);
}

#[test]
fn max_response_output_tokens_wire_form() {
    assert_eq!(MaxResponseOutputTokens::parse("inf"), Some(MaxResponseOutputTokens::Infinite));
    assert_eq!(MaxResponseOutputTokens::parse("4096"), Some(MaxResponseOutputTokens::Finite(4096)));
    assert_eq!(MaxResponseOutputTokens::parse("+7"), Some(MaxResponseOutputTokens::Finite(7)));
    assert_eq!(MaxResponseOutputTokens::parse("4294967296"), None);
    assert_eq!(MaxResponseOutputTokens::parse("Inf"), None);
    assert_eq!(MaxResponseOutputTokens::parse(""), None);
}
