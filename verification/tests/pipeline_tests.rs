use niinii::chat::{Role, Usage};
use niinii::chat_translator::{begin_translation, ChatState};
use niinii::realtime_translator::{turn_texts, RealtimeState};
use niinii::responses_translator::{begin_turn, ResponsesState};
use niinii::vndb::{draft_from, draft_request, DraftRequest};
use niinii::chat_translator::{single_completion_events, ChatEvent, ChatStream, ChunkView, ExchangeId};
use niinii::dict::{CustomSeqAllocator, CUSTOM_SEQ_BASE};
use niinii::pool::{is_empty_kanji_reply, pool_size_for};
use niinii::regex::{gloss_input, gloss_request, speech_request, speech_text, CachedRegex};
use niinii::text::{concat_strings, words_of};
use niinii::translator::DeepLTranslator;
use niinii::vndb::{name_sources, Character};

fn character(name: &str, original: Option<&str>) -> Character {
    Character {
        id: "c9".to_string(),
        name: name.to_string(),
        original: original.map(|s| s.to_string()),
        sex: None,
        aliases: Vec::new(),
        description: None,
        vns: Vec::new(),
    }
}

fn pairs(v: Vec<(String, String)>) -> Vec<(String, String)> {
    v
}

fn pair(a: &str, b: &str) -> (String, String) {
    (a.to_string(), b.to_string())
}

#[test]
fn cached_regex_compiles_once_per_pattern() {
    let mut cache = CachedRegex::default();
    assert_eq!(cache.pattern(), "");
    assert!(cache.get("a+").is_ok());
    assert_eq!(cache.pattern(), "a+");
    assert!(cache.get("a+").is_ok());
    assert_eq!(cache.pattern(), "a+");
    assert!(cache.get("(").is_err());
    assert_eq!(cache.pattern(), "a+");
    assert!(cache.get("b").is_ok());
    assert_eq!(cache.pattern(), "b");
}

#[test]
fn gloss_request_replaces_then_prepares() {
    let mut cache = CachedRegex::default();
    assert_eq!(gloss_request(&mut cache, "a+", "b", " caat\r\n"), Ok(Some("cbt".to_string())));
    assert_eq!(cache.pattern(), "a+");
    assert_eq!(gloss_request(&mut cache, "(x)y", "$1", "xyz"), Ok(Some("xz".to_string())));
    assert_eq!(gloss_request(&mut cache, "^.*$", "", "全部"), Ok(None));
    assert_eq!(cache.pattern(), "^.*$");
}

#[test]
fn gloss_request_rejects_a_bad_pattern() {
    let mut cache = CachedRegex::default();
    assert!(gloss_request(&mut cache, "a+", "", "x").is_ok());
    assert!(gloss_request(&mut cache, "(", "", "x").is_err());
    assert_eq!(cache.pattern(), "a+");
}

#[test]
fn speech_request_picks_group_or_whole_text() {
    let mut cache = CachedRegex::default();
    assert_eq!(speech_request(&mut cache, "「(.*)」", "「こんにちは」"), Ok(Some("こんにちは".to_string())));
    assert_eq!(speech_request(&mut cache, "(a)?b", "b"), Ok(Some("b".to_string())));
    assert_eq!(speech_request(&mut cache, "x", "abc"), Ok(None));
    assert_eq!(speech_request(&mut cache, "(", "abc"), Ok(None));
    assert_eq!(cache.pattern(), "x");
}

#[test]
fn gloss_input_drops_line_breaks_and_trims() {
    assert_eq!(gloss_input("  「こんに\r\nちは」\n "), Some("「こんにちは」".to_string()));
    assert_eq!(gloss_input("\n\r \t"), None);
    assert_eq!(gloss_input(""), None);
}

#[test]
fn speech_text_choice() {
    assert_eq!(speech_text("全部", None), None);
    assert_eq!(speech_text("全部", Some(None)), Some("全部".to_string()));
    assert_eq!(speech_text("全部", Some(Some("部".to_string()))), Some("部".to_string()));
}

#[test]
fn chat_stream_events() {
    let usage = Usage { prompt_tokens: 3, completion_tokens: 4, total_tokens: 7 };
    let mut s = ChatStream::new(ExchangeId(4), [10, 20]);
    let evs = s.on_chunk(ChunkView { usage: None, contents: vec![Some("a\n".to_string()), None, Some("b".to_string())] });
    let texts: Vec<String> = evs
        .iter()
        .map(|e| match e {
            ChatEvent::Delta { id, content } => {
                assert_eq!(*id, ExchangeId(4));
                content.clone()
            }
            _ => panic!("expected deltas"),
        })
        .collect();
    assert_eq!(texts, vec!["a\n".to_string(), "b".to_string()]);
    let evs = s.on_chunk(ChunkView { usage: Some(usage), contents: Vec::new() });
    assert!(evs.is_empty());
    assert!(matches!(s.on_error("x".to_string()), ChatEvent::Failed { error, .. } if error == "x"));
    assert!(matches!(s.on_cancel(), ChatEvent::Cancelled { id: ExchangeId(4) }));
    match s.on_end() {
        ChatEvent::Completed { id, usage: u, max_context_tokens } => {
            assert_eq!(id, ExchangeId(4));
            assert_eq!(u, Some(usage));
            assert_eq!(max_context_tokens, [10, 20]);
        }
        _ => panic!("expected completion"),
    }
}

#[test]
fn whole_completion_events() {
    let usage = Usage { prompt_tokens: 1, completion_tokens: 1, total_tokens: 2 };
    let evs = single_completion_events(ExchangeId(1), Some("hi".to_string()), usage, [1, 2]);
    assert_eq!(evs.len(), 2);
    assert!(matches!(&evs[0], ChatEvent::Delta { content, .. } if content == "hi"));
    let evs = single_completion_events(ExchangeId(1), None, usage, [1, 2]);
    assert_eq!(evs.len(), 1);
    assert!(matches!(&evs[0], ChatEvent::Completed { usage: Some(_), .. }));
}

#[test]
fn deepl_request_and_result() {
    let r = DeepLTranslator.request("猫".to_string());
    assert_eq!(r.source_language.as_deref(), Some("JA"));
    assert_eq!(r.target_language, "EN-US");
    assert_eq!(r.texts, vec!["猫".to_string()]);
    assert_eq!(DeepLTranslator.translation_text(&vec![" Cat. ".to_string(), "x".to_string()]), Some("Cat.".to_string()));
    assert_eq!(DeepLTranslator.translation_text(&Vec::new()), None);
}

#[test]
fn name_sources_pair_words() {
    assert_eq!(
        pairs(name_sources(&character("Kuranari Takeshi", Some(" 倉成 武 ")))),
        vec![pair("倉成", "Kuranari"), pair("武", "Takeshi"), pair("倉成武", "KuranariTakeshi")]
    );
    assert_eq!(pairs(name_sources(&character("Coco", Some("ココ")))), vec![pair("ココ", "Coco")]);
    assert_eq!(
        pairs(name_sources(&character("Yagami Tsugumi Chan", Some("八神 つぐみ")))),
        vec![pair("八神つぐみ", "YagamiTsugumiChan")]
    );
    assert!(name_sources(&character("Nobody", None)).is_empty());
    assert!(name_sources(&character("Blank", Some("  "))).is_empty());
}

#[test]
fn words_split_on_whitespace() {
    assert_eq!(words_of("  a b\u{3000}c\t\n"), vec!["a".to_string(), "b".to_string(), "c".to_string()]);
    assert!(words_of("   ").is_empty());
    assert_eq!(concat_strings(&vec!["ab".to_string(), "c".to_string()]), "abc");
}

#[test]
fn pool_size_is_capped() {
    assert_eq!(pool_size_for(None), 1);
    assert_eq!(pool_size_for(Some(4)), 4);
    assert_eq!(pool_size_for(Some(32)), 8);
}

#[test]
fn empty_kanji_reply() {
    assert!(is_empty_kanji_reply(" []\n"));
    assert!(!is_empty_kanji_reply("[{\"kanji\":\"猫\"}]"));
}

#[test]
fn custom_seqs_count_up_from_the_base() {
    let mut a = CustomSeqAllocator::new();
    assert_eq!(a.allocate(), CUSTOM_SEQ_BASE);
    assert_eq!(a.allocate(), CUSTOM_SEQ_BASE + 1);
    a.reset();
    assert_eq!(a.allocate(), CUSTOM_SEQ_BASE);
}

#[test]
fn zero_width_non_joiners_are_removed() {
    assert_eq!(niinii::text::strip_zwnj("ひ\u{200C}ら\u{200C}"), "ひら");
    assert_eq!(niinii::text::remove_char("a-b-c", '-'), "abc");
}

#[test]
fn drafts_for_name_tokens() {
    assert!(matches!(draft_request("  ", "x", true), DraftRequest::Skip));
    assert!(matches!(draft_request(" アリス ", "", false), DraftRequest::KanaOnly { kana } if kana == "アリス"));
    assert!(matches!(draft_request("武", " ", true), DraftRequest::Skip));
    let req = draft_request(" 武 ", " Takeshi ", true);
    assert!(matches!(&req, DraftRequest::Reading { kanji, romaji } if kanji == "武" && romaji == "Takeshi"));
    let d = draft_from(req, Some(Ok(" たけし\n".to_string())), "Kuranari Takeshi").unwrap();
    assert_eq!(d.kanji.as_deref(), Some("武"));
    assert_eq!(d.kana, "たけし");
    assert_eq!(d.full_name, "Kuranari Takeshi");
    let req = draft_request("武", "Takeshi", true);
    assert!(draft_from(req, Some(Ok("  ".to_string())), "T").is_none());
    let req = draft_request("武", "Takeshi", true);
    assert!(draft_from(req, Some(Err("down".to_string())), "T").is_none());
    let d = draft_from(DraftRequest::KanaOnly { kana: "アリス".to_string() }, None, "Alice").unwrap();
    assert!(d.kanji.is_none());
    assert_eq!(d.kana, "アリス");
}

#[test]
fn beginning_turns() {
    let mut chat = ChatState::new();
    let (grammar, prompt) = begin_translation(&mut chat, ExchangeId(1), "m".to_string(), "sys", "猫だ".to_string(), vec!["猫".to_string(), "だ".to_string()]);
    assert!(grammar.starts_with("root ::= line{1,2}\n"));
    assert_eq!(prompt.len(), 3);
    assert_eq!(prompt[2].content.as_deref(), Some("0\t猫\n1\tだ"));
    let ex = chat.exchange(ExchangeId(1)).unwrap();
    assert_eq!(ex.user_message.role, Role::User);
    assert_eq!(ex.user_message.content.as_deref(), Some("猫だ"));
    assert!(ex.usage.is_none());
    match &ex.response {
        niinii::chat_translator::Response::Streaming { content, translations } => {
            assert!(content.is_empty());
            assert!(translations.is_empty());
        }
        _ => panic!("a new exchange is streaming"),
    }
    let mut rs = ResponsesState::new();
    rs.previous_response_id = Some("r".to_string());
    let plan = begin_turn(&mut rs, niinii::translator::ExchangeId(2), "m".to_string(), "sys", true, "行く");
    assert_eq!(plan.previous_response_id.as_deref(), Some("r"));
    assert_eq!(rs.exchanges.len(), 1);
    let mut rt = RealtimeState::new();
    rt.set_system_addendum(Some("cast".to_string()));
    let (instructions, user) = turn_texts(&rt, "sys", "行く");
    assert_eq!(instructions, "sys\n\ncast");
    assert_eq!(user, "Translate this line:\n行く");
}
