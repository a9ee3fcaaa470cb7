use niinii::vndb::{
    active_id_is, build_prompt, group_drafts, not_found_message, placeholder_summary, prompt_changed,
    ActiveVn, Character, CharacterVn, DraftEntry, Sex, VnSummary, VndbState, VNDB_PROMPT_PREAMBLE,
};

fn summary(id: &str, title: &str, alttitle: Option<&str>) -> VnSummary {
    VnSummary {
        id: id.to_string(),
        title: title.to_string(),
        alttitle: alttitle.map(|s| s.to_string()),
        released: None,
        length: None,
        rating: None,
        votecount: None,
        description: None,
        developers: Vec::new(),
        platforms: Vec::new(),
    }
}

fn character(
    name: &str,
    original: Option<&str>,
    sex: Option<Sex>,
    aliases: &[&str],
    description: Option<&str>,
    vns: &[(&str, &str)],
) -> Character {
    Character {
        id: "c1".to_string(),
        name: name.to_string(),
        original: original.map(|s| s.to_string()),
        sex,
        aliases: aliases.iter().map(|s| s.to_string()).collect(),
        description: description.map(|s| s.to_string()),
        vns: vns
            .iter()
            .map(|(id, role)| CharacterVn { id: id.to_string(), role: role.to_string() })
            .collect(),
    }
}

fn draft(kanji: Option<&str>, kana: &str, full: &str) -> DraftEntry {
    DraftEntry { kanji: kanji.map(|s| s.to_string()), kana: kana.to_string(), full_name: full.to_string() }
}

#[test]
fn build_prompt_renders_characters() {
    let vn = summary("v17", "Ever17", Some("エバー17"));
    let chars = vec![
        character(
            "Takeshi Kuranari",
            Some("倉成 武"),
            Some(Sex::Male),
            &["  Take ", "", "たけぴょん"],
            Some("A [b]student[/b].\n\n[spoiler]He is X.[/spoiler]Likes  cola.\n"),
            &[("v17", "main")],
        ),
        character("Coco", None, None, &[], None, &[("v2", "side")]),
    ];
    let prompt = build_prompt(&vn, &chars);
    let expected = format!(
        "{}\n\nVisual novel: Ever17 (エバー17)\n\nCharacters:\n\
         - 倉成 武 (Takeshi Kuranari) [male] [main] (aka: Take; たけぴょん): A student. / Likes  cola.\n\
         - Coco\n",
        VNDB_PROMPT_PREAMBLE
    );
    assert_eq!(prompt, expected);
}

#[test]
fn build_prompt_without_characters() {
    let vn = summary("v1", "Title", None);
    let prompt = build_prompt(&vn, &[]);
    assert_eq!(prompt, format!("{}\n\nVisual novel: Title\n\nCharacters:\n", VNDB_PROMPT_PREAMBLE));
}

#[test]
fn role_for_picks_the_visual_novel() {
    let ch = character("A", None, None, &[], None, &[("v1", "side"), ("v2", "main"), ("v2", "appears")]);
    assert_eq!(ch.role_for("v2"), Some("main"));
    assert_eq!(ch.role_for("v1"), Some("side"));
    assert_eq!(ch.role_for("v3"), None);
}

#[test]
fn sex_labels() {
    assert_eq!(Sex::Male.label(), "male");
    assert_eq!(Sex::Female.label(), "female");
    assert_eq!(Sex::Both.label(), "both");
    assert_eq!(Sex::Sexless.label(), "sexless");
}

#[test]
fn group_drafts_merges_shared_names() {
    let entries = group_drafts(vec![
        draft(Some("山田"), "やまだ", "Yamada Taro"),
        draft(Some("山田"), "やまだ", "Yamada Hanako"),
        draft(None, "たろう", "Yamada Taro"),
        draft(Some("山田"), "やまだ", "Yamada Taro"),
        draft(Some("山田"), "さんだ", "Yamada Jiro"),
    ]);
    assert_eq!(entries.len(), 3);
    assert_eq!(entries[0].kanji.as_deref(), Some("山田"));
    assert_eq!(entries[0].kana, "やまだ");
    assert_eq!(entries[0].pos, "n-pr");
    assert_eq!(entries[0].gloss, "Yamada Taro; Yamada Hanako");
    assert_eq!(entries[1].kanji, None);
    assert_eq!(entries[1].kana, "たろう");
    assert_eq!(entries[1].gloss, "Yamada Taro");
    assert_eq!(entries[2].kana, "さんだ");
    assert_eq!(entries[2].gloss, "Yamada Jiro");
}

#[test]
fn group_drafts_empty() {
    assert!(group_drafts(Vec::new()).is_empty());
}

#[test]
fn placeholder_summary_holds_the_id() {
    let s = placeholder_summary("v42");
    assert_eq!(s.id, "v42");
    assert_eq!(s.title, "...");
    assert!(s.alttitle.is_none() && s.description.is_none());
    assert!(s.developers.is_empty() && s.platforms.is_empty());
}

#[test]
fn prompt_is_withheld_when_empty() {
    let mut state = VndbState::default();
    assert_eq!(state.prompt(), None);
    state.begin_set_active(summary("v1", "T", None));
    assert_eq!(state.prompt(), None);
    state.active = Some(ActiveVn { summary: summary("v1", "T", None), characters: Vec::new(), prompt: "p".to_string() });
    assert_eq!(state.prompt(), Some("p"));
}

#[test]
fn active_id_is_compares_ids() {
    let mut state = VndbState::default();
    assert!(!active_id_is(&state, "v1"));
    state.begin_set_active_by_id("v1");
    assert!(active_id_is(&state, "v1"));
    assert!(!active_id_is(&state, "v2"));
    assert!(state.loading_active);
}

#[test]
fn stale_search_results_are_dropped() {
    let mut state = VndbState::default();
    state.begin_search("first".to_string());
    state.begin_search("second".to_string());
    state.finish_search("first", Ok(vec![summary("v1", "One", None)]));
    assert!(state.searching);
    assert!(state.search_results.is_empty());
    state.finish_search("second", Ok(vec![summary("v2", "Two", None)]));
    assert!(!state.searching);
    assert_eq!(state.search_results.len(), 1);
    assert_eq!(state.search_results[0].id, "v2");
}

#[test]
fn search_error_is_recorded() {
    let mut state = VndbState::default();
    state.begin_search("q".to_string());
    state.finish_search("q", Err("timeout".to_string()));
    assert!(!state.searching);
    assert_eq!(state.last_error.as_deref(), Some("timeout"));
}

#[test]
fn superseded_characters_do_not_land() {
    let mut state = VndbState::default();
    state.begin_set_active(summary("v1", "One", None));
    state.begin_set_active(summary("v2", "Two", None));
    let chars = vec![character("A", None, None, &[], None, &[])];
    assert!(!state.land_characters(summary("v1", "One", None), chars));
    assert_eq!(state.active.as_ref().unwrap().summary.id, "v2");
    assert!(state.loading_active);
    let chars = vec![character("B", None, None, &[], None, &[])];
    assert!(state.land_characters(summary("v2", "Two", None), chars));
    assert!(!state.loading_active);
    let active = state.active.as_ref().unwrap();
    assert_eq!(active.characters.len(), 1);
    let expected = build_prompt(&summary("v2", "Two", None), &active.characters);
    assert_eq!(state.prompt(), Some(expected.as_str()));
}

#[test]
fn lookup_failure_only_for_the_active_id() {
    let mut state = VndbState::default();
    state.begin_set_active_by_id("v9");
    assert!(!state.fail_active("v8", "boom".to_string()));
    assert!(state.active.is_some());
    assert!(state.fail_active("v9", not_found_message("v9")));
    assert!(state.active.is_none());
    assert!(!state.loading_active);
    assert_eq!(state.last_error.as_deref(), Some("vndb id v9 not found"));
}

#[test]
fn clear_active_keeps_the_error() {
    let mut state = VndbState::default();
    state.last_error = Some("old".to_string());
    state.begin_set_active(summary("v1", "One", None));
    state.clear_active();
    assert!(state.active.is_none());
    assert!(!state.loading_active);
    assert_eq!(state.last_error.as_deref(), Some("old"));
}

#[test]
fn prompt_change_detection() {
    assert!(!prompt_changed(None, None));
    assert!(prompt_changed(Some("a"), None));
    assert!(prompt_changed(None, Some("a")));
    assert!(!prompt_changed(Some("a"), Some("a")));
    assert!(prompt_changed(Some("a"), Some("b")));
}
