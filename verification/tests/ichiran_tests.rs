use niinii::dict::{
    clear_custom_entries_expr, kanji_info_expr, load_entry_expr, romaji_kana_expr, romanize_expr, xml_escape_into,
    ConnParams, CustomEntry, JmDictData, KwPos, CUSTOM_SEQ_BASE,
};
use niinii::lisp::{lisp_escape_string, lisp_string};
use niinii::pool::{parse_response, request_frame, sexp_head, ServerError};

fn entry(kanji: Option<&str>, kana: &str, gloss: &str) -> CustomEntry {
    CustomEntry { kanji: kanji.map(|s| s.to_string()), kana: kana.to_string(), pos: "n-pr".to_string(), gloss: gloss.to_string() }
}

#[test]
fn lisp_escaping() {
    assert_eq!(lisp_escape_string(r#"say "hi" \ bye"#), r#"say \"hi\" \\ bye"#);
    assert_eq!(lisp_escape_string("日本\n"), "日本\n");
    assert_eq!(lisp_string(r#"a"b"#), r#""a\"b""#);
    assert_eq!(lisp_string(""), "\"\"");
}

#[test]
fn xml_escaping() {
    let mut out = String::from("x");
    xml_escape_into(r#"<a & "b">"#, &mut out);
    assert_eq!(out, "x&lt;a &amp; &quot;b&quot;&gt;");
}

#[test]
fn custom_entry_xml() {
    assert_eq!(
        entry(Some("山田"), "やまだ", "Yamada & co").to_xml(),
        "<entry><ent_seq></ent_seq><k_ele><keb>山田</keb></k_ele><r_ele><reb>やまだ</reb></r_ele><sense><pos>n-pr</pos><gloss xml:lang=\"eng\">Yamada &amp; co</gloss></sense></entry>"
    );
    assert_eq!(
        entry(None, "アリス", "Alice").to_xml(),
        "<entry><ent_seq></ent_seq><r_ele><reb>アリス</reb></r_ele><sense><pos>n-pr</pos><gloss xml:lang=\"eng\">Alice</gloss></sense></entry>"
    );
}

#[test]
fn lisp_expressions() {
    assert_eq!(romanize_expr("日本", 3), "(princ (jsown:to-json (ichiran:romanize* \"日本\" :limit 3)))");
    assert_eq!(kanji_info_expr('猫'), "(princ (jsown:to-json (ichiran/kanji:kanji-info-json #\\猫)))");
    assert_eq!(romaji_kana_expr("taro"), "(princ (ichiran:romaji-kana \"taro\"))");
    assert_eq!(
        clear_custom_entries_expr(),
        "(postmodern:with-connection ichiran/conn:*connection* (postmodern:query (:delete-from 'entry :where (:>= 'seq 1000000000))))"
    );
    assert_eq!(CUSTOM_SEQ_BASE, 1_000_000_000);
    let e = load_entry_expr(&entry(None, "アリス", "A\"B"), 1_000_000_007);
    assert_eq!(
        e,
        "(postmodern:with-connection ichiran/conn:*connection* (ichiran/dict::load-entry \"<entry><ent_seq></ent_seq><r_ele><reb>アリス</reb></r_ele><sense><pos>n-pr</pos><gloss xml:lang=\\\"eng\\\">A&quot;B</gloss></sense></entry>\" :seq 1000000007 :if-exists :overwrite :conjugate-p nil))"
    );
}

#[test]
fn conn_params_parse() {
    let p = ConnParams::parse("jmdict,postgres,secret,localhost,5,5432\n").unwrap();
    assert_eq!(p.database, "jmdict");
    assert_eq!(p.user, "postgres");
    assert_eq!(p.password, "secret");
    assert_eq!(p.hostname, "localhost");
    assert_eq!(p.port, 5432);
    assert!(ConnParams::parse("a,b,c,d,e").is_none());
    assert!(ConnParams::parse("a,b,c,d,e,70000").is_none());
    assert!(ConnParams::parse("a,b,c,d,e,f,1").is_none());
}

fn row(id: u32, kw: &str) -> KwPos {
    KwPos { id, kw: kw.to_string(), descr: format!("{} row", kw), ents: String::new() }
}

#[test]
fn jmdict_data_errata() {
    let data = JmDictData::from_records(vec![row(1, "n"), row(2, "cop"), row(3, "n")]);
    assert_eq!(data.kwpos_by_kw.get("n").unwrap().id, 3);
    assert_eq!(data.kwpos_by_kw.get("cop-da").unwrap().id, 2);
    assert_eq!(data.kwpos_by_kw.get("cop-da").unwrap().kw, "cop");
    let plain = JmDictData::from_records(vec![row(1, "n")]);
    assert!(plain.kwpos_by_kw.get("cop-da").is_none());
    assert!(JmDictData::empty().kwpos_by_kw.get("n").is_none());
}

#[test]
fn request_frames_are_base64_lines() {
    assert_eq!(request_frame("(+ 1 2)"), "KCsgMSAyKQ==\n");
}

#[test]
fn reply_lines() {
    assert_eq!(parse_response("ok MTIz").unwrap(), "123");
    assert!(matches!(parse_response("err Ym9vbQ=="), Err(ServerError::Lisp(m)) if m == "boom"));
    assert!(matches!(parse_response("huh Ym9vbQ=="), Err(ServerError::UnknownTag(t)) if t == "huh"));
    assert!(matches!(parse_response("garbage"), Err(ServerError::MalformedFrame(l)) if l == "garbage"));
    assert!(matches!(parse_response("ok !!!"), Err(ServerError::InvalidBase64(_))));
    assert!(matches!(parse_response("ok /w=="), Err(ServerError::InvalidUtf8(_))));
    assert_eq!(parse_response("ok ").unwrap(), "");
}

#[test]
fn sexp_heads_are_cut_at_eighty_chars() {
    let long: String = "あ".repeat(81);
    let head = sexp_head(&long);
    assert_eq!(head.chars().count(), 83);
    assert!(head.ends_with("..."));
    let short = "x".repeat(80);
    assert_eq!(sexp_head(&short), short);
}

#[test]
fn server_error_messages() {
    assert_eq!(ServerError::MalformedFrame("x".to_string()).message(), "malformed frame: x");
    assert_eq!(ServerError::InvalidBase64("bad".to_string()).message(), "invalid base64: bad");
    assert_eq!(ServerError::InvalidUtf8("bad".to_string()).message(), "invalid utf-8: bad");
    assert_eq!(ServerError::UnknownTag("huh".to_string()).message(), "unknown tag: huh");
    assert_eq!(ServerError::Lisp("(error)".to_string()).message(), "(error)");
    assert_eq!(ServerError::Gone.message(), "ichiran-cli server has gone away");
}

#[test]
fn ready_handshake_line() {
    assert!(niinii::pool::is_ready_line("READY\r\n"));
    assert!(!niinii::pool::is_ready_line("NIL\n"));
    assert!(!niinii::pool::is_ready_line(" READY\n"));
    assert!(niinii::pool::SERVER_LOOP.starts_with("(progn"));
}

#[test]
fn request_frames_pad_the_last_group() {
    assert_eq!(request_frame(""), "\n");
    assert_eq!(request_frame("a"), "YQ==\n");
    assert_eq!(request_frame("ab"), "YWI=\n");
    assert_eq!(request_frame("abc"), "YWJj\n");
    assert_eq!(request_frame("abcd"), "YWJjZA==\n");
    assert_eq!(request_frame("猫"), "54yr\n");
}

#[test]
fn responses_need_canonical_base64() {
    assert_eq!(parse_response("ok YWJjZA==").unwrap(), "abcd");
    assert!(matches!(parse_response("ok YWJjZA"), Err(ServerError::InvalidBase64(_))));
    assert!(matches!(parse_response("ok YR=="), Err(ServerError::InvalidBase64(_))));
    assert!(matches!(parse_response("ok YQ=\u{3d}="), Err(ServerError::InvalidBase64(_))));
    assert!(matches!(parse_response("ok Y=Q="), Err(ServerError::InvalidBase64(_))));
    assert!(matches!(parse_response("ok YWJj\n"), Err(ServerError::InvalidBase64(_))));
}
