use niinii::segment::{
    build_segment_grammar, final_unterminated_line, ndjson_completed_lines, newly_completed_lines,
    parse_int_field, parse_partial_ndjson_line, parse_segment_translations, TranslationSpan,
};

fn span(start: usize, end: usize, text: &str) -> TranslationSpan {
    TranslationSpan { start, end, text: text.to_string() }
}

fn triple(s: &TranslationSpan) -> (usize, usize, String) {
    (s.start, s.end, s.text.clone())
}

#[test]
fn grammar_for_no_segments() {
    assert_eq!(build_segment_grammar(0), "root ::= \"\"\n");
}

#[test]
fn grammar_for_two_segments() {
    let mut expected = String::new();
    expected.push_str("root ::= line{1,2}\n");
    expected.push_str(r#"line ::= "{\"i\":" idx ",\"j\":" idx ",\"t\":" string "}\n""#);
    expected.push('\n');
    expected.push_str("idx ::= \"0\" | \"1\"\n");
    expected.push_str(r#"string ::= "\"" string-char{0,300} "\"""#);
    expected.push('\n');
    expected.push_str(r#"string-char ::= [^"\\\x00-\x1f] | "\\" ["\\/bfnrt] | "\\u" hex hex hex hex"#);
    expected.push('\n');
    expected.push_str("hex ::= [0-9a-fA-F]\n");
    assert_eq!(build_segment_grammar(2), expected);
}

#[test]
fn grammar_lists_every_index() {
    let g = build_segment_grammar(12);
    assert!(g.starts_with("root ::= line{1,12}\n"));
    assert!(g.contains("idx ::= \"0\" | \"1\" | \"2\" | \"3\" | \"4\" | \"5\" | \"6\" | \"7\" | \"8\" | \"9\" | \"10\" | \"11\"\n"));
}

#[test]
fn int_field_reads_digits_after_the_key() {
    assert_eq!(parse_int_field(r#"{"i" : 12, "j":3"#, "i"), Some(12));
    assert_eq!(parse_int_field(r#"{"i" : 12, "j":3"#, "j"), Some(3));
    assert_eq!(parse_int_field(r#"{"i":"#, "i"), None);
    assert_eq!(parse_int_field(r#"{"i":4}"#, "k"), None);
    assert_eq!(parse_int_field(r#"{"i" 4}"#, "i"), None);
    assert_eq!(parse_int_field(r#"{"i":99999999999999999999999}"#, "i"), None);
}

#[test]
fn partial_line_reads_a_growing_span() {
    let s = parse_partial_ndjson_line(r#"{"i":0,"j":1,"t":"Hel"#, 2).unwrap();
    assert_eq!(triple(&s), (0, 1, "Hel".to_string()));
}

#[test]
fn partial_line_decodes_escapes() {
    let s = parse_partial_ndjson_line(r#"{"i":1,"j":1,"t":"a\"b\u00e9\n\/x"}"#, 2).unwrap();
    assert_eq!(s.text, "a\"bé\n/x");
}

#[test]
fn partial_line_stops_at_cut_escape() {
    let s = parse_partial_ndjson_line(r#"{"i":0,"j":0,"t":"ab\u00"#, 1).unwrap();
    assert_eq!(s.text, "ab");
    let s = parse_partial_ndjson_line(r#"{"i":0,"j":0,"t":"ab\"#, 1).unwrap();
    assert_eq!(s.text, "ab");
}

#[test]
fn partial_line_rejects_bad_indices() {
    assert!(parse_partial_ndjson_line(r#"{"i":0,"j":2,"t":"x"}"#, 2).is_none());
    assert!(parse_partial_ndjson_line(r#"{"i":1,"j":0,"t":"x"}"#, 2).is_none());
    assert!(parse_partial_ndjson_line(r#"{"i":0,"#, 2).is_none());
    assert!(parse_partial_ndjson_line(r#"{"i":0,"j":0,"t":x"#, 2).is_none());
}

#[test]
fn completed_lines_are_trimmed_and_nonblank() {
    let content = "  a \n\n b\r\npartial";
    assert_eq!(ndjson_completed_lines(content), vec!["a".to_string(), "b".to_string()]);
    assert!(ndjson_completed_lines("no newline yet").is_empty());
}

#[test]
fn segment_translations_combine_parsed_lines_and_tail() {
    let content = "{\"i\":0,\"j\":0,\"t\":\"A\"}\n{\"i\":5,\"j\":5,\"t\":\"Z\"}\n{\"i\":1,\"j\":1,\"t\":\"B";
    let parsed = vec![Some(span(0, 0, "A")), Some(span(5, 5, "Z"))];
    let out = parse_segment_translations(content, 2, &parsed);
    let got: Vec<_> = out.iter().map(triple).collect();
    assert_eq!(got, vec![(0, 0, "A".to_string()), (1, 1, "B".to_string())]);
}

#[test]
fn segment_translations_skip_unparsed_lines() {
    let parsed = vec![None, Some(span(1, 0, "bad"))];
    let out = parse_segment_translations("x\ny\n", 3, &parsed);
    assert!(out.is_empty());
}

#[test]
fn newly_completed_lines_from_a_delta() {
    let content = "first\r\nsecond\nthi";
    assert_eq!(newly_completed_lines(content, 0), vec!["first".to_string(), "second".to_string()]);
    assert_eq!(newly_completed_lines(content, 7), vec!["second".to_string()]);
    assert_eq!(newly_completed_lines(content, 14), Vec::<String>::new());
    assert_eq!(newly_completed_lines("a\nb", 100), Vec::<String>::new());
}

#[test]
fn newly_completed_line_spans_the_old_text() {
    assert_eq!(newly_completed_lines("hello wor\nld", 5), vec!["hello wor".to_string()]);
}

#[test]
fn final_line_of_a_finished_response() {
    assert_eq!(final_unterminated_line("a\nlast\r"), Some("last".to_string()));
    assert_eq!(final_unterminated_line("only"), Some("only".to_string()));
    assert_eq!(final_unterminated_line("a\n"), None);
    assert_eq!(final_unterminated_line("a\n\r"), None);
    assert_eq!(final_unterminated_line(""), None);
}

#[test]
fn partial_line_unicode_escape_needs_four_hex_digits() {
    let s = parse_partial_ndjson_line(r#"{"i":0,"j":0,"t":"a\u+0e9b\u00E9"}"#, 1).unwrap();
    assert_eq!(s.text, "abé");
    let s = parse_partial_ndjson_line(r#"{"i":0,"j":0,"t":"a\u0g41b"}"#, 1).unwrap();
    assert_eq!(s.text, "ab");
}
