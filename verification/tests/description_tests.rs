use niinii::bbcode::{clean_description, lines_of};

#[test]
fn clean_description_strips_simple_tags() {
    assert_eq!(clean_description("Hello [b]world[/b]"), "Hello world");
}

#[test]
fn clean_description_drops_spoilers() {
    assert_eq!(clean_description("Before [spoiler]secret[/spoiler] after"), "Before  after");
}

#[test]
fn clean_description_spoiler_tags_ignore_case() {
    assert_eq!(clean_description("x[SPOILER]y[/Spoiler]z"), "xz");
}

#[test]
fn clean_description_unclosed_spoiler_drops_rest() {
    assert_eq!(clean_description("A [spoiler]rest of it"), "A");
}

#[test]
fn clean_description_close_tag_is_the_first_complete_one() {
    assert_eq!(clean_description("a[spoiler]b[/spoilerx]c[/spoiler]d"), "ad");
    assert_eq!(clean_description("[url=x]a[/urlx]b[/url]c"), "a[/urlx]bc");
    assert_eq!(clean_description("a[spoiler]b[/spoilerx]c"), "a");
}

#[test]
fn clean_description_keeps_link_text() {
    assert_eq!(clean_description("See [url=https://vndb.org/c1]the page[/url]."), "See the page.");
}

#[test]
fn clean_description_link_without_close_keeps_text() {
    assert_eq!(clean_description("[url=/c2]Alice"), "Alice");
}

#[test]
fn clean_description_lone_bracket_is_text() {
    assert_eq!(clean_description("a [b c"), "a [b c");
}

#[test]
fn clean_description_collapses_blank_lines() {
    assert_eq!(clean_description("a\n\n\n\nb"), "a\n\nb");
}

#[test]
fn clean_description_handles_crlf_and_trims() {
    assert_eq!(clean_description("  a\r\nb\r\n\r\n\r\nc  \n"), "a\nb\n\nc");
}

#[test]
fn clean_description_blank_input() {
    assert_eq!(clean_description(""), "");
    assert_eq!(clean_description("[spoiler]all hidden[/spoiler]"), "");
}

#[test]
fn clean_description_keeps_non_ascii() {
    assert_eq!(clean_description("[i]明るい[/i]性格。"), "明るい性格。");
}

#[test]
fn lines_of_follows_str_lines() {
    let text = "foo\r\nbar\n\nbaz\r";
    let expected: Vec<String> = text.lines().map(|l| l.to_string()).collect();
    assert_eq!(lines_of(text), expected);
    assert_eq!(lines_of("a\n"), vec!["a".to_string()]);
    assert!(lines_of("").is_empty());
}

#[test]
fn clean_description_twice_is_once() {
    for s in [
        "Intro [b]bold[/b]\n\n\n  [spoiler]x[/spoiler] next\n \n\n end [ lone",
        "  [i]a[/i] ] [ c\n\n",
        "[SPOILER]all gone",
        "plain\n\n\n\ntext  ",
        "a\r",
        "x\r\ny\r\n\r\n\r\nz\r",
        "one\rtwo\r\n",
    ] {
        let once = clean_description(s);
        assert_eq!(clean_description(&once), once);
    }
}

#[test]
fn clean_description_twice_differs_after_a_doubled_carriage_return() {
    let once = clean_description("a\r\r\nb");
    assert_eq!(once, "a\r\nb");
    assert_eq!(clean_description(&once), "a\nb");
}
