use curator::data::ProjectData;
use curator::template::{fill, pending_fields, substitute, tokenize, unresolved_fields, Token};

fn lit(s: &str) -> Token {
    Token::Literal(s.to_string())
}

fn field(s: &str) -> Token {
    Token::Field(s.to_string())
}

fn link(s: &str) -> Token {
    Token::Link(s.to_string())
}

fn data_of(pairs: &[(&str, &str)]) -> ProjectData {
    let mut data = ProjectData::new();
    for (key, value) in pairs {
        data.insert(key.to_string(), value.to_string());
    }
    data
}

#[test]
fn link_tokens_are_replaced_verbatim() {
    let mut data = ProjectData::new();
    let answers = ProjectData::new();
    assert!(pending_fields("See <https://example.org/x>", &data).is_empty());
    let out = substitute("See <https://example.org/x>", &mut data, &answers);
    assert_eq!(out, "See https://example.org/x");
    assert!(data.pairs().is_empty());
}

#[test]
fn field_resolves_from_existing_data() {
    let mut data = data_of(&[("author", "Ada")]);
    let answers = ProjectData::new();
    assert!(pending_fields("Copyright <author>", &data).is_empty());
    let out = substitute("Copyright <author>", &mut data, &answers);
    assert_eq!(out, "Copyright Ada");
    assert_eq!(data.pairs(), vec![("author".to_string(), "Ada".to_string())]);
}

#[test]
fn repeated_field_is_asked_once() {
    let mut data = ProjectData::new();
    let text = "(c) <year> and again <year>";
    let asks = pending_fields(text, &data);
    assert_eq!(asks, vec!["year".to_string()]);
    let answers = data_of(&[("year", "2024")]);
    let out = substitute(text, &mut data, &answers);
    assert_eq!(out, "(c) 2024 and again 2024");
    assert_eq!(data.get("year"), Some(&"2024".to_string()));
}

#[test]
fn pending_fields_keep_the_order_of_first_use() {
    let data = data_of(&[("year", "1999")]);
    let asks = pending_fields("<b> <a> <year> <b> <https://x> <c> <a>", &data);
    assert_eq!(asks, vec!["b".to_string(), "a".to_string(), "c".to_string()]);
}

#[test]
fn tokenizer_splits_into_typed_spans() {
    let tokens = tokenize("a<b>c<http://x>");
    assert_eq!(tokens, vec![lit("a"), field("b"), lit("c"), link("http://x")]);
}

#[test]
fn tokenizer_on_empty_text_gives_nothing() {
    assert_eq!(tokenize(""), Vec::<Token>::new());
}

#[test]
fn tokenizer_keeps_an_unclosed_bracket_as_text() {
    assert_eq!(tokenize("a < b"), vec![lit("a < b")]);
    assert_eq!(tokenize("<x> and <"), vec![field("x"), lit(" and <")]);
}

#[test]
fn tokenizer_takes_the_first_closing_bracket() {
    assert_eq!(tokenize("<a<b>c>"), vec![field("a<b"), lit("c>")]);
    assert_eq!(tokenize("x > y <z>"), vec![lit("x > y "), field("z")]);
}

#[test]
fn tokenizer_accepts_an_empty_field() {
    assert_eq!(tokenize("<>"), vec![field("")]);
}

#[test]
fn link_needs_the_whole_prefix() {
    assert_eq!(tokenize("<http>"), vec![link("http")]);
    assert_eq!(tokenize("<htt>"), vec![field("htt")]);
    assert_eq!(tokenize("<HTTP://x>"), vec![field("HTTP://x")]);
    assert_eq!(tokenize("< http://x>"), vec![field(" http://x")]);
}

#[test]
fn tokenizer_handles_text_beyond_ascii() {
    assert_eq!(tokenize("ü<für>ß"), vec![lit("ü"), field("für"), lit("ß")]);
}

#[test]
fn data_wins_over_answers() {
    let mut data = data_of(&[("name", "kept")]);
    let answers = data_of(&[("name", "ignored")]);
    let out = substitute("<name>", &mut data, &answers);
    assert_eq!(out, "kept");
    assert_eq!(data.get("name"), Some(&"kept".to_string()));
}

#[test]
fn answers_for_fields_not_in_the_text_are_not_recorded() {
    let mut data = ProjectData::new();
    let answers = data_of(&[("used", "1"), ("unused", "2")]);
    let out = substitute("<used>", &mut data, &answers);
    assert_eq!(out, "1");
    assert_eq!(data.pairs(), vec![("used".to_string(), "1".to_string())]);
}

#[test]
fn field_without_value_stays_as_written() {
    let mut data = ProjectData::new();
    let answers = ProjectData::new();
    let out = substitute("a <who> b", &mut data, &answers);
    assert_eq!(out, "a <who> b");
    assert!(data.pairs().is_empty());
}

#[test]
fn text_without_tokens_is_unchanged() {
    let mut data = data_of(&[("x", "y")]);
    let answers = data_of(&[("z", "w")]);
    let text = "plain text, 3 > 2 and 1 < 2";
    assert!(pending_fields(text, &data).is_empty());
    let out = substitute(text, &mut data, &answers);
    assert_eq!(out, text);
    assert_eq!(data.pairs(), vec![("x".to_string(), "y".to_string())]);
}

#[test]
fn substitute_twice_gives_the_same_text() {
    let mut data = data_of(&[("year", "2024")]);
    let answers = data_of(&[("owner", "Grace Hopper")]);
    let text = "Copyright (c) <year> <owner>, see <https://spdx.org/licenses>";
    let once = substitute(text, &mut data, &answers);
    assert_eq!(once, "Copyright (c) 2024 Grace Hopper, see https://spdx.org/licenses");
    let kept = data.pairs();
    assert!(pending_fields(&once, &data).is_empty());
    let twice = substitute(&once, &mut data, &ProjectData::new());
    assert_eq!(twice, once);
    assert_eq!(data.pairs(), kept);
}

#[test]
fn a_value_with_brackets_is_read_as_a_token_the_second_time() {
    let mut data = data_of(&[("a", "<b>")]);
    let once = substitute("<a>", &mut data, &ProjectData::new());
    assert_eq!(once, "<b>");
    assert_eq!(pending_fields(&once, &data), vec!["b".to_string()]);
}

#[test]
fn values_are_not_scanned_for_tokens_within_one_run() {
    let mut data = data_of(&[("a", "<b>"), ("b", "no")]);
    let out = substitute("<a><b>", &mut data, &ProjectData::new());
    assert_eq!(out, "<b>no");
}

#[test]
fn fill_and_unresolved_fields_work_on_tokens() {
    let tokens = vec![lit("By "), field("who"), lit(" at "), link("https://a.b")];
    let mut data = ProjectData::new();
    assert_eq!(unresolved_fields(&tokens, &data), vec!["who".to_string()]);
    let answers = data_of(&[("who", "me")]);
    assert_eq!(fill(&tokens, &mut data, &answers), "By me at https://a.b");
    assert!(unresolved_fields(&tokens, &data).is_empty());
}
