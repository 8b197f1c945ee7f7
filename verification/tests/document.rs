use morning::dates::Date;
use morning::history::{History, HistoryError};

fn date(y: u16, m: u8, d: u8) -> Date {
    Date { year: y, month: m, day: d }
}

fn load(doc: &str) -> Result<History, HistoryError> {
    let mut h = History::new();
    h.load_history(Some(doc))?;
    Ok(h)
}

fn single_text(doc: &str) -> String {
    let h = load(doc).expect("the document is well-formed");
    assert_eq!(h.messages().len(), 1);
    h.messages()[0].text.clone()
}

#[test]
fn parse_tolerates_whitespace() {
    let doc = " \t\r\n [ { \"date\" : \"2024-03-09\" , \"text\" : \"hi\" } ] \n";
    let h = load(doc).unwrap();
    assert_eq!(h.messages()[0].date, date(2024, 3, 9));
    assert_eq!(h.messages()[0].text, "hi");
}

#[test]
fn parse_accepts_either_key_order() {
    let h = load("[{\"text\":\"hi\",\"date\":\"2024-03-09\"}]").unwrap();
    assert_eq!(h.messages()[0].date, date(2024, 3, 9));
    assert_eq!(h.messages()[0].text, "hi");
}

#[test]
fn parse_accepts_empty_array_with_whitespace() {
    let h = load(" [ ] ").unwrap();
    assert_eq!(h.messages().len(), 0);
}

#[test]
fn parse_decodes_short_escapes() {
    let t = single_text("[{\"date\":\"2024-03-09\",\"text\":\"a\\n b\\t c\\\" d\\\\ e\\/ f\\r\"}]");
    assert_eq!(t, "a\n b\t c\" d\\ e/ f\r");
    let t = single_text("[{\"date\":\"2024-03-09\",\"text\":\"\\b\\f\"}]");
    assert_eq!(t, "\u{0008}\u{000C}");
}

#[test]
fn parse_decodes_unicode_escapes() {
    let t = single_text("[{\"date\":\"2024-03-09\",\"text\":\"\\u0041\\u00e9\\u2603\"}]");
    assert_eq!(t, "A\u{e9}\u{2603}");
    let t = single_text("[{\"date\":\"2024-03-09\",\"text\":\"\\u0000\"}]");
    assert_eq!(t, "\u{0}");
}

#[test]
fn parse_rejects_surrogate_escapes() {
    let r = load("[{\"date\":\"2024-03-09\",\"text\":\"\\ud83d\\ude00\"}]");
    assert_eq!(r.err(), Some(HistoryError::CorruptStore));
}

#[test]
fn parse_rejects_raw_control_characters() {
    let r = load("[{\"date\":\"2024-03-09\",\"text\":\"a\nb\"}]");
    assert_eq!(r.err(), Some(HistoryError::CorruptStore));
}

#[test]
fn parse_rejects_unknown_escapes() {
    let r = load("[{\"date\":\"2024-03-09\",\"text\":\"a\\xb\"}]");
    assert_eq!(r.err(), Some(HistoryError::CorruptStore));
}

#[test]
fn parse_rejects_malformed_documents() {
    for doc in [
        "",
        "   ",
        "{}",
        "[",
        "[]]",
        "[] trailing",
        "[{\"date\":\"2024-03-09\",\"text\":\"hi\"},]",
        "[{\"date\":\"2024-03-09\"}]",
        "[{\"date\":\"2024-03-09\",\"text\":\"a\",\"extra\":\"b\"}]",
        "[{\"date\":\"2024-03-09\",\"note\":\"a\"}]",
        "[{\"date\":\"2024-03-09\",\"text\":\"unterminated]",
        "[{\"date\":\"2024-03-09\",\"text\":42}]",
        "[{\"date\":\"not a date\",\"text\":\"hi\"}]",
        "[{\"date\":\"2024-3-9\",\"text\":\"hi\"}]",
        "[{\"date\":\"2023-02-29\",\"text\":\"hi\"}]",
    ] {
        let r = load(doc);
        assert_eq!(r.err(), Some(HistoryError::CorruptStore), "accepted: {doc}");
    }
}

#[test]
fn render_escapes_what_json_requires() {
    let mut h = History::new();
    h.add_message(&date(2024, 3, 9), Some("a\"b\\c\nd\te\u{0001}f".to_string())).unwrap();
    let doc = h.write_history(&date(2024, 3, 9), 15);
    assert_eq!(
        doc,
        "[{\"date\":\"2024-03-09\",\"text\":\"a\\\"b\\\\c\\nd\\te\\u0001f\"}]"
    );
}

#[test]
fn render_keeps_unicode_raw() {
    let mut h = History::new();
    h.add_message(&date(2024, 3, 9), Some("h\u{e9}llo \u{2603}".to_string())).unwrap();
    let doc = h.write_history(&date(2024, 3, 9), 15);
    assert_eq!(doc, "[{\"date\":\"2024-03-09\",\"text\":\"h\u{e9}llo \u{2603}\"}]");
}

#[test]
fn render_separates_entries_with_commas() {
    let mut h = History::new();
    h.add_message(&date(2024, 3, 9), Some("one".to_string())).unwrap();
    h.add_message(&date(2024, 3, 10), Some("two".to_string())).unwrap();
    let doc = h.write_history(&date(2024, 3, 10), 15);
    assert_eq!(
        doc,
        "[{\"date\":\"2024-03-09\",\"text\":\"one\"},{\"date\":\"2024-03-10\",\"text\":\"two\"}]"
    );
}
