use morning::dates::Date;
use morning::history::{History, HistoryError};

fn date(y: u16, m: u8, d: u8) -> Date {
    Date { year: y, month: m, day: d }
}

fn texts(h: &History) -> Vec<(Date, String)> {
    h.messages().iter().map(|m| (m.date, m.text.clone())).collect()
}

#[test]
fn missing_file_loads_as_empty_store() {
    let mut h = History::new();
    let r = h.load_history(None);
    assert!(r.is_ok());
    assert_eq!(h.messages().len(), 0);
}

#[test]
fn corrupt_file_load_reports_corrupt_store() {
    let mut h = History::new();
    let r = h.load_history(Some("not json"));
    assert_eq!(r, Err(HistoryError::CorruptStore));
    assert_eq!(h.messages().len(), 0);
}

#[test]
fn buy_milk_scenario() {
    let mut h = History::new();
    let r = h.load_history(Some("[{\"date\":\"2024-03-09\",\"text\":\"Buy milk\"}]"));
    assert!(r.is_ok());
    let today = date(2024, 3, 9);
    let found = h.find_message_by_nb_day(0, &today);
    assert_eq!(found.map(|s| s.as_str()), Some("Buy milk"));
    let tomorrow = h.find_message_by_nb_day(1, &today);
    assert!(tomorrow.is_none());
}

#[test]
fn round_trip_keeps_every_entry() {
    let mut h = History::new();
    h.load_history(None).unwrap();
    let entries = vec![
        (date(2024, 3, 9), "Buy milk"),
        (date(2024, 3, 10), ""),
        (date(2024, 3, 11), "multi\nline\ttext"),
        (date(2024, 3, 12), "quotes \" and \\ backslash / slash"),
        (date(2023, 12, 31), "unicode: h\u{e9}llo w\u{f6}rld \u{2603} \u{1f600}"),
        (date(2024, 1, 1), "control \u{0001} \u{0008} \u{000C} chars"),
    ];
    for (d, t) in &entries {
        h.add_message(d, Some(t.to_string())).unwrap();
    }
    // A retention window this large reaches back past year 0000, so the
    // save prunes nothing.
    let doc = h.write_history(&date(2024, 3, 10), u32::MAX);

    let mut reloaded = History::new();
    reloaded.load_history(Some(doc.as_str())).unwrap();
    assert_eq!(texts(&reloaded), texts(&h));
    assert_eq!(reloaded.messages().len(), entries.len());
}

#[test]
fn upsert_leaves_exactly_one_entry_per_date() {
    let mut h = History::new();
    let d = date(2024, 3, 9);
    h.add_message(&d, Some("first".to_string())).unwrap();
    h.add_message(&date(2024, 3, 10), Some("other".to_string())).unwrap();
    h.add_message(&d, Some("second".to_string())).unwrap();
    let with_d: Vec<&String> =
        h.messages().iter().filter(|m| m.date == d).map(|m| &m.text).collect();
    assert_eq!(with_d.len(), 1);
    assert_eq!(with_d[0], "second");
    assert_eq!(h.messages().len(), 2);
}

#[test]
fn failed_edit_loses_nothing() {
    let mut h = History::new();
    let d = date(2024, 3, 9);
    h.add_message(&d, Some("original".to_string())).unwrap();
    let before = texts(&h);
    let r = h.add_message(&d, None);
    assert_eq!(r, Err(HistoryError::EditorFailure));
    assert_eq!(texts(&h), before);
    assert_eq!(h.find_message_by_date(&d).map(|s| s.as_str()), Some("original"));
}

#[test]
fn failed_edit_on_fresh_date_adds_nothing() {
    let mut h = History::new();
    let r = h.add_message(&date(2024, 3, 9), None);
    assert_eq!(r, Err(HistoryError::EditorFailure));
    assert_eq!(h.messages().len(), 0);
}

#[test]
fn offset_lookup_finds_the_dated_entry() {
    let mut h = History::new();
    let today = date(2024, 3, 10);
    h.add_message(&date(2024, 3, 12), Some("in two days".to_string())).unwrap();
    assert_eq!(h.find_message_by_nb_day(2, &today).map(|s| s.as_str()), Some("in two days"));
    assert!(h.find_message_by_nb_day(1, &today).is_none());
    assert!(h.find_message_by_nb_day(-1, &today).is_none());
}

#[test]
fn offset_lookup_without_match_is_none() {
    let mut h = History::new();
    let today = date(2024, 3, 10);
    h.add_message(&date(2024, 3, 11), Some("tomorrow".to_string())).unwrap();
    assert!(h.find_message_by_nb_day(2, &today).is_none());
}

#[test]
fn duplicate_dates_favour_first_occurrence() {
    let mut h = History::new();
    let doc = "[{\"date\":\"2024-03-09\",\"text\":\"first\"},\
                {\"date\":\"2024-03-09\",\"text\":\"second\"}]";
    h.load_history(Some(doc)).unwrap();
    assert_eq!(h.messages().len(), 2);
    let today = date(2024, 3, 9);
    assert_eq!(h.find_message_by_nb_day(0, &today).map(|s| s.as_str()), Some("first"));
}

#[test]
fn retention_never_drops_future_entries() {
    let mut h = History::new();
    let today = date(2024, 3, 10);
    h.add_message(&today, Some("today".to_string())).unwrap();
    h.add_message(&date(2024, 3, 11), Some("near future".to_string())).unwrap();
    h.add_message(&date(9999, 12, 31), Some("far future".to_string())).unwrap();
    h.prune_expired(&today, 0);
    assert_eq!(h.messages().len(), 3);
    h.prune_expired(&today, 5000);
    assert_eq!(h.messages().len(), 3);
}

#[test]
fn retention_drops_stale_past_entries() {
    let mut h = History::new();
    let today = date(2024, 3, 10);
    h.add_message(&date(2024, 3, 1), Some("nine days stale".to_string())).unwrap();
    h.add_message(&date(2024, 3, 6), Some("four days stale".to_string())).unwrap();
    h.prune_expired(&today, 5);
    assert!(h.find_message_by_date(&date(2024, 3, 1)).is_none());
    assert_eq!(
        h.find_message_by_date(&date(2024, 3, 6)).map(|s| s.as_str()),
        Some("four days stale")
    );
    assert_eq!(h.messages().len(), 1);
}

#[test]
fn retention_boundary_keeps_the_cutoff_day() {
    let mut h = History::new();
    let today = date(2024, 3, 10);
    h.add_message(&date(2024, 3, 5), Some("on the cutoff".to_string())).unwrap();
    h.add_message(&date(2024, 3, 4), Some("one past the cutoff".to_string())).unwrap();
    h.prune_expired(&today, 5);
    assert!(h.find_message_by_date(&date(2024, 3, 5)).is_some());
    assert!(h.find_message_by_date(&date(2024, 3, 4)).is_none());
}

#[test]
fn write_history_prunes_then_renders() {
    let mut h = History::new();
    let today = date(2024, 3, 10);
    h.add_message(&date(2024, 3, 1), Some("stale".to_string())).unwrap();
    h.add_message(&date(2024, 3, 9), Some("Buy milk".to_string())).unwrap();
    let doc = h.write_history(&today, 5);
    assert_eq!(doc, "[{\"date\":\"2024-03-09\",\"text\":\"Buy milk\"}]");
    assert_eq!(h.messages().len(), 1);
}

#[test]
fn write_history_of_empty_store_is_empty_array() {
    let mut h = History::new();
    let doc = h.write_history(&date(2024, 3, 10), 15);
    assert_eq!(doc, "[]");
}

#[test]
fn add_delayed_message_lands_on_the_offset_date() {
    let mut h = History::new();
    let today = date(2024, 3, 10);
    h.add_delayed_message(3, &today, Some("in three days".to_string())).unwrap();
    assert_eq!(
        h.find_message_by_date(&date(2024, 3, 13)).map(|s| s.as_str()),
        Some("in three days")
    );
}
