//! The HTML results scraper, end to end.

use coach::date::Date;
use coach::model::{Course, Dataset, Meet, Swimmer};
use coach::report::IssueKind;
use coach::results::{import_meet_results, HtmlCell, HtmlRow};
use coach::store::Store;

fn cell(text: &str) -> HtmlCell {
    HtmlCell { label: None, text: text.to_string() }
}

fn name_cell(label: &str) -> HtmlCell {
    HtmlCell { label: Some(label.to_string()), text: String::new() }
}

fn header_row(label: &str) -> HtmlRow {
    HtmlRow { cells: vec![name_cell(label)] }
}

fn data_row(time: &str, event: &str) -> HtmlRow {
    HtmlRow { cells: vec![cell(time), cell("1"), cell(event)] }
}

fn store_with_meet_and_swimmer() -> Store {
    let mut store = Store::new();
    let mut meet = Meet::new("m1".to_string(), Course::Long);
    meet.end_date = Date { year: 2024, month: 6, day: 30 };
    store.upsert_meet(meet);
    store.upsert_swimmer(Swimmer {
        id: "123".to_string(),
        first_name: "Jane".to_string(),
        last_name: "Doe".to_string(),
        gender: "F".to_string(),
        birth_date: Date { year: 2005, month: 1, day: 1 },
    });
    store
}

#[test]
fn scenario_results_block() {
    let mut store = store_with_meet_and_swimmer();
    let rows = vec![header_row("Doe, Jane"), data_row("02:15.30L", "F 200 Free")];
    import_meet_results(&mut store, "m1", &rows, 4).unwrap();

    assert_eq!(store.times().len(), 1);
    let t = &store.times()[0];
    assert_eq!(t.swimmer.id, "123");
    assert_eq!(t.course, Some(Course::Long));
    assert_eq!(t.time, 135300);
    assert_eq!(t.style, coach::codec::Style::Freestyle);
    assert_eq!(t.distance, 200);
    assert_eq!(t.meet.id, "m1");
    // a results time is dated at the meet's end
    assert_eq!(t.time_date, Date { year: 2024, month: 6, day: 30 });
    assert_eq!(t.dataset, Dataset::MeetResults);

    assert_eq!(store.history().len(), 1);
    let h = &store.history()[0];
    assert_eq!(h.num_entries, 1);
    assert_eq!(h.num_swimmers, 1);
    assert_eq!(h.swimmers, "123");
    assert_eq!(h.dataset, Dataset::MeetResults);
    assert_eq!(h.duration, 4);
}

#[test]
fn ledger_counts_written_rows_not_header_rows() {
    // a resolving header row with no data rows writes nothing and counts
    // nothing: the ledger records written result rows, not blocks
    let mut store = store_with_meet_and_swimmer();
    let rows = vec![header_row("Doe, Jane")];
    import_meet_results(&mut store, "m1", &rows, 0).unwrap();
    assert_eq!(store.times().len(), 0);
    assert_eq!(store.history()[0].num_entries, 0);
    assert_eq!(store.history()[0].num_swimmers, 0);
    assert_eq!(store.history()[0].swimmers, "");
}

#[test]
fn every_written_row_counts_once() {
    let mut store = store_with_meet_and_swimmer();
    let rows = vec![
        header_row("Doe, Jane"),
        data_row("02:15.30L", "F 200 Free"),
        data_row("01:05.20L", "F 100 Back"),
    ];
    let issues = import_meet_results(&mut store, "m1", &rows, 0).unwrap();
    assert_eq!(store.times().len(), 2);
    assert_eq!(store.history()[0].num_entries, 2);
    // both rows belong to the one swimmer of the block
    assert_eq!(store.history()[0].num_swimmers, 1);
    assert_eq!(store.history()[0].swimmers, "123");
    assert!(issues.is_empty());
}

#[test]
fn suffix_selects_the_course() {
    let mut store = store_with_meet_and_swimmer();
    let rows = vec![
        header_row("Doe, Jane"),
        data_row("02:15.30S", "F 200 Free"),
        data_row("02:14.10L", "F 200 Free"),
        data_row("01:05.00X", "F 100 Back"),
    ];
    import_meet_results(&mut store, "m1", &rows, 0).unwrap();
    assert_eq!(store.times().len(), 3);
    assert_eq!(store.times()[0].course, Some(Course::Short));
    assert_eq!(store.times()[1].course, Some(Course::Long));
    // an unknown suffix leaves the course unset
    assert_eq!(store.times()[2].course, None);
}

#[test]
fn bad_time_cell_writes_nothing_and_block_survives() {
    let mut store = store_with_meet_and_swimmer();
    let rows = vec![
        header_row("Doe, Jane"),
        data_row("92:15.30L", "F 200 Free"),  // minute tens over five: fails the shape
        data_row("02:14.10L", "F 200 Free"),  // the block is still valid for this row
    ];
    let issues = import_meet_results(&mut store, "m1", &rows, 0).unwrap();
    assert_eq!(store.times().len(), 1);
    assert_eq!(store.times()[0].time, 134100);
    // the skipped row is reported with its position and its time cell
    assert_eq!(issues.len(), 1);
    assert_eq!(issues[0].row, 2);
    assert_eq!(issues[0].kind, IssueKind::TimeCell);
    assert_eq!(issues[0].context, "92:15.30L");
}

#[test]
fn bad_event_cell_invalidates_only_its_row() {
    let mut store = store_with_meet_and_swimmer();
    let rows = vec![
        header_row("Doe, Jane"),
        data_row("02:15.30L", "F noise"),  // distance token is not a number
        data_row("02:14.10L", "F 200 Free"),
    ];
    let issues = import_meet_results(&mut store, "m1", &rows, 0).unwrap();
    assert_eq!(store.times().len(), 1);
    assert_eq!(store.times()[0].distance, 200);
    // the skipped row is reported against its block's swimmer
    assert_eq!(issues.len(), 1);
    assert_eq!(issues[0].row, 2);
    assert_eq!(issues[0].kind, IssueKind::EventCell);
    assert_eq!(issues[0].context, "Jane");
}

#[test]
fn rows_before_any_header_are_ignored() {
    let mut store = store_with_meet_and_swimmer();
    let rows = vec![data_row("02:15.30L", "F 200 Free")];
    import_meet_results(&mut store, "m1", &rows, 0).unwrap();
    assert_eq!(store.times().len(), 0);
    assert_eq!(store.history()[0].num_entries, 0);
}

#[test]
fn unresolved_name_invalidates_the_block_until_the_next_header() {
    let mut store = store_with_meet_and_swimmer();
    let rows = vec![
        header_row("Nobody, Known"),
        data_row("02:15.30L", "F 200 Free"),  // invalid block: skipped
        header_row("Doe, Jane"),
        data_row("02:14.10L", "F 200 Free"),
    ];
    let issues = import_meet_results(&mut store, "m1", &rows, 0).unwrap();
    assert_eq!(store.times().len(), 1);
    assert_eq!(store.times()[0].time, 134100);
    assert_eq!(store.history()[0].num_entries, 1);
    // the failed lookup is reported with the label; the skipped data row of
    // the invalid block was never examined
    assert_eq!(issues.len(), 1);
    assert_eq!(issues[0].row, 1);
    assert_eq!(issues[0].kind, IssueKind::NameResolution);
    assert_eq!(issues[0].context, "Nobody, Known");
}

#[test]
fn ambiguous_name_invalidates_the_block() {
    let mut store = store_with_meet_and_swimmer();
    store.upsert_swimmer(Swimmer {
        id: "456".to_string(),
        first_name: "Jane".to_string(),
        last_name: "Doe".to_string(),
        gender: "F".to_string(),
        birth_date: Date { year: 2006, month: 2, day: 2 },
    });
    let rows = vec![header_row("Doe, Jane"), data_row("02:15.30L", "F 200 Free")];
    import_meet_results(&mut store, "m1", &rows, 0).unwrap();
    assert_eq!(store.times().len(), 0);
    assert_eq!(store.history()[0].num_entries, 0);
}

#[test]
fn importing_results_twice_is_idempotent_on_rows() {
    let mut store = store_with_meet_and_swimmer();
    let rows = vec![
        header_row("Doe, Jane"),
        data_row("02:15.30L", "F 200 Free"),
        data_row("01:05.20L", "F 100 Back"),
    ];
    import_meet_results(&mut store, "m1", &rows, 1).unwrap();
    let times_once = store.times().len();
    let swimmers_once = store.swimmers().len();
    import_meet_results(&mut store, "m1", &rows, 2).unwrap();
    // same canonical rows, one more ledger row
    assert_eq!(store.times().len(), times_once);
    assert_eq!(store.swimmers().len(), swimmers_once);
    assert_eq!(store.history().len(), 2);
    assert_eq!(store.history()[0].num_entries, store.history()[1].num_entries);
}

#[test]
fn results_never_add_swimmers() {
    let mut store = store_with_meet_and_swimmer();
    let rows = vec![header_row("Doe, Jane"), data_row("02:15.30L", "F 200 Free")];
    import_meet_results(&mut store, "m1", &rows, 0).unwrap();
    assert_eq!(store.swimmers().len(), 1);
}

#[test]
fn unknown_meet_rejects_results_import() {
    let mut store = Store::new();
    let rows = vec![header_row("Doe, Jane")];
    assert!(import_meet_results(&mut store, "m1", &rows, 0).is_err());
    assert_eq!(store.history().len(), 0);
}

#[test]
fn gender_token_is_uppercased_into_the_written_row() {
    let mut store = store_with_meet_and_swimmer();
    let rows = vec![header_row("Doe, Jane"), data_row("02:15.30L", "f 200 Free")];
    import_meet_results(&mut store, "m1", &rows, 0).unwrap();
    assert_eq!(store.times()[0].swimmer.gender, "F");
}
