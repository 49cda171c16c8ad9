//! The CSV entries importer, end to end.

use coach::date::Date;
use coach::entries::{import_meet_entries, ImportError};
use coach::model::{Course, Dataset, Meet};
use coach::report::IssueKind;
use coach::store::Store;

fn store_with_meet(meet_id: &str) -> Store {
    let mut store = Store::new();
    let mut meet = Meet::new(meet_id.to_string(), Course::Short);
    meet.end_date = Date { year: 2024, month: 6, day: 30 };
    store.upsert_meet(meet);
    store
}

const HEADER: &str = "id,a,b,c,name,gender,d,birth,e,event,f,g,short,short-date,long,long-date";

/// A sixteen-column row in the entries layout.
fn row(
    id: &str,
    name: &str,
    gender: &str,
    birth: &str,
    event: &str,
    short: &str,
    short_date: &str,
    long: &str,
    long_date: &str,
) -> String {
    format!(
        "{id},x,x,x,{name},{gender},x,{birth},x,{event},x,x,{short},{short_date},{long},{long_date}"
    )
}

#[test]
fn scenario_entries_row() {
    let mut store = store_with_meet("m1");
    let text = format!(
        "{HEADER}\n{}\n",
        row("123", "Doe Jane", "f", "Jan-01-05", "200 Fr", "02:15.30", "Jan-05-24", "", "")
    );
    let issues = import_meet_entries(&mut store, "m1", &text, 7).unwrap();
    assert!(issues.is_empty());

    assert_eq!(store.swimmers().len(), 1);
    let s = &store.swimmers()[0];
    assert_eq!(s.id, "123");
    assert_eq!(s.first_name, "Jane");
    assert_eq!(s.last_name, "Doe");
    assert_eq!(s.gender, "F");
    assert_eq!(s.birth_date, Date { year: 2005, month: 1, day: 1 });

    assert_eq!(store.times().len(), 1);
    let t = &store.times()[0];
    assert_eq!(t.swimmer.id, "123");
    assert_eq!(t.meet.id, "m1");
    assert_eq!(t.style, coach::codec::Style::Freestyle);
    assert_eq!(t.distance, 200);
    assert_eq!(t.course, Some(Course::Short));
    assert_eq!(t.time, 135300);
    assert_eq!(t.time_date, Date { year: 2024, month: 1, day: 5 });
    assert_eq!(t.dataset, Dataset::MeetEntries);

    assert_eq!(store.history().len(), 1);
    let h = &store.history()[0];
    assert_eq!(h.num_entries, 1);
    assert_eq!(h.num_swimmers, 1);
    assert_eq!(h.swimmers, "123");
    assert_eq!(h.meet_id, "m1");
    assert_eq!(h.dataset, Dataset::MeetEntries);
    assert_eq!(h.duration, 7);
}

#[test]
fn both_course_branches_write() {
    let mut store = store_with_meet("m1");
    let text = format!(
        "{HEADER}\n{}\n",
        row(
            "9",
            "Roe Max",
            "m",
            "Mar-07-06",
            "100 Fly",
            "01:10.00",
            "Jan-05-24",
            "01:08.50",
            "Feb-10-24"
        )
    );
    import_meet_entries(&mut store, "m1", &text, 0).unwrap();
    assert_eq!(store.times().len(), 2);
    assert_eq!(store.times()[0].course, Some(Course::Short));
    assert_eq!(store.times()[0].time, 70000);
    assert_eq!(store.times()[1].course, Some(Course::Long));
    assert_eq!(store.times()[1].time, 68500);
}

#[test]
fn importing_twice_is_idempotent_on_rows() {
    let mut store = store_with_meet("m1");
    let text = format!(
        "{HEADER}\n{}\n{}\n",
        row("1", "Doe Jane", "f", "Jan-01-05", "200 Fr", "02:15.30", "Jan-05-24", "", ""),
        row("2", "Roe Max", "m", "Feb-02-06", "100 Bk", "01:10.00", "Jan-05-24", "", "")
    );
    import_meet_entries(&mut store, "m1", &text, 1).unwrap();
    let swimmers_once = store.swimmers().len();
    let times_once = store.times().len();
    import_meet_entries(&mut store, "m1", &text, 2).unwrap();
    // same canonical row set, one more ledger row
    assert_eq!(store.swimmers().len(), swimmers_once);
    assert_eq!(store.times().len(), times_once);
    assert_eq!(store.history().len(), 2);
    assert_eq!(store.history()[0].num_entries, store.history()[1].num_entries);
}

#[test]
fn three_records_with_a_bad_birth_date() {
    let mut store = store_with_meet("m1");
    let text = format!(
        "{HEADER}\n{}\n{}\n{}\n",
        row("1", "Doe Jane", "f", "Jan-01-05", "200 Fr", "02:15.30", "Jan-05-24", "", ""),
        row("2", "Bad Birth", "m", "Foo-99-05", "100 Bk", "01:10.00", "Jan-05-24", "", ""),
        row("3", "Roe Max", "m", "Feb-02-06", "50 Br", "00:35.00", "Jan-05-24", "", "")
    );
    let issues = import_meet_entries(&mut store, "m1", &text, 0).unwrap();
    // the skipped swimmer write is reported with its 1-based row number
    assert_eq!(issues.len(), 1);
    assert_eq!(issues[0].row, 2);
    assert_eq!(issues[0].kind, IssueKind::BirthDate);
    assert_eq!(issues[0].context, "Foo-99-05");
    // the bad row adds no swimmer, but every record is counted
    assert_eq!(store.swimmers().len(), 2);
    assert_eq!(store.history()[0].num_entries, 3);
    assert_eq!(store.history()[0].num_swimmers, 2);
    assert_eq!(store.history()[0].swimmers, "1, 3");
    // the rows around the bad one are imported in full
    assert_eq!(store.times().len(), 3);
    assert_eq!(store.swimmers()[0].id, "1");
    assert_eq!(store.swimmers()[1].id, "3");
}

#[test]
fn bad_event_skips_times_but_counts_the_row() {
    let mut store = store_with_meet("m1");
    let text = format!(
        "{HEADER}\n{}\n",
        row("1", "Doe Jane", "f", "Jan-01-05", "garbled", "02:15.30", "Jan-05-24", "", "")
    );
    let issues = import_meet_entries(&mut store, "m1", &text, 0).unwrap();
    assert_eq!(store.swimmers().len(), 1);
    assert_eq!(store.times().len(), 0);
    assert_eq!(store.history()[0].num_entries, 1);
    assert_eq!(issues.len(), 1);
    assert_eq!(issues[0].kind, IssueKind::EventLabel);
    assert_eq!(issues[0].context, "garbled");
}

#[test]
fn bad_short_date_skips_only_that_branch() {
    let mut store = store_with_meet("m1");
    let text = format!(
        "{HEADER}\n{}\n",
        row(
            "1",
            "Doe Jane",
            "f",
            "Jan-01-05",
            "200 Fr",
            "02:15.30",
            "not-a-date",
            "02:20.00",
            "Feb-10-24"
        )
    );
    let issues = import_meet_entries(&mut store, "m1", &text, 0).unwrap();
    // the short branch is dropped and reported, the long branch still writes
    assert_eq!(store.times().len(), 1);
    assert_eq!(store.times()[0].course, Some(Course::Long));
    assert_eq!(issues.len(), 1);
    assert_eq!(issues[0].row, 1);
    assert_eq!(issues[0].kind, IssueKind::ShortTimeBranch);
    assert_eq!(issues[0].context, "not-a-date");
}

#[test]
fn empty_time_cell_means_no_time() {
    let mut store = store_with_meet("m1");
    let text = format!(
        "{HEADER}\n{}\n",
        row("1", "Doe Jane", "f", "Jan-01-05", "200 Fr", "", "", "", "")
    );
    import_meet_entries(&mut store, "m1", &text, 0).unwrap();
    assert_eq!(store.times().len(), 0);
    assert_eq!(store.swimmers().len(), 1);
}

#[test]
fn swimmer_id_is_trimmed() {
    let mut store = store_with_meet("m1");
    let text = format!(
        "{HEADER}\n{}\n",
        row(" 42 ", "Doe Jane", "f", "Jan-01-05", "200 Fr", "02:15.30", "Jan-05-24", "", "")
    );
    import_meet_entries(&mut store, "m1", &text, 0).unwrap();
    assert_eq!(store.swimmers()[0].id, "42");
    assert_eq!(store.times()[0].swimmer.id, "42");
}

#[test]
fn header_only_document_imports_nothing() {
    let mut store = store_with_meet("m1");
    import_meet_entries(&mut store, "m1", HEADER, 0).unwrap();
    assert_eq!(store.swimmers().len(), 0);
    assert_eq!(store.times().len(), 0);
    assert_eq!(store.history().len(), 1);
    assert_eq!(store.history()[0].num_entries, 0);
}

#[test]
fn unknown_meet_is_rejected_and_nothing_changes() {
    let mut store = Store::new();
    let text = format!(
        "{HEADER}\n{}\n",
        row("1", "Doe Jane", "f", "Jan-01-05", "200 Fr", "02:15.30", "Jan-05-24", "", "")
    );
    assert!(matches!(
        import_meet_entries(&mut store, "nope", &text, 0),
        Err(ImportError::MeetNotFound)
    ));
    assert_eq!(store.swimmers().len(), 0);
    assert_eq!(store.history().len(), 0);
}

#[test]
fn blank_lines_and_crlf_are_tolerated() {
    let mut store = store_with_meet("m1");
    let text = format!(
        "{HEADER}\r\n\r\n{}\r\n\n",
        row("1", "Doe Jane", "f", "Jan-01-05", "200 Fr", "02:15.30", "Jan-05-24", "", "")
    );
    import_meet_entries(&mut store, "m1", &text, 0).unwrap();
    assert_eq!(store.swimmers().len(), 1);
    assert_eq!(store.history()[0].num_entries, 1);
}

#[test]
fn quoted_fields_flow_through_the_importer() {
    // a quoted birth date cell with no comma, and a quoted name cell: the
    // quotes come off at the document boundary
    let mut store = store_with_meet("m1");
    let text = format!(
        "{HEADER}\n{}\n",
        row("7", "\"Doe Jane\"", "f", "\"Jan-01-05\"", "200 Fr", "02:15.30", "Jan-05-24", "", "")
    );
    import_meet_entries(&mut store, "m1", &text, 0).unwrap();
    assert_eq!(store.swimmers().len(), 1);
    assert_eq!(store.swimmers()[0].first_name, "Jane");
    assert_eq!(store.swimmers()[0].last_name, "Doe");
    assert_eq!(store.swimmers()[0].birth_date, Date { year: 2005, month: 1, day: 1 });
    assert_eq!(store.times().len(), 1);
}

#[test]
fn unknown_style_still_writes_the_time() {
    let mut store = store_with_meet("m1");
    let text = format!(
        "{HEADER}\n{}\n",
        row("1", "Doe Jane", "f", "Jan-01-05", "200 Trudgen", "02:15.30", "Jan-05-24", "", "")
    );
    import_meet_entries(&mut store, "m1", &text, 0).unwrap();
    assert_eq!(store.times().len(), 1);
    assert_eq!(store.times()[0].style, coach::codec::Style::Unknown);
}
