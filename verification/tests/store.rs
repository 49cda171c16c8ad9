//! The canonical store's upsert and query semantics.

use coach::date::Date;
use coach::model::{Course, Dataset, Meet, Swimmer, SwimmerTime};
use coach::store::Store;

fn swimmer(id: &str, first: &str, last: &str) -> Swimmer {
    Swimmer {
        id: id.to_string(),
        first_name: first.to_string(),
        last_name: last.to_string(),
        gender: "F".to_string(),
        birth_date: Date { year: 2005, month: 1, day: 1 },
    }
}

fn time_row(swimmer_id: &str, meet_id: &str, distance: i32) -> SwimmerTime {
    SwimmerTime {
        swimmer: Swimmer::new(swimmer_id.to_string(), String::new(), String::new()),
        style: coach::codec::Style::Freestyle,
        distance,
        course: Some(Course::Short),
        time: 83450,
        time_date: Date { year: 2024, month: 1, day: 5 },
        meet: Meet::new(meet_id.to_string(), Course::Short),
        dataset: Dataset::MeetEntries,
    }
}

#[test]
fn swimmer_upsert_first_writer_wins() {
    let mut store = Store::new();
    store.upsert_swimmer(swimmer("1", "Jane", "Doe"));
    store.upsert_swimmer(swimmer("1", "Janet", "Dane"));
    assert_eq!(store.swimmers().len(), 1);
    assert_eq!(store.swimmers()[0].first_name, "Jane");
    assert_eq!(store.swimmers()[0].last_name, "Doe");
}

#[test]
fn swimmer_upsert_distinct_ids_both_kept() {
    let mut store = Store::new();
    store.upsert_swimmer(swimmer("1", "Jane", "Doe"));
    store.upsert_swimmer(swimmer("2", "Jane", "Doe"));
    assert_eq!(store.swimmers().len(), 2);
}

#[test]
fn time_upsert_is_no_op_on_same_natural_key() {
    let mut store = Store::new();
    let mut t = time_row("1", "m", 200);
    store.upsert_swimmer_time(&t);
    // same key, different time value: the first row stays
    t.time = 99999;
    store.upsert_swimmer_time(&t);
    assert_eq!(store.times().len(), 1);
    assert_eq!(store.times()[0].time, 83450);
}

#[test]
fn time_upsert_distinguishes_key_components() {
    let mut store = Store::new();
    let base = time_row("1", "m", 200);
    store.upsert_swimmer_time(&base);
    let mut other_course = time_row("1", "m", 200);
    other_course.course = Some(Course::Long);
    store.upsert_swimmer_time(&other_course);
    let mut other_dataset = time_row("1", "m", 200);
    other_dataset.dataset = Dataset::MeetResults;
    store.upsert_swimmer_time(&other_dataset);
    let other_distance = time_row("1", "m", 400);
    store.upsert_swimmer_time(&other_distance);
    assert_eq!(store.times().len(), 4);
}

#[test]
fn search_by_name_needs_exactly_one_match() {
    let mut store = Store::new();
    assert!(store.search_swimmer_by_name("Jane", "Doe").is_err());
    store.upsert_swimmer(swimmer("1", "Jane", "Doe"));
    let found = store.search_swimmer_by_name("Jane", "Doe").unwrap();
    assert_eq!(found.id, "1");
    // a second swimmer with the same name makes the lookup ambiguous
    store.upsert_swimmer(swimmer("2", "Jane", "Doe"));
    assert!(store.search_swimmer_by_name("Jane", "Doe").is_err());
}

#[test]
fn find_meet_by_id() {
    let mut store = Store::new();
    store.upsert_meet(Meet::new("m1".to_string(), Course::Short));
    assert!(store.find_meet("m1").is_some());
    assert!(store.find_meet("m2").is_none());
}

#[test]
fn ledger_is_append_only_and_numbered() {
    let mut store = Store::new();
    let ids = vec!["1".to_string(), "2".to_string()];
    store.append_import_history("m1", Dataset::MeetEntries, &ids, 5, 17);
    store.append_import_history("m2", Dataset::MeetResults, &Vec::new(), 0, 3);
    store.append_import_history("m1", Dataset::MeetResults, &ids, 2, 8);
    assert_eq!(store.history().len(), 3);
    assert_eq!(store.history()[0].id, 1);
    assert_eq!(store.history()[0].load_time, 1);
    assert_eq!(store.history()[2].id, 3);
    assert_eq!(store.history()[0].num_swimmers, 2);
    assert_eq!(store.history()[0].num_entries, 5);
    assert_eq!(store.history()[0].duration, 17);
    assert_eq!(store.history()[0].swimmers, "1, 2");
    assert_eq!(store.history()[1].swimmers, "");
    assert_eq!(store.history()[0].dataset, Dataset::MeetEntries);
}

#[test]
fn import_history_for_meet_is_most_recent_first() {
    let mut store = Store::new();
    store.append_import_history("m1", Dataset::MeetEntries, &Vec::new(), 1, 0);
    store.append_import_history("m2", Dataset::MeetEntries, &Vec::new(), 2, 0);
    store.append_import_history("m1", Dataset::MeetResults, &Vec::new(), 3, 0);
    let h = store.find_import_history("m1");
    assert_eq!(h.len(), 2);
    assert_eq!(h[0].id, 3);
    assert_eq!(h[1].id, 1);
}

#[test]
fn meets_with_results_excludes_the_asked_meet() {
    let mut store = Store::new();
    store.upsert_meet(Meet::new("m1".to_string(), Course::Short));
    store.upsert_meet(Meet::new("m2".to_string(), Course::Long));
    store.upsert_meet(Meet::new("m3".to_string(), Course::Long));
    store.append_import_history("m2", Dataset::MeetResults, &Vec::new(), 1, 0);
    store.append_import_history("m3", Dataset::MeetEntries, &Vec::new(), 1, 0);
    let with_results = store.find_meets_with_results("m1");
    assert_eq!(with_results.len(), 1);
    assert_eq!(with_results[0].id, "m2");
    // the meet itself is excluded even when its results are loaded
    store.append_import_history("m1", Dataset::MeetResults, &Vec::new(), 1, 0);
    assert_eq!(store.find_meets_with_results("m1").len(), 1);
}

#[test]
fn latest_imported_swimmers_picks_the_most_recent_per_dataset() {
    let mut store = Store::new();
    store.append_import_history("m1", Dataset::MeetEntries, &vec!["1".to_string()], 1, 0);
    store.append_import_history("m1", Dataset::MeetEntries, &vec!["2".to_string()], 1, 0);
    store.append_import_history("m1", Dataset::MeetResults, &vec!["3".to_string()], 1, 0);
    store.append_import_history("m2", Dataset::MeetResults, &vec!["4".to_string()], 1, 0);
    let latest = store.find_latest_imported_swimmers("m1");
    assert_eq!(latest.len(), 2);
    assert_eq!(latest[0].dataset, Dataset::MeetEntries);
    assert_eq!(latest[0].swimmers, "2");
    assert_eq!(latest[1].dataset, Dataset::MeetResults);
    assert_eq!(latest[1].swimmers, "3");
    assert_eq!(store.find_latest_imported_swimmers("m3").len(), 0);
}

#[test]
fn dataset_loaded_answers_the_read_path() {
    let mut store = Store::new();
    assert!(!store.dataset_loaded("m1", Dataset::MeetEntries));
    store.append_import_history("m1", Dataset::MeetEntries, &Vec::new(), 1, 0);
    assert!(store.dataset_loaded("m1", Dataset::MeetEntries));
    assert!(!store.dataset_loaded("m1", Dataset::MeetResults));
    assert!(!store.dataset_loaded("m2", Dataset::MeetEntries));
}
