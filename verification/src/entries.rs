//! The CSV entries importer.
//!
//! A row-by-row pass over the entries table.  Fixed positional columns:
//! swimmer id (0), full name (4, space-joined with the last name first),
//! gender (5), birth date (7), event label (9, `"<distance> <style>"`),
//! short-course seed time (12) and its date (13), long-course seed time (14)
//! and its date (15).  Each row upserts its swimmer and up to two seed-time
//! rows; any malformed part of a row skips only the writes depending on it,
//! and the batch always continues with the next row.

use vstd::prelude::*;

use crate::codec::{convert_style, spec_convert_style, spec_time_to_ms, time_to_miliseconds, Style};
use crate::date::{parse_date, spec_min_date, spec_parse_date, Date, DateParseError};
use crate::model::{Course, Dataset, Meet, MeetV, Swimmer, SwimmerTime, SwimmerV, TimeV};
use crate::report::{ImportIssue, IssueKind, IssueV};
use crate::store::{spec_upsert_swimmer, spec_upsert_time, Store, StoreV};
use crate::text::{
    chars_of, prefix_chars, spec_split, spec_trim, spec_upper, split_char, string_of, trim_chars,
    upper_chars,
};

verus! {

/// The field at a positional column; a column beyond the row's width reads
/// as empty, so that a short row is handled like one with blank cells.
pub open spec fn field(row: Seq<Seq<char>>, i: int) -> Seq<char> {
    if 0 <= i < row.len() {
        row[i]
    } else {
        Seq::empty()
    }
}

/// The swimmer id a row asserts: column 0, taken verbatim but trimmed.
pub open spec fn csv_swimmer_id(row: Seq<Seq<char>>) -> Seq<char> {
    spec_trim(field(row, 0))
}

/// The swimmer a row describes, or `None` when its birth date token is
/// malformed.  The feed writes the full name space-joined with the last
/// name first, so the first token is the last name and the final token the
/// first name; the gender letter is ASCII upper-cased.
pub open spec fn csv_swimmer(row: Seq<Seq<char>>) -> Option<SwimmerV> {
    match spec_parse_date(field(row, 7)) {
        None => None,
        Some(b) => {
            let toks = spec_split(field(row, 4), ' ');
            Some(
                SwimmerV {
                    id: csv_swimmer_id(row),
                    first_name: toks.last(),
                    last_name: toks[0],
                    gender: spec_upper(field(row, 5)),
                    birth_date: b,
                },
            )
        },
    }
}

/// The event a row describes: a positive distance in meters and a style
/// token, space-joined in column 9.  `None` when the distance is not a
/// positive number — that is a record error and skips the row's time writes.
/// An unrecognized style is not an error: it classifies as `Unknown`.
pub open spec fn csv_event(row: Seq<Seq<char>>) -> Option<(int, Style)> {
    let toks = spec_split(field(row, 9), ' ');
    match crate::text::spec_parse_num(toks[0]) {
        Some(d) => if d >= 1 {
            Some((d as int, spec_convert_style(toks.last())))
        } else {
            None
        },
        None => None,
    }
}

/// One seed-time branch of a row: the time cell at `t_ix` and its date cell
/// at `d_ix`.  An empty time cell means the branch carries no time; a time
/// cell shorter than the eight `MM:SS.CC` characters, or a malformed date,
/// aborts only this branch.
pub open spec fn csv_time_branch(row: Seq<Seq<char>>, t_ix: int, d_ix: int) -> Option<(int, Date)> {
    let tok = field(row, t_ix);
    if tok.len() < 8 {
        None
    } else {
        match spec_parse_date(field(row, d_ix)) {
            None => None,
            Some(dt) => Some((spec_time_to_ms(tok.take(8)), dt)),
        }
    }
}

/// The performance row one seed-time branch writes.  The embedded swimmer
/// carries only the asserted id; the embedded meet is the canonical meet the
/// import runs against.
pub open spec fn csv_time_row(
    meet: MeetV,
    row: Seq<Seq<char>>,
    dist: int,
    style: Style,
    course: Course,
    ms: int,
    dt: Date,
) -> TimeV {
    TimeV {
        swimmer: SwimmerV {
            id: csv_swimmer_id(row),
            first_name: Seq::empty(),
            last_name: Seq::empty(),
            gender: Seq::empty(),
            birth_date: spec_min_date(),
        },
        style: style,
        distance: dist,
        course: Some(course),
        time: ms,
        time_date: dt,
        meet: meet,
        dataset: Dataset::MeetEntries,
    }
}

/// A row's effect on the swimmer table.
pub open spec fn spec_import_swimmer(sv: StoreV, row: Seq<Seq<char>>) -> StoreV {
    match csv_swimmer(row) {
        Some(s) => spec_upsert_swimmer(sv, s),
        None => sv,
    }
}

/// A row's effect on the performance table: the short-course branch, then
/// the long-course branch.
pub open spec fn spec_import_times(sv: StoreV, row: Seq<Seq<char>>, meet: MeetV) -> StoreV {
    match csv_event(row) {
        None => sv,
        Some((dist, style)) => {
            let sv1 = match csv_time_branch(row, 12, 13) {
                Some((ms, dt)) => spec_upsert_time(
                    sv,
                    csv_time_row(meet, row, dist, style, Course::Short, ms, dt),
                ),
                None => sv,
            };
            match csv_time_branch(row, 14, 15) {
                Some((ms, dt)) => spec_upsert_time(
                    sv1,
                    csv_time_row(meet, row, dist, style, Course::Long, ms, dt),
                ),
                None => sv1,
            }
        },
    }
}

/// A whole row's effect on the store: swimmer upsert, then time upserts.
pub open spec fn spec_import_row(sv: StoreV, row: Seq<Seq<char>>, meet: MeetV) -> StoreV {
    spec_import_times(spec_import_swimmer(sv, row), row, meet)
}

/// The field at a positional column, as `field` describes.
fn get_field(row: &Vec<String>, i: usize) -> (r: Vec<char>)
    ensures
        r@ == field(row.deep_view(), i as int),
{
    if i < row.len() {
        proof {
            assert(row.deep_view()[i as int] == row@[i as int]@);
        }
        chars_of(row[i].as_str())
    } else {
        Vec::new()
    }
}

/// Imports one row's swimmer: parses id, name, gender and birth date and
/// upserts the swimmer — a no-op if the id is already present, so the first
/// import of an id fixes its display fields.  A malformed birth date skips
/// the upsert and reports the error; the caller continues with the row's
/// time writes either way.
pub fn import_swimmer(store: &mut Store, row: &Vec<String>) -> (r: Result<String, DateParseError>)
    requires
        old(store).wf(),
    ensures
        final(store).wf(),
        final(store)@ == spec_import_swimmer(old(store)@, row.deep_view()),
        match r {
            Ok(id) => csv_swimmer(row.deep_view()) is Some && id@ == csv_swimmer_id(
                row.deep_view(),
            ),
            Err(_) => csv_swimmer(row.deep_view()) is None,
        },
{
    let ghost rv = row.deep_view();
    let birth_field = get_field(row, 7);
    let birth_str = string_of(&birth_field);
    let birth = match parse_date(birth_str.as_str()) {
        Ok(d) => d,
        Err(e) => {
            proof {
                assert(csv_swimmer(rv) is None);
            }
            return Err(e);
        },
    };
    let id_chars = trim_chars(&get_field(row, 0));
    let full_name = get_field(row, 4);
    let name_toks = split_char(&full_name, ' ');
    proof {
        assert(name_toks@[0].deep_view() =~= name_toks@[0]@);
        assert(name_toks@[name_toks@.len() - 1].deep_view() =~= name_toks@[name_toks@.len()
            - 1]@);
        assert(name_toks.deep_view().last() == name_toks@[name_toks@.len() - 1]@);
    }
    let last_name = string_of(&name_toks[0]);
    let first_name = string_of(&name_toks[name_toks.len() - 1]);
    let gender_chars = upper_chars(&get_field(row, 5));
    let s = Swimmer {
        id: string_of(&id_chars),
        first_name: first_name,
        last_name: last_name,
        gender: string_of(&gender_chars),
        birth_date: birth,
    };
    proof {
        assert(s@ =~~= csv_swimmer(rv)->Some_0);
    }
    store.upsert_swimmer(s);
    let id = string_of(&id_chars);
    Ok(id)
}

/// Upserts one performance row: a no-op when its natural key is already
/// present, so a re-import never overwrites an earlier time.
pub fn import_time(store: &mut Store, swimmer_time: &SwimmerTime)
    requires
        old(store).wf(),
    ensures
        final(store).wf(),
        final(store)@ == spec_upsert_time(old(store)@, swimmer_time@),
{
    store.upsert_swimmer_time(swimmer_time);
}

/// Builds the performance row one seed-time branch writes.
fn build_time_row(
    meet: &Meet,
    id_chars: &Vec<char>,
    dist: i32,
    style: Style,
    course: Course,
    ms: i32,
    dt: Date,
) -> (r: SwimmerTime)
    ensures
        r@ == csv_time_row_by_id(meet@, id_chars@, dist as int, style, course, ms as int, dt),
{
    let r = SwimmerTime {
        swimmer: Swimmer::new(string_of(id_chars), String::new(), String::new()),
        style: style,
        distance: dist,
        course: Some(course),
        time: ms,
        time_date: dt,
        meet: meet.duplicate(),
        dataset: Dataset::MeetEntries,
    };
    proof {
        assert(r@ =~~= csv_time_row_by_id(meet@, id_chars@, dist as int, style, course, ms as int, dt));
    }
    r
}

/// As `csv_time_row`, with the trimmed swimmer id already taken from the row.
pub open spec fn csv_time_row_by_id(
    meet: MeetV,
    id: Seq<char>,
    dist: int,
    style: Style,
    course: Course,
    ms: int,
    dt: Date,
) -> TimeV {
    TimeV {
        swimmer: SwimmerV {
            id: id,
            first_name: Seq::empty(),
            last_name: Seq::empty(),
            gender: Seq::empty(),
            birth_date: spec_min_date(),
        },
        style: style,
        distance: dist,
        course: Some(course),
        time: ms,
        time_date: dt,
        meet: meet,
        dataset: Dataset::MeetEntries,
    }
}

/// Imports one row's seed times: parses the event label into distance and
/// style, then writes the short-course and long-course branches that are
/// present and well formed.  A malformed event label skips both branches; a
/// malformed branch skips only itself.  Each write is an upsert on the
/// natural key, so repeating a row changes nothing.
pub fn import_times(store: &mut Store, row: &Vec<String>, meet: &Meet)
    requires
        old(store).wf(),
    ensures
        final(store).wf(),
        final(store)@ == spec_import_times(old(store)@, row.deep_view(), meet@),
{
    let ghost rv = row.deep_view();
    let ghost sv0 = store@;
    let event = get_field(row, 9);
    let ev_toks = split_char(&event, ' ');
    proof {
        assert(ev_toks@[0].deep_view() =~= ev_toks@[0]@);
        assert(ev_toks@[ev_toks@.len() - 1].deep_view() =~= ev_toks@[ev_toks@.len() - 1]@);
        assert(ev_toks.deep_view().last() == ev_toks@[ev_toks@.len() - 1]@);
    }
    let distance: i32 = match crate::text::parse_num(&ev_toks[0]) {
        Some(d) => d,
        None => {
            return ;
        },
    };
    if distance < 1 {
        return ;
    }
    let style_str = string_of(&ev_toks[ev_toks.len() - 1]);
    let style = convert_style(style_str.as_str());
    let id_chars = trim_chars(&get_field(row, 0));
    proof {
        assert(id_chars@ == csv_swimmer_id(rv));
    }

    // Short-course branch: time cell 12, date cell 13.
    let t12 = get_field(row, 12);
    if t12.len() >= 8 {
        let d13 = string_of(&get_field(row, 13));
        match parse_date(d13.as_str()) {
            Ok(dt) => {
                let time_str = string_of(&prefix_chars(&t12, 8));
                let ms = time_to_miliseconds(time_str.as_str());
                let st = build_time_row(meet, &id_chars, distance, style, Course::Short, ms, dt);
                proof {
                    assert(st@ =~~= csv_time_row(
                        meet@,
                        rv,
                        distance as int,
                        style,
                        Course::Short,
                        ms as int,
                        dt,
                    ));
                }
                import_time(store, &st);
            },
            Err(_) => {},
        }
    }
    let ghost sv1 = store@;

    // Long-course branch: time cell 14, date cell 15.
    let t14 = get_field(row, 14);
    if t14.len() >= 8 {
        let d15 = string_of(&get_field(row, 15));
        match parse_date(d15.as_str()) {
            Ok(dt) => {
                let time_str = string_of(&prefix_chars(&t14, 8));
                let ms = time_to_miliseconds(time_str.as_str());
                let st = build_time_row(meet, &id_chars, distance, style, Course::Long, ms, dt);
                proof {
                    assert(st@ =~~= csv_time_row(
                        meet@,
                        rv,
                        distance as int,
                        style,
                        Course::Long,
                        ms as int,
                        dt,
                    ));
                }
                import_time(store, &st);
            },
            Err(_) => {},
        }
    }
    proof {
        assert(store@ == spec_import_times(sv0, rv, meet@));
    }
}

// ---------------------------------------------------------------------------
// The whole batch
// ---------------------------------------------------------------------------

/// A batch-level import failure.
#[derive(Clone, Copy, Debug, PartialEq, Eq, Structural)]
pub enum ImportError {
    /// The meet the import was addressed to does not exist in the store.
    MeetNotFound,
}

/// The running provenance of one import pass: the set of swimmer ids touched
/// so far, in first-touch order, and the record counter.
#[verifier::ext_equal]
pub ghost struct RunV {
    pub touched: Seq<Seq<char>>,
    pub count: int,
}

/// One import pass over rows: the store and the running provenance.
#[verifier::ext_equal]
pub ghost struct ImportStateV {
    pub store: StoreV,
    pub run: RunV,
}

/// Set-insert on the touched-id list: keeps first-touch order, never
/// duplicates.
pub open spec fn touched_insert(t: Seq<Seq<char>>, id: Seq<char>) -> Seq<Seq<char>> {
    if t.contains(id) {
        t
    } else {
        t.push(id)
    }
}

/// A row's effect on the running provenance: the counter always advances,
/// even for a row whose swimmer was rejected; the touched set grows only on
/// a successful swimmer import.
pub open spec fn spec_row_run(run: RunV, row: Seq<Seq<char>>) -> RunV {
    RunV {
        touched: if csv_swimmer(row) is Some {
            touched_insert(run.touched, csv_swimmer_id(row))
        } else {
            run.touched
        },
        count: run.count + 1,
    }
}

/// The pass over a sequence of data rows, row by row in order.
pub open spec fn spec_import_rows(
    st: ImportStateV,
    rows: Seq<Seq<Seq<char>>>,
    meet: MeetV,
) -> ImportStateV
    decreases rows.len(),
{
    if rows.len() == 0 {
        st
    } else {
        let prev = spec_import_rows(st, rows.drop_last(), meet);
        ImportStateV {
            store: spec_import_row(prev.store, rows.last(), meet),
            run: spec_row_run(prev.run, rows.last()),
        }
    }
}

/// A fresh pass: the given store, no ids touched, counter at zero.
pub open spec fn init_state(sv: StoreV) -> ImportStateV {
    ImportStateV { store: sv, run: RunV { touched: Seq::empty(), count: 0 } }
}

/// The data rows of an entries document: everything after the header row.
pub open spec fn data_rows(rows: Seq<Seq<Seq<char>>>) -> Seq<Seq<Seq<char>>> {
    if rows.len() > 0 {
        rows.drop_first()
    } else {
        rows
    }
}

/// The full effect of one entries import: the header row is skipped, every
/// data row is applied in order, and one ledger row closes the batch.
pub open spec fn spec_import_entries(
    sv: StoreV,
    rows: Seq<Seq<Seq<char>>>,
    meet: MeetV,
    duration: int,
) -> StoreV {
    let st = spec_import_rows(init_state(sv), data_rows(rows), meet);
    crate::store::spec_append_history(
        st.store,
        meet.id,
        Dataset::MeetEntries,
        st.run.touched,
        st.run.count,
        duration,
    )
}

/// The diagnostic one seed-time branch leaves behind when its time cell is
/// present but the branch is skipped: a time cell too short to carry the
/// eight `MM:SS.CC` characters, or a malformed branch date.
pub open spec fn csv_branch_issue(
    row: Seq<Seq<char>>,
    t_ix: int,
    d_ix: int,
    kind: IssueKind,
    rownum: int,
) -> Seq<IssueV> {
    let tok = field(row, t_ix);
    if 0 < tok.len() < 8 {
        seq![IssueV { row: rownum, kind: kind, context: tok }]
    } else if tok.len() >= 8 && spec_parse_date(field(row, d_ix)) is None {
        seq![IssueV { row: rownum, kind: kind, context: field(row, d_ix) }]
    } else {
        Seq::empty()
    }
}

/// The diagnostics one row leaves behind: a malformed birth date (the
/// swimmer write was skipped), then either a malformed event label (all
/// time writes were skipped) or the per-branch skips.  `rownum` is the
/// row's 1-based position among the data rows.
pub open spec fn spec_row_issues(row: Seq<Seq<char>>, rownum: int) -> Seq<IssueV> {
    (if csv_swimmer(row) is None {
        seq![IssueV { row: rownum, kind: IssueKind::BirthDate, context: field(row, 7) }]
    } else {
        Seq::empty()
    }) + (match csv_event(row) {
        None => seq![IssueV { row: rownum, kind: IssueKind::EventLabel, context: field(row, 9) }],
        Some(_) => csv_branch_issue(row, 12, 13, IssueKind::ShortTimeBranch, rownum)
            + csv_branch_issue(row, 14, 15, IssueKind::LongTimeBranch, rownum),
    })
}

/// The diagnostics of a whole pass, row by row in order.
pub open spec fn spec_entries_issues(rows: Seq<Seq<Seq<char>>>) -> Seq<IssueV>
    decreases rows.len(),
{
    if rows.len() == 0 {
        Seq::empty()
    } else {
        spec_entries_issues(rows.drop_last()) + spec_row_issues(rows.last(), rows.len() as int)
    }
}

/// The row counter advances once per row, malformed rows included.
pub proof fn lemma_import_rows_count(st: ImportStateV, rows: Seq<Seq<Seq<char>>>, meet: MeetV)
    ensures
        spec_import_rows(st, rows, meet).run.count == st.run.count + rows.len(),
    decreases rows.len(),
{
    if rows.len() > 0 {
        lemma_import_rows_count(st, rows.drop_last(), meet);
    }
}

/// A row touches only the swimmer and performance tables.
pub proof fn lemma_import_row_frame(sv: StoreV, row: Seq<Seq<char>>, meet: MeetV)
    ensures
        spec_import_row(sv, row, meet).history == sv.history,
        spec_import_row(sv, row, meet).meets == sv.meets,
{
}

/// A whole pass touches only the swimmer and performance tables.
pub proof fn lemma_import_rows_frame(st: ImportStateV, rows: Seq<Seq<Seq<char>>>, meet: MeetV)
    ensures
        spec_import_rows(st, rows, meet).store.history == st.store.history,
        spec_import_rows(st, rows, meet).store.meets == st.store.meets,
    decreases rows.len(),
{
    if rows.len() > 0 {
        lemma_import_rows_frame(st, rows.drop_last(), meet);
        lemma_import_row_frame(
            spec_import_rows(st, rows.drop_last(), meet).store,
            rows.last(),
            meet,
        );
    }
}

fn contains_id(v: &Vec<String>, id: &str) -> (r: bool)
    ensures
        r == v.deep_view().contains(id@),
{
    let mut i: usize = 0;
    while i < v.len()
        invariant
            0 <= i <= v.len(),
            forall|j: int| 0 <= j < i ==> v.deep_view()[j] != id@,
        decreases v.len() - i,
    {
        if crate::text::eq_str(v[i].as_str(), id) {
            proof {
                assert(v.deep_view()[i as int] == id@);
            }
            return true;
        }
        i += 1;
    }
    proof {
        assert(forall|j: int| 0 <= j < v.deep_view().len() ==> v.deep_view()[j] != id@);
    }
    false
}

/// Adds an id to the touched set unless it is already there.
pub(crate) fn touch_id(v: &mut Vec<String>, id: String)
    ensures
        final(v).deep_view() == touched_insert(old(v).deep_view(), id@),
        final(v)@.len() <= old(v)@.len() + 1,
{
    let ghost old_v = v.deep_view();
    if !contains_id(v, id.as_str()) {
        v.push(id);
        proof {
            assert(v.deep_view() =~~= old_v.push(id@));
        }
    }
}

/// Collects one row's diagnostics, exactly as `spec_row_issues` describes.
fn collect_row_issues(row: &Vec<String>, rownum: usize) -> (r: Vec<ImportIssue>)
    ensures
        r.deep_view() == spec_row_issues(row.deep_view(), rownum as int),
{
    let ghost rv = row.deep_view();
    let mut r: Vec<ImportIssue> = Vec::new();
    let birth = string_of(&get_field(row, 7));
    match parse_date(birth.as_str()) {
        Ok(_) => {},
        Err(_) => {
            r.push(ImportIssue { row: rownum, kind: IssueKind::BirthDate, context: birth });
        },
    }
    let ghost birth_seg = if csv_swimmer(rv) is None {
        seq![IssueV { row: rownum as int, kind: IssueKind::BirthDate, context: field(rv, 7) }]
    } else {
        Seq::<IssueV>::empty()
    };
    proof {
        assert(r.deep_view() =~~= birth_seg);
    }
    let event = get_field(row, 9);
    let ev_toks = split_char(&event, ' ');
    proof {
        assert(ev_toks@[0].deep_view() =~= ev_toks@[0]@);
    }
    let ev_ok = match crate::text::parse_num(&ev_toks[0]) {
        Some(d) => d >= 1,
        None => false,
    };
    if !ev_ok {
        proof {
            assert(csv_event(rv) is None);
        }
        let ghost before = r.deep_view();
        r.push(ImportIssue { row: rownum, kind: IssueKind::EventLabel, context: string_of(&event) });
        proof {
            assert(r.deep_view() =~~= before.push(
                IssueV { row: rownum as int, kind: IssueKind::EventLabel, context: field(rv, 9) },
            ));
            assert(r.deep_view() =~~= spec_row_issues(rv, rownum as int));
        }
        return r;
    }
    proof {
        assert(csv_event(rv) is Some);
    }
    let ghost short_seg = csv_branch_issue(rv, 12, 13, IssueKind::ShortTimeBranch, rownum as int);
    let t12 = get_field(row, 12);
    if t12.len() > 0 && t12.len() < 8 {
        let ghost before = r.deep_view();
        r.push(
            ImportIssue { row: rownum, kind: IssueKind::ShortTimeBranch, context: string_of(&t12) },
        );
        proof {
            assert(r.deep_view() =~~= before + short_seg);
        }
    } else if t12.len() >= 8 {
        let d13 = string_of(&get_field(row, 13));
        match parse_date(d13.as_str()) {
            Ok(_) => {},
            Err(_) => {
                let ghost before = r.deep_view();
                r.push(ImportIssue { row: rownum, kind: IssueKind::ShortTimeBranch, context: d13 });
                proof {
                    assert(r.deep_view() =~~= before + short_seg);
                }
            },
        }
    }
    proof {
        assert(r.deep_view() =~~= birth_seg + short_seg);
    }
    let ghost long_seg = csv_branch_issue(rv, 14, 15, IssueKind::LongTimeBranch, rownum as int);
    let t14 = get_field(row, 14);
    if t14.len() > 0 && t14.len() < 8 {
        let ghost before = r.deep_view();
        r.push(
            ImportIssue { row: rownum, kind: IssueKind::LongTimeBranch, context: string_of(&t14) },
        );
        proof {
            assert(r.deep_view() =~~= before + long_seg);
        }
    } else if t14.len() >= 8 {
        let d15 = string_of(&get_field(row, 15));
        match parse_date(d15.as_str()) {
            Ok(_) => {},
            Err(_) => {
                let ghost before = r.deep_view();
                r.push(ImportIssue { row: rownum, kind: IssueKind::LongTimeBranch, context: d15 });
                proof {
                    assert(r.deep_view() =~~= before + long_seg);
                }
            },
        }
    }
    proof {
        assert(r.deep_view() =~~= spec_row_issues(rv, rownum as int));
    }
    r
}

/// Appends all of one row's diagnostics to the batch's list.
fn push_issues(dst: &mut Vec<ImportIssue>, src: &Vec<ImportIssue>)
    ensures
        final(dst).deep_view() == old(dst).deep_view() + src.deep_view(),
{
    let ghost base = dst.deep_view();
    let mut j: usize = 0;
    proof {
        assert(dst.deep_view() =~~= base + src.deep_view().take(0));
    }
    while j < src.len()
        invariant
            0 <= j <= src.len(),
            src.deep_view().len() == src@.len(),
            dst.deep_view() == base + src.deep_view().take(j as int),
        decreases src.len() - j,
    {
        let ghost old_d = dst.deep_view();
        dst.push(src[j].duplicate());
        proof {
            assert(src@[j as int].deep_view() == src.deep_view()[j as int]);
            assert(dst.deep_view() =~~= old_d.push(src.deep_view()[j as int]));
            assert(dst.deep_view() =~~= base + src.deep_view().take(j as int + 1));
        }
        j += 1;
    }
    proof {
        assert(src.deep_view().take(src.deep_view().len() as int) =~~= src.deep_view());
    }
}

/// Closes a batch: appends its single ledger row.
pub fn add_to_history(
    store: &mut Store,
    swimmers: &Vec<String>,
    num_entries: usize,
    duration: i32,
    meet_id: &str,
    dataset: Dataset,
)
    requires
        old(store).wf(),
        old(store)@.history.len() < 0x4000_0000,
        swimmers@.len() <= 0x4000_0000,
        num_entries <= 0x4000_0000,
    ensures
        final(store).wf(),
        final(store)@ == crate::store::spec_append_history(
            old(store)@,
            meet_id@,
            dataset,
            swimmers.deep_view(),
            num_entries as int,
            duration as int,
        ),
{
    store.append_import_history(meet_id, dataset, swimmers, num_entries, duration);
}

/// Imports a whole entries document for one meet: skips the header row,
/// applies every data row in order (each row recovering from its own
/// errors), and closes the batch with one ledger row.  Returns the
/// diagnostics of the records skipped in whole or in part, each with its
/// 1-based data-row number.  Fails only when the meet does not exist, and
/// then changes nothing.
pub fn import_meet_entries(
    store: &mut Store,
    meet_id: &str,
    csv_text: &str,
    duration: i32,
) -> (r: Result<Vec<ImportIssue>, ImportError>)
    requires
        old(store).wf(),
        old(store)@.history.len() < 0x4000_0000,
        csv_text@.len() <= 0x4000_0000,
    ensures
        final(store).wf(),
        match r {
            Ok(issues) => crate::store::has_meet(old(store)@.meets, meet_id@) && final(store)@
                == spec_import_entries(
                old(store)@,
                crate::csvdoc::spec_parse_csv(csv_text@),
                crate::store::meet_by_id(old(store)@.meets, meet_id@),
                duration as int,
            ) && issues.deep_view() == spec_entries_issues(
                data_rows(crate::csvdoc::spec_parse_csv(csv_text@)),
            ),
            Err(_) => !crate::store::has_meet(old(store)@.meets, meet_id@) && final(store)@
                == old(store)@,
        },
{
    let ghost sv0 = store@;
    let meet = match store.find_meet(meet_id) {
        Some(m) => m,
        None => {
            return Err(ImportError::MeetNotFound);
        },
    };
    proof {
        let k = choose|k: int| 0 <= k < sv0.meets.len() && sv0.meets[k] == meet@;
        assert(sv0.meets[k].id == meet_id@);
        crate::store::lemma_meet_by_id(sv0.meets, meet_id@, k);
    }
    let ghost mv = meet@;
    let rows = crate::csvdoc::parse_csv(csv_text);
    let ghost rv = rows.deep_view();
    let ghost data = data_rows(rv);
    proof {
        crate::csvdoc::lemma_parse_csv_len(csv_text@);
    }
    let mut touched: Vec<String> = Vec::new();
    let mut issues: Vec<ImportIssue> = Vec::new();
    let mut num_entries: usize = 0;
    let n = rows.len();
    proof {
        assert(data.take(0) =~= Seq::<Seq<Seq<char>>>::empty());
        assert(touched.deep_view() =~~= Seq::<Seq<char>>::empty());
        assert(issues.deep_view() =~~= Seq::<IssueV>::empty());
        assert(spec_import_rows(init_state(sv0), data.take(0), mv) == init_state(sv0));
        assert(issues.deep_view() =~~= spec_entries_issues(data.take(0)));
    }
    if n >= 1 {
        proof {
            assert(data =~= rv.subrange(1, rv.len() as int));
            assert(data.len() == n - 1);
        }
        let mut i: usize = 1;
        while i < n
            invariant
                1 <= i <= n,
                n == rows@.len(),
                rv == rows.deep_view(),
                rv.len() == n,
                data == data_rows(rv),
                data.len() == n - 1,
                data =~= rv.subrange(1, rv.len() as int),
                meet@ == mv,
                store.wf(),
                store@ == spec_import_rows(init_state(sv0), data.take(i as int - 1), mv).store,
                touched.deep_view() == spec_import_rows(
                    init_state(sv0),
                    data.take(i as int - 1),
                    mv,
                ).run.touched,
                issues.deep_view() == spec_entries_issues(data.take(i as int - 1)),
                num_entries == i - 1,
                touched@.len() <= num_entries,
            decreases n - i,
        {
            let ghost prev = spec_import_rows(init_state(sv0), data.take(i as int - 1), mv);
            proof {
                assert(data.take(i as int).drop_last() =~= data.take(i as int - 1));
                assert(data.take(i as int).last() == data[i as int - 1]);
                assert(data[i as int - 1] == rv[i as int]);
                assert(rows@[i as int].deep_view() == rv[i as int]);
            }
            let row = &rows[i];
            match import_swimmer(store, row) {
                Ok(id) => {
                    touch_id(&mut touched, id);
                },
                Err(_) => {},
            }
            import_times(store, row, &meet);
            let row_issues = collect_row_issues(row, i);
            push_issues(&mut issues, &row_issues);
            num_entries += 1;
            i += 1;
            proof {
                let cur = spec_import_rows(init_state(sv0), data.take(i as int - 1), mv);
                assert(cur.store == store@);
                assert(cur.run.touched == touched.deep_view());
                assert(spec_entries_issues(data.take(i as int - 1)) =~~= issues.deep_view());
            }
        }
        proof {
            assert(data.take(n as int - 1) =~= data);
        }
    } else {
        proof {
            assert(data =~= rv);
            assert(data.take(0) =~= data);
        }
    }
    let ghost st = spec_import_rows(init_state(sv0), data, mv);
    proof {
        assert(store@ == st.store);
        assert(touched.deep_view() == st.run.touched);
        lemma_import_rows_count(init_state(sv0), data, mv);
        assert(st.run.count == data.len());
        assert(num_entries == data.len());
        lemma_import_rows_frame(init_state(sv0), data, mv);
        assert(store@.history == sv0.history);
    }
    add_to_history(store, &touched, num_entries, duration, meet_id, Dataset::MeetEntries);
    proof {
        assert(store@ =~~= spec_import_entries(sv0, rv, mv, duration as int));
    }
    Ok(issues)
}

} // verus!
