//! The HTML results scraper.
//!
//! The results report is a table whose rows come in blocks: a header row
//! whose bold cell names a swimmer (`"Last, First"`), followed by data rows
//! with that swimmer's achieved times.  The scraper is a state machine over
//! the rows: `AwaitingHeader` until the first header row, then in a block
//! that is valid (the name resolved to exactly one swimmer) or invalid (it
//! did not).  A data row writes one performance row when its block is valid,
//! its time cell matches the required shape, and its event cell parses; any
//! failure skips that row alone and leaves the block state intact.
//!
//! The document itself is handed over as rows of cells — the shape the
//! report's `table > tbody > tr` rows and `td` cells give — with each cell's
//! first bold (`b`) fragment, if any, as its name label.

use vstd::prelude::*;

use crate::codec::{
    convert_style, matches_time_format, spec_convert_style, spec_time_format, spec_time_to_ms,
    time_to_miliseconds, Style,
};
use crate::entries::{touched_insert, ImportError, RunV};
use crate::model::{Course, Dataset, Meet, MeetV, Swimmer, SwimmerTime, SwimmerV, TimeV};
use crate::report::{ImportIssue, IssueKind, IssueV};
use crate::store::{
    count_name_matches, lemma_match_unique, name_match, spec_upsert_time, Store, StoreV,
};
use crate::text::{
    chars_of, find_char, first_ix, prefix_chars, spec_parse_num, spec_split, spec_trim,
    spec_upper, split_char, string_of, suffix_chars, trim_chars, upper_chars,
};

verus! {

// ---------------------------------------------------------------------------
// The document shape
// ---------------------------------------------------------------------------

/// Spec view of one table cell.
#[verifier::ext_equal]
pub ghost struct CellV {
    pub label: Option<Seq<char>>,
    pub text: Seq<char>,
}

/// Spec view of one table row.
#[verifier::ext_equal]
pub ghost struct RowV {
    pub cells: Seq<CellV>,
}

/// One cell of the results table: its text, and its first bold name label
/// if it carries one.
pub struct HtmlCell {
    pub label: Option<String>,
    pub text: String,
}

impl View for HtmlCell {
    type V = CellV;

    open spec fn view(&self) -> CellV {
        CellV {
            label: match self.label {
                Some(ref l) => Some(l@),
                None => None,
            },
            text: self.text@,
        }
    }
}

impl DeepView for HtmlCell {
    type V = CellV;

    open spec fn deep_view(&self) -> CellV {
        self.view()
    }
}

/// One row of the results table.
pub struct HtmlRow {
    pub cells: Vec<HtmlCell>,
}

impl View for HtmlRow {
    type V = RowV;

    open spec fn view(&self) -> RowV {
        RowV { cells: self.cells.deep_view() }
    }
}

impl DeepView for HtmlRow {
    type V = RowV;

    open spec fn deep_view(&self) -> RowV {
        self.view()
    }
}

// ---------------------------------------------------------------------------
// The block state machine
// ---------------------------------------------------------------------------

/// Spec view of the scraper's block state.
#[verifier::ext_equal]
pub ghost enum BlockV {
    AwaitingHeader,
    InBlockValid(SwimmerV),
    InBlockInvalid,
}

/// The state carried across rows: no header row seen yet, inside a block
/// whose swimmer resolved, or inside a block whose name lookup failed.
pub enum BlockState {
    AwaitingHeader,
    InBlockValid(Swimmer),
    InBlockInvalid,
}

impl View for BlockState {
    type V = BlockV;

    open spec fn view(&self) -> BlockV {
        match self {
            BlockState::AwaitingHeader => BlockV::AwaitingHeader,
            BlockState::InBlockValid(s) => BlockV::InBlockValid(s@),
            BlockState::InBlockInvalid => BlockV::InBlockInvalid,
        }
    }
}

// ---------------------------------------------------------------------------
// Row classification and parsing
// ---------------------------------------------------------------------------

/// The first name label in a row's cells; `Some` marks a header row.
pub open spec fn first_label(cells: Seq<CellV>) -> Option<Seq<char>>
    decreases cells.len(),
{
    if cells.len() == 0 {
        None
    } else if cells[0].label is Some {
        cells[0].label
    } else {
        first_label(cells.drop_first())
    }
}

/// The text after the first occurrence of a separator; empty when the
/// separator is absent.
pub open spec fn after_first(s: Seq<char>, sep: char) -> Seq<char> {
    let i = first_ix(s, sep);
    if i == s.len() {
        Seq::empty()
    } else {
        s.skip(i + 1)
    }
}

/// The last name a `"Last, First"` label asserts: the text before the first
/// comma, trimmed.
pub open spec fn label_last_name(label: Seq<char>) -> Seq<char> {
    spec_trim(spec_split(label, ',')[0])
}

/// The first name a `"Last, First"` label asserts: the first
/// whitespace-separated token after the first comma.
pub open spec fn label_first_name(label: Seq<char>) -> Seq<char> {
    spec_split(spec_trim(after_first(label, ',')), ' ')[0]
}

/// What a header row's name label resolves to: the swimmer, when exactly
/// one carries the asserted first and last name; `None` on zero or several.
pub open spec fn resolve_name(ss: Seq<SwimmerV>, label: Seq<char>) -> Option<SwimmerV> {
    let first = label_first_name(label);
    let last = label_last_name(label);
    if count_name_matches(ss, first, last) == 1 {
        Some(ss[choose|i: int| 0 <= i < ss.len() && name_match(ss[i], first, last)])
    } else {
        None
    }
}

/// The course a time cell's suffix character selects; no suffix the scraper
/// knows leaves the course unset.
pub open spec fn suffix_course(c: char) -> Option<Course> {
    if c == 'L' {
        Some(Course::Long)
    } else if c == 'S' {
        Some(Course::Short)
    } else {
        None
    }
}

/// The event cell of a data row: `"<gender> <distance> <style>"`,
/// whitespace-joined.  `None` — a record error that invalidates the row —
/// when there are fewer than two tokens or the distance is not a positive
/// number.  The gender token is ASCII upper-cased; the style token
/// classifies tolerantly, `Unknown` included.
pub open spec fn cell_event(text: Seq<char>) -> Option<(Seq<char>, int, Style)> {
    let toks = spec_split(text, ' ');
    if toks.len() < 2 {
        None
    } else {
        match spec_parse_num(toks[1]) {
            Some(d) => if d >= 1 {
                Some((spec_upper(toks[0]), d as int, spec_convert_style(toks.last())))
            } else {
                None
            },
            None => None,
        }
    }
}

/// The performance row a data row writes for the current swimmer, or `None`
/// when the row fails validation: fewer than three cells, a time cell that
/// does not match the required shape, or an event cell that does not parse.
/// The written row carries the meet's end date as its time date, and the
/// course its time-cell suffix selects.
pub open spec fn data_row_time(row: RowV, meet: MeetV, cur: SwimmerV) -> Option<TimeV> {
    if row.cells.len() < 3 {
        None
    } else {
        let t = row.cells[0].text;
        if !spec_time_format(t) {
            None
        } else {
            match cell_event(row.cells[2].text) {
                None => None,
                Some((g, d, st)) => Some(
                    TimeV {
                        swimmer: SwimmerV { gender: g, ..cur },
                        style: st,
                        distance: d,
                        course: suffix_course(t[8]),
                        time: spec_time_to_ms(t.take(8)),
                        time_date: meet.end_date,
                        meet: meet,
                        dataset: Dataset::MeetResults,
                    },
                ),
            }
        }
    }
}

/// One row's effect on the store and the block state.  A header row changes
/// only the state: to a valid block on resolution, to an invalid one on
/// failure.  A data row writes at most one performance row, and only from a
/// valid block; it never changes the state.
pub open spec fn scrape_store_block(sv: StoreV, b: BlockV, row: RowV, meet: MeetV) -> (
    StoreV,
    BlockV,
) {
    match first_label(row.cells) {
        Some(label) => match resolve_name(sv.swimmers, label) {
            Some(s) => (sv, BlockV::InBlockValid(s)),
            None => (sv, BlockV::InBlockInvalid),
        },
        None => match b {
            BlockV::InBlockValid(cur) => match data_row_time(row, meet, cur) {
                Some(t) => (spec_upsert_time(sv, t), b),
                None => (sv, b),
            },
            _ => (sv, b),
        },
    }
}

/// The swimmer id a row writes a result for: the current block's swimmer,
/// on a data row that passes every validation.  Header rows and failing
/// rows write nothing.
pub open spec fn scrape_written(sv: StoreV, b: BlockV, row: RowV, meet: MeetV) -> Option<
    Seq<char>,
> {
    match first_label(row.cells) {
        Some(_) => None,
        None => match b {
            BlockV::InBlockValid(cur) => match data_row_time(row, meet, cur) {
                Some(_) => Some(cur.id),
                None => None,
            },
            _ => None,
        },
    }
}

/// The diagnostic one row leaves behind, if it was examined and failed: a
/// header row whose name did not resolve, or a data row of a valid block
/// whose time cell fails the required shape or whose event cell does not
/// parse.  Rows of an invalid or not-yet-opened block are not examined, and
/// an empty row carries nothing to examine.
pub open spec fn scrape_row_issue(ss: Seq<SwimmerV>, b: BlockV, row: RowV) -> Option<(
    IssueKind,
    Seq<char>,
)> {
    match first_label(row.cells) {
        Some(label) => if resolve_name(ss, label) is None {
            Some((IssueKind::NameResolution, label))
        } else {
            None
        },
        None => match b {
            BlockV::InBlockValid(cur) => if row.cells.len() == 0 {
                None
            } else if !spec_time_format(row.cells[0].text) {
                Some((IssueKind::TimeCell, row.cells[0].text))
            } else if row.cells.len() < 3 || cell_event(row.cells[2].text) is None {
                Some((IssueKind::EventCell, cur.first_name))
            } else {
                None
            },
            _ => None,
        },
    }
}

/// One scrape pass in flight: the store, the block state, the running
/// provenance — each written result row counts one entry and touches its
/// swimmer — and the diagnostics of the rows skipped so far.
#[verifier::ext_equal]
pub ghost struct ScrapeV {
    pub store: StoreV,
    pub block: BlockV,
    pub run: RunV,
    pub issues: Seq<IssueV>,
}

/// One row's effect on a pass; `rownum` is the row's 1-based position in
/// the document, stamped on its diagnostic.
pub open spec fn spec_scrape_row(sc: ScrapeV, row: RowV, rownum: int, meet: MeetV) -> ScrapeV {
    ScrapeV {
        store: scrape_store_block(sc.store, sc.block, row, meet).0,
        block: scrape_store_block(sc.store, sc.block, row, meet).1,
        run: match scrape_written(sc.store, sc.block, row, meet) {
            Some(id) => RunV {
                touched: touched_insert(sc.run.touched, id),
                count: sc.run.count + 1,
            },
            None => sc.run,
        },
        issues: sc.issues + match scrape_row_issue(sc.store.swimmers, sc.block, row) {
            Some((k, ctx)) => seq![IssueV { row: rownum, kind: k, context: ctx }],
            None => Seq::empty(),
        },
    }
}

/// The pass over all rows, in document order.
pub open spec fn spec_scrape_rows(sc: ScrapeV, rows: Seq<RowV>, meet: MeetV) -> ScrapeV
    decreases rows.len(),
{
    if rows.len() == 0 {
        sc
    } else {
        spec_scrape_row(
            spec_scrape_rows(sc, rows.drop_last(), meet),
            rows.last(),
            rows.len() as int,
            meet,
        )
    }
}

/// A fresh pass: awaiting the first header row, nothing touched, nothing
/// to report.
pub open spec fn scrape_init(sv: StoreV) -> ScrapeV {
    ScrapeV {
        store: sv,
        block: BlockV::AwaitingHeader,
        run: RunV { touched: Seq::empty(), count: 0 },
        issues: Seq::empty(),
    }
}

/// The full effect of one results import: every row applied in order, and
/// one ledger row closing the batch.
pub open spec fn spec_import_results(
    sv: StoreV,
    rows: Seq<RowV>,
    meet: MeetV,
    duration: int,
) -> StoreV {
    let sc = spec_scrape_rows(scrape_init(sv), rows, meet);
    crate::store::spec_append_history(
        sc.store,
        meet.id,
        Dataset::MeetResults,
        sc.run.touched,
        sc.run.count,
        duration,
    )
}

// ---------------------------------------------------------------------------
// Execution
// ---------------------------------------------------------------------------

/// The first name label in a row, as `first_label` describes.
fn exec_first_label(row: &HtmlRow) -> (r: Option<String>)
    ensures
        match r {
            Some(l) => first_label(row@.cells) == Some(l@),
            None => first_label(row@.cells) is None,
        },
{
    let ghost cells = row@.cells;
    let mut i: usize = 0;
    proof {
        assert(cells.skip(0) =~= cells);
    }
    while i < row.cells.len()
        invariant
            0 <= i <= row.cells.len(),
            cells == row@.cells,
            cells.len() == row.cells@.len(),
            first_label(cells) == first_label(cells.skip(i as int)),
            forall|j: int| 0 <= j < i ==> cells[j].label is None,
        decreases row.cells.len() - i,
    {
        proof {
            assert(row.cells@[i as int].deep_view() == cells[i as int]);
        }
        match &row.cells[i].label {
            Some(l) => {
                proof {
                    assert(cells.skip(i as int)[0] == cells[i as int]);
                }
                return Some(l.clone());
            },
            None => {},
        }
        proof {
            assert(cells.skip(i as int)[0] == cells[i as int]);
            assert(cells.skip(i as int).drop_first() =~= cells.skip(i as int + 1));
        }
        i += 1;
    }
    proof {
        assert(cells.skip(cells.len() as int) =~= Seq::<CellV>::empty());
    }
    None
}

/// Resolves a header row's name label against the swimmer table, exactly as
/// `resolve_name` describes: the unique swimmer with that name, or failure
/// on zero or several.
fn resolve_label(store: &Store, label: &str) -> (r: Option<Swimmer>)
    ensures
        match r {
            Some(s) => resolve_name(store@.swimmers, label@) == Some(s@),
            None => resolve_name(store@.swimmers, label@) is None,
        },
{
    let lv = chars_of(label);
    let parts = split_char(&lv, ',');
    proof {
        assert(parts@[0].deep_view() =~= parts@[0]@);
    }
    let last_chars = trim_chars(&parts[0]);
    let comma = find_char(&lv, ',');
    let rest: Vec<char> = if comma == lv.len() {
        Vec::new()
    } else {
        suffix_chars(&lv, comma + 1)
    };
    proof {
        assert(rest@ == after_first(label@, ','));
    }
    let rest_trim = trim_chars(&rest);
    let first_toks = split_char(&rest_trim, ' ');
    proof {
        assert(first_toks@[0].deep_view() =~= first_toks@[0]@);
    }
    let first = string_of(&first_toks[0]);
    let last = string_of(&last_chars);
    proof {
        assert(first@ == label_first_name(label@));
        assert(last@ == label_last_name(label@));
    }
    match store.search_swimmer_by_name(first.as_str(), last.as_str()) {
        Ok(s) => {
            proof {
                let ss = store@.swimmers;
                let k = choose|k: int|
                    0 <= k < ss.len() && name_match(ss[k], first@, last@) && s@ == ss[k];
                let c = choose|i: int| 0 <= i < ss.len() && name_match(ss[i], first@, last@);
                assert(name_match(ss[c], first@, last@));
                lemma_match_unique(ss, first@, last@, k, c);
            }
            Some(s)
        },
        Err(_) => None,
    }
}

/// Parses a data row's event cell, exactly as `cell_event` describes.
fn parse_event_cell(text: &str) -> (r: Option<(String, i32, Style)>)
    ensures
        match r {
            Some(p) => cell_event(text@) == Some((p.0@, p.1 as int, p.2)),
            None => cell_event(text@) is None,
        },
{
    let tv = chars_of(text);
    let toks = split_char(&tv, ' ');
    if toks.len() < 2 {
        return None;
    }
    proof {
        assert(toks@[0].deep_view() =~= toks@[0]@);
        assert(toks@[1].deep_view() =~= toks@[1]@);
        assert(toks@[toks@.len() - 1].deep_view() =~= toks@[toks@.len() - 1]@);
        assert(toks.deep_view().last() == toks@[toks@.len() - 1]@);
    }
    let distance: i32 = match crate::text::parse_num(&toks[1]) {
        Some(d) => d,
        None => {
            return None;
        },
    };
    if distance < 1 {
        return None;
    }
    let gender = string_of(&upper_chars(&toks[0]));
    let style_str = string_of(&toks[toks.len() - 1]);
    let style = convert_style(style_str.as_str());
    Some((gender, distance, style))
}

/// Feeds one table row to the scraper: returns the next block state, the
/// id of the swimmer a written data row belongs to, and the row's
/// diagnostic if it was examined and failed.  Exactly `scrape_store_block`,
/// `scrape_written` and `scrape_row_issue` on the row.
pub fn process_results_row(
    store: &mut Store,
    state: BlockState,
    row: &HtmlRow,
    meet: &Meet,
) -> (r: (BlockState, Option<String>, Option<(IssueKind, String)>))
    requires
        old(store).wf(),
    ensures
        final(store).wf(),
        final(store)@ == scrape_store_block(old(store)@, state@, row@, meet@).0,
        r.0@ == scrape_store_block(old(store)@, state@, row@, meet@).1,
        match r.1 {
            Some(id) => scrape_written(old(store)@, state@, row@, meet@) == Some(id@),
            None => scrape_written(old(store)@, state@, row@, meet@) is None,
        },
        match r.2 {
            Some(issue) => scrape_row_issue(old(store)@.swimmers, state@, row@) == Some(
                (issue.0, issue.1@),
            ),
            None => scrape_row_issue(old(store)@.swimmers, state@, row@) is None,
        },
{
    let ghost sv0 = store@;
    match exec_first_label(row) {
        Some(label) => {
            // Header row: a new block begins; resolve its swimmer.
            match resolve_label(store, label.as_str()) {
                Some(s) => (BlockState::InBlockValid(s), None, None),
                None => (
                    BlockState::InBlockInvalid,
                    None,
                    Some((IssueKind::NameResolution, label)),
                ),
            }
        },
        None => {
            match state {
                BlockState::InBlockValid(cur) => {
                    if row.cells.len() == 0 {
                        return (BlockState::InBlockValid(cur), None, None);
                    }
                    proof {
                        assert(row.cells@[0].deep_view() == row@.cells[0]);
                    }
                    let t0 = chars_of(row.cells[0].text.as_str());
                    if !matches_time_format(&t0) {
                        let ctx = row.cells[0].text.clone();
                        proof {
                            assert(ctx@ == row@.cells[0].text);
                        }
                        return (
                            BlockState::InBlockValid(cur),
                            None,
                            Some((IssueKind::TimeCell, ctx)),
                        );
                    }
                    if row.cells.len() < 3 {
                        let ctx = cur.first_name.clone();
                        return (
                            BlockState::InBlockValid(cur),
                            None,
                            Some((IssueKind::EventCell, ctx)),
                        );
                    }
                    proof {
                        assert(row.cells@[2].deep_view() == row@.cells[2]);
                    }
                    match parse_event_cell(row.cells[2].text.as_str()) {
                        Some((gender, distance, style)) => {
                            let time_str = string_of(&prefix_chars(&t0, 8));
                            let ms = time_to_miliseconds(time_str.as_str());
                            let course = if t0[8] == 'L' {
                                Some(Course::Long)
                            } else if t0[8] == 'S' {
                                Some(Course::Short)
                            } else {
                                None
                            };
                            let st = SwimmerTime {
                                swimmer: Swimmer {
                                    id: cur.id.clone(),
                                    first_name: cur.first_name.clone(),
                                    last_name: cur.last_name.clone(),
                                    gender: gender,
                                    birth_date: cur.birth_date,
                                },
                                style: style,
                                distance: distance,
                                course: course,
                                time: ms,
                                time_date: meet.end_date,
                                meet: meet.duplicate(),
                                dataset: Dataset::MeetResults,
                            };
                            proof {
                                assert(st@ =~~= data_row_time(row@, meet@, cur@)->Some_0);
                            }
                            store.upsert_swimmer_time(&st);
                            // a written row counts for its block's swimmer
                            let id = cur.id.clone();
                            (BlockState::InBlockValid(cur), Some(id), None)
                        },
                        None => {
                            let ctx = cur.first_name.clone();
                            (
                                BlockState::InBlockValid(cur),
                                None,
                                Some((IssueKind::EventCell, ctx)),
                            )
                        },
                    }
                },
                other => (other, None, None),
            }
        },
    }
}

/// A row touches at most the performance table.
pub proof fn lemma_scrape_row_frame(sc: ScrapeV, row: RowV, rownum: int, meet: MeetV)
    ensures
        spec_scrape_row(sc, row, rownum, meet).store.swimmers == sc.store.swimmers,
        spec_scrape_row(sc, row, rownum, meet).store.meets == sc.store.meets,
        spec_scrape_row(sc, row, rownum, meet).store.history == sc.store.history,
{
}

/// A whole pass touches at most the performance table.
pub proof fn lemma_scrape_rows_frame(sc: ScrapeV, rows: Seq<RowV>, meet: MeetV)
    ensures
        spec_scrape_rows(sc, rows, meet).store.swimmers == sc.store.swimmers,
        spec_scrape_rows(sc, rows, meet).store.meets == sc.store.meets,
        spec_scrape_rows(sc, rows, meet).store.history == sc.store.history,
    decreases rows.len(),
{
    if rows.len() > 0 {
        lemma_scrape_rows_frame(sc, rows.drop_last(), meet);
        lemma_scrape_row_frame(
            spec_scrape_rows(sc, rows.drop_last(), meet),
            rows.last(),
            rows.len() as int,
            meet,
        );
    }
}

/// Imports a whole results report for one meet: runs the block state
/// machine over every row in order, then closes the batch with one ledger
/// row counting the written result rows and the swimmers they belong to.
/// Returns the diagnostics of the rows that were skipped.  Fails only when
/// the meet does not exist, and then changes nothing.
pub fn import_meet_results(
    store: &mut Store,
    meet_id: &str,
    rows: &Vec<HtmlRow>,
    duration: i32,
) -> (r: Result<Vec<ImportIssue>, ImportError>)
    requires
        old(store).wf(),
        old(store)@.history.len() < 0x4000_0000,
        rows@.len() <= 0x4000_0000,
    ensures
        final(store).wf(),
        match r {
            Ok(issues) => crate::store::has_meet(old(store)@.meets, meet_id@) && final(store)@
                == spec_import_results(
                old(store)@,
                rows.deep_view(),
                crate::store::meet_by_id(old(store)@.meets, meet_id@),
                duration as int,
            ) && issues.deep_view() == spec_scrape_rows(
                scrape_init(old(store)@),
                rows.deep_view(),
                crate::store::meet_by_id(old(store)@.meets, meet_id@),
            ).issues,
            Err(_) => !crate::store::has_meet(old(store)@.meets, meet_id@) && final(store)@
                == old(store)@,
        },
{
    let ghost sv0 = store@;
    let meet = match store.find_meet(meet_id) {
        Some(m) => m,
        None => {
            return Err(ImportError::MeetNotFound);
        },
    };
    proof {
        let k = choose|k: int| 0 <= k < sv0.meets.len() && sv0.meets[k] == meet@;
        assert(sv0.meets[k].id == meet_id@);
        crate::store::lemma_meet_by_id(sv0.meets, meet_id@, k);
    }
    let ghost mv = meet@;
    let ghost rv = rows.deep_view();
    let mut state = BlockState::AwaitingHeader;
    let mut touched: Vec<String> = Vec::new();
    let mut issues: Vec<ImportIssue> = Vec::new();
    let mut num_entries: usize = 0;
    let mut i: usize = 0;
    proof {
        assert(rv.take(0) =~= Seq::<RowV>::empty());
        assert(touched.deep_view() =~~= Seq::<Seq<char>>::empty());
        assert(issues.deep_view() =~~= Seq::<IssueV>::empty());
        assert(spec_scrape_rows(scrape_init(sv0), rv.take(0), mv) == scrape_init(sv0));
    }
    while i < rows.len()
        invariant
            0 <= i <= rows.len(),
            rv == rows.deep_view(),
            rv.len() == rows@.len(),
            meet@ == mv,
            store.wf(),
            store@ == spec_scrape_rows(scrape_init(sv0), rv.take(i as int), mv).store,
            state@ == spec_scrape_rows(scrape_init(sv0), rv.take(i as int), mv).block,
            touched.deep_view() == spec_scrape_rows(
                scrape_init(sv0),
                rv.take(i as int),
                mv,
            ).run.touched,
            num_entries as int == spec_scrape_rows(
                scrape_init(sv0),
                rv.take(i as int),
                mv,
            ).run.count,
            issues.deep_view() == spec_scrape_rows(
                scrape_init(sv0),
                rv.take(i as int),
                mv,
            ).issues,
            num_entries <= i,
            touched@.len() <= num_entries,
        decreases rows.len() - i,
    {
        let ghost prev = spec_scrape_rows(scrape_init(sv0), rv.take(i as int), mv);
        proof {
            assert(rv.take(i as int + 1).drop_last() =~= rv.take(i as int));
            assert(rv.take(i as int + 1).last() == rv[i as int]);
            assert(rows@[i as int].deep_view() == rv[i as int]);
        }
        let row = &rows[i];
        let (next_state, written, issue) = process_results_row(store, state, row, &meet);
        state = next_state;
        match written {
            Some(id) => {
                crate::entries::touch_id(&mut touched, id);
                num_entries += 1;
            },
            None => {},
        }
        let ghost old_issues = issues.deep_view();
        match issue {
            Some((kind, context)) => {
                let ghost ctx_v = context@;
                issues.push(ImportIssue { row: i + 1, kind, context });
                proof {
                    assert(issues.deep_view() =~~= old_issues.push(
                        IssueV { row: i as int + 1, kind: kind, context: ctx_v },
                    ));
                }
            },
            None => {},
        }
        i += 1;
        proof {
            let cur = spec_scrape_rows(scrape_init(sv0), rv.take(i as int), mv);
            assert(cur.store == store@);
            assert(cur.block == state@);
            assert(cur.run.touched == touched.deep_view());
            assert(cur.run.count == num_entries as int);
            assert(cur.issues =~~= issues.deep_view());
        }
    }
    let ghost sc = spec_scrape_rows(scrape_init(sv0), rv, mv);
    proof {
        assert(rv.take(rv.len() as int) =~= rv);
        assert(store@ == sc.store);
        assert(touched.deep_view() == sc.run.touched);
        assert(num_entries as int == sc.run.count);
        lemma_scrape_rows_frame(scrape_init(sv0), rv, mv);
        assert(store@.history == sv0.history);
    }
    crate::entries::add_to_history(
        store,
        &touched,
        num_entries,
        duration,
        meet_id,
        Dataset::MeetResults,
    );
    proof {
        assert(store@ =~~= spec_import_results(sv0, rv, mv, duration as int));
    }
    Ok(issues)
}

} // verus!
