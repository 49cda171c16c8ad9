//! The pipeline's laws.
//!
//! The import pipeline promises more than its per-function contracts state
//! one call at a time: repeating an import changes no canonical row and
//! appends exactly one more ledger row, a malformed record is contained to
//! itself, and a batch is exactly the sequence of its rows.  These laws are
//! stated and proved here, over the same spec functions the importers'
//! contracts use.

use vstd::prelude::*;

use crate::entries::{
    csv_event, csv_swimmer, csv_time_branch, csv_time_row, data_rows, init_state,
    spec_import_entries, spec_import_row, spec_import_rows, spec_import_swimmer,
    spec_import_times, spec_row_run, ImportStateV, RunV,
};
use crate::model::{Course, MeetV, TimeV};
use crate::report::IssueV;
use crate::results::{
    data_row_time, first_label, resolve_name, scrape_init, spec_import_results, spec_scrape_row,
    spec_scrape_rows, BlockV, RowV, ScrapeV,
};
use crate::store::{
    has_swimmer, has_time_key, same_time_key, spec_upsert_swimmer, spec_upsert_time, StoreV,
};

verus! {

// ---------------------------------------------------------------------------
// Growth: upserts only ever append
// ---------------------------------------------------------------------------

/// `b` has grown out of `a` by appending: what `a` holds, `b` holds at the
/// same positions.
spec fn store_extends(a: StoreV, b: StoreV) -> bool {
    a.swimmers.is_prefix_of(b.swimmers) && a.times.is_prefix_of(b.times)
}

proof fn lemma_extends_refl(a: StoreV)
    ensures
        store_extends(a, a),
{
    assert(a.swimmers.is_prefix_of(a.swimmers)) by {
        assert(a.swimmers.take(a.swimmers.len() as int) =~= a.swimmers);
    }
    assert(a.times.is_prefix_of(a.times)) by {
        assert(a.times.take(a.times.len() as int) =~= a.times);
    }
}

proof fn lemma_extends_trans(a: StoreV, b: StoreV, c: StoreV)
    requires
        store_extends(a, b),
        store_extends(b, c),
    ensures
        store_extends(a, c),
{
    assert(a.swimmers =~= c.swimmers.take(a.swimmers.len() as int));
    assert(a.times =~= c.times.take(a.times.len() as int));
}

proof fn lemma_push_extends(a: StoreV, b: StoreV)
    requires
        b.swimmers == a.swimmers || exists|s| b.swimmers == a.swimmers.push(s),
        b.times == a.times || exists|t| b.times == a.times.push(t),
    ensures
        store_extends(a, b),
{
    if b.swimmers == a.swimmers {
        assert(a.swimmers =~= b.swimmers.take(a.swimmers.len() as int));
    } else {
        let s = choose|s| b.swimmers == a.swimmers.push(s);
        assert(a.swimmers =~= a.swimmers.push(s).take(a.swimmers.len() as int));
    }
    if b.times == a.times {
        assert(a.times =~= b.times.take(a.times.len() as int));
    } else {
        let t = choose|t| b.times == a.times.push(t);
        assert(a.times =~= a.times.push(t).take(a.times.len() as int));
    }
}

proof fn lemma_import_row_extends(sv: StoreV, row: Seq<Seq<char>>, meet: MeetV)
    ensures
        store_extends(sv, spec_import_row(sv, row, meet)),
{
    let sv1 = spec_import_swimmer(sv, row);
    lemma_push_extends(sv, sv1);
    let sv2 = spec_import_times(sv1, row, meet);
    match csv_event(row) {
        None => {
            lemma_extends_refl(sv1);
        },
        Some((d, st)) => {
            let svs = match csv_time_branch(row, 12, 13) {
                Some((ms, dt)) => spec_upsert_time(
                    sv1,
                    csv_time_row(meet, row, d, st, Course::Short, ms, dt),
                ),
                None => sv1,
            };
            lemma_push_extends(sv1, svs);
            lemma_push_extends(svs, sv2);
            lemma_extends_trans(sv1, svs, sv2);
        },
    }
    lemma_extends_trans(sv, sv1, sv2);
}

proof fn lemma_import_rows_extends(st: ImportStateV, rows: Seq<Seq<Seq<char>>>, meet: MeetV)
    ensures
        store_extends(st.store, spec_import_rows(st, rows, meet).store),
    decreases rows.len(),
{
    if rows.len() == 0 {
        lemma_extends_refl(st.store);
    } else {
        lemma_import_rows_extends(st, rows.drop_last(), meet);
        let prev = spec_import_rows(st, rows.drop_last(), meet);
        lemma_import_row_extends(prev.store, rows.last(), meet);
        lemma_extends_trans(st.store, prev.store, spec_import_rows(st, rows, meet).store);
    }
}

proof fn lemma_has_swimmer_mono(a: StoreV, b: StoreV, id: Seq<char>)
    requires
        store_extends(a, b),
        has_swimmer(a.swimmers, id),
    ensures
        has_swimmer(b.swimmers, id),
{
    let i = choose|i: int| 0 <= i < a.swimmers.len() && a.swimmers[i].id == id;
    assert(b.swimmers.take(a.swimmers.len() as int)[i] == b.swimmers[i]);
    assert(b.swimmers[i].id == id);
}

proof fn lemma_has_time_mono(a: StoreV, b: StoreV, t: TimeV)
    requires
        store_extends(a, b),
        has_time_key(a.times, t),
    ensures
        has_time_key(b.times, t),
{
    let i = choose|i: int| 0 <= i < a.times.len() && same_time_key(a.times[i], t);
    assert(b.times.take(a.times.len() as int)[i] == b.times[i]);
    assert(same_time_key(b.times[i], t));
}

// ---------------------------------------------------------------------------
// Entries idempotence
// ---------------------------------------------------------------------------

/// Everything a row would write is already present.
spec fn row_applied(sv: StoreV, row: Seq<Seq<char>>, meet: MeetV) -> bool {
    &&& (csv_swimmer(row) matches Some(s) ==> has_swimmer(sv.swimmers, s.id))
    &&& (csv_event(row) matches Some((d, st)) ==> {
        &&& (csv_time_branch(row, 12, 13) matches Some((ms, dt)) ==> has_time_key(
            sv.times,
            csv_time_row(meet, row, d, st, Course::Short, ms, dt),
        ))
        &&& (csv_time_branch(row, 14, 15) matches Some((ms, dt)) ==> has_time_key(
            sv.times,
            csv_time_row(meet, row, d, st, Course::Long, ms, dt),
        ))
    })
}

proof fn lemma_row_applied_mono(a: StoreV, b: StoreV, row: Seq<Seq<char>>, meet: MeetV)
    requires
        store_extends(a, b),
        row_applied(a, row, meet),
    ensures
        row_applied(b, row, meet),
{
    if csv_swimmer(row) is Some {
        lemma_has_swimmer_mono(a, b, csv_swimmer(row)->Some_0.id);
    }
    match csv_event(row) {
        Some((d, st)) => {
            match csv_time_branch(row, 12, 13) {
                Some((ms, dt)) => {
                    lemma_has_time_mono(a, b, csv_time_row(meet, row, d, st, Course::Short, ms, dt));
                },
                None => {},
            }
            match csv_time_branch(row, 14, 15) {
                Some((ms, dt)) => {
                    lemma_has_time_mono(a, b, csv_time_row(meet, row, d, st, Course::Long, ms, dt));
                },
                None => {},
            }
        },
        None => {},
    }
}

proof fn lemma_upsert_swimmer_has(sv: StoreV, s: crate::model::SwimmerV)
    ensures
        has_swimmer(spec_upsert_swimmer(sv, s).swimmers, s.id),
{
    if !has_swimmer(sv.swimmers, s.id) {
        let ss = sv.swimmers.push(s);
        assert(ss[ss.len() - 1].id == s.id);
    }
}

proof fn lemma_upsert_time_has(sv: StoreV, t: TimeV)
    ensures
        has_time_key(spec_upsert_time(sv, t).times, t),
{
    if !has_time_key(sv.times, t) {
        let ts = sv.times.push(t);
        assert(same_time_key(ts[ts.len() - 1], t));
    }
}

/// After a row is imported, everything it writes is present.
proof fn lemma_import_row_applies(sv: StoreV, row: Seq<Seq<char>>, meet: MeetV)
    ensures
        row_applied(spec_import_row(sv, row, meet), row, meet),
{
    let sv1 = spec_import_swimmer(sv, row);
    let sv2 = spec_import_times(sv1, row, meet);
    if csv_swimmer(row) is Some {
        lemma_upsert_swimmer_has(sv, csv_swimmer(row)->Some_0);
        // the time upserts leave the swimmer table unchanged
        assert(sv2.swimmers == sv1.swimmers);
    }
    match csv_event(row) {
        Some((d, st)) => {
            let svs = match csv_time_branch(row, 12, 13) {
                Some((ms, dt)) => spec_upsert_time(
                    sv1,
                    csv_time_row(meet, row, d, st, Course::Short, ms, dt),
                ),
                None => sv1,
            };
            match csv_time_branch(row, 12, 13) {
                Some((ms, dt)) => {
                    let t = csv_time_row(meet, row, d, st, Course::Short, ms, dt);
                    lemma_upsert_time_has(sv1, t);
                    lemma_push_extends(svs, sv2);
                    lemma_has_time_mono(svs, sv2, t);
                },
                None => {},
            }
            match csv_time_branch(row, 14, 15) {
                Some((ms, dt)) => {
                    lemma_upsert_time_has(svs, csv_time_row(meet, row, d, st, Course::Long, ms, dt));
                },
                None => {},
            }
        },
        None => {},
    }
}

/// After a whole pass, everything any of its rows writes is present.
proof fn lemma_import_rows_applies(st: ImportStateV, rows: Seq<Seq<Seq<char>>>, meet: MeetV)
    ensures
        forall|k: int|
            0 <= k < rows.len() ==> row_applied(
                spec_import_rows(st, rows, meet).store,
                #[trigger] rows[k],
                meet,
            ),
    decreases rows.len(),
{
    if rows.len() > 0 {
        lemma_import_rows_applies(st, rows.drop_last(), meet);
        let prev = spec_import_rows(st, rows.drop_last(), meet);
        let cur = spec_import_rows(st, rows, meet);
        lemma_import_row_extends(prev.store, rows.last(), meet);
        assert forall|k: int| 0 <= k < rows.len() implies row_applied(
            cur.store,
            #[trigger] rows[k],
            meet,
        ) by {
            if k < rows.len() - 1 {
                assert(rows.drop_last()[k] == rows[k]);
                lemma_row_applied_mono(prev.store, cur.store, rows[k], meet);
            } else {
                lemma_import_row_applies(prev.store, rows[k], meet);
            }
        }
    }
}

/// A row whose writes are all present changes nothing.
proof fn lemma_applied_row_noop(sv: StoreV, row: Seq<Seq<char>>, meet: MeetV)
    requires
        row_applied(sv, row, meet),
    ensures
        spec_import_row(sv, row, meet) == sv,
{
    assert(spec_import_swimmer(sv, row) == sv);
}

/// A pass whose rows' writes are all present leaves the store unchanged.
proof fn lemma_applied_rows_noop(st: ImportStateV, rows: Seq<Seq<Seq<char>>>, meet: MeetV)
    requires
        forall|k: int| 0 <= k < rows.len() ==> row_applied(st.store, #[trigger] rows[k], meet),
    ensures
        spec_import_rows(st, rows, meet).store == st.store,
    decreases rows.len(),
{
    if rows.len() > 0 {
        assert(forall|k: int|
            0 <= k < rows.drop_last().len() ==> row_applied(
                st.store,
                #[trigger] rows.drop_last()[k],
                meet,
            ));
        lemma_applied_rows_noop(st, rows.drop_last(), meet);
        assert(rows.last() == rows[rows.len() - 1]);
        lemma_applied_row_noop(st.store, rows.last(), meet);
    }
}

/// Importing the same entries document twice yields the same canonical row
/// set — no duplicate swimmer, no duplicate time — while each of the two
/// runs appends its own ledger row.
pub proof fn lemma_entries_idempotent(
    sv: StoreV,
    rows: Seq<Seq<Seq<char>>>,
    meet: MeetV,
    d1: int,
    d2: int,
)
    ensures
        ({
            let s1 = spec_import_entries(sv, rows, meet, d1);
            let s2 = spec_import_entries(s1, rows, meet, d2);
            &&& s2.swimmers == s1.swimmers
            &&& s2.times == s1.times
            &&& s2.meets == s1.meets
            &&& s2.history.len() == s1.history.len() + 1
            &&& s2.history.take(s1.history.len() as int) == s1.history
        }),
{
    let s1 = spec_import_entries(sv, rows, meet, d1);
    let data = data_rows(rows);
    let f1 = spec_import_rows(init_state(sv), data, meet);
    lemma_import_rows_applies(init_state(sv), data, meet);
    // the ledger append changes neither swimmers nor times, so every row is
    // still applied in s1
    assert(s1.swimmers == f1.store.swimmers);
    assert(s1.times == f1.store.times);
    assert forall|k: int| 0 <= k < data.len() implies row_applied(s1, #[trigger] data[k], meet) by {
        assert(row_applied(f1.store, data[k], meet));
    }
    lemma_applied_rows_noop(init_state(s1), data, meet);
    let f2 = spec_import_rows(init_state(s1), data, meet);
    assert(f2.store == s1);
    let s2 = spec_import_entries(s1, rows, meet, d2);
    assert(s2.history == s1.history.push(s2.history.last()));
    assert(s2.history.take(s1.history.len() as int) =~= s1.history);
}

/// A batch is handled row by row: it splits at any point, so no row's
/// outcome reaches past its own writes — later rows see only the store.
pub proof fn lemma_import_rows_split(
    st: ImportStateV,
    rows1: Seq<Seq<Seq<char>>>,
    rows2: Seq<Seq<Seq<char>>>,
    meet: MeetV,
)
    ensures
        spec_import_rows(st, rows1 + rows2, meet) == spec_import_rows(
            spec_import_rows(st, rows1, meet),
            rows2,
            meet,
        ),
    decreases rows2.len(),
{
    if rows2.len() == 0 {
        assert(rows1 + rows2 =~= rows1);
    } else {
        lemma_import_rows_split(st, rows1, rows2.drop_last(), meet);
        assert((rows1 + rows2).drop_last() =~= rows1 + rows2.drop_last());
        assert((rows1 + rows2).last() == rows2.last());
    }
}

/// A row with a malformed birth date adds no swimmer and touches no id,
/// yet the row counter still advances — the bad row is counted and the
/// batch continues.
pub proof fn lemma_bad_birth_row(
    sv: StoreV,
    run: RunV,
    row: Seq<Seq<char>>,
    meet: MeetV,
)
    requires
        csv_swimmer(row) is None,
    ensures
        spec_import_row(sv, row, meet).swimmers == sv.swimmers,
        spec_row_run(run, row).touched == run.touched,
        spec_row_run(run, row).count == run.count + 1,
{
    assert(spec_import_swimmer(sv, row) == sv);
}

// ---------------------------------------------------------------------------
// Results: row containment and idempotence
// ---------------------------------------------------------------------------

/// A results row whose time cell fails the required shape — or that is too
/// short to carry one — contributes zero writes, counts nothing and touches
/// no swimmer, and leaves the store and the current block exactly as they
/// were; at most a diagnostic records the skip.
pub proof fn lemma_bad_time_cell_row(sc: ScrapeV, row: RowV, rownum: int, meet: MeetV)
    requires
        first_label(row.cells) is None,
        row.cells.len() < 3 || !crate::codec::spec_time_format(row.cells[0].text),
    ensures
        spec_scrape_row(sc, row, rownum, meet).store == sc.store,
        spec_scrape_row(sc, row, rownum, meet).block == sc.block,
        spec_scrape_row(sc, row, rownum, meet).run == sc.run,
{
}

proof fn lemma_scrape_row_times_mono(sc: ScrapeV, row: RowV, rownum: int, meet: MeetV, t: TimeV)
    requires
        has_time_key(sc.store.times, t),
    ensures
        has_time_key(spec_scrape_row(sc, row, rownum, meet).store.times, t),
{
    let after = spec_scrape_row(sc, row, rownum, meet).store;
    if after.times != sc.store.times {
        let i = choose|i: int| 0 <= i < sc.store.times.len() && same_time_key(sc.store.times[i], t);
        assert(same_time_key(after.times[i], t));
    }
}

proof fn lemma_scrape_rows_times_mono(sc: ScrapeV, rows: Seq<RowV>, meet: MeetV, t: TimeV)
    requires
        has_time_key(sc.store.times, t),
    ensures
        has_time_key(spec_scrape_rows(sc, rows, meet).store.times, t),
    decreases rows.len(),
{
    if rows.len() > 0 {
        lemma_scrape_rows_times_mono(sc, rows.drop_last(), meet, t);
        lemma_scrape_row_times_mono(
            spec_scrape_rows(sc, rows.drop_last(), meet),
            rows.last(),
            rows.len() as int,
            meet,
            t,
        );
    }
}

/// Replaying a scrape against a store that already holds every row the
/// first pass wrote follows the same block states and writes nothing new.
proof fn lemma_scrape_replay(
    sv1: StoreV,
    sv2: StoreV,
    b: BlockV,
    r: RunV,
    iss: Seq<IssueV>,
    rows: Seq<RowV>,
    meet: MeetV,
)
    requires
        sv2.swimmers == sv1.swimmers,
        forall|t: TimeV|
            has_time_key(
                spec_scrape_rows(
                    ScrapeV { store: sv1, block: b, run: r, issues: iss },
                    rows,
                    meet,
                ).store.times,
                t,
            ) ==> has_time_key(sv2.times, t),
    ensures
        ({
            let a = spec_scrape_rows(ScrapeV { store: sv1, block: b, run: r, issues: iss }, rows, meet);
            let c = spec_scrape_rows(ScrapeV { store: sv2, block: b, run: r, issues: iss }, rows, meet);
            c.store == sv2 && c.block == a.block && c.run == a.run
        }),
    decreases rows.len(),
{
    if rows.len() > 0 {
        let a_full = spec_scrape_rows(
            ScrapeV { store: sv1, block: b, run: r, issues: iss },
            rows,
            meet,
        );
        let a = spec_scrape_rows(
            ScrapeV { store: sv1, block: b, run: r, issues: iss },
            rows.drop_last(),
            meet,
        );
        assert forall|t: TimeV|
            has_time_key(a.store.times, t) implies has_time_key(sv2.times, t) by {
            lemma_scrape_row_times_mono(a, rows.last(), rows.len() as int, meet, t);
        }
        lemma_scrape_replay(sv1, sv2, b, r, iss, rows.drop_last(), meet);
        let c = spec_scrape_rows(
            ScrapeV { store: sv2, block: b, run: r, issues: iss },
            rows.drop_last(),
            meet,
        );
        // the scrape never changes the swimmer table, so resolution agrees
        crate::results::lemma_scrape_rows_frame(
            ScrapeV { store: sv1, block: b, run: r, issues: iss },
            rows.drop_last(),
            meet,
        );
        assert(a.store.swimmers == sv1.swimmers);
        assert(c.store == sv2);
        let row = rows.last();
        match first_label(row.cells) {
            Some(label) => {
                assert(resolve_name(a.store.swimmers, label) == resolve_name(
                    c.store.swimmers,
                    label,
                ));
            },
            None => {
                match a.block {
                    BlockV::InBlockValid(cur) => {
                        match data_row_time(row, meet, cur) {
                            Some(t) => {
                                lemma_upsert_time_has(a.store, t);
                                assert(has_time_key(a_full.store.times, t));
                                assert(has_time_key(sv2.times, t));
                                assert(spec_upsert_time(c.store, t) == c.store);
                            },
                            None => {},
                        }
                    },
                    _ => {},
                }
            },
        }
    }
}

/// Importing the same results report twice yields the same canonical row
/// set, while each of the two runs appends its own ledger row — the second
/// run writes the very same rows, each a natural-key no-op.
pub proof fn lemma_results_idempotent(
    sv: StoreV,
    rows: Seq<RowV>,
    meet: MeetV,
    d1: int,
    d2: int,
)
    ensures
        ({
            let s1 = spec_import_results(sv, rows, meet, d1);
            let s2 = spec_import_results(s1, rows, meet, d2);
            &&& s2.swimmers == s1.swimmers
            &&& s2.times == s1.times
            &&& s2.meets == s1.meets
            &&& s2.history.len() == s1.history.len() + 1
            &&& s2.history.take(s1.history.len() as int) == s1.history
        }),
{
    let s1 = spec_import_results(sv, rows, meet, d1);
    let a = spec_scrape_rows(scrape_init(sv), rows, meet);
    crate::results::lemma_scrape_rows_frame(scrape_init(sv), rows, meet);
    assert(s1.swimmers == sv.swimmers);
    assert(s1.times == a.store.times);
    lemma_scrape_replay(
        sv,
        s1,
        BlockV::AwaitingHeader,
        RunV { touched: Seq::empty(), count: 0 },
        Seq::empty(),
        rows,
        meet,
    );
    let c = spec_scrape_rows(scrape_init(s1), rows, meet);
    assert(c.store == s1);
    let s2 = spec_import_results(s1, rows, meet, d2);
    assert(s2.history == s1.history.push(s2.history.last()));
    assert(s2.history.take(s1.history.len() as int) =~= s1.history);
}

} // verus!
