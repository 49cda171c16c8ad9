//! The canonical store: swimmers, meets, timed performances and the import
//! ledger, behind the narrow query/upsert interface the importers use.
//!
//! Every insert is an upsert keyed on the row's natural key and is a no-op
//! when the key is already present — first writer wins, a re-import never
//! overwrites.  The ledger is append-only.  These semantics are what make
//! repeated imports idempotent on the canonical rows.

use vstd::prelude::*;

use crate::model::{
    Course, Dataset, HistoryV, ImportHistory, Meet, MeetV, Swimmer, SwimmerTime, SwimmerV, TimeV,
};
use crate::text::eq_str;

verus! {

/// Spec view of the whole store.
#[verifier::ext_equal]
pub ghost struct StoreV {
    pub swimmers: Seq<SwimmerV>,
    pub times: Seq<TimeV>,
    pub meets: Seq<MeetV>,
    pub history: Seq<HistoryV>,
}

/// Name-lookup failure: zero or several swimmers carry the looked-up name.
#[derive(Clone, Copy, Debug, PartialEq, Eq, Structural)]
pub struct SwimmerNotFound;

// ---------------------------------------------------------------------------
// Spec-level store operations
// ---------------------------------------------------------------------------

pub open spec fn has_swimmer(ss: Seq<SwimmerV>, id: Seq<char>) -> bool {
    exists|i: int| 0 <= i < ss.len() && ss[i].id == id
}

pub open spec fn has_meet(ms: Seq<MeetV>, id: Seq<char>) -> bool {
    exists|i: int| 0 <= i < ms.len() && ms[i].id == id
}

/// Two performance rows carry the same natural key.
pub open spec fn same_time_key(a: TimeV, b: TimeV) -> bool {
    a.swimmer.id == b.swimmer.id && a.meet.id == b.meet.id && a.style == b.style && a.distance
        == b.distance && a.course == b.course && a.dataset == b.dataset
}

pub open spec fn has_time_key(ts: Seq<TimeV>, t: TimeV) -> bool {
    exists|i: int| 0 <= i < ts.len() && same_time_key(ts[i], t)
}

/// Insert-if-absent on the swimmer table, keyed by id: first writer wins.
pub open spec fn spec_upsert_swimmer(sv: StoreV, s: SwimmerV) -> StoreV {
    if has_swimmer(sv.swimmers, s.id) {
        sv
    } else {
        StoreV { swimmers: sv.swimmers.push(s), ..sv }
    }
}

/// Insert-if-absent on the performance table, keyed by the natural key.
pub open spec fn spec_upsert_time(sv: StoreV, t: TimeV) -> StoreV {
    if has_time_key(sv.times, t) {
        sv
    } else {
        StoreV { times: sv.times.push(t), ..sv }
    }
}

/// Insert-if-absent on the meet table, keyed by id.
pub open spec fn spec_upsert_meet(sv: StoreV, m: MeetV) -> StoreV {
    if has_meet(sv.meets, m.id) {
        sv
    } else {
        StoreV { meets: sv.meets.push(m), ..sv }
    }
}

pub open spec fn name_match(s: SwimmerV, first: Seq<char>, last: Seq<char>) -> bool {
    s.first_name == first && s.last_name == last
}

/// How many swimmer rows carry exactly the given first and last name.
pub open spec fn count_name_matches(ss: Seq<SwimmerV>, first: Seq<char>, last: Seq<char>) -> nat
    decreases ss.len(),
{
    if ss.len() == 0 {
        0
    } else {
        count_name_matches(ss.drop_last(), first, last) + if name_match(
            ss.last(),
            first,
            last,
        ) {
            1nat
        } else {
            0nat
        }
    }
}

/// A row that matches makes the match count positive.
pub proof fn lemma_count_positive(ss: Seq<SwimmerV>, first: Seq<char>, last: Seq<char>, k: int)
    requires
        0 <= k < ss.len(),
        name_match(ss[k], first, last),
    ensures
        count_name_matches(ss, first, last) >= 1,
    decreases ss.len(),
{
    if k < ss.len() - 1 {
        lemma_count_positive(ss.drop_last(), first, last, k);
    }
}

/// When exactly one row matches, two matching indices are the same index.
pub proof fn lemma_match_unique(ss: Seq<SwimmerV>, first: Seq<char>, last: Seq<char>, i: int, j: int)
    requires
        count_name_matches(ss, first, last) == 1,
        0 <= i < ss.len(),
        0 <= j < ss.len(),
        name_match(ss[i], first, last),
        name_match(ss[j], first, last),
    ensures
        i == j,
    decreases ss.len(),
{
    if name_match(ss.last(), first, last) {
        if i < ss.len() - 1 {
            lemma_count_positive(ss.drop_last(), first, last, i);
        }
        if j < ss.len() - 1 {
            lemma_count_positive(ss.drop_last(), first, last, j);
        }
    } else {
        lemma_match_unique(ss.drop_last(), first, last, i, j);
    }
}

/// The serialized form of a touched-swimmer id list: ids joined by a comma
/// and a space, in the order the importer first touched them.
pub open spec fn spec_join_ids(ids: Seq<Seq<char>>) -> Seq<char>
    decreases ids.len(),
{
    if ids.len() == 0 {
        Seq::empty()
    } else if ids.len() == 1 {
        ids[0]
    } else {
        spec_join_ids(ids.drop_last()) + ", "@ + ids.last()
    }
}

/// The ledger row an import run appends, and the store around it.  The row
/// id and the logical load counter are both one past the previous row's.
pub open spec fn spec_append_history(
    sv: StoreV,
    meet_id: Seq<char>,
    dataset: Dataset,
    ids: Seq<Seq<char>>,
    num_entries: int,
    duration: int,
) -> StoreV {
    StoreV {
        history: sv.history.push(
            HistoryV {
                id: sv.history.len() as int + 1,
                load_time: sv.history.len() as int + 1,
                num_swimmers: ids.len() as int,
                num_entries: num_entries,
                duration: duration,
                swimmers: spec_join_ids(ids),
                meet_id: meet_id,
                dataset: dataset,
            },
        ),
        ..sv
    }
}

/// The ledger rows for one meet, most recent first.
pub open spec fn spec_history_desc(hs: Seq<HistoryV>, meet_id: Seq<char>) -> Seq<HistoryV>
    decreases hs.len(),
{
    if hs.len() == 0 {
        Seq::empty()
    } else {
        (if hs.last().meet_id == meet_id {
            seq![hs.last()]
        } else {
            Seq::empty()
        }) + spec_history_desc(hs.drop_last(), meet_id)
    }
}

/// The meet carrying the given id — meaningful when exactly one does.
pub open spec fn meet_by_id(ms: Seq<MeetV>, id: Seq<char>) -> MeetV {
    ms[choose|i: int| 0 <= i < ms.len() && ms[i].id == id]
}

/// With unique meet ids, any meet that carries the id is the one
/// `meet_by_id` names.
pub proof fn lemma_meet_by_id(ms: Seq<MeetV>, id: Seq<char>, k: int)
    requires
        forall|i: int, j: int| 0 <= i < j < ms.len() ==> ms[i].id != ms[j].id,
        0 <= k < ms.len(),
        ms[k].id == id,
    ensures
        meet_by_id(ms, id) == ms[k],
{
    assert(exists|i: int| 0 <= i < ms.len() && ms[i].id == id);
    let i = choose|i: int| 0 <= i < ms.len() && ms[i].id == id;
    if i != k {
        if i < k {
            assert(ms[i].id != ms[k].id);
        } else {
            assert(ms[k].id != ms[i].id);
        }
    }
}

/// Some ledger row records a load of the given dataset for the given meet.
pub open spec fn spec_dataset_loaded(hs: Seq<HistoryV>, meet_id: Seq<char>, ds: Dataset) -> bool {
    exists|i: int| 0 <= i < hs.len() && hs[i].meet_id == meet_id && hs[i].dataset == ds
}

/// The meets other than `except` whose results have been loaded, in
/// insertion order.
pub open spec fn spec_meets_with_results(
    ms: Seq<MeetV>,
    hs: Seq<HistoryV>,
    except: Seq<char>,
) -> Seq<MeetV>
    decreases ms.len(),
{
    if ms.len() == 0 {
        Seq::empty()
    } else {
        let prev = spec_meets_with_results(ms.drop_last(), hs, except);
        if ms.last().id != except && spec_dataset_loaded(hs, ms.last().id, Dataset::MeetResults) {
            prev.push(ms.last())
        } else {
            prev
        }
    }
}

/// The most recent ledger row for the given meet and dataset — the one with
/// the greatest load counter — if any.
pub open spec fn spec_latest_history(
    hs: Seq<HistoryV>,
    meet_id: Seq<char>,
    ds: Dataset,
) -> Option<HistoryV>
    decreases hs.len(),
{
    if hs.len() == 0 {
        None
    } else if hs.last().meet_id == meet_id && hs.last().dataset == ds {
        Some(hs.last())
    } else {
        spec_latest_history(hs.drop_last(), meet_id, ds)
    }
}

/// The most recent entries load followed by the most recent results load
/// for one meet; a dataset never loaded contributes nothing.
pub open spec fn spec_latest_pair(hs: Seq<HistoryV>, meet_id: Seq<char>) -> Seq<HistoryV> {
    (match spec_latest_history(hs, meet_id, Dataset::MeetEntries) {
        Some(h) => seq![h],
        None => Seq::empty(),
    }) + (match spec_latest_history(hs, meet_id, Dataset::MeetResults) {
        Some(h) => seq![h],
        None => Seq::empty(),
    })
}

// ---------------------------------------------------------------------------
// The store
// ---------------------------------------------------------------------------

/// The canonical store.  All access goes through the methods below, which
/// keep the well-formedness invariant `wf`.
pub struct Store {
    swimmers: Vec<Swimmer>,
    times: Vec<SwimmerTime>,
    meets: Vec<Meet>,
    history: Vec<ImportHistory>,
}

impl View for Store {
    type V = StoreV;

    closed spec fn view(&self) -> StoreV {
        StoreV {
            swimmers: self.swimmers.deep_view(),
            times: self.times.deep_view(),
            meets: self.meets.deep_view(),
            history: self.history.deep_view(),
        }
    }
}

impl Store {
    /// Well-formedness: ids and natural keys unique, ledger rows numbered by
    /// their position, and the ledger short enough that its counters fit the
    /// schema's 32-bit columns.
    pub open spec fn wf(self) -> bool {
        &&& forall|i: int, j: int|
            0 <= i < j < self@.swimmers.len() ==> self@.swimmers[i].id != self@.swimmers[j].id
        &&& forall|i: int, j: int|
            0 <= i < j < self@.times.len() ==> !same_time_key(self@.times[i], self@.times[j])
        &&& forall|i: int, j: int|
            0 <= i < j < self@.meets.len() ==> self@.meets[i].id != self@.meets[j].id
        &&& forall|i: int|
            0 <= i < self@.history.len() ==> (#[trigger] self@.history[i]).id == i + 1
                && self@.history[i].load_time == i + 1
        &&& self@.history.len() <= 0x4000_0000
    }

    /// An empty store.
    pub fn new() -> (r: Store)
        ensures
            r.wf(),
            r@.swimmers == Seq::<SwimmerV>::empty(),
            r@.times == Seq::<TimeV>::empty(),
            r@.meets == Seq::<MeetV>::empty(),
            r@.history == Seq::<HistoryV>::empty(),
    {
        let r = Store { swimmers: Vec::new(), times: Vec::new(), meets: Vec::new(), history: Vec::new() };
        proof {
            assert(r@.swimmers =~~= Seq::<SwimmerV>::empty());
            assert(r@.times =~~= Seq::<TimeV>::empty());
            assert(r@.meets =~~= Seq::<MeetV>::empty());
            assert(r@.history =~~= Seq::<HistoryV>::empty());
        }
        r
    }

    /// The swimmer table, in insertion order.
    pub fn swimmers(&self) -> (r: &Vec<Swimmer>)
        ensures
            r.deep_view() == self@.swimmers,
    {
        &self.swimmers
    }

    /// The performance table, in insertion order.
    pub fn times(&self) -> (r: &Vec<SwimmerTime>)
        ensures
            r.deep_view() == self@.times,
    {
        &self.times
    }

    /// The meet table, in insertion order.
    pub fn meets(&self) -> (r: &Vec<Meet>)
        ensures
            r.deep_view() == self@.meets,
    {
        &self.meets
    }

    /// The import ledger, oldest first.
    pub fn history(&self) -> (r: &Vec<ImportHistory>)
        ensures
            r.deep_view() == self@.history,
    {
        &self.history
    }

    /// Inserts a swimmer unless one with the same id exists: first writer
    /// wins, a later import never rewrites display fields.
    pub fn upsert_swimmer(&mut self, s: Swimmer)
        requires
            old(self).wf(),
        ensures
            final(self).wf(),
            final(self)@ == spec_upsert_swimmer(old(self)@, s@),
    {
        let ghost old_sv = self@;
        let mut i: usize = 0;
        while i < self.swimmers.len()
            invariant
                0 <= i <= self.swimmers.len(),
                self == old(self),
                old(self).wf(),
                old_sv == self@,
                forall|j: int| 0 <= j < i ==> old_sv.swimmers[j].id != s@.id,
            decreases self.swimmers.len() - i,
        {
            if eq_str(self.swimmers[i].id.as_str(), s.id.as_str()) {
                proof {
                    assert(self@.swimmers[i as int].id == s@.id);
                    assert(old_sv.swimmers[i as int].id == s@.id);
                    assert(has_swimmer(old_sv.swimmers, s@.id));
                }
                return ;
            }
            i += 1;
        }
        proof {
            assert(!has_swimmer(old_sv.swimmers, s@.id));
        }
        self.swimmers.push(s);
        proof {
            assert(self@.swimmers =~~= old_sv.swimmers.push(s@));
            assert(self@ =~~= spec_upsert_swimmer(old_sv, s@));
        }
    }

    /// Inserts a performance row unless one with the same natural key
    /// exists: a re-import is a no-op, never an overwrite.
    pub fn upsert_swimmer_time(&mut self, t: &SwimmerTime)
        requires
            old(self).wf(),
        ensures
            final(self).wf(),
            final(self)@ == spec_upsert_time(old(self)@, t@),
    {
        let ghost old_sv = self@;
        let mut i: usize = 0;
        while i < self.times.len()
            invariant
                0 <= i <= self.times.len(),
                self == old(self),
                old(self).wf(),
                old_sv == self@,
                forall|j: int| 0 <= j < i ==> !same_time_key(old_sv.times[j], t@),
            decreases self.times.len() - i,
        {
            let row = &self.times[i];
            let keys_equal = eq_str(row.swimmer.id.as_str(), t.swimmer.id.as_str()) && eq_str(
                row.meet.id.as_str(),
                t.meet.id.as_str(),
            ) && row.style == t.style && row.distance == t.distance && eq_course_opt(
                row.course,
                t.course,
            ) && row.dataset == t.dataset;
            if keys_equal {
                proof {
                    assert(same_time_key(self@.times[i as int], t@));
                    assert(same_time_key(old_sv.times[i as int], t@));
                    assert(has_time_key(old_sv.times, t@));
                }
                return ;
            }
            i += 1;
        }
        proof {
            assert(!has_time_key(old_sv.times, t@));
        }
        self.times.push(t.duplicate());
        proof {
            assert(self@.times =~~= old_sv.times.push(t@));
            assert(self@ =~~= spec_upsert_time(old_sv, t@));
        }
    }

    /// Inserts a meet unless one with the same id exists.
    pub fn upsert_meet(&mut self, m: Meet)
        requires
            old(self).wf(),
        ensures
            final(self).wf(),
            final(self)@ == spec_upsert_meet(old(self)@, m@),
    {
        let ghost old_sv = self@;
        let mut i: usize = 0;
        while i < self.meets.len()
            invariant
                0 <= i <= self.meets.len(),
                self == old(self),
                old(self).wf(),
                old_sv == self@,
                forall|j: int| 0 <= j < i ==> old_sv.meets[j].id != m@.id,
            decreases self.meets.len() - i,
        {
            if eq_str(self.meets[i].id.as_str(), m.id.as_str()) {
                proof {
                    assert(self@.meets[i as int].id == m@.id);
                    assert(old_sv.meets[i as int].id == m@.id);
                    assert(has_meet(old_sv.meets, m@.id));
                }
                return ;
            }
            i += 1;
        }
        proof {
            assert(!has_meet(old_sv.meets, m@.id));
        }
        self.meets.push(m);
        proof {
            assert(self@.meets =~~= old_sv.meets.push(m@));
            assert(self@ =~~= spec_upsert_meet(old_sv, m@));
        }
    }

    /// The meet with the given id, if present.
    pub fn find_meet(&self, id: &str) -> (r: Option<Meet>)
        ensures
            match r {
                Some(m) => m@.id == id@ && exists|i: int|
                    0 <= i < self@.meets.len() && self@.meets[i] == m@,
                None => !has_meet(self@.meets, id@),
            },
    {
        let mut i: usize = 0;
        while i < self.meets.len()
            invariant
                0 <= i <= self.meets.len(),
                forall|j: int| 0 <= j < i ==> self@.meets[j].id != id@,
            decreases self.meets.len() - i,
        {
            if eq_str(self.meets[i].id.as_str(), id) {
                let m = self.meets[i].duplicate();
                proof {
                    assert(self@.meets[i as int] == m@);
                }
                return Some(m);
            }
            i += 1;
        }
        None
    }

    /// Exact-name lookup: `Ok` precisely when exactly one swimmer carries
    /// the given first and last name, and then it is that swimmer.
    pub fn search_swimmer_by_name(&self, first_name: &str, last_name: &str) -> (r: Result<
        Swimmer,
        SwimmerNotFound,
    >)
        ensures
            match r {
                Ok(s) => count_name_matches(self@.swimmers, first_name@, last_name@) == 1
                    && exists|i: int|
                    0 <= i < self@.swimmers.len() && name_match(
                        #[trigger] self@.swimmers[i],
                        first_name@,
                        last_name@,
                    ) && s@ == self@.swimmers[i],
                Err(_) => count_name_matches(self@.swimmers, first_name@, last_name@) != 1,
            },
    {
        let ghost ss = self@.swimmers;
        let mut count: usize = 0;
        let mut found: usize = 0;
        let mut i: usize = 0;
        proof {
            assert(ss.take(0) =~= Seq::<SwimmerV>::empty());
        }
        while i < self.swimmers.len()
            invariant
                0 <= i <= self.swimmers.len(),
                ss == self@.swimmers,
                count == count_name_matches(ss.take(i as int), first_name@, last_name@),
                count <= i,
                count >= 1 ==> 0 <= found < i && name_match(ss[found as int], first_name@,
                    last_name@,
                ),
            decreases self.swimmers.len() - i,
        {
            let is_match = eq_str(self.swimmers[i].first_name.as_str(), first_name) && eq_str(
                self.swimmers[i].last_name.as_str(),
                last_name,
            );
            proof {
                assert(ss.take(i as int + 1).drop_last() =~= ss.take(i as int));
                assert(ss.take(i as int + 1).last() == ss[i as int]);
                assert(is_match == name_match(ss[i as int], first_name@, last_name@));
            }
            if is_match {
                count += 1;
                found = i;
            }
            i += 1;
        }
        proof {
            assert(ss.take(ss.len() as int) =~= ss);
        }
        if count == 1 {
            let s = self.swimmers[found].duplicate();
            proof {
                assert(s@ == ss[found as int]);
            }
            Ok(s)
        } else {
            Err(SwimmerNotFound)
        }
    }

    /// Appends one ledger row recording an import run: the touched swimmer
    /// ids (serialized in first-touch order), the record count, and the
    /// run's duration.  Append-only: nothing else changes.
    pub fn append_import_history(
        &mut self,
        meet_id: &str,
        dataset: Dataset,
        swimmer_ids: &Vec<String>,
        num_entries: usize,
        duration: i32,
    )
        requires
            old(self).wf(),
            old(self)@.history.len() < 0x4000_0000,
            swimmer_ids@.len() <= 0x4000_0000,
            num_entries <= 0x4000_0000,
        ensures
            final(self).wf(),
            final(self)@ == spec_append_history(
                old(self)@,
                meet_id@,
                dataset,
                swimmer_ids.deep_view(),
                num_entries as int,
                duration as int,
            ),
    {
        let ghost old_sv = self@;
        let joined = join_ids(swimmer_ids);
        let row = ImportHistory {
            id: (self.history.len() as i32) + 1,
            load_time: (self.history.len() as i32) + 1,
            num_swimmers: swimmer_ids.len() as i32,
            num_entries: num_entries as i32,
            duration,
            swimmers: joined,
            meet_id: String::from_str(meet_id),
            dataset,
        };
        self.history.push(row);
        proof {
            assert(self@.history =~~= old_sv.history.push(
                spec_append_history(
                    old_sv,
                    meet_id@,
                    dataset,
                    swimmer_ids.deep_view(),
                    num_entries as int,
                    duration as int,
                ).history.last(),
            ));
            assert(self@ =~~= spec_append_history(
                old_sv,
                meet_id@,
                dataset,
                swimmer_ids.deep_view(),
                num_entries as int,
                duration as int,
            ));
        }
    }

    /// The ledger rows for one meet, most recent first.
    pub fn find_import_history(&self, meet_id: &str) -> (r: Vec<ImportHistory>)
        ensures
            r.deep_view() == spec_history_desc(self@.history, meet_id@),
    {
        let ghost hs = self@.history;
        let mut r: Vec<ImportHistory> = Vec::new();
        let mut i: usize = self.history.len();
        proof {
            assert(hs.take(hs.len() as int) =~= hs);
            assert(r.deep_view() =~~= spec_history_desc(hs, meet_id@).take(0));
        }
        while i > 0
            invariant
                0 <= i <= self.history.len(),
                hs == self@.history,
                r.deep_view() + spec_history_desc(hs.take(i as int), meet_id@) =~~=
                    spec_history_desc(hs, meet_id@),
            decreases i,
        {
            let ghost old_r = r.deep_view();
            proof {
                assert(hs.take(i as int).drop_last() =~= hs.take(i as int - 1));
                assert(hs.take(i as int).last() == hs[i as int - 1]);
            }
            if eq_str(self.history[i - 1].meet_id.as_str(), meet_id) {
                r.push(self.history[i - 1].duplicate());
                proof {
                    assert(r.deep_view() =~~= old_r.push(hs[i as int - 1]));
                    assert(r.deep_view() + spec_history_desc(hs.take(i as int - 1), meet_id@)
                        =~~= spec_history_desc(hs, meet_id@));
                }
            } else {
                proof {
                    assert(r.deep_view() + spec_history_desc(hs.take(i as int - 1), meet_id@)
                        =~~= spec_history_desc(hs, meet_id@));
                }
            }
            i -= 1;
        }
        proof {
            assert(hs.take(0) =~= Seq::<HistoryV>::empty());
            assert(r.deep_view() =~~= spec_history_desc(hs, meet_id@));
        }
        r
    }

    /// The meets other than the given one whose results have been loaded.
    pub fn find_meets_with_results(&self, except: &str) -> (r: Vec<Meet>)
        ensures
            r.deep_view() == spec_meets_with_results(self@.meets, self@.history, except@),
    {
        let ghost mv = self@.meets;
        let ghost hv = self@.history;
        let mut r: Vec<Meet> = Vec::new();
        let mut i: usize = 0;
        proof {
            assert(mv.take(0) =~= Seq::<MeetV>::empty());
            assert(r.deep_view() =~~= spec_meets_with_results(mv.take(0), hv, except@));
        }
        while i < self.meets.len()
            invariant
                0 <= i <= self.meets.len(),
                mv == self@.meets,
                hv == self@.history,
                mv.len() == self.meets@.len(),
                r.deep_view() == spec_meets_with_results(mv.take(i as int), hv, except@),
            decreases self.meets.len() - i,
        {
            proof {
                assert(mv.take(i as int + 1).drop_last() =~= mv.take(i as int));
                assert(mv.take(i as int + 1).last() == mv[i as int]);
                assert(self.meets@[i as int].deep_view() == mv[i as int]);
            }
            let keep = !eq_str(self.meets[i].id.as_str(), except) && self.dataset_loaded(
                self.meets[i].id.as_str(),
                Dataset::MeetResults,
            );
            if keep {
                let ghost old_r = r.deep_view();
                r.push(self.meets[i].duplicate());
                proof {
                    assert(r.deep_view() =~~= old_r.push(mv[i as int]));
                }
            }
            i += 1;
        }
        proof {
            assert(mv.take(mv.len() as int) =~= mv);
        }
        r
    }

    fn latest_row(&self, meet_id: &str, ds: Dataset) -> (r: Option<ImportHistory>)
        ensures
            match r {
                Some(h) => spec_latest_history(self@.history, meet_id@, ds) == Some(h@),
                None => spec_latest_history(self@.history, meet_id@, ds) is None,
            },
    {
        let ghost hv = self@.history;
        let mut i: usize = self.history.len();
        proof {
            assert(hv.take(hv.len() as int) =~= hv);
        }
        while i > 0
            invariant
                0 <= i <= self.history.len(),
                hv == self@.history,
                hv.len() == self.history@.len(),
                spec_latest_history(hv, meet_id@, ds) == spec_latest_history(
                    hv.take(i as int),
                    meet_id@,
                    ds,
                ),
            decreases i,
        {
            proof {
                assert(hv.take(i as int).drop_last() =~= hv.take(i as int - 1));
                assert(hv.take(i as int).last() == hv[i as int - 1]);
                assert(self.history@[i as int - 1].deep_view() == hv[i as int - 1]);
            }
            if eq_str(self.history[i - 1].meet_id.as_str(), meet_id) && self.history[i - 1].dataset
                == ds {
                return Some(self.history[i - 1].duplicate());
            }
            i -= 1;
        }
        proof {
            assert(hv.take(0) =~= Seq::<HistoryV>::empty());
        }
        None
    }

    /// The most recent entries load and the most recent results load for
    /// one meet, in that order; a dataset never loaded contributes no row.
    pub fn find_latest_imported_swimmers(&self, meet_id: &str) -> (r: Vec<ImportHistory>)
        ensures
            r.deep_view() == spec_latest_pair(self@.history, meet_id@),
    {
        let mut r: Vec<ImportHistory> = Vec::new();
        match self.latest_row(meet_id, Dataset::MeetEntries) {
            Some(h) => {
                r.push(h);
            },
            None => {},
        }
        match self.latest_row(meet_id, Dataset::MeetResults) {
            Some(h) => {
                r.push(h);
            },
            None => {},
        }
        proof {
            assert(r.deep_view() =~~= spec_latest_pair(self@.history, meet_id@));
        }
        r
    }

    /// Whether some ledger row records a load of the given dataset for the
    /// given meet — the "has this meet been loaded" read path.
    pub fn dataset_loaded(&self, meet_id: &str, ds: Dataset) -> (r: bool)
        ensures
            r == spec_dataset_loaded(self@.history, meet_id@, ds),
    {
        let mut i: usize = 0;
        while i < self.history.len()
            invariant
                0 <= i <= self.history.len(),
                forall|j: int|
                    0 <= j < i ==> !(self@.history[j].meet_id == meet_id@
                        && self@.history[j].dataset == ds),
            decreases self.history.len() - i,
        {
            if eq_str(self.history[i].meet_id.as_str(), meet_id) && self.history[i].dataset
                == ds {
                proof {
                    assert(self@.history[i as int].meet_id == meet_id@);
                }
                return true;
            }
            i += 1;
        }
        false
    }
}

/// Equality on optional courses, spelled out so the contract sees it.
pub fn eq_course_opt(a: Option<Course>, b: Option<Course>) -> (r: bool)
    ensures
        r == (a == b),
{
    match (a, b) {
        (None, None) => true,
        (Some(x), Some(y)) => x == y,
        _ => false,
    }
}

/// Joins swimmer ids with a comma and a space, exactly as `spec_join_ids`
/// describes.
fn join_ids(ids: &Vec<String>) -> (r: String)
    ensures
        r@ == spec_join_ids(ids.deep_view()),
{
    let ghost iv = ids.deep_view();
    let mut r = String::new();
    let mut i: usize = 0;
    proof {
        assert(iv.take(0) =~= Seq::<Seq<char>>::empty());
    }
    while i < ids.len()
        invariant
            0 <= i <= ids.len(),
            iv == ids.deep_view(),
            iv.len() == ids@.len(),
            r@ == spec_join_ids(iv.take(i as int)),
        decreases ids.len() - i,
    {
        proof {
            assert(iv.take(i as int + 1).drop_last() =~= iv.take(i as int));
            assert(iv.take(i as int + 1).last() == iv[i as int]);
            assert(iv[i as int] == ids@[i as int]@);
        }
        if i > 0 {
            r.append(", ");
        }
        r.append(ids[i].as_str());
        i += 1;
    }
    proof {
        assert(iv.take(iv.len() as int) =~= iv);
    }
    r
}

} // verus!
