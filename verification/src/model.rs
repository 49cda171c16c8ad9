//! The canonical relational model: swimmers, meets, timed performances and
//! the import ledger, together with the spec-level views the contracts are
//! stated over.

use vstd::prelude::*;

use crate::codec::Style;
use crate::date::{spec_max_date, spec_min_date, Date};

verus! {

/// Pool-length category; affects time comparability.
#[derive(Clone, Copy, Debug, PartialEq, Eq, Structural)]
pub enum Course {
    Short,
    Long,
}

pub open spec fn spec_course_label(c: Course) -> Seq<char> {
    match c {
        Course::Short => "SHORT"@,
        Course::Long => "LONG"@,
    }
}

impl Course {
    /// The canonical label of this course.
    pub fn label(&self) -> (r: String)
        ensures
            r@ == spec_course_label(*self),
    {
        match self {
            Course::Short => String::from_str("SHORT"),
            Course::Long => String::from_str("LONG"),
        }
    }
}

/// Which external feed a row came from: the pre-meet entries CSV or the
/// post-meet results report.
#[derive(Clone, Copy, Debug, PartialEq, Eq, Structural)]
pub enum Dataset {
    MeetEntries,
    MeetResults,
}

pub open spec fn spec_dataset_label(d: Dataset) -> Seq<char> {
    match d {
        Dataset::MeetEntries => "MEET_ENTRIES"@,
        Dataset::MeetResults => "MEET_RESULTS"@,
    }
}

impl Dataset {
    /// The canonical label of this dataset.
    pub fn label(&self) -> (r: String)
        ensures
            r@ == spec_dataset_label(*self),
    {
        match self {
            Dataset::MeetEntries => String::from_str("MEET_ENTRIES"),
            Dataset::MeetResults => String::from_str("MEET_RESULTS"),
        }
    }
}

// ---------------------------------------------------------------------------
// Spec-level views
// ---------------------------------------------------------------------------

/// Spec view of a swimmer row.
#[verifier::ext_equal]
pub ghost struct SwimmerV {
    pub id: Seq<char>,
    pub first_name: Seq<char>,
    pub last_name: Seq<char>,
    pub gender: Seq<char>,
    pub birth_date: Date,
}

/// Spec view of a meet row.
#[verifier::ext_equal]
pub ghost struct MeetV {
    pub id: Seq<char>,
    pub name: Seq<char>,
    pub start_date: Date,
    pub end_date: Date,
    pub course: Course,
}

/// Spec view of a timed-performance row.
#[verifier::ext_equal]
pub ghost struct TimeV {
    pub swimmer: SwimmerV,
    pub style: Style,
    pub distance: int,
    pub course: Option<Course>,
    pub time: int,
    pub time_date: Date,
    pub meet: MeetV,
    pub dataset: Dataset,
}

/// Spec view of an import-ledger row.
#[verifier::ext_equal]
pub ghost struct HistoryV {
    pub id: int,
    pub load_time: int,
    pub num_swimmers: int,
    pub num_entries: int,
    pub duration: int,
    pub swimmers: Seq<char>,
    pub meet_id: Seq<char>,
    pub dataset: Dataset,
}

// ---------------------------------------------------------------------------
// Swimmer
// ---------------------------------------------------------------------------

/// A canonical swimmer.  Identity is `id`; the display fields are written
/// only by the entries importer, and only when the row is first created.
#[derive(Clone, Debug)]
pub struct Swimmer {
    pub id: String,
    pub first_name: String,
    pub last_name: String,
    pub gender: String,
    pub birth_date: Date,
}

impl View for Swimmer {
    type V = SwimmerV;

    open spec fn view(&self) -> SwimmerV {
        SwimmerV {
            id: self.id@,
            first_name: self.first_name@,
            last_name: self.last_name@,
            gender: self.gender@,
            birth_date: self.birth_date,
        }
    }
}

impl DeepView for Swimmer {
    type V = SwimmerV;

    open spec fn deep_view(&self) -> SwimmerV {
        self.view()
    }
}

impl Swimmer {
    /// A swimmer reference carrying only its identity; display fields empty,
    /// birth date at the low sentinel.
    pub fn new(id: String, first_name: String, last_name: String) -> (r: Swimmer)
        ensures
            r@.id == id@,
            r@.first_name == first_name@,
            r@.last_name == last_name@,
            r@.gender == Seq::<char>::empty(),
            r@.birth_date == spec_min_date(),
    {
        Swimmer {
            id,
            first_name,
            last_name,
            gender: String::new(),
            birth_date: Date::min_date(),
        }
    }

    /// A field-for-field copy whose view is the same.
    pub fn duplicate(&self) -> (r: Swimmer)
        ensures
            r@ == self@,
    {
        Swimmer {
            id: self.id.clone(),
            first_name: self.first_name.clone(),
            last_name: self.last_name.clone(),
            gender: self.gender.clone(),
            birth_date: self.birth_date,
        }
    }
}

// ---------------------------------------------------------------------------
// Meet
// ---------------------------------------------------------------------------

/// A canonical meet.  Created outside the import pipeline and read-only to
/// it.
#[derive(Clone, Debug)]
pub struct Meet {
    pub id: String,
    pub name: String,
    pub start_date: Date,
    pub end_date: Date,
    pub course: Course,
}

impl View for Meet {
    type V = MeetV;

    open spec fn view(&self) -> MeetV {
        MeetV {
            id: self.id@,
            name: self.name@,
            start_date: self.start_date,
            end_date: self.end_date,
            course: self.course,
        }
    }
}

impl DeepView for Meet {
    type V = MeetV;

    open spec fn deep_view(&self) -> MeetV {
        self.view()
    }
}

impl Meet {
    /// A meet reference carrying only its identity and course; name empty,
    /// dates at the sentinels.
    pub fn new(id: String, course: Course) -> (r: Meet)
        ensures
            r@.id == id@,
            r@.name == Seq::<char>::empty(),
            r@.start_date == spec_min_date(),
            r@.end_date == spec_max_date(),
            r@.course == course,
    {
        Meet { id, name: String::new(), start_date: Date::min_date(), end_date: Date::max_date(), course }
    }

    /// A field-for-field copy whose view is the same.
    pub fn duplicate(&self) -> (r: Meet)
        ensures
            r@ == self@,
    {
        Meet {
            id: self.id.clone(),
            name: self.name.clone(),
            start_date: self.start_date,
            end_date: self.end_date,
            course: self.course,
        }
    }
}

// ---------------------------------------------------------------------------
// SwimmerTime
// ---------------------------------------------------------------------------

/// One timed performance.  The natural key is
/// (swimmer id, meet id, style, distance, course, dataset); the store keeps
/// at most one row per key, and a re-import never overwrites.
#[derive(Clone, Debug)]
pub struct SwimmerTime {
    pub swimmer: Swimmer,
    pub style: Style,
    pub distance: i32,
    pub course: Option<Course>,
    pub time: i32,
    pub time_date: Date,
    pub meet: Meet,
    pub dataset: Dataset,
}

impl View for SwimmerTime {
    type V = TimeV;

    open spec fn view(&self) -> TimeV {
        TimeV {
            swimmer: self.swimmer@,
            style: self.style,
            distance: self.distance as int,
            course: self.course,
            time: self.time as int,
            time_date: self.time_date,
            meet: self.meet@,
            dataset: self.dataset,
        }
    }
}

impl DeepView for SwimmerTime {
    type V = TimeV;

    open spec fn deep_view(&self) -> TimeV {
        self.view()
    }
}

impl SwimmerTime {
    /// A field-for-field copy whose view is the same.
    pub fn duplicate(&self) -> (r: SwimmerTime)
        ensures
            r@ == self@,
    {
        SwimmerTime {
            swimmer: self.swimmer.duplicate(),
            style: self.style,
            distance: self.distance,
            course: self.course,
            time: self.time,
            time_date: self.time_date,
            meet: self.meet.duplicate(),
            dataset: self.dataset,
        }
    }
}

// ---------------------------------------------------------------------------
// ImportHistory
// ---------------------------------------------------------------------------

/// One row of the append-only import ledger: aggregate provenance of a single
/// import run.  `load_time` is the store's logical load counter; later runs
/// carry strictly larger values.
#[derive(Clone, Debug)]
pub struct ImportHistory {
    pub id: i32,
    pub load_time: i32,
    pub num_swimmers: i32,
    pub num_entries: i32,
    pub duration: i32,
    pub swimmers: String,
    pub meet_id: String,
    pub dataset: Dataset,
}

impl View for ImportHistory {
    type V = HistoryV;

    open spec fn view(&self) -> HistoryV {
        HistoryV {
            id: self.id as int,
            load_time: self.load_time as int,
            num_swimmers: self.num_swimmers as int,
            num_entries: self.num_entries as int,
            duration: self.duration as int,
            swimmers: self.swimmers@,
            meet_id: self.meet_id@,
            dataset: self.dataset,
        }
    }
}

impl DeepView for ImportHistory {
    type V = HistoryV;

    open spec fn deep_view(&self) -> HistoryV {
        self.view()
    }
}

impl ImportHistory {
    /// A field-for-field copy whose view is the same.
    pub fn duplicate(&self) -> (r: ImportHistory)
        ensures
            r@ == self@,
    {
        ImportHistory {
            id: self.id,
            load_time: self.load_time,
            num_swimmers: self.num_swimmers,
            num_entries: self.num_entries,
            duration: self.duration,
            swimmers: self.swimmers.clone(),
            meet_id: self.meet_id.clone(),
            dataset: self.dataset,
        }
    }
}

/// A meet identifier as captured from a request path.
#[derive(Clone, Debug)]
pub struct MeetPath {
    pub id: String,
}

} // verus!
