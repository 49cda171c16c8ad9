//! Per-record import diagnostics.
//!
//! No record failure is swallowed silently: each importer returns, besides
//! its effect on the store, the list of records it had to skip in whole or
//! in part, each with its 1-based row number and enough context — the
//! offending token, or the swimmer the row belongs to — to locate the bad
//! source data.  Emitting a diagnostic never changes what is written: the
//! issues are an account of the batch, not part of the canonical model.

use vstd::prelude::*;

verus! {

/// What went wrong with one record.
#[derive(Clone, Copy, Debug, PartialEq, Eq, Structural)]
pub enum IssueKind {
    /// An entries row's birth date token did not parse: its swimmer write
    /// was skipped.
    BirthDate,
    /// An entries row's event label did not parse: its time writes were
    /// skipped.
    EventLabel,
    /// An entries row's short-course seed time was present but its branch
    /// was malformed: that branch was skipped.
    ShortTimeBranch,
    /// An entries row's long-course seed time was present but its branch
    /// was malformed: that branch was skipped.
    LongTimeBranch,
    /// A results header row's name resolved to zero or several swimmers:
    /// the block is invalid until the next header row.
    NameResolution,
    /// A results data row's time cell failed the required shape: the row
    /// was skipped.
    TimeCell,
    /// A results data row's event cell did not parse, or the row was too
    /// short to carry one: the row was skipped.
    EventCell,
}

/// Spec view of one diagnostic.
#[verifier::ext_equal]
pub ghost struct IssueV {
    pub row: int,
    pub kind: IssueKind,
    pub context: Seq<char>,
}

/// One skipped record: its 1-based row number within the document, what
/// failed, and the offending token or the swimmer name it concerns.
#[derive(Clone, Debug)]
pub struct ImportIssue {
    pub row: usize,
    pub kind: IssueKind,
    pub context: String,
}

impl View for ImportIssue {
    type V = IssueV;

    open spec fn view(&self) -> IssueV {
        IssueV { row: self.row as int, kind: self.kind, context: self.context@ }
    }
}

impl DeepView for ImportIssue {
    type V = IssueV;

    open spec fn deep_view(&self) -> IssueV {
        self.view()
    }
}

impl ImportIssue {
    /// A field-for-field copy whose view is the same.
    pub fn duplicate(&self) -> (r: ImportIssue)
        ensures
            r@ == self@,
    {
        ImportIssue { row: self.row, kind: self.kind, context: self.context.clone() }
    }
}

} // verus!
