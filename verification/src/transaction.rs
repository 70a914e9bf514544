//! Outcome types of the per-vintage transaction wrapper; the
//! transaction itself lives with the store glue.

use vstd::prelude::*;

verus! {

/// Outcome of one vintage import transaction.
#[derive(Debug, Clone, Copy, PartialEq, Eq, Structural)]
pub enum ImportStatus {
    /// Committed.
    Success,
    /// Rolled back.
    RolledBack,
}

/// What one vintage import transaction reported.
#[derive(Debug)]
pub struct ImportReport {
    /// Vintage date, `YYYY-MM-DD`.
    pub millesime: String,
    /// Entities imported before commit; zero after a rollback.
    pub entities_imported: usize,
    /// Non-fatal errors collected during the run.
    pub errors: Vec<String>,
    /// Whether the transaction committed or rolled back.
    pub status: ImportStatus,
}

impl ImportReport {
    /// The report of a committed transaction.
    pub fn committed(millesime: String, entities_imported: usize, errors: Vec<String>) -> (r: Self)
        ensures
            r.millesime == millesime,
            r.entities_imported == entities_imported,
            r.errors == errors,
            r.status == ImportStatus::Success,
    {
        ImportReport { millesime, entities_imported, errors, status: ImportStatus::Success }
    }

    /// The report of a rolled-back transaction: nothing imported, the
    /// reason as its only error.
    pub fn rolled_back(millesime: String, reason: String) -> (r: Self)
        ensures
            r.millesime == millesime,
            r.entities_imported == 0,
            r.errors@ =~= seq![reason],
            r.status == ImportStatus::RolledBack,
    {
        let mut errors: Vec<String> = Vec::new();
        errors.push(reason);
        ImportReport { millesime, entities_imported: 0, errors, status: ImportStatus::RolledBack }
    }
}

} // verus!
