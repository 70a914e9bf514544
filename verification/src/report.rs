//! Import run report: counters, per-class statistics, errors and
//! warnings, and the final status derived from them.

use vstd::prelude::*;

use crate::str_map::StrMap;
use crate::text::{dec_digits, push_u64_digits, string_of_chars};

verus! {

/// Overall outcome of an import run.
#[derive(Debug, Clone, Copy, PartialEq, Eq, Structural)]
pub enum ImportStatus {
    /// Finished without any error.
    Success,
    /// Finished, but some entities were lost to non-fatal errors.
    PartialSuccess,
    /// Rolled back.
    RolledBack,
    /// Failed.
    Failed,
}

/// Severity of a recorded error.
#[derive(Debug, Clone, Copy, PartialEq, Eq, Structural)]
pub enum ErrorLevel {
    /// The run was abandoned.
    Fatal,
    /// The entity was skipped.
    Error,
    /// The entity was imported in a degraded form.
    Warning,
}

/// One recorded error, with its context.
#[derive(Debug, Clone)]
pub struct ImportError {
    pub level: ErrorLevel,
    pub archive: Option<String>,
    pub entity_id: Option<String>,
    pub entity_type: Option<String>,
    pub message: String,
    pub details: Option<String>,
}

/// One recorded warning.
#[derive(Debug, Clone)]
pub struct ImportWarning {
    pub archive: String,
    pub entity_id: String,
    pub message: String,
}

/// Counters for one feature class.
#[derive(Debug, Clone, Copy, PartialEq, Eq, Structural)]
pub struct TypeStats {
    pub inserted: usize,
    pub updated: usize,
    pub unchanged: usize,
    pub errors: usize,
}

impl TypeStats {
    /// Fresh counters.
    pub fn new() -> (r: Self)
        ensures
            r == (TypeStats { inserted: 0, updated: 0, unchanged: 0, errors: 0 }),
    {
        TypeStats { inserted: 0, updated: 0, unchanged: 0, errors: 0 }
    }

    /// Entities that reached the store: inserted, updated or unchanged.
    pub fn total(&self) -> (r: usize)
        requires
            self.inserted + self.updated + self.unchanged <= usize::MAX,
        ensures
            r == self.inserted + self.updated + self.unchanged,
    {
        self.inserted + self.updated + self.unchanged
    }
}

/// Whether any recorded error is fatal.
pub open spec fn has_fatal(errors: Seq<ImportError>) -> bool {
    exists|i: int| 0 <= i < errors.len() && (#[trigger] errors[i]).level == ErrorLevel::Fatal
}

/// The status the counters and errors call for: failed on any fatal
/// error or when only errors happened, partial when work succeeded
/// beside errors, success otherwise.
pub open spec fn spec_final_status(errors: Seq<ImportError>, successes: int) -> ImportStatus {
    if has_fatal(errors) {
        ImportStatus::Failed
    } else if errors.len() > 0 && successes > 0 {
        ImportStatus::PartialSuccess
    } else if errors.len() > 0 {
        ImportStatus::Failed
    } else {
        ImportStatus::Success
    }
}

/// The report of one import run.
#[derive(Debug)]
pub struct ImportReport {
    /// Vintage being imported, `YYYY-MM`.
    pub millesime: String,
    /// Wall-clock duration, in milliseconds.
    pub duration_ms: u64,
    /// Outcome so far.
    pub status: ImportStatus,
    pub archives_processed: usize,
    pub archives_failed: usize,
    pub entities_imported: usize,
    pub entities_updated: usize,
    pub entities_unchanged: usize,
    pub entities_skipped: usize,
    /// Counters by feature class.
    pub by_type: StrMap<TypeStats>,
    pub errors: Vec<ImportError>,
    pub warnings: Vec<ImportWarning>,
}

impl ImportReport {
    /// An empty report for one vintage.
    pub fn new(millesime: &str) -> (r: Self)
        ensures
            r.millesime@ == millesime@,
            r.duration_ms == 0,
            r.status == ImportStatus::Success,
            r.archives_processed == 0,
            r.archives_failed == 0,
            r.entities_imported == 0,
            r.entities_updated == 0,
            r.entities_unchanged == 0,
            r.entities_skipped == 0,
            r.by_type@ == Map::<Seq<char>, TypeStats>::empty(),
            r.errors@ == Seq::<ImportError>::empty(),
            r.warnings@ == Seq::<ImportWarning>::empty(),
    {
        ImportReport {
            millesime: millesime.to_owned(),
            duration_ms: 0,
            status: ImportStatus::Success,
            archives_processed: 0,
            archives_failed: 0,
            entities_imported: 0,
            entities_updated: 0,
            entities_unchanged: 0,
            entities_skipped: 0,
            by_type: StrMap::new(),
            errors: Vec::new(),
            warnings: Vec::new(),
        }
    }

    /// The stats recorded so far for one class, or fresh counters.
    fn stats_for(&self, entity_type: &str) -> (r: TypeStats)
        ensures
            r == if self.by_type@.contains_key(entity_type@) {
                self.by_type@[entity_type@]
            } else {
                TypeStats { inserted: 0, updated: 0, unchanged: 0, errors: 0 }
            },
    {
        match self.by_type.get(entity_type) {
            Some(s) => *s,
            None => TypeStats::new(),
        }
    }

    /// Records one inserted entity of a class.
    pub fn record_insert(&mut self, entity_type: &str)
        requires
            old(self).entities_imported < usize::MAX,
            (if old(self).by_type@.contains_key(entity_type@) {
                old(self).by_type@[entity_type@].inserted
            } else {
                0
            }) < usize::MAX,
        ensures
            final(self).entities_imported == old(self).entities_imported + 1,
            final(self).by_type@ == old(self).by_type@.insert(
                entity_type@,
                TypeStats {
                    inserted: ((if old(self).by_type@.contains_key(entity_type@) {
                        old(self).by_type@[entity_type@].inserted
                    } else {
                        0
                    }) + 1) as usize,
                    ..(if old(self).by_type@.contains_key(entity_type@) {
                        old(self).by_type@[entity_type@]
                    } else {
                        TypeStats { inserted: 0, updated: 0, unchanged: 0, errors: 0 }
                    })
                },
            ),
            final(self).entities_updated == old(self).entities_updated,
            final(self).entities_unchanged == old(self).entities_unchanged,
            final(self).entities_skipped == old(self).entities_skipped,
            final(self).errors@ == old(self).errors@,
            final(self).warnings@ == old(self).warnings@,
            final(self).millesime == old(self).millesime,
            final(self).status == old(self).status,
    {
        self.entities_imported = self.entities_imported + 1;
        let mut s = self.stats_for(entity_type);
        s.inserted = s.inserted + 1;
        self.by_type.insert(entity_type.to_owned(), s);
    }

    /// Records one updated entity of a class.
    pub fn record_update(&mut self, entity_type: &str)
        requires
            old(self).entities_updated < usize::MAX,
            (if old(self).by_type@.contains_key(entity_type@) {
                old(self).by_type@[entity_type@].updated
            } else {
                0
            }) < usize::MAX,
        ensures
            final(self).entities_updated == old(self).entities_updated + 1,
            final(self).by_type@ == old(self).by_type@.insert(
                entity_type@,
                TypeStats {
                    updated: ((if old(self).by_type@.contains_key(entity_type@) {
                        old(self).by_type@[entity_type@].updated
                    } else {
                        0
                    }) + 1) as usize,
                    ..(if old(self).by_type@.contains_key(entity_type@) {
                        old(self).by_type@[entity_type@]
                    } else {
                        TypeStats { inserted: 0, updated: 0, unchanged: 0, errors: 0 }
                    })
                },
            ),
            final(self).entities_imported == old(self).entities_imported,
            final(self).entities_unchanged == old(self).entities_unchanged,
            final(self).entities_skipped == old(self).entities_skipped,
            final(self).errors@ == old(self).errors@,
            final(self).warnings@ == old(self).warnings@,
    {
        self.entities_updated = self.entities_updated + 1;
        let mut s = self.stats_for(entity_type);
        s.updated = s.updated + 1;
        self.by_type.insert(entity_type.to_owned(), s);
    }

    /// Records one unchanged entity of a class.
    pub fn record_unchanged(&mut self, entity_type: &str)
        requires
            old(self).entities_unchanged < usize::MAX,
            (if old(self).by_type@.contains_key(entity_type@) {
                old(self).by_type@[entity_type@].unchanged
            } else {
                0
            }) < usize::MAX,
        ensures
            final(self).entities_unchanged == old(self).entities_unchanged + 1,
            final(self).by_type@ == old(self).by_type@.insert(
                entity_type@,
                TypeStats {
                    unchanged: ((if old(self).by_type@.contains_key(entity_type@) {
                        old(self).by_type@[entity_type@].unchanged
                    } else {
                        0
                    }) + 1) as usize,
                    ..(if old(self).by_type@.contains_key(entity_type@) {
                        old(self).by_type@[entity_type@]
                    } else {
                        TypeStats { inserted: 0, updated: 0, unchanged: 0, errors: 0 }
                    })
                },
            ),
            final(self).entities_imported == old(self).entities_imported,
            final(self).entities_updated == old(self).entities_updated,
            final(self).entities_skipped == old(self).entities_skipped,
            final(self).errors@ == old(self).errors@,
            final(self).warnings@ == old(self).warnings@,
    {
        self.entities_unchanged = self.entities_unchanged + 1;
        let mut s = self.stats_for(entity_type);
        s.unchanged = s.unchanged + 1;
        self.by_type.insert(entity_type.to_owned(), s);
    }

    /// Records a skipped entity and its error; the class counters follow
    /// the error's `entity_type` when it names one.
    pub fn record_error(&mut self, error: ImportError)
        requires
            old(self).entities_skipped < usize::MAX,
            error.entity_type matches Some(t) ==> (if old(self).by_type@.contains_key(t@) {
                old(self).by_type@[t@].errors
            } else {
                0
            }) < usize::MAX,
        ensures
            final(self).entities_skipped == old(self).entities_skipped + 1,
            final(self).errors@ == old(self).errors@.push(error),
            error.entity_type matches Some(t) ==> final(self).by_type@ == old(
                self,
            ).by_type@.insert(
                t@,
                TypeStats {
                    errors: ((if old(self).by_type@.contains_key(t@) {
                        old(self).by_type@[t@].errors
                    } else {
                        0
                    }) + 1) as usize,
                    ..(if old(self).by_type@.contains_key(t@) {
                        old(self).by_type@[t@]
                    } else {
                        TypeStats { inserted: 0, updated: 0, unchanged: 0, errors: 0 }
                    })
                },
            ),
            error.entity_type is None ==> final(self).by_type@ == old(self).by_type@,
            final(self).entities_imported == old(self).entities_imported,
            final(self).entities_updated == old(self).entities_updated,
            final(self).entities_unchanged == old(self).entities_unchanged,
            final(self).warnings@ == old(self).warnings@,
    {
        self.entities_skipped = self.entities_skipped + 1;
        match &error.entity_type {
            Some(t) => {
                let key = t.clone();
                let mut s = self.stats_for(key.as_str());
                s.errors = s.errors + 1;
                self.by_type.insert(key, s);
            },
            None => {},
        }
        self.errors.push(error);
    }

    /// Records a warning.
    pub fn record_warning(&mut self, warning: ImportWarning)
        ensures
            final(self).warnings@ == old(self).warnings@.push(warning),
            final(self).errors@ == old(self).errors@,
            final(self).entities_imported == old(self).entities_imported,
            final(self).entities_skipped == old(self).entities_skipped,
    {
        self.warnings.push(warning);
    }

    /// Records an archive that went through.
    pub fn record_archive_success(&mut self)
        requires
            old(self).archives_processed < usize::MAX,
        ensures
            final(self).archives_processed == old(self).archives_processed + 1,
            final(self).archives_failed == old(self).archives_failed,
            final(self).errors@ == old(self).errors@,
    {
        self.archives_processed = self.archives_processed + 1;
    }

    /// Records an archive that failed whole, with a non-fatal error.
    pub fn record_archive_failure(&mut self, archive: &str, message: &str)
        requires
            old(self).archives_processed < usize::MAX,
            old(self).archives_failed < usize::MAX,
        ensures
            final(self).archives_processed == old(self).archives_processed + 1,
            final(self).archives_failed == old(self).archives_failed + 1,
            final(self).errors@.len() == old(self).errors@.len() + 1,
            final(self).errors@.last().level == ErrorLevel::Error,
            final(self).errors@.last().archive matches Some(a) && a@ == archive@,
            final(self).errors@.last().message@ == message@,
            final(self).errors@.subrange(0, old(self).errors@.len() as int) == old(self).errors@,
    {
        self.archives_processed = self.archives_processed + 1;
        self.archives_failed = self.archives_failed + 1;
        self.errors.push(
            ImportError {
                level: ErrorLevel::Error,
                archive: Some(archive.to_owned()),
                entity_id: None,
                entity_type: None,
                message: message.to_owned(),
                details: None,
            },
        );
        proof {
            assert(self.errors@.subrange(0, old(self).errors@.len() as int) =~= old(self).errors@);
        }
    }

    /// Sets the run duration in milliseconds.
    pub fn set_duration_ms(&mut self, ms: u64)
        ensures
            final(self).duration_ms == ms,
            final(self).errors@ == old(self).errors@,
            final(self).status == old(self).status,
    {
        self.duration_ms = ms;
    }

    /// Entities that reached the store in this run.
    pub fn total_entities(&self) -> (r: usize)
        requires
            self.entities_imported + self.entities_updated + self.entities_unchanged <= usize::MAX,
        ensures
            r == self.entities_imported + self.entities_updated + self.entities_unchanged,
    {
        self.entities_imported + self.entities_updated + self.entities_unchanged
    }

    /// Derives the final status from the recorded errors and counters.
    pub fn finalize(&mut self)
        requires
            old(self).entities_imported + old(self).entities_updated + old(
                self,
            ).entities_unchanged <= usize::MAX,
        ensures
            final(self).status == spec_final_status(
                old(self).errors@,
                old(self).entities_imported + old(self).entities_updated + old(
                    self,
                ).entities_unchanged,
            ),
            final(self).errors@ == old(self).errors@,
            final(self).entities_imported == old(self).entities_imported,
            final(self).by_type@ == old(self).by_type@,
    {
        let n = self.errors.len();
        let mut fatal = false;
        let mut i: usize = 0;
        while i < n
            invariant
                0 <= i <= n,
                n == self.errors@.len(),
                fatal == has_fatal(self.errors@.subrange(0, i as int)),
            decreases n - i,
        {
            proof {
                let pre = self.errors@.subrange(0, i as int);
                let cur = self.errors@.subrange(0, i + 1);
                assert(forall|j: int| 0 <= j < i ==> cur[j] == pre[j]);
                assert(cur[i as int] == self.errors@[i as int]);
                if has_fatal(pre) {
                    let w = choose|w: int| 0 <= w < pre.len() && pre[w].level == ErrorLevel::Fatal;
                    assert(cur[w].level == ErrorLevel::Fatal);
                }
            }
            if matches!(self.errors[i].level, ErrorLevel::Fatal) {
                fatal = true;
            }
            i = i + 1;
        }
        proof {
            assert(self.errors@.subrange(0, n as int) =~= self.errors@);
            if !fatal && has_fatal(self.errors@) {
                assert(false);
            }
        }
        let has_errors = self.errors.len() > 0;
        let has_success = self.entities_imported > 0 || self.entities_updated > 0
            || self.entities_unchanged > 0;
        self.status = if fatal {
            ImportStatus::Failed
        } else if has_errors && has_success {
            ImportStatus::PartialSuccess
        } else if has_errors {
            ImportStatus::Failed
        } else {
            ImportStatus::Success
        };
    }

    /// One-line summary: vintage, entities by outcome, error count.
    pub fn summary(&self) -> (s: String)
        ensures
            s@ == self.millesime@ + ": "@ + dec_digits(self.entities_imported as nat)
                + " imported, "@ + dec_digits(self.entities_updated as nat) + " updated, "@
                + dec_digits(self.entities_unchanged as nat) + " unchanged, "@ + dec_digits(
                self.errors@.len(),
            ) + " errors"@,
    {
        let mut v: Vec<char> = crate::text::chars_of(self.millesime.as_str());
        push_str_chars(&mut v, ": ");
        push_u64_digits(self.entities_imported as u64, &mut v);
        push_str_chars(&mut v, " imported, ");
        push_u64_digits(self.entities_updated as u64, &mut v);
        push_str_chars(&mut v, " updated, ");
        push_u64_digits(self.entities_unchanged as u64, &mut v);
        push_str_chars(&mut v, " unchanged, ");
        push_u64_digits(self.errors.len() as u64, &mut v);
        push_str_chars(&mut v, " errors");
        let s = string_of_chars(v.as_slice());
        proof {
            assert(s@ =~= self.millesime@ + ": "@ + dec_digits(self.entities_imported as nat)
                + " imported, "@ + dec_digits(self.entities_updated as nat) + " updated, "@
                + dec_digits(self.entities_unchanged as nat) + " unchanged, "@ + dec_digits(
                self.errors@.len(),
            ) + " errors"@);
        }
        s
    }
}

/// Appends the characters of a literal to a buffer.
fn push_str_chars(v: &mut Vec<char>, s: &str)
    ensures
        final(v)@ == old(v)@ + s@,
{
    let cs = crate::text::chars_of(s);
    let n = cs.len();
    let mut i: usize = 0;
    while i < n
        invariant
            0 <= i <= n,
            n == cs@.len(),
            cs@ == s@,
            v@ == old(v)@ + cs@.subrange(0, i as int),
        decreases n - i,
    {
        v.push(cs[i]);
        proof {
            assert(v@ =~= old(v)@ + cs@.subrange(0, i + 1));
        }
        i = i + 1;
    }
    proof {
        assert(cs@.subrange(0, n as int) =~= cs@);
    }
}

impl Default for ImportReport {
    /// An empty report with no vintage set.
    fn default() -> (r: Self)
        ensures
            r.status == ImportStatus::Success,
            r.archives_processed == 0,
            r.entities_imported == 0,
    {
        ImportReport::new("")
    }
}

} // verus!
