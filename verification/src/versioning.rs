//! Temporal-versioning bookkeeping: marking reports, upsert outcomes,
//! and the mapping from feature classes to their target tables.

use vstd::prelude::*;

use crate::geom::Geometry;
use crate::str_map::StrMap;
use crate::text::{chars_of, find_sub, to_upper_chars, upper_seq};

verus! {

/// Rows marked as potentially ended in one table.
#[derive(Debug, Clone)]
pub struct TableMarkingResult {
    pub table: String,
    pub rows_marked: usize,
}

/// Marking results over all tables.
#[derive(Debug)]
pub struct MarkingReport {
    pub tables: Vec<TableMarkingResult>,
}

/// Sum of `rows_marked` over the first `k` tables.
pub open spec fn marked_sum(tables: Seq<TableMarkingResult>, k: int) -> int
    decreases k,
{
    if k <= 0 {
        0
    } else {
        marked_sum(tables, k - 1) + tables[k - 1].rows_marked
    }
}

impl MarkingReport {
    /// An empty report.
    pub fn new() -> (r: Self)
        ensures
            r.tables@ == Seq::<TableMarkingResult>::empty(),
    {
        MarkingReport { tables: Vec::new() }
    }

    /// Total rows marked over all tables.
    pub fn total_marked(&self) -> (r: usize)
        requires
            marked_sum(self.tables@, self.tables@.len() as int) <= usize::MAX,
        ensures
            r == marked_sum(self.tables@, self.tables@.len() as int),
    {
        let n = self.tables.len();
        let mut sum: usize = 0;
        let mut i: usize = 0;
        while i < n
            invariant
                0 <= i <= n,
                n == self.tables@.len(),
                sum == marked_sum(self.tables@, i as int),
                marked_sum(self.tables@, n as int) <= usize::MAX,
            decreases n - i,
        {
            proof {
                lemma_marked_sum_mono(self.tables@, i + 1, n as int);
            }
            sum = sum + self.tables[i].rows_marked;
            i = i + 1;
        }
        sum
    }

    /// Whether any table had rows marked.
    pub fn has_marked_entities(&self) -> (r: bool)
        requires
            marked_sum(self.tables@, self.tables@.len() as int) <= usize::MAX,
        ensures
            r == (marked_sum(self.tables@, self.tables@.len() as int) > 0),
    {
        self.total_marked() > 0
    }
}

proof fn lemma_marked_sum_mono(tables: Seq<TableMarkingResult>, i: int, n: int)
    requires
        0 <= i <= n <= tables.len(),
    ensures
        forall|k: int| i <= k <= n ==> marked_sum(tables, k) >= marked_sum(tables, i),
    decreases n - i,
{
    if i < n {
        lemma_marked_sum_mono(tables, i + 1, n);
    }
}

/// Rows still marked ended after an import, for one table.
#[derive(Debug)]
pub struct TableEndedCount {
    pub table: String,
    pub count: usize,
}

/// Ended-entity counts over all tables.
#[derive(Debug)]
pub struct EndedEntitiesReport {
    pub tables: Vec<TableEndedCount>,
}

/// Sum of `count` over the first `k` tables.
pub open spec fn ended_sum(tables: Seq<TableEndedCount>, k: int) -> int
    decreases k,
{
    if k <= 0 {
        0
    } else {
        ended_sum(tables, k - 1) + tables[k - 1].count
    }
}

impl EndedEntitiesReport {
    /// An empty report.
    pub fn new() -> (r: Self)
        ensures
            r.tables@ == Seq::<TableEndedCount>::empty(),
    {
        EndedEntitiesReport { tables: Vec::new() }
    }

    /// Total entities that ended with this vintage.
    pub fn total_ended(&self) -> (r: usize)
        requires
            ended_sum(self.tables@, self.tables@.len() as int) <= usize::MAX,
        ensures
            r == ended_sum(self.tables@, self.tables@.len() as int),
    {
        let n = self.tables.len();
        let mut sum: usize = 0;
        let mut i: usize = 0;
        while i < n
            invariant
                0 <= i <= n,
                n == self.tables@.len(),
                sum == ended_sum(self.tables@, i as int),
                ended_sum(self.tables@, n as int) <= usize::MAX,
            decreases n - i,
        {
            proof {
                lemma_ended_sum_mono(self.tables@, i + 1, n as int);
            }
            sum = sum + self.tables[i].count;
            i = i + 1;
        }
        sum
    }
}

proof fn lemma_ended_sum_mono(tables: Seq<TableEndedCount>, i: int, n: int)
    requires
        0 <= i <= n <= tables.len(),
    ensures
        forall|k: int| i <= k <= n ==> ended_sum(tables, k) >= ended_sum(tables, i),
    decreases n - i,
{
    if i < n {
        lemma_ended_sum_mono(tables, i + 1, n);
    }
}

/// One entity headed for the store.
#[derive(Debug)]
pub struct EntityUpsert {
    pub id: String,
    pub geometry: Geometry,
    pub geom_hash: [u8; 32],
    pub properties: StrMap<String>,
    pub feature_type: String,
}

/// Outcome of one upsert.
#[derive(Debug, Clone, Copy, PartialEq, Eq, Structural)]
pub enum UpsertResult {
    /// A new entity was inserted.
    Inserted,
    /// An existing entity's geometry changed.
    Updated,
    /// An existing entity was unchanged.
    Unchanged,
}

/// Counters over one batch of upserts.
#[derive(Debug, Clone, Copy, PartialEq, Eq, Structural)]
pub struct UpsertReport {
    pub inserted: usize,
    pub updated: usize,
    pub unchanged: usize,
    pub errors: usize,
}

impl UpsertReport {
    /// Fresh counters.
    pub fn new() -> (r: Self)
        ensures
            r == (UpsertReport { inserted: 0, updated: 0, unchanged: 0, errors: 0 }),
    {
        UpsertReport { inserted: 0, updated: 0, unchanged: 0, errors: 0 }
    }

    /// Entities that reached the store.
    pub fn total_processed(&self) -> (r: usize)
        requires
            self.inserted + self.updated + self.unchanged <= usize::MAX,
        ensures
            r == self.inserted + self.updated + self.unchanged,
    {
        self.inserted + self.updated + self.unchanged
    }

    /// Counts one upsert outcome.
    pub fn record(&mut self, result: UpsertResult)
        requires
            old(self).inserted < usize::MAX,
            old(self).updated < usize::MAX,
            old(self).unchanged < usize::MAX,
        ensures
            final(self).inserted == old(self).inserted + (if result == UpsertResult::Inserted {
                1int
            } else {
                0int
            }),
            final(self).updated == old(self).updated + (if result == UpsertResult::Updated {
                1int
            } else {
                0int
            }),
            final(self).unchanged == old(self).unchanged + (if result == UpsertResult::Unchanged {
                1int
            } else {
                0int
            }),
            final(self).errors == old(self).errors,
    {
        match result {
            UpsertResult::Inserted => {
                self.inserted = self.inserted + 1;
            },
            UpsertResult::Updated => {
                self.updated = self.updated + 1;
            },
            UpsertResult::Unchanged => {
                self.unchanged = self.unchanged + 1;
            },
        }
    }

    /// Counts one failed upsert.
    pub fn record_error(&mut self)
        requires
            old(self).errors < usize::MAX,
        ensures
            final(self).errors == old(self).errors + 1,
            final(self).inserted == old(self).inserted,
            final(self).updated == old(self).updated,
            final(self).unchanged == old(self).unchanged,
    {
        self.errors = self.errors + 1;
    }
}

/// Whether a stored hash equals the computed one, byte for byte.
pub fn hash_matches(stored: &Vec<u8>, computed: &[u8; 32]) -> (r: bool)
    ensures
        r == (stored@ =~= computed@),
{
    if stored.len() != 32 {
        proof {
            assert(stored@ != computed@);
        }
        return false;
    }
    let mut i: usize = 0;
    while i < 32
        invariant
            0 <= i <= 32,
            stored@.len() == 32,
            forall|j: int| 0 <= j < i ==> stored@[j] == computed@[j],
        decreases 32 - i,
    {
        if stored[i] != computed[i] {
            return false;
        }
        i = i + 1;
    }
    true
}

/// Whether `needle` occurs in the ASCII upper-casing of `s`.
pub open spec fn upper_contains(s: Seq<char>, needle: Seq<char>) -> bool {
    exists|i: int| crate::text::match_at(upper_seq(s), needle, i)
}

/// Exec test of `upper_contains`.
fn upper_contains_exec(s: &[char], needle: &[char]) -> (r: bool)
    requires
        needle@.len() > 0,
    ensures
        r == upper_contains(s@, needle@),
{
    let u = to_upper_chars(s);
    match find_sub(u.as_slice(), needle, 0) {
        Some(_) => true,
        None => {
            proof {
                if upper_contains(s@, needle@) {
                    let i = choose|i: int| crate::text::match_at(upper_seq(s@), needle@, i);
                    assert(!crate::text::match_at(u@, needle@, i));
                }
            }
            false
        },
    }
}

/// The legacy table for a feature class, by case-insensitive keyword:
/// parcels, sections, communes, buildings, named places, fiscal
/// subdivisions, with parcels as the default.
pub open spec fn spec_feature_table(s: Seq<char>) -> Seq<char> {
    if upper_contains(s, "PARCELLE"@) {
        "parcelles"@
    } else if upper_contains(s, "SECTION"@) {
        "sections"@
    } else if upper_contains(s, "COMMUNE"@) {
        "communes"@
    } else if upper_contains(s, "BATIMENT"@) || upper_contains(s, "BATI"@) {
        "batiments"@
    } else if upper_contains(s, "LIEU"@) || upper_contains(s, "LIEUDIT"@) {
        "lieux_dits"@
    } else if upper_contains(s, "SUBDFISC"@) {
        "subdivisions_fiscales"@
    } else {
        "parcelles"@
    }
}

/// Maps a feature class to its legacy target table.
pub fn feature_type_to_table(feature_type: &str) -> (r: &'static str)
    ensures
        r@ == spec_feature_table(feature_type@),
{
    proof {
        reveal_strlit("PARCELLE");
        reveal_strlit("SECTION");
        reveal_strlit("COMMUNE");
        reveal_strlit("BATIMENT");
        reveal_strlit("BATI");
        reveal_strlit("LIEU");
        reveal_strlit("LIEUDIT");
        reveal_strlit("SUBDFISC");
    }
    let cs = chars_of(feature_type);
    let s = cs.as_slice();
    let parcelle = chars_of("PARCELLE");
    let section = chars_of("SECTION");
    let commune = chars_of("COMMUNE");
    let batiment = chars_of("BATIMENT");
    let bati = chars_of("BATI");
    let lieu = chars_of("LIEU");
    let lieudit = chars_of("LIEUDIT");
    let subdfisc = chars_of("SUBDFISC");
    if upper_contains_exec(s, parcelle.as_slice()) {
        "parcelles"
    } else if upper_contains_exec(s, section.as_slice()) {
        "sections"
    } else if upper_contains_exec(s, commune.as_slice()) {
        "communes"
    } else if upper_contains_exec(s, batiment.as_slice()) || upper_contains_exec(
        s,
        bati.as_slice(),
    ) {
        "batiments"
    } else if upper_contains_exec(s, lieu.as_slice()) || upper_contains_exec(
        s,
        lieudit.as_slice(),
    ) {
        "lieux_dits"
    } else if upper_contains_exec(s, subdfisc.as_slice()) {
        "subdivisions_fiscales"
    } else {
        "parcelles"
    }
}

} // verus!
