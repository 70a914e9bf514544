//! Import planning: table specifications out of the configuration,
//! feature-class normalisation, per-archive decisions and the worker
//! state machine.

use vstd::prelude::*;

use crate::config::Config;
use crate::row::{ColumnSpec, TableSpec};
use crate::str_map::StrMap;
use crate::text::{chars_of, str_eq, string_of_chars, to_upper_chars, upper_seq};

verus! {

/// Rows a worker buffers before it ships a chunk to its sink.
pub const BATCH_SIZE: u64 = 5000;

/// Whether a buffer has reached the chunk size.
pub fn should_flush(rows: u64) -> (r: bool)
    ensures
        r == (rows >= BATCH_SIZE),
{
    rows >= BATCH_SIZE
}

/// A feature class name normalised for lookups: trimmed and
/// upper-cased.
pub open spec fn spec_normalize_type(s: Seq<char>) -> Seq<char> {
    upper_seq(crate::parser::vec_records::trim_ws(s))
}

/// Normalises a feature class name.
pub fn normalize_feature_type(feature_type: &str) -> (r: String)
    ensures
        r@ == spec_normalize_type(feature_type@),
{
    let cs = chars_of(feature_type);
    let t = crate::parser::vec_records::trim_ws_chars(cs.as_slice());
    let u = to_upper_chars(t.as_slice());
    string_of_chars(u.as_slice())
}

/// Whether a target column name is reserved for the fixed row layout.
pub open spec fn spec_reserved(s: Seq<char>) -> bool {
    s == "row_id"@ || s == "id"@ || s == "departement"@ || s == "geometry"@ || s == "valid_from"@
        || s == "valid_to"@ || s == "geometry_hash"@ || s == "created_at"@ || s == "updated_at"@
}

/// Tests a reserved column name.
pub fn is_reserved_column(name: &str) -> (r: bool)
    ensures
        r == spec_reserved(name@),
{
    str_eq(name, "row_id") || str_eq(name, "id") || str_eq(name, "departement") || str_eq(
        name,
        "geometry",
    ) || str_eq(name, "valid_from") || str_eq(name, "valid_to") || str_eq(name, "geometry_hash")
        || str_eq(name, "created_at") || str_eq(name, "updated_at")
}

/// The store type a declared field type maps to.
pub open spec fn spec_store_type(t: Seq<char>) -> Seq<char> {
    let l = crate::text::lower_seq(t);
    if l == "text"@ || l == "varchar"@ {
        "TEXT"@
    } else if l == "integer"@ || l == "int"@ {
        "INTEGER"@
    } else if l == "smallint"@ {
        "SMALLINT"@
    } else if l == "bigint"@ {
        "BIGINT"@
    } else if l == "float"@ || l == "double"@ || l == "double precision"@ {
        "DOUBLE PRECISION"@
    } else if l == "boolean"@ || l == "bool"@ {
        "BOOLEAN"@
    } else if l == "date"@ {
        "DATE"@
    } else {
        "TEXT"@
    }
}

/// Maps a declared field type to the store's type name.
pub fn pg_type_for(data_type: &str) -> (r: &'static str)
    ensures
        r@ == spec_store_type(data_type@),
{
    let cs = chars_of(data_type);
    let l = crate::text::to_lower_chars(cs.as_slice());
    let lv = l.as_slice();
    let text_t = chars_of("text");
    let varchar_t = chars_of("varchar");
    let integer_t = chars_of("integer");
    let int_t = chars_of("int");
    let smallint_t = chars_of("smallint");
    let bigint_t = chars_of("bigint");
    let float_t = chars_of("float");
    let double_t = chars_of("double");
    let doublep_t = chars_of("double precision");
    let boolean_t = chars_of("boolean");
    let bool_t = chars_of("bool");
    let date_t = chars_of("date");
    if crate::text::chars_eq(lv, text_t.as_slice()) || crate::text::chars_eq(
        lv,
        varchar_t.as_slice(),
    ) {
        "TEXT"
    } else if crate::text::chars_eq(lv, integer_t.as_slice()) || crate::text::chars_eq(
        lv,
        int_t.as_slice(),
    ) {
        "INTEGER"
    } else if crate::text::chars_eq(lv, smallint_t.as_slice()) {
        "SMALLINT"
    } else if crate::text::chars_eq(lv, bigint_t.as_slice()) {
        "BIGINT"
    } else if crate::text::chars_eq(lv, float_t.as_slice()) || crate::text::chars_eq(
        lv,
        double_t.as_slice(),
    ) || crate::text::chars_eq(lv, doublep_t.as_slice()) {
        "DOUBLE PRECISION"
    } else if crate::text::chars_eq(lv, boolean_t.as_slice()) || crate::text::chars_eq(
        lv,
        bool_t.as_slice(),
    ) {
        "BOOLEAN"
    } else if crate::text::chars_eq(lv, date_t.as_slice()) {
        "DATE"
    } else {
        "TEXT"
    }
}

/// The view of one column: target name, source, declared type, and
/// the prefix flag.
pub open spec fn col_view(c: ColumnSpec) -> (Seq<char>, Seq<char>, Seq<char>, bool) {
    (c.name@, c.source@, c.data_type@, c.prefix_dep)
}

/// The views of a column list.
pub open spec fn col_views(cs: Seq<ColumnSpec>) -> Seq<(Seq<char>, Seq<char>, Seq<char>, bool)> {
    cs.map(|i: int, c: ColumnSpec| col_view(c))
}

/// The view of one table: name, columns, hash flag.
pub open spec fn table_view(t: TableSpec) -> (
    Seq<char>,
    Seq<(Seq<char>, Seq<char>, Seq<char>, bool)>,
    bool,
) {
    (t.name@, col_views(t.columns@), t.hash_geom)
}

/// The views of a table list.
pub open spec fn table_views(ts: Seq<TableSpec>) -> Seq<
    (Seq<char>, Seq<(Seq<char>, Seq<char>, Seq<char>, bool)>, bool),
> {
    ts.map(|i: int, t: TableSpec| table_view(t))
}

/// Whether two column lists agree field for field.
fn columns_eq(a: &Vec<ColumnSpec>, b: &Vec<ColumnSpec>) -> (r: bool)
    ensures
        r == (col_views(a@) == col_views(b@)),
{
    if a.len() != b.len() {
        proof {
            assert(col_views(a@).len() != col_views(b@).len());
        }
        return false;
    }
    let n = a.len();
    let mut i: usize = 0;
    while i < n
        invariant
            0 <= i <= n,
            n == a@.len() == b@.len(),
            forall|j: int| 0 <= j < i ==> col_view(a@[j]) == col_view(b@[j]),
        decreases n - i,
    {
        let x = &a[i];
        let y = &b[i];
        if !(str_eq(x.name.as_str(), y.name.as_str()) && str_eq(x.source.as_str(), y.source.as_str())
            && str_eq(x.data_type.as_str(), y.data_type.as_str()) && x.prefix_dep == y.prefix_dep) {
            proof {
                assert(col_views(a@)[i as int] != col_views(b@)[i as int]);
            }
            return false;
        }
        i = i + 1;
    }
    proof {
        assert(col_views(a@) =~= col_views(b@));
    }
    true
}

/// The non-reserved fields of a class, as columns, in order.
pub open spec fn cols_of(fields: Seq<crate::config::FieldMapping>, j: int) -> Seq<
    (Seq<char>, Seq<char>, Seq<char>, bool),
>
    decreases j,
{
    if j <= 0 {
        Seq::empty()
    } else {
        let p = cols_of(fields, j - 1);
        if !spec_reserved(fields[j - 1].target@) {
            p.push((fields[j - 1].target@, fields[j - 1].source@, fields[j - 1].data_type@,
            fields[j - 1].prefix_dep))
        } else {
            p
        }
    }
}

/// The first table with the given name.
pub open spec fn find_table(
    ts: Seq<(Seq<char>, Seq<(Seq<char>, Seq<char>, Seq<char>, bool)>, bool)>,
    name: Seq<char>,
    t: int,
) -> Option<int>
    decreases ts.len() - t,
{
    if t < 0 || t >= ts.len() {
        None
    } else if ts[t].0 == name {
        Some(t)
    } else {
        find_table(ts, name, t + 1)
    }
}

/// One step of building the specifications: merge one class's table
/// into the list, or refuse it on a conflicting column layout, and
/// register its lookup keys.
pub open spec fn specs_step(
    st: (Seq<(Seq<char>, Seq<(Seq<char>, Seq<char>, Seq<char>, bool)>, bool)>, Map<Seq<char>, int>),
    feature_type: Seq<char>,
    cfg: crate::config::TableConfig,
) -> Option<
    (Seq<(Seq<char>, Seq<(Seq<char>, Seq<char>, Seq<char>, bool)>, bool)>, Map<Seq<char>, int>),
> {
    let cols = cols_of(cfg.fields@, cfg.fields@.len() as int);
    let merged = match find_table(st.0, cfg.table@, 0) {
        Some(x) => {
            if st.0[x].1.len() == 0 {
                Some((st.0.update(x, (st.0[x].0, cols, st.0[x].2 || cfg.hash_geom)), x))
            } else if st.0[x].1 == cols {
                if cfg.hash_geom && !st.0[x].2 {
                    Some((st.0.update(x, (st.0[x].0, st.0[x].1, true)), x))
                } else {
                    Some((st.0, x))
                }
            } else {
                None
            }
        },
        None => Some((st.0.push((cfg.table@, cols, cfg.hash_geom)), st.0.len() as int)),
    };
    match merged {
        Some(p) => {
            let ft = spec_normalize_type(feature_type);
            let lk = if crate::archive::ends_with(ft, "_ID"@) {
                st.1.insert(ft.subrange(0, ft.len() - "_ID"@.len()), p.1)
            } else {
                st.1
            };
            Some((p.0, lk.insert(ft, p.1)))
        },
        None => None,
    }
}

/// The specifications after the first `k` configuration entries.
pub open spec fn specs_fold(
    entries: Seq<(String, crate::config::TableConfig)>,
    k: int,
) -> Option<
    (Seq<(Seq<char>, Seq<(Seq<char>, Seq<char>, Seq<char>, bool)>, bool)>, Map<Seq<char>, int>),
>
    decreases k,
{
    if k <= 0 {
        Some((Seq::empty(), Map::empty()))
    } else {
        match specs_fold(entries, k - 1) {
            Some(st) => specs_step(st, entries[k - 1].0@, entries[k - 1].1),
            None => None,
        }
    }
}

proof fn lemma_specs_fold_none(
    entries: Seq<(String, crate::config::TableConfig)>,
    k: int,
    n: int,
)
    requires
        0 <= k <= n,
        specs_fold(entries, k) is None,
    ensures
        specs_fold(entries, n) is None,
    decreases n - k,
{
    if k < n {
        lemma_specs_fold_none(entries, k + 1, n);
    }
}

proof fn lemma_find_table_skip(
    ts: Seq<(Seq<char>, Seq<(Seq<char>, Seq<char>, Seq<char>, bool)>, bool)>,
    name: Seq<char>,
    from: int,
    upto: int,
)
    requires
        0 <= from <= upto <= ts.len(),
        forall|j: int| from <= j < upto ==> (#[trigger] ts[j]).0 != name,
    ensures
        find_table(ts, name, from) == find_table(ts, name, upto),
    decreases upto - from,
{
    if from < upto {
        lemma_find_table_skip(ts, name, from + 1, upto);
    }
}

/// Builds the table specifications and the feature-class lookup from a
/// configuration, exactly as `specs_fold` describes: classes sharing a
/// table must agree on their filtered column layouts, the hash flags
/// are combined, and each class registers its normalised name and its
/// `_ID`-stripped form, all pointing into the table list.
#[verifier::rlimit(100)]
pub fn build_import_specs(config: &Config) -> (r: Result<
    (Vec<TableSpec>, StrMap<usize>),
    String,
>)
    ensures
        (r is Ok) == (specs_fold(
            config.tables.kv_seq(),
            config.tables.kv_seq().len() as int,
        ) is Some),
        r matches Ok(p) ==> {
            let folded = specs_fold(
                config.tables.kv_seq(),
                config.tables.kv_seq().len() as int,
            ).unwrap();
            &&& table_views(p.0@) == folded.0
            &&& (forall|key: Seq<char>|
                p.1@.contains_key(key) == folded.1.contains_key(key))
            &&& (forall|key: Seq<char>|
                p.1@.contains_key(key) ==> (#[trigger] p.1@[key]) as int == folded.1[key])
            &&& (forall|key: Seq<char>|
                p.1@.contains_key(key) ==> (#[trigger] p.1@[key]) < p.0@.len())
        },
{
    proof {
        reveal_strlit("_ID");
    }
    let mut tables: Vec<TableSpec> = Vec::new();
    let mut lookup: StrMap<usize> = StrMap::new();
    let entries = config.tables.entries();
    let n = entries.len();
    let mut i: usize = 0;
    while i < n
        invariant
            0 <= i <= n,
            n == entries@.len(),
            entries@ == config.tables.kv_seq(),
            specs_fold(entries@, i as int) matches Some(st) && table_views(tables@) == st.0 && (
            forall|key: Seq<char>| lookup@.contains_key(key) == st.1.contains_key(key)) && (
            forall|key: Seq<char>|
                lookup@.contains_key(key) ==> (#[trigger] lookup@[key]) as int == st.1[key]),
            forall|key: Seq<char>|
                lookup@.contains_key(key) ==> (#[trigger] lookup@[key]) < tables@.len(),
        decreases n - i,
    {
        proof {
            reveal_strlit("_ID");
        }
        let feature_type = &entries[i].0;
        let table_cfg = &entries[i].1;
        // Columns: the non-reserved fields, in order.
        let mut cols: Vec<ColumnSpec> = Vec::new();
        let fnum = table_cfg.fields.len();
        let mut f: usize = 0;
        while f < fnum
            invariant
                0 <= f <= fnum,
                fnum == table_cfg.fields@.len(),
                col_views(cols@) == cols_of(table_cfg.fields@, f as int),
            decreases fnum - f,
        {
            let fm = &table_cfg.fields[f];
            if !is_reserved_column(fm.target.as_str()) {
                cols.push(
                    ColumnSpec {
                        name: fm.target.clone(),
                        source: fm.source.clone(),
                        data_type: fm.data_type.clone(),
                        prefix_dep: fm.prefix_dep,
                    },
                );
            }
            proof {
                assert(col_views(cols@) =~= cols_of(table_cfg.fields@, f + 1));
            }
            f = f + 1;
        }
        // Find or create the table.
        let tn = tables.len();
        let mut idx: Option<usize> = None;
        let mut t: usize = 0;
        while t < tn && idx.is_none()
            invariant
                0 <= t <= tn,
                tn == tables@.len(),
                table_views(tables@).len() == tn,
                (match idx {
                    Some(x) => x < tables@.len() && find_table(
                        table_views(tables@),
                        table_cfg.table@,
                        0,
                    ) == Some(x as int),
                    None => forall|j: int|
                        0 <= j < t ==> (#[trigger] table_views(tables@)[j]).0 != table_cfg.table@,
                }),
            decreases (if idx is None {
                1int
            } else {
                0int
            }), tn - t,
        {
            if str_eq(tables[t].name.as_str(), table_cfg.table.as_str()) {
                proof {
                    lemma_find_table_skip(table_views(tables@), table_cfg.table@, 0, t as int);
                    assert(table_views(tables@)[t as int].0 == table_cfg.table@);
                }
                idx = Some(t);
            } else {
                proof {
                    assert(table_views(tables@)[t as int].0 != table_cfg.table@);
                }
                t = t + 1;
            }
        }
        proof {
            if idx is None {
                lemma_find_table_skip(table_views(tables@), table_cfg.table@, 0, tn as int);
            }
        }
        let ghost pre_tables = tables@;
        let ti: usize = match idx {
            Some(x) => {
                // An existing table must agree on its columns.
                if tables[x].columns.len() == 0 {
                    let mut tmp = tables.remove(x);
                    tmp.columns = cols;
                    tmp.hash_geom = tmp.hash_geom || table_cfg.hash_geom;
                    tables.insert(x, tmp);
                    proof {
                        assert(table_views(tables@) =~= table_views(pre_tables).update(
                            x as int,
                            (pre_tables[x as int].name@, cols_of(
                                table_cfg.fields@,
                                table_cfg.fields@.len() as int,
                            ), pre_tables[x as int].hash_geom || table_cfg.hash_geom),
                        ));
                    }
                } else {
                    if !columns_eq(&tables[x].columns, &cols) {
                        proof {
                            assert(table_views(tables@)[x as int].1 == col_views(
                                tables@[x as int].columns@,
                            ));
                            assert(specs_fold(entries@, i + 1) is None);
                            lemma_specs_fold_none(entries@, i + 1, n as int);
                        }
                        return Err(
                            "Conflicting table configurations: one table, two column layouts".to_owned(),
                        );
                    }
                    if table_cfg.hash_geom && !tables[x].hash_geom {
                        let mut tmp = tables.remove(x);
                        tmp.hash_geom = true;
                        tables.insert(x, tmp);
                        proof {
                            assert(table_views(tables@) =~= table_views(pre_tables).update(
                                x as int,
                                (pre_tables[x as int].name@, col_views(
                                    pre_tables[x as int].columns@,
                                ), true),
                            ));
                        }
                    }
                }
                x
            },
            None => {
                tables.push(
                    TableSpec {
                        name: table_cfg.table.clone(),
                        columns: cols,
                        hash_geom: table_cfg.hash_geom,
                    },
                );
                proof {
                    assert(table_views(tables@) =~= table_views(pre_tables).push(
                        (table_cfg.table@, cols_of(
                            table_cfg.fields@,
                            table_cfg.fields@.len() as int,
                        ), table_cfg.hash_geom),
                    ));
                }
                tables.len() - 1
            },
        };
        proof {
            assert(ti < tables@.len());
        }
        let ft = normalize_feature_type(feature_type.as_str());
        let ftc = chars_of(ft.as_str());
        let idsuf = chars_of("_ID");
        if ftc.len() >= 3 && crate::text::matches_at(ftc.as_slice(), idsuf.as_slice(), ftc.len()
            - 3) {
            let stripped = crate::text::string_of_range(ftc.as_slice(), 0, ftc.len() - 3);
            proof {
                assert(crate::archive::ends_with(ft@, "_ID"@));
                assert(stripped@ == ft@.subrange(0, ft@.len() - "_ID"@.len()));
            }
            lookup.insert(stripped, ti);
        } else {
            proof {
                assert(!crate::archive::ends_with(ft@, "_ID"@));
            }
        }
        lookup.insert(ft, ti);
        proof {
            assert(specs_fold(entries@, i + 1) matches Some(st2) && table_views(tables@) == st2.0
                && (forall|key: Seq<char>| lookup@.contains_key(key) == st2.1.contains_key(key))
                && (forall|key: Seq<char>|
                lookup@.contains_key(key) ==> (#[trigger] lookup@[key]) as int == st2.1[key]));
            assert forall|key: Seq<char>| lookup@.contains_key(key) implies (#[trigger] lookup@[
                key
            ]) < tables@.len() by {}
        }
        i = i + 1;
    }
    proof {
        assert(entries@ == config.tables.kv_seq());
    }
    Ok((tables, lookup))
}

// ---- per-archive decisions ----

/// Whether a worker skips its archive: the registry holds the same
/// non-empty checksum.
pub open spec fn spec_skip_archive(recorded: Option<Seq<char>>, checksum: Seq<char>) -> bool {
    checksum.len() > 0 && recorded == Some(checksum)
}

/// Decides whether an archive is skipped, from the registry's answer
/// and the freshly computed checksum.
pub fn should_skip_archive(recorded: Option<&String>, checksum: &str) -> (r: bool)
    ensures
        r == spec_skip_archive(
            match recorded {
                Some(s) => Some(s@),
                None => None,
            },
            checksum@,
        ),
{
    if checksum.is_empty() {
        return false;
    }
    match recorded {
        Some(s) => str_eq(s.as_str(), checksum),
        None => false,
    }
}

/// Law: once an import has recorded an archive's checksum, a rerun
/// that computes the same non-empty checksum decides to skip the
/// archive, so the decoder never runs for it again.
pub proof fn lemma_incremental_skip(recorded: Seq<char>, checksum: Seq<char>)
    requires
        recorded == checksum,
        checksum.len() > 0,
    ensures
        spec_skip_archive(Some(recorded), checksum),
{
}

/// Law: a rerun over a corpus whose checksums were all recorded skips
/// every archive, so the run stages no rows at all.
pub proof fn lemma_rerun_skips_all(recorded: Seq<Seq<char>>, checksums: Seq<Seq<char>>)
    requires
        recorded.len() == checksums.len(),
        forall|i: int|
            0 <= i < checksums.len() ==> #[trigger] recorded[i] == checksums[i] && checksums[
                i
            ].len() > 0,
    ensures
        forall|i: int|
            0 <= i < checksums.len() ==> spec_skip_archive(
                Some(#[trigger] recorded[i]),
                checksums[i],
            ),
{
}

// ---- the worker state machine ----

/// Where one archive worker stands.
#[derive(Debug, Clone, Copy, PartialEq, Eq, Structural)]
pub enum ArchiveState {
    /// Found in the directory walk.
    Discovered,
    /// Its content checksum is known.
    Checksummed,
    /// Skipped: the registry already holds this checksum.
    SkippedKnown,
    /// Decoded into features.
    Parsed,
    /// Lost to a whole-archive failure.
    Failed,
    /// Its rows were shipped to the sinks.
    Emitted,
    /// Its checksum was written back to the registry.
    Recorded,
}

/// What happens to one archive worker.
#[derive(Debug, Clone, Copy, PartialEq, Eq, Structural)]
pub enum ArchiveEvent {
    /// The checksum was computed.
    ChecksumDone,
    /// The registry already held the checksum.
    KnownChecksum,
    /// The archive decoded.
    ParseOk,
    /// The archive could not be decoded or projected.
    ParseFailed,
    /// Every buffered row was shipped.
    RowsFlushed,
    /// The checksum was written back.
    ChecksumRecorded,
}

/// One worker step. Any event out of order leaves the worker failed.
pub fn archive_transition(state: ArchiveState, event: ArchiveEvent) -> (r: ArchiveState)
    ensures
        state == ArchiveState::Discovered && event == ArchiveEvent::ChecksumDone ==> r
            == ArchiveState::Checksummed,
        state == ArchiveState::Checksummed && event == ArchiveEvent::KnownChecksum ==> r
            == ArchiveState::SkippedKnown,
        state == ArchiveState::Checksummed && event == ArchiveEvent::ParseOk ==> r
            == ArchiveState::Parsed,
        state == ArchiveState::Checksummed && event == ArchiveEvent::ParseFailed ==> r
            == ArchiveState::Failed,
        state == ArchiveState::Parsed && event == ArchiveEvent::ParseFailed ==> r
            == ArchiveState::Failed,
        state == ArchiveState::Parsed && event == ArchiveEvent::RowsFlushed ==> r
            == ArchiveState::Emitted,
        state == ArchiveState::Emitted && event == ArchiveEvent::ChecksumRecorded ==> r
            == ArchiveState::Recorded,
        r == ArchiveState::SkippedKnown || r == ArchiveState::Failed || r == ArchiveState::Recorded
            || r == ArchiveState::Checksummed || r == ArchiveState::Parsed || r
            == ArchiveState::Emitted,
{
    match (state, event) {
        (ArchiveState::Discovered, ArchiveEvent::ChecksumDone) => ArchiveState::Checksummed,
        (ArchiveState::Checksummed, ArchiveEvent::KnownChecksum) => ArchiveState::SkippedKnown,
        (ArchiveState::Checksummed, ArchiveEvent::ParseOk) => ArchiveState::Parsed,
        (ArchiveState::Checksummed, ArchiveEvent::ParseFailed) => ArchiveState::Failed,
        (ArchiveState::Parsed, ArchiveEvent::ParseFailed) => ArchiveState::Failed,
        (ArchiveState::Parsed, ArchiveEvent::RowsFlushed) => ArchiveState::Emitted,
        (ArchiveState::Emitted, ArchiveEvent::ChecksumRecorded) => ArchiveState::Recorded,
        _ => ArchiveState::Failed,
    }
}

} // verus!
