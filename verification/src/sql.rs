//! The statements the bulk-load path issues, as text: the staging
//! table name, the copy command, and the merge from staging into the
//! final relation.

use vstd::prelude::*;

use crate::text::{chars_of, push_char, string_of_chars};

verus! {

/// The staging companion of a table.
pub fn staging_table_name(table: &str) -> (r: String)
    ensures
        r@ == "_staging_"@ + table@,
{
    proof {
        reveal_strlit("_staging_");
    }
    let mut v = chars_of("_staging_");
    let t = chars_of(table);
    let n = t.len();
    let mut i: usize = 0;
    while i < n
        invariant
            0 <= i <= n,
            n == t@.len(),
            t@ == table@,
            v@ == "_staging_"@ + table@.subrange(0, i as int),
        decreases n - i,
    {
        v.push(t[i]);
        proof {
            assert(v@ =~= "_staging_"@ + table@.subrange(0, i + 1));
        }
        i = i + 1;
    }
    proof {
        assert(table@.subrange(0, n as int) =~= table@);
    }
    string_of_chars(v.as_slice())
}

/// The fixed columns every row starts with, followed by each dynamic
/// column, comma separated.
pub open spec fn spec_column_list(cols: Seq<String>) -> Seq<char>
    decreases cols.len(),
{
    if cols.len() == 0 {
        "id, departement, geometry, valid_from, geometry_hash"@
    } else {
        spec_column_list(cols.drop_last()) + ", "@ + cols.last()@
    }
}

/// Builds the copy column list.
pub fn column_list(cols: &Vec<String>) -> (r: String)
    ensures
        r@ == spec_column_list(cols@),
{
    proof {
        reveal_strlit("id, departement, geometry, valid_from, geometry_hash");
        reveal_strlit(", ");
    }
    let mut v = chars_of("id, departement, geometry, valid_from, geometry_hash");
    let n = cols.len();
    let mut i: usize = 0;
    while i < n
        invariant
            0 <= i <= n,
            n == cols@.len(),
            v@ == spec_column_list(cols@.subrange(0, i as int)),
        decreases n - i,
    {
        let sep = chars_of(", ");
        proof {
            reveal_strlit(", ");
        }
        let mut k: usize = 0;
        while k < 2
            invariant
                0 <= k <= 2,
                sep@ == ", "@,
                sep@.len() == 2,
                v@ == spec_column_list(cols@.subrange(0, i as int)) + sep@.subrange(0, k as int),
            decreases 2 - k,
        {
            v.push(sep[k]);
            proof {
                assert(v@ =~= spec_column_list(cols@.subrange(0, i as int)) + sep@.subrange(
                    0,
                    k + 1,
                ));
            }
            k = k + 1;
        }
        let c = chars_of(cols[i].as_str());
        let cn = c.len();
        let mut k2: usize = 0;
        while k2 < cn
            invariant
                0 <= k2 <= cn,
                cn == c@.len(),
                c@ == cols@[i as int]@,
                i < n == cols@.len(),
                v@ == spec_column_list(cols@.subrange(0, i as int)) + ", "@ + cols@[
                    i as int
                ]@.subrange(0, k2 as int),
            decreases cn - k2,
        {
            v.push(c[k2]);
            proof {
                assert(v@ =~= spec_column_list(cols@.subrange(0, i as int)) + ", "@ + cols@[
                    i as int
                ]@.subrange(0, k2 + 1));
            }
            k2 = k2 + 1;
        }
        proof {
            let t = cols@.subrange(0, i + 1);
            assert(t.drop_last() =~= cols@.subrange(0, i as int));
            assert(t.last() == cols@[i as int]);
            assert(cols@[i as int]@.subrange(0, cn as int) =~= cols@[i as int]@);
            assert(v@ =~= spec_column_list(t));
        }
        i = i + 1;
    }
    proof {
        assert(cols@.subrange(0, n as int) =~= cols@);
    }
    string_of_chars(v.as_slice())
}

/// One column as the store sees it: target name, store type, source
/// attribute.
#[derive(Debug, Clone)]
pub struct ColumnConfig {
    pub name: String,
    pub pg_type: String,
    pub source: String,
}

/// One table as the store sees it: name, geometry column type, SRID,
/// and the dynamic columns.
#[derive(Debug, Clone)]
pub struct TableConfig {
    pub name: String,
    pub geometry_type: String,
    pub srid: u32,
    pub columns: Vec<ColumnConfig>,
}

/// Describes a target table to the store: a generic geometry column
/// with the requested SRID, and each dynamic column with its store
/// type.
pub fn store_table_of(spec: &crate::row::TableSpec, srid: u32) -> (r: TableConfig)
    ensures
        r.name@ == spec.name@,
        r.geometry_type@ == "Geometry"@,
        r.srid == srid,
        r.columns@.len() == spec.columns@.len(),
        forall|i: int|
            0 <= i < r.columns@.len() ==> (#[trigger] r.columns@[i]).name@ == spec.columns@[
                i
            ].name@ && r.columns@[i].source@ == spec.columns@[i].source@ && r.columns@[i].pg_type@
                == crate::import_plan::spec_store_type(spec.columns@[i].data_type@),
{
    let mut columns: Vec<ColumnConfig> = Vec::new();
    let n = spec.columns.len();
    let mut i: usize = 0;
    while i < n
        invariant
            0 <= i <= n,
            n == spec.columns@.len(),
            columns@.len() == i,
            forall|j: int|
                0 <= j < i ==> (#[trigger] columns@[j]).name@ == spec.columns@[j].name@
                    && columns@[j].source@ == spec.columns@[j].source@ && columns@[j].pg_type@
                    == crate::import_plan::spec_store_type(spec.columns@[j].data_type@),
        decreases n - i,
    {
        let col = &spec.columns[i];
        let pg = crate::import_plan::pg_type_for(col.data_type.as_str());
        columns.push(
            ColumnConfig {
                name: col.name.clone(),
                pg_type: pg.to_owned(),
                source: col.source.clone(),
            },
        );
        i = i + 1;
    }
    TableConfig {
        name: spec.name.clone(),
        geometry_type: "Geometry".to_owned(),
        srid,
        columns,
    }
}

} // verus!
