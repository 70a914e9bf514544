//! Table configuration: which feature classes land in which tables,
//! with which columns.

use vstd::prelude::*;

use crate::str_map::StrMap;

verus! {

/// One field of a target table: source attribute, target column,
/// declared type, and whether the departement code prefixes the value.
#[derive(Debug, Clone)]
pub struct FieldMapping {
    pub source: String,
    pub target: String,
    pub data_type: String,
    pub prefix_dep: bool,
}

/// One feature class's target: table name, fields, and whether rows
/// carry a geometry content hash.
#[derive(Debug)]
pub struct TableConfig {
    pub table: String,
    pub fields: Vec<FieldMapping>,
    pub hash_geom: bool,
}

/// The whole configuration: feature class to table.
#[derive(Debug)]
pub struct Config {
    pub tables: StrMap<TableConfig>,
}

/// The named class maps to a table of the given name.
pub open spec fn preset_entry(m: Map<Seq<char>, TableConfig>, k: Seq<char>, t: Seq<char>) -> bool {
    m.contains_key(k) && m[k].table@ == t
}

/// What the `full` preset holds: every cadastral class.
pub open spec fn full_tables(m: Map<Seq<char>, TableConfig>) -> bool {
    &&& preset_entry(m, "PARCELLE_id"@, "parcelles"@)
    &&& preset_entry(m, "SECTION_id"@, "sections"@)
    &&& preset_entry(m, "COMMUNE_id"@, "communes"@)
    &&& preset_entry(m, "BATIMENT_id"@, "batiments"@)
    &&& preset_entry(m, "LIEUDIT_id"@, "lieux_dits"@)
    &&& preset_entry(m, "SUBDFISC_id"@, "subdivisions_fiscales"@)
}

/// What the `light` preset holds: the administrative classes, and no
/// buildings.
pub open spec fn light_tables(m: Map<Seq<char>, TableConfig>) -> bool {
    &&& preset_entry(m, "PARCELLE_id"@, "parcelles"@)
    &&& preset_entry(m, "SECTION_id"@, "sections"@)
    &&& preset_entry(m, "COMMUNE_id"@, "communes"@)
    &&& !m.contains_key("BATIMENT_id"@)
}

/// What the `bati` preset holds: buildings alone.
pub open spec fn bati_tables(m: Map<Seq<char>, TableConfig>) -> bool {
    &&& preset_entry(m, "BATIMENT_id"@, "batiments"@)
    &&& !m.contains_key("PARCELLE_id"@)
}

/// The default declared type of a field.
pub fn default_type() -> (r: String)
    ensures
        r@ == "text"@,
{
    "text".to_owned()
}

impl Config {
    /// The configuration of one feature class.
    pub fn get_table_config(&self, feature_type: &str) -> (r: Option<&TableConfig>)
        ensures
            match r {
                Some(t) => self.tables@.contains_key(feature_type@) && *t == self.tables@[
                    feature_type@
                ],
                None => !self.tables@.contains_key(feature_type@),
            },
    {
        self.tables.get(feature_type)
    }

    /// One of the three built-in presets: `full` covers every
    /// cadastral class, `light` the administrative ones, `bati` the
    /// buildings; any other name is refused.
    pub fn from_preset(preset: &str) -> (r: Result<Config, String>)
        ensures
            (r is Ok) == (preset@ == "full"@ || preset@ == "light"@ || preset@ == "bati"@),
            preset@ == "full"@ ==> (r matches Ok(c) && full_tables(c.tables@)),
            preset@ == "light"@ ==> (r matches Ok(c) && light_tables(c.tables@)),
            preset@ == "bati"@ ==> (r matches Ok(c) && bati_tables(c.tables@)),
    {
        proof {
            reveal_strlit("full");
            reveal_strlit("light");
            reveal_strlit("bati");
            assert("full"@.len() == 4 && "light"@.len() == 5 && "bati"@.len() == 4);
            assert("full"@[0] == 'f' && "bati"@[0] == 'b');
        }
        if crate::text::str_eq(preset, "full") {
            Ok(Self::preset_full())
        } else if crate::text::str_eq(preset, "light") {
            Ok(Self::preset_light())
        } else if crate::text::str_eq(preset, "bati") {
            Ok(Self::preset_bati())
        } else {
            Err("Unknown preset. Use: full, light, bati".to_owned())
        }
    }

    /// The full preset.
    fn preset_full() -> (r: Config)
        ensures
            full_tables(r.tables@),
    {
        let mut tables: StrMap<TableConfig> = StrMap::new();
        tables.insert("PARCELLE_id".to_owned(), parcel_table());
        tables.insert("SECTION_id".to_owned(), section_table());
        tables.insert("COMMUNE_id".to_owned(), commune_table());
        tables.insert("BATIMENT_id".to_owned(), building_table());
        tables.insert("LIEUDIT_id".to_owned(), lieu_dit_table());
        tables.insert("SUBDFISC_id".to_owned(), subdivision_table());
        proof {
            reveal_strlit("PARCELLE_id");
            reveal_strlit("SECTION_id");
            reveal_strlit("COMMUNE_id");
            reveal_strlit("BATIMENT_id");
            reveal_strlit("LIEUDIT_id");
            reveal_strlit("SUBDFISC_id");
            assert("PARCELLE_id"@[0] == 'P');
            assert("SECTION_id"@[0] == 'S');
            assert("COMMUNE_id"@[0] == 'C');
            assert("BATIMENT_id"@[0] == 'B');
            assert("LIEUDIT_id"@[0] == 'L');
            assert("SUBDFISC_id"@[0] == 'S');
            assert("SECTION_id"@[1] == 'E');
            assert("SUBDFISC_id"@[1] == 'U');
        }
        Config { tables }
    }

    /// The light preset: parcels, sections and communes only.
    fn preset_light() -> (r: Config)
        ensures
            light_tables(r.tables@),
    {
        let mut tables: StrMap<TableConfig> = StrMap::new();
        tables.insert("PARCELLE_id".to_owned(), parcel_table());
        tables.insert("SECTION_id".to_owned(), section_table());
        tables.insert("COMMUNE_id".to_owned(), commune_table());
        proof {
            reveal_strlit("PARCELLE_id");
            reveal_strlit("SECTION_id");
            reveal_strlit("COMMUNE_id");
            reveal_strlit("BATIMENT_id");
            reveal_strlit("LIEUDIT_id");
            reveal_strlit("SUBDFISC_id");
            assert("PARCELLE_id"@[0] == 'P');
            assert("SECTION_id"@[0] == 'S');
            assert("COMMUNE_id"@[0] == 'C');
            assert("BATIMENT_id"@[0] == 'B');
            assert("LIEUDIT_id"@[0] == 'L');
            assert("SUBDFISC_id"@[0] == 'S');
            assert("SECTION_id"@[1] == 'E');
            assert("SUBDFISC_id"@[1] == 'U');
        }
        Config { tables }
    }

    /// The building preset.
    fn preset_bati() -> (r: Config)
        ensures
            bati_tables(r.tables@),
    {
        let mut tables: StrMap<TableConfig> = StrMap::new();
        tables.insert("BATIMENT_id".to_owned(), building_table());
        proof {
            reveal_strlit("PARCELLE_id");
            reveal_strlit("SECTION_id");
            reveal_strlit("COMMUNE_id");
            reveal_strlit("BATIMENT_id");
            reveal_strlit("LIEUDIT_id");
            reveal_strlit("SUBDFISC_id");
            assert("PARCELLE_id"@[0] == 'P');
            assert("SECTION_id"@[0] == 'S');
            assert("COMMUNE_id"@[0] == 'C');
            assert("BATIMENT_id"@[0] == 'B');
            assert("LIEUDIT_id"@[0] == 'L');
            assert("SUBDFISC_id"@[0] == 'S');
            assert("SECTION_id"@[1] == 'E');
            assert("SUBDFISC_id"@[1] == 'U');
        }
        Config { tables }
    }
}

/// A text field.
fn field(source: &str, target: &str, prefix_dep: bool) -> FieldMapping {
    FieldMapping {
        source: source.to_owned(),
        target: target.to_owned(),
        data_type: default_type(),
        prefix_dep,
    }
}

/// The parcels table.
fn parcel_table() -> (r: TableConfig)
    ensures
        r.table@ == "parcelles"@,
{
    proof {
        reveal_strlit("parcelles");
    }
    let mut fields: Vec<FieldMapping> = Vec::new();
    fields.push(field("IDU", "idu", true));
    fields.push(field("TEX", "tex", false));
    fields.push(field("IDU_COMMUNE", "commune", true));
    fields.push(field("IDU_SECTION", "section", true));
    fields.push(
        FieldMapping {
            source: "SUPF".to_owned(),
            target: "contenance".to_owned(),
            data_type: "integer".to_owned(),
            prefix_dep: false,
        },
    );
    TableConfig { table: "parcelles".to_owned(), fields, hash_geom: true }
}

/// The sections table.
fn section_table() -> (r: TableConfig)
    ensures
        r.table@ == "sections"@,
{
    proof {
        reveal_strlit("sections");
    }
    let mut fields: Vec<FieldMapping> = Vec::new();
    fields.push(field("IDU", "idu", true));
    fields.push(field("TEX", "tex", false));
    fields.push(field("IDU_COMMUNE", "commune", true));
    TableConfig { table: "sections".to_owned(), fields, hash_geom: true }
}

/// The communes table.
fn commune_table() -> (r: TableConfig)
    ensures
        r.table@ == "communes"@,
{
    proof {
        reveal_strlit("communes");
    }
    let mut fields: Vec<FieldMapping> = Vec::new();
    fields.push(field("IDU", "idu", true));
    fields.push(field("TEX", "tex", false));
    TableConfig { table: "communes".to_owned(), fields, hash_geom: true }
}

/// The buildings table.
fn building_table() -> (r: TableConfig)
    ensures
        r.table@ == "batiments"@,
{
    proof {
        reveal_strlit("batiments");
    }
    let mut fields: Vec<FieldMapping> = Vec::new();
    fields.push(field("TEX", "tex", false));
    fields.push(
        FieldMapping {
            source: "DUR".to_owned(),
            target: "dur".to_owned(),
            data_type: "integer".to_owned(),
            prefix_dep: false,
        },
    );
    TableConfig { table: "batiments".to_owned(), fields, hash_geom: true }
}

/// The named-places table.
fn lieu_dit_table() -> (r: TableConfig)
    ensures
        r.table@ == "lieux_dits"@,
{
    proof {
        reveal_strlit("lieux_dits");
    }
    let mut fields: Vec<FieldMapping> = Vec::new();
    fields.push(field("TEX", "tex", false));
    TableConfig { table: "lieux_dits".to_owned(), fields, hash_geom: false }
}

/// The fiscal-subdivisions table.
fn subdivision_table() -> (r: TableConfig)
    ensures
        r.table@ == "subdivisions_fiscales"@,
{
    proof {
        reveal_strlit("subdivisions_fiscales");
    }
    let mut fields: Vec<FieldMapping> = Vec::new();
    fields.push(field("TEX", "tex", false));
    TableConfig { table: "subdivisions_fiscales".to_owned(), fields, hash_geom: false }
}

} // verus!
