use cadastre::geom::{Coord, Geometry, Polygon};
use cadastre::row::{write_copy_row, ColumnSpec, ComputedContext, TableSpec};
use cadastre::str_map::StrMap;
use cadastre::types::Feature;

fn c(x: i64, y: i64) -> Coord {
    Coord { x, y }
}

fn feature_with(attrs: Vec<(&str, &str)>, geometry: Geometry) -> Feature {
    let mut properties: StrMap<String> = StrMap::new();
    for (k, v) in attrs {
        properties.insert(k.to_string(), v.to_string());
    }
    Feature {
        id: "F1".to_string(),
        geometry,
        properties,
        feature_type: "PARCELLE_id".to_string(),
    }
}

fn plain_table(columns: Vec<ColumnSpec>, hash_geom: bool) -> TableSpec {
    TableSpec {
        name: "parcelles".to_string(),
        columns,
        hash_geom,
    }
}

fn computed() -> ComputedContext {
    ComputedContext {
        commune_id: "C100".to_string(),
        section_id: "S200".to_string(),
    }
}

#[test]
fn point_row_uses_exact_ewkt_and_prefixed_id() {
    let geometry = Geometry::Point(c(881_824_530_000_000, 6_663_821_170_000_000));
    let feature = feature_with(vec![], geometry.clone());
    let table = plain_table(vec![], false);
    let mut buf: Vec<u8> = Vec::new();
    write_copy_row(
        &mut buf,
        &feature,
        &geometry,
        "38",
        "2024-01-01",
        4326,
        &table,
        &computed(),
    )
    .unwrap();
    let row = String::from_utf8(buf).unwrap();
    assert_eq!(
        row,
        "\"38F1\"|\"38\"|\"SRID=4326;POINT(881824.53 6663821.17)\"|2024-01-01|\n"
    );
}

#[test]
fn invalid_geometry_is_refused_and_leaves_the_buffer_alone() {
    let geometry = Geometry::LineString(vec![c(1, 2)]);
    let feature = feature_with(vec![], geometry.clone());
    let table = plain_table(vec![], false);
    let mut buf: Vec<u8> = b"head".to_vec();
    let r = write_copy_row(
        &mut buf,
        &feature,
        &geometry,
        "38",
        "2024-01-01",
        4326,
        &table,
        &computed(),
    );
    assert!(r.is_err());
    assert_eq!(buf, b"head".to_vec());
}

#[test]
fn open_polygon_is_refused() {
    let geometry = Geometry::Polygon(Polygon {
        exterior: vec![c(0, 0), c(1, 0), c(1, 1), c(2, 2)],
        interiors: vec![],
    });
    let feature = feature_with(vec![], geometry.clone());
    let table = plain_table(vec![], false);
    let mut buf: Vec<u8> = Vec::new();
    assert!(write_copy_row(
        &mut buf,
        &feature,
        &geometry,
        "38",
        "2024-01-01",
        4326,
        &table,
        &computed(),
    )
    .is_err());
    assert!(buf.is_empty());
}

#[test]
fn numeric_columns_normalise_record_numbers() {
    let geometry = Geometry::Point(c(0, 0));
    let feature = feature_with(vec![("SUPF", "+1895."), ("HAUT", "01")], geometry.clone());
    let table = plain_table(
        vec![
            ColumnSpec {
                name: "contenance".to_string(),
                source: "SUPF".to_string(),
                data_type: "integer".to_string(),
                prefix_dep: false,
            },
            ColumnSpec {
                name: "hauteur".to_string(),
                source: "HAUT".to_string(),
                data_type: "double".to_string(),
                prefix_dep: false,
            },
            ColumnSpec {
                name: "tex".to_string(),
                source: "TEX".to_string(),
                data_type: "text".to_string(),
                prefix_dep: false,
            },
        ],
        false,
    );
    let mut buf: Vec<u8> = Vec::new();
    write_copy_row(
        &mut buf,
        &feature,
        &geometry,
        "38",
        "2024-01-01",
        4326,
        &table,
        &computed(),
    )
    .unwrap();
    let row = String::from_utf8(buf).unwrap();
    assert_eq!(
        row,
        "\"38F1\"|\"38\"|\"SRID=4326;POINT(0 0)\"|2024-01-01||1895|1|\"\"\n"
    );
}

#[test]
fn prefixed_and_computed_columns() {
    let geometry = Geometry::Point(c(0, 0));
    let feature = feature_with(vec![("IDU", "0001")], geometry.clone());
    let table = plain_table(
        vec![
            ColumnSpec {
                name: "idu".to_string(),
                source: "IDU".to_string(),
                data_type: "text".to_string(),
                prefix_dep: true,
            },
            ColumnSpec {
                name: "commune".to_string(),
                source: "IDU_COMMUNE".to_string(),
                data_type: "text".to_string(),
                prefix_dep: false,
            },
        ],
        false,
    );
    let mut buf: Vec<u8> = Vec::new();
    write_copy_row(
        &mut buf,
        &feature,
        &geometry,
        "38",
        "2024-01-01",
        4326,
        &table,
        &computed(),
    )
    .unwrap();
    let row = String::from_utf8(buf).unwrap();
    assert_eq!(
        row,
        "\"38F1\"|\"38\"|\"SRID=4326;POINT(0 0)\"|2024-01-01||\"380001\"|\"C100\"\n"
    );
}

#[test]
fn hashed_table_gets_a_hex_digest_column() {
    let geometry = Geometry::Point(c(1_000_000_000, 2_000_000_000));
    let feature = feature_with(vec![], geometry.clone());
    let table = plain_table(vec![], true);
    let mut buf: Vec<u8> = Vec::new();
    write_copy_row(
        &mut buf,
        &feature,
        &geometry,
        "38",
        "2024-01-01",
        4326,
        &table,
        &computed(),
    )
    .unwrap();
    let row = String::from_utf8(buf).unwrap();
    let hash = cadastre::hash::geometry_hash(&geometry);
    let hex = cadastre::hash::hash_to_hex(&hash);
    assert_eq!(
        row,
        format!("\"38F1\"|\"38\"|\"SRID=4326;POINT(1 2)\"|2024-01-01|\\x{}\n", hex)
    );
}

#[test]
fn quotes_in_text_fields_are_doubled() {
    let geometry = Geometry::Point(c(0, 0));
    let mut feature = feature_with(vec![], geometry.clone());
    feature.id = "A\"B".to_string();
    let table = plain_table(vec![], false);
    let mut buf: Vec<u8> = Vec::new();
    write_copy_row(
        &mut buf,
        &feature,
        &geometry,
        "38",
        "2024-01-01",
        4326,
        &table,
        &computed(),
    )
    .unwrap();
    let row = String::from_utf8(buf).unwrap();
    assert!(row.starts_with("\"38A\"\"B\"|"));
}
