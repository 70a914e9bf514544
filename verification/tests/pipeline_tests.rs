use cadastre::archive::EdigeoArchive;
use cadastre::geom::{round_geometry_coords, Coord, Geometry};
use cadastre::import_plan::{archive_transition, ArchiveEvent, ArchiveState};
use cadastre::config::Config;
use cadastre::import_plan::{build_import_specs, normalize_feature_type, should_skip_archive};

fn sample_archive() -> EdigeoArchive {
    let thf = b"CSETCC:IRV\r\nTDASDP:20240101\r\n".to_vec();
    let geo = b"RELSACC:LAMB93\r\n".to_vec();
    let qal = Vec::new();
    let vec_payload = "RTYSA03:PNO\r\nRIDSA11:Node_1\r\nCORCC20:+881824.53;+6663821.17;\r\nRTYSA03:FEA\r\nRIDSA11:Obj_1\r\nSCPCP28:SeSD;ID;OBJ;PARCELLE_id\r\nATPCP20:a;b;c;IDU_id\r\nATVS:12345\r\nRTYSA03:LNK\r\nRIDSA11:Lnk_1\r\nSCPCP28:sid;gid;REL;rid\r\nFTPC:sid;gid;FEA;Obj_1\r\nFTPC:sid;gid;PNO;Node_1\r\n"
        .as_bytes()
        .to_vec();
    EdigeoArchive {
        thf,
        geo,
        qal,
        vec_files: vec![vec_payload],
    }
}

#[test]
fn test_parse_real_archive() {
    let archive = sample_archive();
    let result = cadastre::parse("edigeo-38001000AB01.tar.bz2", &archive);

    match result {
        Ok(parse_result) => {
            assert!(parse_result.year >= 2020, "Year should be recent");
            assert_eq!(parse_result.projection.epsg, 2154, "Should be Lambert 93");
            assert!(
                !parse_result.features.is_empty(),
                "Should have at least one feature type"
            );

            let has_parcelles = parse_result.features.contains_key("PARCELLE_id");
            let has_communes = parse_result.features.contains_key("COMMUNE_id");
            assert!(
                has_parcelles || has_communes,
                "Should have PARCELLE_id or COMMUNE_id features"
            );

            for (_, features) in parse_result.features.entries() {
                for feature in features {
                    assert!(!feature.id.is_empty(), "Feature should have an ID");
                }
            }

            assert_eq!(parse_result.departement, "38");
        }
        Err(e) => {
            panic!("Failed to parse archive: {:?}", e);
        }
    }
}

#[test]
fn unknown_projection_fails_the_archive() {
    let mut archive = sample_archive();
    archive.geo = b"RELSACC:UNKNOWN_PROJ\r\n".to_vec();
    assert!(cadastre::parse("edigeo-38.tar.bz2", &archive).is_err());
}

#[test]
fn presets_exist_and_unknown_names_are_refused() {
    assert!(Config::from_preset("full").is_ok());
    assert!(Config::from_preset("light").is_ok());
    assert!(Config::from_preset("bati").is_ok());
    assert!(Config::from_preset("everything").is_err());
}

#[test]
fn full_preset_knows_the_parcel_class() {
    let config = Config::from_preset("full").unwrap();
    let t = config.get_table_config("PARCELLE_id").unwrap();
    assert_eq!(t.table, "parcelles");
    assert!(t.hash_geom);
}

#[test]
fn import_specs_share_tables_and_register_stripped_names() {
    let config = Config::from_preset("full").unwrap();
    let (tables, lookup) = build_import_specs(&config).unwrap();
    assert!(tables.len() >= 4);
    let idx = *lookup.get("PARCELLE_ID").unwrap();
    assert_eq!(tables[idx].name, "parcelles");
    let stripped = *lookup.get("PARCELLE").unwrap();
    assert_eq!(stripped, idx);
}

#[test]
fn normalisation_trims_and_upper_cases() {
    assert_eq!(normalize_feature_type(" parcelle_id "), "PARCELLE_ID");
}

#[test]
fn incremental_skip_decision() {
    let recorded = "abc123".to_string();
    assert!(should_skip_archive(Some(&recorded), "abc123"));
    assert!(!should_skip_archive(Some(&recorded), "zzz"));
    assert!(!should_skip_archive(None, "abc123"));
    assert!(!should_skip_archive(Some(&recorded), ""));
}

#[test]
fn rerun_with_recorded_checksums_skips_every_archive() {
    let sums = vec!["a1".to_string(), "b2".to_string(), "c3".to_string()];
    let mut decoded_count = 0;
    for s in &sums {
        if should_skip_archive(Some(s), s) {
            continue;
        }
        decoded_count += 1;
    }
    assert_eq!(decoded_count, 0);
}

#[test]
fn staging_and_column_sql_text() {
    assert_eq!(cadastre::sql::staging_table_name("parcelles"), "_staging_parcelles");
    let cols = vec!["idu".to_string(), "tex".to_string()];
    assert_eq!(
        cadastre::sql::column_list(&cols),
        "id, departement, geometry, valid_from, geometry_hash, idu, tex"
    );
    let none: Vec<String> = Vec::new();
    assert_eq!(
        cadastre::sql::column_list(&none),
        "id, departement, geometry, valid_from, geometry_hash"
    );
}

#[test]
fn pg_type_mapping() {
    assert_eq!(cadastre::import_plan::pg_type_for("text"), "TEXT");
    assert_eq!(cadastre::import_plan::pg_type_for("Integer"), "INTEGER");
    assert_eq!(cadastre::import_plan::pg_type_for("double precision"), "DOUBLE PRECISION");
    assert_eq!(cadastre::import_plan::pg_type_for("mystery"), "TEXT");
}

#[test]
fn worker_state_machine_happy_path() {
    let s = ArchiveState::Discovered;
    let s = archive_transition(s, ArchiveEvent::ChecksumDone);
    assert_eq!(s, ArchiveState::Checksummed);
    let s = archive_transition(s, ArchiveEvent::ParseOk);
    assert_eq!(s, ArchiveState::Parsed);
    let s = archive_transition(s, ArchiveEvent::RowsFlushed);
    assert_eq!(s, ArchiveState::Emitted);
    let s = archive_transition(s, ArchiveEvent::ChecksumRecorded);
    assert_eq!(s, ArchiveState::Recorded);
}

#[test]
fn worker_state_machine_skip_path() {
    let s = archive_transition(ArchiveState::Checksummed, ArchiveEvent::KnownChecksum);
    assert_eq!(s, ArchiveState::SkippedKnown);
}

#[test]
fn geometry_rounding_to_two_decimals() {
    let g = Geometry::Point(Coord { x: 1_234_567_890, y: -1_235_000_000 });
    let r = round_geometry_coords(&g, 2);
    match r {
        Geometry::Point(c) => {
            assert_eq!(c.x, 1_230_000_000);
            assert_eq!(c.y, -1_240_000_000);
        }
        _ => panic!("expected a point"),
    }
}

#[test]
fn store_table_description_maps_types() {
    let config = Config::from_preset("full").unwrap();
    let (tables, lookup) = build_import_specs(&config).unwrap();
    let idx = *lookup.get("PARCELLE_ID").unwrap();
    let store = cadastre::sql::store_table_of(&tables[idx], 4326);
    assert_eq!(store.name, "parcelles");
    assert_eq!(store.geometry_type, "Geometry");
    assert_eq!(store.srid, 4326);
    let contenance = store.columns.iter().find(|c| c.name == "contenance").unwrap();
    assert_eq!(contenance.pg_type, "INTEGER");
}
