use cadastre::escape::{escape_csv, escape_json};
use cadastre::transaction::ImportStatus as TxImportStatus;
use cadastre::versioning::{
    feature_type_to_table, hash_matches, EndedEntitiesReport, MarkingReport, TableEndedCount,
    TableMarkingResult, UpsertReport, UpsertResult,
};

#[test]
fn test_marking_report_total() {
    let report = MarkingReport {
        tables: vec![
            TableMarkingResult {
                table: "parcelles".to_string(),
                rows_marked: 100,
            },
            TableMarkingResult {
                table: "sections".to_string(),
                rows_marked: 50,
            },
        ],
    };

    assert_eq!(report.total_marked(), 150);
    assert!(report.has_marked_entities());
}

#[test]
fn test_empty_marking_report() {
    let report = MarkingReport::new();
    assert_eq!(report.total_marked(), 0);
    assert!(!report.has_marked_entities());
}

#[test]
fn test_ended_entities_report() {
    let report = EndedEntitiesReport {
        tables: vec![TableEndedCount {
            table: "parcelles".to_string(),
            count: 10,
        }],
    };
    assert_eq!(report.total_ended(), 10);
}

#[test]
fn test_upsert_result_equality() {
    assert_eq!(UpsertResult::Inserted, UpsertResult::Inserted);
    assert_ne!(UpsertResult::Inserted, UpsertResult::Updated);
}

#[test]
fn test_upsert_report() {
    let mut report = UpsertReport::new();
    report.record(UpsertResult::Inserted);
    report.record(UpsertResult::Inserted);
    report.record(UpsertResult::Updated);
    report.record(UpsertResult::Unchanged);
    report.record_error();

    assert_eq!(report.inserted, 2);
    assert_eq!(report.updated, 1);
    assert_eq!(report.unchanged, 1);
    assert_eq!(report.errors, 1);
    assert_eq!(report.total_processed(), 4);
}

#[test]
fn test_feature_type_to_table() {
    assert_eq!(feature_type_to_table("PARCELLE"), "parcelles");
    assert_eq!(feature_type_to_table("PARCELLE_1"), "parcelles");
    assert_eq!(feature_type_to_table("SECTION_A"), "sections");
    assert_eq!(feature_type_to_table("COMMUNE"), "communes");
    assert_eq!(feature_type_to_table("BATIMENT"), "batiments");
    assert_eq!(feature_type_to_table("BATI_DUR"), "batiments");
    assert_eq!(feature_type_to_table("LIEUDIT"), "lieux_dits");
    assert_eq!(feature_type_to_table("UNKNOWN"), "parcelles");
}

#[test]
fn test_hash_matches() {
    let hash: [u8; 32] = [1u8; 32];
    let stored = hash.to_vec();
    assert!(hash_matches(&stored, &hash));

    let different: [u8; 32] = [2u8; 32];
    assert!(!hash_matches(&stored, &different));
}

#[test]
fn test_import_status_equality() {
    assert_eq!(TxImportStatus::Success, TxImportStatus::Success);
    assert_eq!(TxImportStatus::RolledBack, TxImportStatus::RolledBack);
    assert_ne!(TxImportStatus::Success, TxImportStatus::RolledBack);
}

#[test]
fn test_escape_json() {
    assert_eq!(escape_json("hello"), "hello");
    assert_eq!(escape_json("hello\"world"), "hello\\\"world");
    assert_eq!(escape_json("line\nbreak"), "line\\nbreak");
}

#[test]
fn escape_json_control_characters() {
    assert_eq!(escape_json("a\u{1}b"), "a\\u0001b");
    assert_eq!(escape_json("t\tt"), "t\\tt");
}

#[test]
fn escape_csv_flattens_separators() {
    assert_eq!(escape_csv("a|b\nc\rd"), "a b c d");
    assert_eq!(escape_csv("plain"), "plain");
}

#[test]
fn test_import_report_debug() {
    let report = cadastre::transaction::ImportReport::committed(
        "2024-01-01".to_string(),
        100,
        vec!["error1".to_string()],
    );
    let debug_str = format!("{:?}", report);
    assert!(debug_str.contains("2024-01-01"));
    assert!(debug_str.contains("100"));
}

#[test]
fn rolled_back_report_keeps_only_the_reason() {
    let report = cadastre::transaction::ImportReport::rolled_back(
        "2024-01-01".to_string(),
        "sink failed".to_string(),
    );
    assert_eq!(report.entities_imported, 0);
    assert_eq!(report.errors, vec!["sink failed".to_string()]);
    assert_eq!(report.status, TxImportStatus::RolledBack);
}
