use cadastre::report::{ErrorLevel, ImportError, ImportReport, ImportStatus, TypeStats};

#[test]
fn test_import_report_default() {
    let report = ImportReport::default();
    assert_eq!(report.status, ImportStatus::Success);
    assert_eq!(report.archives_processed, 0);
    assert_eq!(report.entities_imported, 0);
}

#[test]
fn test_record_insert() {
    let mut report = ImportReport::new("2024-01");
    report.record_insert("PARCELLE");
    report.record_insert("PARCELLE");
    report.record_insert("SECTION");

    assert_eq!(report.entities_imported, 3);
    assert_eq!(report.by_type.get("PARCELLE").unwrap().inserted, 2);
    assert_eq!(report.by_type.get("SECTION").unwrap().inserted, 1);
}

#[test]
fn test_record_error() {
    let mut report = ImportReport::new("2024-01");
    report.record_error(ImportError {
        level: ErrorLevel::Error,
        archive: Some("test.tar.bz2".to_string()),
        entity_id: Some("ID123".to_string()),
        entity_type: Some("PARCELLE".to_string()),
        message: "Invalid geometry".to_string(),
        details: None,
    });

    assert_eq!(report.entities_skipped, 1);
    assert_eq!(report.errors.len(), 1);
    assert_eq!(report.by_type.get("PARCELLE").unwrap().errors, 1);
}

#[test]
fn test_finalize_success() {
    let mut report = ImportReport::new("2024-01");
    report.record_insert("PARCELLE");
    report.finalize();

    assert_eq!(report.status, ImportStatus::Success);
}

#[test]
fn test_finalize_partial_success() {
    let mut report = ImportReport::new("2024-01");
    report.record_insert("PARCELLE");
    report.record_error(ImportError {
        level: ErrorLevel::Error,
        archive: None,
        entity_id: None,
        entity_type: None,
        message: "Error".to_string(),
        details: None,
    });
    report.finalize();

    assert_eq!(report.status, ImportStatus::PartialSuccess);
}

#[test]
fn test_finalize_failed() {
    let mut report = ImportReport::new("2024-01");
    report.record_error(ImportError {
        level: ErrorLevel::Fatal,
        archive: None,
        entity_id: None,
        entity_type: None,
        message: "Fatal error".to_string(),
        details: None,
    });
    report.finalize();

    assert_eq!(report.status, ImportStatus::Failed);
}

#[test]
fn test_summary() {
    let mut report = ImportReport::new("2024-01");
    report.entities_imported = 100;
    report.entities_updated = 50;
    report.entities_unchanged = 25;

    let summary = report.summary();
    assert!(summary.contains("2024-01"));
    assert!(summary.contains("100 imported"));
}

#[test]
fn test_type_stats_total() {
    let stats = TypeStats {
        inserted: 10,
        updated: 5,
        unchanged: 3,
        errors: 2,
    };
    assert_eq!(stats.total(), 18);
}

#[test]
fn archive_failure_counts_and_records() {
    let mut report = ImportReport::new("2024-01");
    report.record_archive_success();
    report.record_archive_failure("bad.tar.bz2", "unreadable");
    assert_eq!(report.archives_processed, 2);
    assert_eq!(report.archives_failed, 1);
    assert_eq!(report.errors.len(), 1);
}
