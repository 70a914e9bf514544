use cadastre::archive::{collect_archive_files, derive_dep_from_archive, extract_departement,
    get_archive_basename};
use cadastre::errors::EdigeoError;

#[test]
fn test_get_archive_basename() {
    assert_eq!(
        get_archive_basename("edigeo-39001000AH01.tar.bz2"),
        "edigeo-39001000AH01"
    );
    assert_eq!(get_archive_basename("archive.bz2"), "archive");
    assert_eq!(get_archive_basename("file.tar"), "file");
    assert_eq!(get_archive_basename("noextension"), "noextension");
}

#[test]
fn test_extract_departement() {
    assert_eq!(
        extract_departement("EDIGEO-380910000C01.tar.bz2"),
        Some("38".to_string())
    );
    assert_eq!(
        extract_departement("EDIGEO-2A0010001A01.tar.bz2"),
        Some("2A".to_string())
    );
    assert_eq!(extract_departement("EDIGEO-01.tar.bz2"), Some("01".to_string()));
    assert_eq!(extract_departement("EDIGEO-2B.tar.bz2"), Some("2B".to_string()));
    assert_eq!(extract_departement("fichier-invalide.txt"), None);
}

#[test]
fn test_derive_dep_from_archive() {
    assert_eq!(
        derive_dep_from_archive("edigeo-380910000C01.tar.bz2"),
        Some("38".to_string())
    );
    assert_eq!(
        derive_dep_from_archive("edigeo-2A0010001A01.tar.bz2"),
        Some("2A".to_string())
    );
    assert_eq!(
        derive_dep_from_archive("edigeo-9740010000A.tar.bz2"),
        Some("974".to_string())
    );
    assert_eq!(derive_dep_from_archive("other-38.tar.bz2"), None);
}

#[test]
fn test_collect_archive_files_sorts_by_extension() {
    let entries = vec![
        ("sheet.THF".to_string(), b"thf".to_vec()),
        ("sheet.GEO".to_string(), b"geo".to_vec()),
        ("sheet.QAL".to_string(), b"qal".to_vec()),
        ("a.VEC".to_string(), b"one".to_vec()),
        ("b.vec".to_string(), b"two".to_vec()),
        ("notes.TXT".to_string(), b"skip".to_vec()),
    ];
    let archive = collect_archive_files(&entries).unwrap();
    assert_eq!(archive.thf, b"thf".to_vec());
    assert_eq!(archive.geo, b"geo".to_vec());
    assert_eq!(archive.qal, b"qal".to_vec());
    assert_eq!(archive.vec_files, vec![b"one".to_vec(), b"two".to_vec()]);
}

#[test]
fn test_collect_archive_files_missing_header() {
    let entries = vec![
        ("sheet.GEO".to_string(), b"geo".to_vec()),
        ("a.VEC".to_string(), b"one".to_vec()),
    ];
    match collect_archive_files(&entries) {
        Err(EdigeoError::MissingFile(f)) => assert_eq!(f, "THF"),
        _ => panic!("expected a missing-file error"),
    }
}

#[test]
fn test_collect_archive_files_missing_payload() {
    let entries = vec![
        ("sheet.THF".to_string(), b"thf".to_vec()),
        ("sheet.GEO".to_string(), b"geo".to_vec()),
    ];
    match collect_archive_files(&entries) {
        Err(EdigeoError::MissingFile(f)) => assert_eq!(f, "VEC"),
        _ => panic!("expected a missing-file error"),
    }
}
