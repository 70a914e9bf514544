use cadastre::reproject::{ReprojectorLite, SmartReprojector};

#[test]
fn test_unsupported_epsg() {
    assert!(ReprojectorLite::new(4326, 4326).is_err());
    assert!(ReprojectorLite::new(2154, 2154).is_err());
}

#[test]
fn test_identity() {
    let r = SmartReprojector::new(4326, 4326).unwrap();
    assert!(matches!(r, SmartReprojector::Identity));
}

#[test]
fn test_lite() {
    let r = SmartReprojector::new(2154, 4326).unwrap();
    assert!(matches!(r, SmartReprojector::Lite(_)));
}

#[test]
fn test_lambert93_to_3857() {
    let r = SmartReprojector::new(2154, 3857).unwrap();
    assert!(matches!(r, SmartReprojector::Lite(_)));
}

#[test]
fn supported_pairs_match_the_published_grid_list() {
    assert!(ReprojectorLite::is_supported(2154, 4326));
    assert!(ReprojectorLite::is_supported(32620, 3857));
    assert!(!ReprojectorLite::is_supported(2154, 2154));
    assert!(!ReprojectorLite::is_supported(9999, 4326));
}

#[test]
fn external_projection_engine_is_absent() {
    assert!(!cadastre::reproject::is_available());
}

#[test]
fn descriptions_name_the_plan() {
    let identity = SmartReprojector::new(4326, 4326).unwrap();
    assert_eq!(identity.description(), "identity (no reprojection)");
    let lite = SmartReprojector::new(2154, 4326).unwrap();
    assert_eq!(lite.description(), "built-in formulae (pure fixed-point plan)");
}
