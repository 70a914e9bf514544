use cadastre::errors::EdigeoError;
use cadastre::geom::Coord;
use cadastre::parser::vec_records::{extract_id, parse_coords, parse_reference};
use cadastre::parser::{geo, qal, thf};

#[test]
fn test_parse_lamb93() {
    let data = b"RELSACC:LAMB93\r\n";
    let result = geo::parse(data).unwrap();
    assert_eq!(result.epsg, 2154);
    assert_eq!(result.name, "LAMB93");
}

#[test]
fn test_parse_rgf93cc46() {
    let data = b"RELSACC:RGF93CC46\r\n";
    let result = geo::parse(data).unwrap();
    assert_eq!(result.epsg, 3946);
}

#[test]
fn test_parse_unknown_projection_returns_error() {
    let data = b"RELSACC:UNKNOWN_PROJ\r\n";
    let result = geo::parse(data);
    assert!(result.is_err());
    match result {
        Err(EdigeoError::UnknownProjection(msg)) => {
            assert!(msg.contains("UNKNOWN_PROJ"));
        }
        _ => panic!("Expected UnknownProjection error"),
    }
}

#[test]
fn test_parse_empty_geo_returns_error() {
    let data = b"Some random content without RELSA\r\n";
    let result = geo::parse(data);
    assert!(result.is_err());
}

#[test]
fn test_parse_qal() {
    let data = b"RTYSA03:QUP\r\nRIDSA:Objet_123\r\nODASA:20260115\r\nUDASA:20260120\r\n";
    let result = qal::parse(data).unwrap();

    assert!(result.contains_key("Objet_123"));
    let quality = result.get("Objet_123").unwrap();
    assert_eq!(quality.create_date.as_deref(), Some("20260115"));
    assert_eq!(quality.update_date.as_deref(), Some("20260120"));
}

#[test]
fn test_parse_encoding_iso8859_1() {
    let data = b"CSETCC:8859-1\r\n";
    let result = thf::parse_encoding(data).unwrap();
    assert_eq!(result.name(), "ISO-8859-15");
}

#[test]
fn test_parse_encoding_simple_format() {
    let data = b"CSET:8859-1\r\n";
    let result = thf::parse_encoding(data).unwrap();
    assert_eq!(result.name(), "ISO-8859-15");
}

#[test]
fn test_parse_encoding_irv() {
    let data = b"CSETCC:IRV\r\n";
    let result = thf::parse_encoding(data).unwrap();
    assert_eq!(result.name(), "ISO-8859-15");
}

#[test]
fn test_parse_encoding_8859_15_explicit() {
    let data = b"CSETCC:8859-15\r\n";
    let result = thf::parse_encoding(data).unwrap();
    assert_eq!(result.name(), "ISO-8859-15");
}

#[test]
fn test_parse_year() {
    let data = b"TDASDP:20260115\r\n";
    let result = thf::parse_year(data).unwrap();
    assert_eq!(result, 2026);
}

#[test]
fn test_parse_default_encoding_when_missing() {
    let data = b"OTHER:value\r\n";
    let result = thf::parse_encoding(data).unwrap();
    assert_eq!(result.name(), "ISO-8859-15");
}

#[test]
fn test_parse_reference() {
    let reference = parse_reference("EDAB01;SeSD;PGE;Noeud_123");
    assert_eq!(reference.sid, "EDAB01");
    assert_eq!(reference.gid, "SeSD");
    assert_eq!(reference.rty, "PGE");
    assert_eq!(reference.rid, "Noeud_123");
}

#[test]
fn test_parse_coords() {
    let coords = parse_coords("+881824.53;+6663821.17;");
    assert!(coords.is_some());
    let c = coords.unwrap();
    assert_eq!(c, Coord { x: 881_824_530_000_000, y: 6_663_821_170_000_000 });
}

#[test]
fn test_parse_coords_no_plus() {
    let coords = parse_coords("881824.53;6663821.17");
    assert!(coords.is_some());
    let c = coords.unwrap();
    assert_eq!(c, Coord { x: 881_824_530_000_000, y: 6_663_821_170_000_000 });
}

#[test]
fn test_extract_id() {
    let lines = vec![
        "PAR".to_string(),
        "RIDSA11:Arc_1625270".to_string(),
        "SCPCP28:...".to_string(),
    ];
    let id = extract_id(&lines);
    assert_eq!(id, "Arc_1625270");
}

#[test]
fn test_parse_edigeo_number_forms() {
    assert_eq!(
        cadastre::numbers::parse_edigeo_number("+1895."),
        Some(1_895_000_000_000)
    );
    assert_eq!(cadastre::numbers::parse_edigeo_number("01"), Some(1_000_000_000));
    assert_eq!(
        cadastre::numbers::parse_edigeo_number("+45.5"),
        Some(45_500_000_000)
    );
    assert_eq!(cadastre::numbers::parse_edigeo_number(""), None);
    assert_eq!(cadastre::numbers::parse_edigeo_number("abc"), None);
}
