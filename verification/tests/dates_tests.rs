use cadastre::dates::validate_date_format;

#[test]
fn test_validate_date_format_valid() {
    assert!(validate_date_format("2024-01").is_ok());
    assert!(validate_date_format("2024-04").is_ok());
    assert!(validate_date_format("2024-12").is_ok());
    assert!(validate_date_format("2025-07").is_ok());
}

#[test]
fn test_validate_date_format_invalid() {
    assert!(validate_date_format("2024").is_err());
    assert!(validate_date_format("2024-1").is_err());
    assert!(validate_date_format("2024-001").is_err());
    assert!(validate_date_format("24-01").is_err());
    assert!(validate_date_format("2024/01").is_err());
    assert!(validate_date_format("").is_err());
}

#[test]
fn test_validate_date_format_invalid_month() {
    assert!(validate_date_format("2024-00").is_err());
    assert!(validate_date_format("2024-13").is_err());
    assert!(validate_date_format("2024-99").is_err());
}

#[test]
fn test_validate_date_format_year_range() {
    assert!(validate_date_format("1899-01").is_err());
    assert!(validate_date_format("2101-01").is_err());
    assert!(validate_date_format("1900-01").is_ok());
    assert!(validate_date_format("2100-12").is_ok());
}

#[test]
fn test_validate_date_rejects_signed_digits() {
    assert!(validate_date_format("+024-01").is_err());
    assert!(validate_date_format("1900-+1").is_err());
}

#[test]
fn test_valid_from_of_appends_first_day() {
    assert_eq!(cadastre::dates::valid_from_of("2024-01"), "2024-01-01");
}
