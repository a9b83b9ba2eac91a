use openlabels_core::validators::{
    ipv4_format, is_private_ip, luhn, phone_format, ssn_format, validate_iban, validate_ipv4,
    validate_luhn, validate_ssn, validate_cusip, validate_email, validate_isin, validate_npi,
    validate_phone,
};

#[test]
fn test_luhn() {
    assert!(validate_luhn("4532015112830366")); // Valid Visa
    assert!(!validate_luhn("4532015112830367")); // Invalid
}

#[test]
fn test_ssn() {
    assert!(validate_ssn("123-45-6789"));
    assert!(!validate_ssn("000-12-3456")); // Invalid area
    assert!(!validate_ssn("666-12-3456")); // Invalid area
}

#[test]
fn test_iban() {
    assert!(validate_iban("GB82 WEST 1234 5698 7654 32")); // UK
    assert!(validate_iban("DE89370400440532013000")); // Germany
}

#[test]
fn test_ipv4() {
    assert!(validate_ipv4("192.168.1.1"));
    assert!(!validate_ipv4("256.1.1.1"));
}

#[test]
fn test_luhn_valid() {
    // Valid test card numbers
    assert!(luhn("4111111111111111")); // Visa test
    assert!(luhn("5500000000000004")); // Mastercard test
    assert!(luhn("4111-1111-1111-1111")); // With dashes
}

#[test]
fn test_luhn_invalid() {
    assert!(!luhn("4111111111111112")); // Wrong check digit
    assert!(!luhn("1234567890")); // Too short
    assert!(!luhn("abcd")); // Not numbers
}

#[test]
fn test_ssn_valid() {
    assert!(ssn_format("123-45-6789"));
    assert!(ssn_format("123456789"));
}

#[test]
fn test_ssn_invalid() {
    assert!(!ssn_format("000-45-6789")); // Invalid area
    assert!(!ssn_format("666-45-6789")); // Invalid area
    assert!(!ssn_format("900-45-6789")); // Invalid area
    assert!(!ssn_format("123-00-6789")); // Invalid group
    assert!(!ssn_format("123-45-0000")); // Invalid serial
    assert!(!ssn_format("12345678")); // Too short
}

#[test]
fn test_phone_valid() {
    assert!(phone_format("212-555-1234"));
    assert!(phone_format("(212) 555-1234"));
    assert!(phone_format("2125551234"));
    assert!(phone_format("1-212-555-1234")); // With country code
}

#[test]
fn test_phone_invalid() {
    assert!(!phone_format("012-555-1234")); // Area starts with 0
    assert!(!phone_format("212-155-1234")); // Exchange starts with 1
    assert!(!phone_format("555-555-0100")); // Reserved 555-01xx
    assert!(!phone_format("12345")); // Too short
}

#[test]
fn test_ipv4_valid() {
    assert!(ipv4_format("192.168.1.1"));
    assert!(ipv4_format("10.0.0.1"));
    assert!(ipv4_format("255.255.255.255"));
    assert!(ipv4_format("0.0.0.0"));
}

#[test]
fn test_ipv4_invalid() {
    assert!(!ipv4_format("256.1.1.1")); // Octet > 255
    assert!(!ipv4_format("1.2.3")); // Missing octet
    assert!(!ipv4_format("1.2.3.4.5")); // Too many octets
    assert!(!ipv4_format("01.2.3.4")); // Leading zero
    assert!(!ipv4_format("abc.def.ghi.jkl")); // Not numbers
}

#[test]
fn test_private_ip() {
    assert!(is_private_ip("10.0.0.1"));
    assert!(is_private_ip("172.16.0.1"));
    assert!(is_private_ip("192.168.1.1"));
    assert!(is_private_ip("127.0.0.1"));
    assert!(!is_private_ip("8.8.8.8")); // Google DNS - public
    assert!(!is_private_ip("1.1.1.1")); // Cloudflare - public
}

#[test]
fn test_validate_phone_digit_count() {
    assert!(validate_phone("212-555-1234"));
    assert!(validate_phone("+44 20 7946 0958"));
    assert!(!validate_phone("12345"));
}

#[test]
fn test_validate_email_shape() {
    assert!(validate_email("test@example.com"));
    assert!(!validate_email("no-at-sign.example.com"));
    assert!(!validate_email("two@@example.com"));
    assert!(!validate_email("dot@.example"));
    assert!(!validate_email("dot@example."));
    assert!(!validate_email("nodot@examplecom"));
}

#[test]
fn test_validate_npi_luhn() {
    assert!(validate_npi("1234567893"));
    assert!(!validate_npi("1234567894"));
    assert!(!validate_npi("123456789")); // nine digits only
    assert!(!validate_npi("3234567899")); // first digit must be 1 or 2
}

#[test]
fn test_validate_cusip_check_digit() {
    assert!(validate_cusip("037833100")); // Apple
    assert!(!validate_cusip("037833101"));
    assert!(!validate_cusip("03783310"));
}

#[test]
fn test_validate_isin_check_digit() {
    assert!(validate_isin("US0378331005")); // Apple
    assert!(!validate_isin("US0378331006"));
    assert!(!validate_isin("990378331005")); // country code must be letters
}
