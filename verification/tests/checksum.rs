use openlabels_core::checksum::{
    checksum_aba_routing, checksum_batch, checksum_credit_card, checksum_cusip, checksum_dea,
    checksum_fedex_tracking, checksum_iban, checksum_isin, checksum_npi, checksum_ssn,
    checksum_ups_tracking, checksum_usps_tracking, checksum_vin,
};

#[test]
fn test_checksum_ssn() {
    // Valid SSN
    let (valid, conf) = checksum_ssn("123-45-6789");
    assert!(valid);
    assert_eq!(conf, 99);

    // Invalid area code - still valid but lower confidence
    let (valid, conf) = checksum_ssn("000-12-3456");
    assert!(valid);
    assert_eq!(conf, 85);

    // Invalid group
    let (valid, conf) = checksum_ssn("123-00-6789");
    assert!(valid);
    assert_eq!(conf, 80);
}

#[test]
fn test_checksum_credit_card() {
    // Valid Visa with Luhn
    let (valid, conf) = checksum_credit_card("4532015112830366");
    assert!(valid);
    assert_eq!(conf, 99);

    // Valid Visa prefix but bad Luhn
    let (valid, conf) = checksum_credit_card("4532015112830367");
    assert!(valid);
    assert_eq!(conf, 87);

    // Not a valid prefix
    let (valid, _) = checksum_credit_card("1234567890123456");
    assert!(!valid);
}

#[test]
fn test_checksum_iban() {
    let (valid, conf) = checksum_iban("GB82 WEST 1234 5698 7654 32");
    assert!(valid);
    assert_eq!(conf, 99);

    let (valid, conf) = checksum_iban("DE89370400440532013000");
    assert!(valid);
    assert_eq!(conf, 99);
}

#[test]
fn test_checksum_cusip() {
    // Valid CUSIP: 037833100 (Apple Inc)
    let (valid, conf) = checksum_cusip("037833100");
    assert!(valid);
    assert_eq!(conf, 99);
}

#[test]
fn test_checksum_ssn_rejects_malformed() {
    assert_eq!(checksum_ssn("12a-45-6789"), (false, 0));
    assert_eq!(checksum_ssn("123456789012"), (false, 0));
    assert_eq!(checksum_ssn(""), (false, 0));
    assert_eq!(checksum_ssn("  123-45-6789  "), (true, 99)); // trimmed
}

#[test]
fn test_checksum_npi_prefixed_luhn() {
    assert_eq!(checksum_npi("1234567893"), (true, 99));
    assert_eq!(checksum_npi("1234567894"), (false, 0));
    assert_eq!(checksum_npi("3234567893"), (false, 0)); // first digit not 1/2
}

#[test]
fn test_checksum_dea_formula() {
    // (1+3+5) + 2*(2+4+6) = 33, check digit 3
    assert_eq!(checksum_dea("AB1234563"), (true, 99));
    assert_eq!(checksum_dea("AB1234564"), (false, 0));
    assert_eq!(checksum_dea("A51234563"), (false, 0)); // second char not a letter
}

#[test]
fn test_checksum_vin_check_digit() {
    assert_eq!(checksum_vin("1HGCM82633A004352"), (true, 99));
    assert_eq!(checksum_vin("1HGCM82634A004352"), (false, 0));
    assert_eq!(checksum_vin("1HGCM8263IA004352"), (false, 0)); // contains I
}

#[test]
fn test_checksum_aba_formula() {
    assert_eq!(checksum_aba_routing("021000021"), (true, 99));
    assert_eq!(checksum_aba_routing("021000022"), (false, 0));
    assert_eq!(checksum_aba_routing("991000021"), (false, 0)); // bad prefix
}

#[test]
fn test_checksum_ups_alternating_weights() {
    assert_eq!(checksum_ups_tracking("1Z0000000000000000"), (true, 99));
    assert_eq!(checksum_ups_tracking("1Z0000000000000001"), (false, 0));
    assert_eq!(checksum_ups_tracking("2Z0000000000000000"), (false, 0));
}

#[test]
fn test_checksum_fedex_lengths() {
    assert_eq!(checksum_fedex_tracking("000000000000"), (true, 99)); // 12 digits
    assert_eq!(checksum_fedex_tracking("000000000001"), (false, 0));
    assert_eq!(checksum_fedex_tracking("0000000000000"), (false, 0)); // 13 digits
}

#[test]
fn test_checksum_usps_formats() {
    assert_eq!(checksum_usps_tracking("00000000000000000000"), (true, 99)); // 20 digits
    assert_eq!(checksum_usps_tracking("00000000000000000001"), (false, 0));
    assert_eq!(checksum_usps_tracking("AA000000005AA"), (true, 99)); // international
    assert_eq!(checksum_usps_tracking("AA000000004AA"), (false, 0));
}

#[test]
fn test_checksum_isin_letter_expansion() {
    assert_eq!(checksum_isin("US0378331005"), (true, 99));
    assert_eq!(checksum_isin("US0378331006"), (false, 0));
}

#[test]
fn test_checksum_batch_order_and_unknown() {
    let values = vec![
        "GB82 WEST 1234 5698 7654 32".to_string(),
        "not-an-iban".to_string(),
        "DE89370400440532013000".to_string(),
    ];
    let results = checksum_batch("iban", &values);
    assert_eq!(results, vec![(true, 99), (false, 0), (true, 99)]);

    // Unknown validator names reject uniformly.
    let results = checksum_batch("no_such_validator", &values);
    assert_eq!(results, vec![(false, 0), (false, 0), (false, 0)]);
}
