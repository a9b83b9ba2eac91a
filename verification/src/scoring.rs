//! Risk scoring engine.
//!
//! Aggregates deduplicated entity counts into a bounded risk score and
//! tier. All arithmetic is fixed-point: confidences are hundredths,
//! multipliers tenths, and intermediate scores thousandths of a point
//! ("milli-points"), so that the whole computation is exact integer
//! arithmetic.
//!
//! For each entity type, `weight x 4 x (1000 + ln_milli(count)) x
//! confidence / 100` milli-points are accumulated; the logarithmic term
//! gives diminishing weight to repeated occurrences of one type. A
//! co-occurrence rule table escalates combinations of categories, the
//! exposure classification scales the result, and the final score is
//! capped at 100 points.

use rayon::iter::{IntoParallelRefIterator, ParallelIterator};
use vstd::prelude::*;
use vstd::slice::slice_to_vec;
use vstd::string::StringSliceAdditionalSpecFns;
use vstd::utf8::encode_utf8;
use crate::textops::{bytes_eq, bytes_eqi, eqi, upper_byte};

verus! {

/// Discrete risk bucket of a final score.
#[derive(Clone, Copy, PartialEq, Eq, Structural, Debug)]
pub enum Tier {
    Critical,
    High,
    Medium,
    Low,
    Minimal,
}

/// The label of a tier.
pub open spec fn spec_tier_label(t: Tier) -> Seq<char> {
    match t {
        Tier::Critical => "CRITICAL"@,
        Tier::High => "HIGH"@,
        Tier::Medium => "MEDIUM"@,
        Tier::Low => "LOW"@,
        Tier::Minimal => "MINIMAL"@,
    }
}

impl Tier {
    /// The tier's conventional label.
    pub fn label(&self) -> (r: &'static str)
        ensures
            r@ == spec_tier_label(*self),
    {
        match self {
            Tier::Critical => "CRITICAL",
            Tier::High => "HIGH",
            Tier::Medium => "MEDIUM",
            Tier::Low => "LOW",
            Tier::Minimal => "MINIMAL",
        }
    }
}

/// Category of an entity type, for co-occurrence rules.
#[derive(Clone, Copy, PartialEq, Eq, Structural, Debug)]
pub enum Category {
    DirectIdentifier,
    HealthInfo,
    Financial,
    Contact,
    Credential,
    QuasiIdentifier,
    ClassificationMarking,
    Unknown,
}

/// The label of a category.
pub open spec fn spec_category_label(c: Category) -> Seq<char> {
    match c {
        Category::DirectIdentifier => "direct_identifier"@,
        Category::HealthInfo => "health_info"@,
        Category::Financial => "financial"@,
        Category::Contact => "contact"@,
        Category::Credential => "credential"@,
        Category::QuasiIdentifier => "quasi_identifier"@,
        Category::ClassificationMarking => "classification_marking"@,
        Category::Unknown => "unknown"@,
    }
}

impl Category {
    /// The category's conventional label.
    pub fn label(&self) -> (r: &'static str)
        ensures
            r@ == spec_category_label(*self),
    {
        match self {
            Category::DirectIdentifier => "direct_identifier",
            Category::HealthInfo => "health_info",
            Category::Financial => "financial",
            Category::Contact => "contact",
            Category::Credential => "credential",
            Category::QuasiIdentifier => "quasi_identifier",
            Category::ClassificationMarking => "classification_marking",
            Category::Unknown => "unknown",
        }
    }
}

/// A co-occurrence rule that fired.
#[derive(Clone, Copy, PartialEq, Eq, Structural, Debug)]
pub enum RuleKind {
    HipaaPhi,
    IdentityTheft,
    CredentialExposure,
    PhiWithoutId,
    PhiWithContact,
    FullIdentity,
    ClassifiedData,
}

/// The label of a co-occurrence rule.
pub open spec fn spec_rule_label(k: RuleKind) -> Seq<char> {
    match k {
        RuleKind::HipaaPhi => "hipaa_phi"@,
        RuleKind::IdentityTheft => "identity_theft"@,
        RuleKind::CredentialExposure => "credential_exposure"@,
        RuleKind::PhiWithoutId => "phi_without_id"@,
        RuleKind::PhiWithContact => "phi_with_contact"@,
        RuleKind::FullIdentity => "full_identity"@,
        RuleKind::ClassifiedData => "classified_data"@,
    }
}

impl RuleKind {
    /// The rule's conventional name.
    pub fn label(&self) -> (r: &'static str)
        ensures
            r@ == spec_rule_label(*self),
    {
        match self {
            RuleKind::HipaaPhi => "hipaa_phi",
            RuleKind::IdentityTheft => "identity_theft",
            RuleKind::CredentialExposure => "credential_exposure",
            RuleKind::PhiWithoutId => "phi_without_id",
            RuleKind::PhiWithContact => "phi_with_contact",
            RuleKind::FullIdentity => "full_identity",
            RuleKind::ClassifiedData => "classified_data",
        }
    }
}

/// Upper-case folding of a byte sequence.
pub open spec fn upper_seq(s: Seq<u8>) -> Seq<u8> {
    s.map_values(|b: u8| upper_byte(b))
}

/// Upper-case the bytes of `s`.
pub fn upper_bytes(s: &[u8]) -> (r: Vec<u8>)
    ensures
        r@ == upper_seq(s@),
{
    let mut r: Vec<u8> = Vec::new();
    let n = s.len();
    for i in 0..n
        invariant
            n == s@.len(),
            r@ == upper_seq(s@.take(i as int)),
    {
        let b = s[i];
        if 97 <= b && b <= 122 {
            r.push(b - 32);
        } else {
            r.push(b);
        }
        proof {
            assert(r@ =~= upper_seq(s@.take(i + 1)));
        }
    }
    proof {
        assert(s@.take(n as int) =~= s@);
    }
    r
}
/// The canonical form of an entity type: upper-cased and passed
/// through the alias table.
#[verifier::opaque]
pub open spec fn norm_entity(t: Seq<u8>) -> Seq<u8> {
    if eqi(t, "US_SSN".spec_bytes()) {
        "SSN".spec_bytes()
    } else if eqi(t, "SOCIAL_SECURITY".spec_bytes()) {
        "SSN".spec_bytes()
    } else if eqi(t, "SOCIALSECURITYNUMBER".spec_bytes()) {
        "SSN".spec_bytes()
    } else if eqi(t, "PER".spec_bytes()) {
        "NAME".spec_bytes()
    } else if eqi(t, "PERSON".spec_bytes()) {
        "NAME".spec_bytes()
    } else if eqi(t, "PATIENT".spec_bytes()) {
        "NAME_PATIENT".spec_bytes()
    } else if eqi(t, "DOCTOR".spec_bytes()) {
        "NAME_PROVIDER".spec_bytes()
    } else if eqi(t, "PHYSICIAN".spec_bytes()) {
        "NAME_PROVIDER".spec_bytes()
    } else if eqi(t, "HCW".spec_bytes()) {
        "NAME_PROVIDER".spec_bytes()
    } else if eqi(t, "DOB".spec_bytes()) {
        "DATE_DOB".spec_bytes()
    } else if eqi(t, "BIRTHDAY".spec_bytes()) {
        "DATE_DOB".spec_bytes()
    } else if eqi(t, "DATEOFBIRTH".spec_bytes()) {
        "DATE_DOB".spec_bytes()
    } else if eqi(t, "DATE_OF_BIRTH".spec_bytes()) {
        "DATE_DOB".spec_bytes()
    } else if eqi(t, "BIRTH_DATE".spec_bytes()) {
        "DATE_DOB".spec_bytes()
    } else if eqi(t, "BIRTHDATE".spec_bytes()) {
        "DATE_DOB".spec_bytes()
    } else if eqi(t, "CC".spec_bytes()) {
        "CREDIT_CARD".spec_bytes()
    } else if eqi(t, "CREDITCARD".spec_bytes()) {
        "CREDIT_CARD".spec_bytes()
    } else if eqi(t, "CREDITCARDNUMBER".spec_bytes()) {
        "CREDIT_CARD".spec_bytes()
    } else if eqi(t, "CREDIT_CARD_NUMBER".spec_bytes()) {
        "CREDIT_CARD".spec_bytes()
    } else if eqi(t, "TELEPHONE".spec_bytes()) {
        "PHONE".spec_bytes()
    } else if eqi(t, "TEL".spec_bytes()) {
        "PHONE".spec_bytes()
    } else if eqi(t, "MOBILE".spec_bytes()) {
        "PHONE".spec_bytes()
    } else if eqi(t, "CELL".spec_bytes()) {
        "PHONE".spec_bytes()
    } else if eqi(t, "PHONENUMBER".spec_bytes()) {
        "PHONE".spec_bytes()
    } else if eqi(t, "PHONE_NUMBER".spec_bytes()) {
        "PHONE".spec_bytes()
    } else if eqi(t, "US_PHONE_NUMBER".spec_bytes()) {
        "PHONE".spec_bytes()
    } else if eqi(t, "EMAILADDRESS".spec_bytes()) {
        "EMAIL".spec_bytes()
    } else if eqi(t, "EMAIL_ADDRESS".spec_bytes()) {
        "EMAIL".spec_bytes()
    } else if eqi(t, "STREET_ADDRESS".spec_bytes()) {
        "ADDRESS".spec_bytes()
    } else if eqi(t, "STREET".spec_bytes()) {
        "ADDRESS".spec_bytes()
    } else if eqi(t, "IP".spec_bytes()) {
        "IP_ADDRESS".spec_bytes()
    } else if eqi(t, "IPADDRESS".spec_bytes()) {
        "IP_ADDRESS".spec_bytes()
    } else if eqi(t, "IPV4".spec_bytes()) {
        "IP_ADDRESS".spec_bytes()
    } else if eqi(t, "IPV6".spec_bytes()) {
        "IP_ADDRESS".spec_bytes()
    } else if eqi(t, "MEDICAL_RECORD".spec_bytes()) {
        "MRN".spec_bytes()
    } else if eqi(t, "MEDICALRECORD".spec_bytes()) {
        "MRN".spec_bytes()
    } else if eqi(t, "LICENSE".spec_bytes()) {
        "DRIVER_LICENSE".spec_bytes()
    } else if eqi(t, "US_DRIVER_LICENSE".spec_bytes()) {
        "DRIVER_LICENSE".spec_bytes()
    } else if eqi(t, "DRIVERSLICENSE".spec_bytes()) {
        "DRIVER_LICENSE".spec_bytes()
    } else if eqi(t, "US_PASSPORT".spec_bytes()) {
        "PASSPORT".spec_bytes()
    } else if eqi(t, "PASSPORT_NUMBER".spec_bytes()) {
        "PASSPORT".spec_bytes()
    } else if eqi(t, "ZIPCODE".spec_bytes()) {
        "ZIP".spec_bytes()
    } else if eqi(t, "ZIP_CODE".spec_bytes()) {
        "ZIP".spec_bytes()
    } else if eqi(t, "POSTCODE".spec_bytes()) {
        "ZIP".spec_bytes()
    } else if eqi(t, "LOCATION_ZIP".spec_bytes()) {
        "ZIP".spec_bytes()
    } else {
        upper_seq(t)
    }
}

/// Canonicalise an entity type label.
pub fn normalize_entity(entity_type: &str) -> (r: Vec<u8>)
    ensures
        r@ == norm_entity(entity_type.spec_bytes()),
{
    proof {
        reveal(norm_entity);
    }
    let t = entity_type.as_bytes();
    if bytes_eqi(t, "US_SSN".as_bytes()) {
        slice_to_vec("SSN".as_bytes())
    } else if bytes_eqi(t, "SOCIAL_SECURITY".as_bytes()) {
        slice_to_vec("SSN".as_bytes())
    } else if bytes_eqi(t, "SOCIALSECURITYNUMBER".as_bytes()) {
        slice_to_vec("SSN".as_bytes())
    } else if bytes_eqi(t, "PER".as_bytes()) {
        slice_to_vec("NAME".as_bytes())
    } else if bytes_eqi(t, "PERSON".as_bytes()) {
        slice_to_vec("NAME".as_bytes())
    } else if bytes_eqi(t, "PATIENT".as_bytes()) {
        slice_to_vec("NAME_PATIENT".as_bytes())
    } else if bytes_eqi(t, "DOCTOR".as_bytes()) {
        slice_to_vec("NAME_PROVIDER".as_bytes())
    } else if bytes_eqi(t, "PHYSICIAN".as_bytes()) {
        slice_to_vec("NAME_PROVIDER".as_bytes())
    } else if bytes_eqi(t, "HCW".as_bytes()) {
        slice_to_vec("NAME_PROVIDER".as_bytes())
    } else if bytes_eqi(t, "DOB".as_bytes()) {
        slice_to_vec("DATE_DOB".as_bytes())
    } else if bytes_eqi(t, "BIRTHDAY".as_bytes()) {
        slice_to_vec("DATE_DOB".as_bytes())
    } else if bytes_eqi(t, "DATEOFBIRTH".as_bytes()) {
        slice_to_vec("DATE_DOB".as_bytes())
    } else if bytes_eqi(t, "DATE_OF_BIRTH".as_bytes()) {
        slice_to_vec("DATE_DOB".as_bytes())
    } else if bytes_eqi(t, "BIRTH_DATE".as_bytes()) {
        slice_to_vec("DATE_DOB".as_bytes())
    } else if bytes_eqi(t, "BIRTHDATE".as_bytes()) {
        slice_to_vec("DATE_DOB".as_bytes())
    } else if bytes_eqi(t, "CC".as_bytes()) {
        slice_to_vec("CREDIT_CARD".as_bytes())
    } else if bytes_eqi(t, "CREDITCARD".as_bytes()) {
        slice_to_vec("CREDIT_CARD".as_bytes())
    } else if bytes_eqi(t, "CREDITCARDNUMBER".as_bytes()) {
        slice_to_vec("CREDIT_CARD".as_bytes())
    } else if bytes_eqi(t, "CREDIT_CARD_NUMBER".as_bytes()) {
        slice_to_vec("CREDIT_CARD".as_bytes())
    } else if bytes_eqi(t, "TELEPHONE".as_bytes()) {
        slice_to_vec("PHONE".as_bytes())
    } else if bytes_eqi(t, "TEL".as_bytes()) {
        slice_to_vec("PHONE".as_bytes())
    } else if bytes_eqi(t, "MOBILE".as_bytes()) {
        slice_to_vec("PHONE".as_bytes())
    } else if bytes_eqi(t, "CELL".as_bytes()) {
        slice_to_vec("PHONE".as_bytes())
    } else if bytes_eqi(t, "PHONENUMBER".as_bytes()) {
        slice_to_vec("PHONE".as_bytes())
    } else if bytes_eqi(t, "PHONE_NUMBER".as_bytes()) {
        slice_to_vec("PHONE".as_bytes())
    } else if bytes_eqi(t, "US_PHONE_NUMBER".as_bytes()) {
        slice_to_vec("PHONE".as_bytes())
    } else if bytes_eqi(t, "EMAILADDRESS".as_bytes()) {
        slice_to_vec("EMAIL".as_bytes())
    } else if bytes_eqi(t, "EMAIL_ADDRESS".as_bytes()) {
        slice_to_vec("EMAIL".as_bytes())
    } else if bytes_eqi(t, "STREET_ADDRESS".as_bytes()) {
        slice_to_vec("ADDRESS".as_bytes())
    } else if bytes_eqi(t, "STREET".as_bytes()) {
        slice_to_vec("ADDRESS".as_bytes())
    } else if bytes_eqi(t, "IP".as_bytes()) {
        slice_to_vec("IP_ADDRESS".as_bytes())
    } else if bytes_eqi(t, "IPADDRESS".as_bytes()) {
        slice_to_vec("IP_ADDRESS".as_bytes())
    } else if bytes_eqi(t, "IPV4".as_bytes()) {
        slice_to_vec("IP_ADDRESS".as_bytes())
    } else if bytes_eqi(t, "IPV6".as_bytes()) {
        slice_to_vec("IP_ADDRESS".as_bytes())
    } else if bytes_eqi(t, "MEDICAL_RECORD".as_bytes()) {
        slice_to_vec("MRN".as_bytes())
    } else if bytes_eqi(t, "MEDICALRECORD".as_bytes()) {
        slice_to_vec("MRN".as_bytes())
    } else if bytes_eqi(t, "LICENSE".as_bytes()) {
        slice_to_vec("DRIVER_LICENSE".as_bytes())
    } else if bytes_eqi(t, "US_DRIVER_LICENSE".as_bytes()) {
        slice_to_vec("DRIVER_LICENSE".as_bytes())
    } else if bytes_eqi(t, "DRIVERSLICENSE".as_bytes()) {
        slice_to_vec("DRIVER_LICENSE".as_bytes())
    } else if bytes_eqi(t, "US_PASSPORT".as_bytes()) {
        slice_to_vec("PASSPORT".as_bytes())
    } else if bytes_eqi(t, "PASSPORT_NUMBER".as_bytes()) {
        slice_to_vec("PASSPORT".as_bytes())
    } else if bytes_eqi(t, "ZIPCODE".as_bytes()) {
        slice_to_vec("ZIP".as_bytes())
    } else if bytes_eqi(t, "ZIP_CODE".as_bytes()) {
        slice_to_vec("ZIP".as_bytes())
    } else if bytes_eqi(t, "POSTCODE".as_bytes()) {
        slice_to_vec("ZIP".as_bytes())
    } else if bytes_eqi(t, "LOCATION_ZIP".as_bytes()) {
        slice_to_vec("ZIP".as_bytes())
    } else {
        upper_bytes(t)
    }
}

/// The risk weight of a canonical entity type; unknown types weigh 5.
#[verifier::opaque]
pub open spec fn spec_weight(nm: Seq<u8>) -> u32 {
    if nm == "SSN".spec_bytes() || nm == "PASSPORT".spec_bytes() || nm == "CREDIT_CARD".spec_bytes() || nm == "PASSWORD".spec_bytes() || nm == "API_KEY".spec_bytes() || nm == "PRIVATE_KEY".spec_bytes() || nm == "AWS_ACCESS_KEY".spec_bytes() || nm == "AWS_SECRET_KEY".spec_bytes() || nm == "DATABASE_URL".spec_bytes() || nm == "GITHUB_TOKEN".spec_bytes() || nm == "GITLAB_TOKEN".spec_bytes() || nm == "SLACK_TOKEN".spec_bytes() || nm == "STRIPE_KEY".spec_bytes() || nm == "CRYPTO_SEED_PHRASE".spec_bytes() {
        10
    } else if nm == "MRN".spec_bytes() || nm == "DIAGNOSIS".spec_bytes() || nm == "HEALTH_PLAN_ID".spec_bytes() || nm == "JWT".spec_bytes() {
        9
    } else if nm == "DRIVER_LICENSE".spec_bytes() || nm == "NPI".spec_bytes() || nm == "DEA".spec_bytes() || nm == "TAX_ID".spec_bytes() || nm == "MILITARY_ID".spec_bytes() {
        8
    } else if nm == "BITCOIN_ADDRESS".spec_bytes() || nm == "ETHEREUM_ADDRESS".spec_bytes() || nm == "IBAN".spec_bytes() || nm == "SWIFT_BIC".spec_bytes() {
        7
    } else if nm == "PHONE".spec_bytes() || nm == "EMAIL".spec_bytes() || nm == "SENDGRID_KEY".spec_bytes() || nm == "TWILIO_KEY".spec_bytes() {
        6
    } else if nm == "NAME".spec_bytes() || nm == "ADDRESS".spec_bytes() || nm == "IP_ADDRESS".spec_bytes() || nm == "MAC_ADDRESS".spec_bytes() || nm == "VIN".spec_bytes() || nm == "CUSIP".spec_bytes() || nm == "ISIN".spec_bytes() || nm == "LEI".spec_bytes() || nm == "DATE_DOB".spec_bytes() {
        5
    } else if nm == "AGE".spec_bytes() || nm == "CLASSIFICATION_LEVEL".spec_bytes() || nm == "DOD_CONTRACT".spec_bytes() || nm == "GSA_CONTRACT".spec_bytes() || nm == "CAGE_CODE".spec_bytes() || nm == "UEI".spec_bytes() {
        4
    } else if nm == "DATE".spec_bytes() || nm == "ZIP".spec_bytes() {
        3
    } else if nm == "CITY".spec_bytes() || nm == "STATE".spec_bytes() || nm == "COUNTRY".spec_bytes() || nm == "TRACKING_NUMBER".spec_bytes() {
        2
    } else if nm == "FACILITY".spec_bytes() || nm == "ORGANIZATION".spec_bytes() {
        1
    } else {
        5
    }
}

/// Look up the risk weight of a canonical entity type.
pub fn get_weight(nm: &[u8]) -> (r: u32)
    ensures
        r == spec_weight(nm@),
{
    proof {
        reveal(spec_weight);
    }
    if bytes_eq(nm, "SSN".as_bytes()) || bytes_eq(nm, "PASSPORT".as_bytes()) || bytes_eq(nm, "CREDIT_CARD".as_bytes()) || bytes_eq(nm, "PASSWORD".as_bytes()) || bytes_eq(nm, "API_KEY".as_bytes()) || bytes_eq(nm, "PRIVATE_KEY".as_bytes()) || bytes_eq(nm, "AWS_ACCESS_KEY".as_bytes()) || bytes_eq(nm, "AWS_SECRET_KEY".as_bytes()) || bytes_eq(nm, "DATABASE_URL".as_bytes()) || bytes_eq(nm, "GITHUB_TOKEN".as_bytes()) || bytes_eq(nm, "GITLAB_TOKEN".as_bytes()) || bytes_eq(nm, "SLACK_TOKEN".as_bytes()) || bytes_eq(nm, "STRIPE_KEY".as_bytes()) || bytes_eq(nm, "CRYPTO_SEED_PHRASE".as_bytes()) {
        10
    } else if bytes_eq(nm, "MRN".as_bytes()) || bytes_eq(nm, "DIAGNOSIS".as_bytes()) || bytes_eq(nm, "HEALTH_PLAN_ID".as_bytes()) || bytes_eq(nm, "JWT".as_bytes()) {
        9
    } else if bytes_eq(nm, "DRIVER_LICENSE".as_bytes()) || bytes_eq(nm, "NPI".as_bytes()) || bytes_eq(nm, "DEA".as_bytes()) || bytes_eq(nm, "TAX_ID".as_bytes()) || bytes_eq(nm, "MILITARY_ID".as_bytes()) {
        8
    } else if bytes_eq(nm, "BITCOIN_ADDRESS".as_bytes()) || bytes_eq(nm, "ETHEREUM_ADDRESS".as_bytes()) || bytes_eq(nm, "IBAN".as_bytes()) || bytes_eq(nm, "SWIFT_BIC".as_bytes()) {
        7
    } else if bytes_eq(nm, "PHONE".as_bytes()) || bytes_eq(nm, "EMAIL".as_bytes()) || bytes_eq(nm, "SENDGRID_KEY".as_bytes()) || bytes_eq(nm, "TWILIO_KEY".as_bytes()) {
        6
    } else if bytes_eq(nm, "NAME".as_bytes()) || bytes_eq(nm, "ADDRESS".as_bytes()) || bytes_eq(nm, "IP_ADDRESS".as_bytes()) || bytes_eq(nm, "MAC_ADDRESS".as_bytes()) || bytes_eq(nm, "VIN".as_bytes()) || bytes_eq(nm, "CUSIP".as_bytes()) || bytes_eq(nm, "ISIN".as_bytes()) || bytes_eq(nm, "LEI".as_bytes()) || bytes_eq(nm, "DATE_DOB".as_bytes()) {
        5
    } else if bytes_eq(nm, "AGE".as_bytes()) || bytes_eq(nm, "CLASSIFICATION_LEVEL".as_bytes()) || bytes_eq(nm, "DOD_CONTRACT".as_bytes()) || bytes_eq(nm, "GSA_CONTRACT".as_bytes()) || bytes_eq(nm, "CAGE_CODE".as_bytes()) || bytes_eq(nm, "UEI".as_bytes()) {
        4
    } else if bytes_eq(nm, "DATE".as_bytes()) || bytes_eq(nm, "ZIP".as_bytes()) {
        3
    } else if bytes_eq(nm, "CITY".as_bytes()) || bytes_eq(nm, "STATE".as_bytes()) || bytes_eq(nm, "COUNTRY".as_bytes()) || bytes_eq(nm, "TRACKING_NUMBER".as_bytes()) {
        2
    } else if bytes_eq(nm, "FACILITY".as_bytes()) || bytes_eq(nm, "ORGANIZATION".as_bytes()) {
        1
    } else {
        5
    }
}

/// The category of a canonical entity type.
#[verifier::opaque]
pub open spec fn spec_category(nm: Seq<u8>) -> Category {
    if nm == "SSN".spec_bytes() || nm == "PASSPORT".spec_bytes() || nm == "DRIVER_LICENSE".spec_bytes() || nm == "MILITARY_ID".spec_bytes() || nm == "TAX_ID".spec_bytes() || nm == "MRN".spec_bytes() || nm == "STATE_ID".spec_bytes() {
        Category::DirectIdentifier
    } else if nm == "DIAGNOSIS".spec_bytes() || nm == "MEDICATION".spec_bytes() || nm == "HEALTH_PLAN_ID".spec_bytes() || nm == "NPI".spec_bytes() || nm == "DEA".spec_bytes() || nm == "LAB_TEST".spec_bytes() || nm == "PROCEDURE".spec_bytes() {
        Category::HealthInfo
    } else if nm == "CREDIT_CARD".spec_bytes() || nm == "IBAN".spec_bytes() || nm == "SWIFT_BIC".spec_bytes() || nm == "ACCOUNT_NUMBER".spec_bytes() || nm == "CUSIP".spec_bytes() || nm == "ISIN".spec_bytes() || nm == "BITCOIN_ADDRESS".spec_bytes() || nm == "ETHEREUM_ADDRESS".spec_bytes() || nm == "CRYPTO_SEED_PHRASE".spec_bytes() {
        Category::Financial
    } else if nm == "EMAIL".spec_bytes() || nm == "PHONE".spec_bytes() || nm == "ADDRESS".spec_bytes() || nm == "ZIP".spec_bytes() || nm == "FAX".spec_bytes() {
        Category::Contact
    } else if nm == "PASSWORD".spec_bytes() || nm == "API_KEY".spec_bytes() || nm == "PRIVATE_KEY".spec_bytes() || nm == "JWT".spec_bytes() || nm == "AWS_ACCESS_KEY".spec_bytes() || nm == "AWS_SECRET_KEY".spec_bytes() || nm == "GITHUB_TOKEN".spec_bytes() || nm == "GITLAB_TOKEN".spec_bytes() || nm == "SLACK_TOKEN".spec_bytes() || nm == "STRIPE_KEY".spec_bytes() || nm == "DATABASE_URL".spec_bytes() {
        Category::Credential
    } else if nm == "NAME".spec_bytes() || nm == "DATE_DOB".spec_bytes() || nm == "AGE".spec_bytes() || nm == "DATE".spec_bytes() {
        Category::QuasiIdentifier
    } else if nm == "CLASSIFICATION_LEVEL".spec_bytes() || nm == "CLASSIFICATION_MARKING".spec_bytes() || nm == "SCI_MARKING".spec_bytes() || nm == "DISSEMINATION_CONTROL".spec_bytes() {
        Category::ClassificationMarking
    } else {
        Category::Unknown
    }
}

/// Look up the category of a canonical entity type.
pub fn get_category(nm: &[u8]) -> (r: Category)
    ensures
        r == spec_category(nm@),
{
    proof {
        reveal(spec_category);
    }
    if bytes_eq(nm, "SSN".as_bytes()) || bytes_eq(nm, "PASSPORT".as_bytes()) || bytes_eq(nm, "DRIVER_LICENSE".as_bytes()) || bytes_eq(nm, "MILITARY_ID".as_bytes()) || bytes_eq(nm, "TAX_ID".as_bytes()) || bytes_eq(nm, "MRN".as_bytes()) || bytes_eq(nm, "STATE_ID".as_bytes()) {
        Category::DirectIdentifier
    } else if bytes_eq(nm, "DIAGNOSIS".as_bytes()) || bytes_eq(nm, "MEDICATION".as_bytes()) || bytes_eq(nm, "HEALTH_PLAN_ID".as_bytes()) || bytes_eq(nm, "NPI".as_bytes()) || bytes_eq(nm, "DEA".as_bytes()) || bytes_eq(nm, "LAB_TEST".as_bytes()) || bytes_eq(nm, "PROCEDURE".as_bytes()) {
        Category::HealthInfo
    } else if bytes_eq(nm, "CREDIT_CARD".as_bytes()) || bytes_eq(nm, "IBAN".as_bytes()) || bytes_eq(nm, "SWIFT_BIC".as_bytes()) || bytes_eq(nm, "ACCOUNT_NUMBER".as_bytes()) || bytes_eq(nm, "CUSIP".as_bytes()) || bytes_eq(nm, "ISIN".as_bytes()) || bytes_eq(nm, "BITCOIN_ADDRESS".as_bytes()) || bytes_eq(nm, "ETHEREUM_ADDRESS".as_bytes()) || bytes_eq(nm, "CRYPTO_SEED_PHRASE".as_bytes()) {
        Category::Financial
    } else if bytes_eq(nm, "EMAIL".as_bytes()) || bytes_eq(nm, "PHONE".as_bytes()) || bytes_eq(nm, "ADDRESS".as_bytes()) || bytes_eq(nm, "ZIP".as_bytes()) || bytes_eq(nm, "FAX".as_bytes()) {
        Category::Contact
    } else if bytes_eq(nm, "PASSWORD".as_bytes()) || bytes_eq(nm, "API_KEY".as_bytes()) || bytes_eq(nm, "PRIVATE_KEY".as_bytes()) || bytes_eq(nm, "JWT".as_bytes()) || bytes_eq(nm, "AWS_ACCESS_KEY".as_bytes()) || bytes_eq(nm, "AWS_SECRET_KEY".as_bytes()) || bytes_eq(nm, "GITHUB_TOKEN".as_bytes()) || bytes_eq(nm, "GITLAB_TOKEN".as_bytes()) || bytes_eq(nm, "SLACK_TOKEN".as_bytes()) || bytes_eq(nm, "STRIPE_KEY".as_bytes()) || bytes_eq(nm, "DATABASE_URL".as_bytes()) {
        Category::Credential
    } else if bytes_eq(nm, "NAME".as_bytes()) || bytes_eq(nm, "DATE_DOB".as_bytes()) || bytes_eq(nm, "AGE".as_bytes()) || bytes_eq(nm, "DATE".as_bytes()) {
        Category::QuasiIdentifier
    } else if bytes_eq(nm, "CLASSIFICATION_LEVEL".as_bytes()) || bytes_eq(nm, "CLASSIFICATION_MARKING".as_bytes()) || bytes_eq(nm, "SCI_MARKING".as_bytes()) || bytes_eq(nm, "DISSEMINATION_CONTROL".as_bytes()) {
        Category::ClassificationMarking
    } else {
        Category::Unknown
    }
}

/// The UTF-8 bytes of an entity entry's type label.
pub open spec fn entity_bytes(e: (String, u32)) -> Seq<u8> {
    encode_utf8(e.0@)
}

/// Some entry of `ents` falls in category `c`.
pub open spec fn has_category(ents: Seq<(String, u32)>, c: Category) -> bool {
    exists|i: int|
        0 <= i < ents.len() && spec_category(norm_entity(entity_bytes(#[trigger] ents[i]))) == c
}

/// Whether co-occurrence rule `k` (in table order) fires on the
/// categories present in `ents`.
pub open spec fn rule_fires(ents: Seq<(String, u32)>, k: int) -> bool {
    if k == 0 {
        has_category(ents, Category::DirectIdentifier) && has_category(ents, Category::HealthInfo)
    } else if k == 1 {
        has_category(ents, Category::DirectIdentifier) && has_category(ents, Category::Financial)
    } else if k == 2 {
        has_category(ents, Category::Credential)
    } else if k == 3 {
        has_category(ents, Category::QuasiIdentifier) && has_category(ents, Category::HealthInfo)
    } else if k == 4 {
        has_category(ents, Category::Contact) && has_category(ents, Category::HealthInfo)
    } else if k == 5 {
        has_category(ents, Category::DirectIdentifier) && has_category(
            ents,
            Category::QuasiIdentifier,
        ) && has_category(ents, Category::Financial)
    } else if k == 6 {
        has_category(ents, Category::ClassificationMarking)
    } else {
        false
    }
}

/// The multiplier (in tenths) of co-occurrence rule `k`.
pub open spec fn rule_mult(k: int) -> u32 {
    if k == 0 {
        20
    } else if k == 1 {
        18
    } else if k == 2 {
        15
    } else if k == 3 {
        15
    } else if k == 4 {
        14
    } else if k == 5 {
        22
    } else if k == 6 {
        25
    } else {
        10
    }
}

/// The name of co-occurrence rule `k`.
pub open spec fn rule_kind(k: int) -> RuleKind {
    if k == 0 {
        RuleKind::HipaaPhi
    } else if k == 1 {
        RuleKind::IdentityTheft
    } else if k == 2 {
        RuleKind::CredentialExposure
    } else if k == 3 {
        RuleKind::PhiWithoutId
    } else if k == 4 {
        RuleKind::PhiWithContact
    } else if k == 5 {
        RuleKind::FullIdentity
    } else {
        RuleKind::ClassifiedData
    }
}

/// Evaluate the rule table from rule `k` on: keep the maximum fired
/// multiplier, collecting every rule name tied at that maximum.
pub open spec fn co_fold(
    ents: Seq<(String, u32)>,
    k: int,
    cur_max: u32,
    cur: Seq<RuleKind>,
) -> (u32, Seq<RuleKind>)
    decreases 7 - k,
{
    if k < 0 || k >= 7 {
        (cur_max, cur)
    } else if rule_fires(ents, k) && rule_mult(k) > cur_max {
        co_fold(ents, k + 1, rule_mult(k), seq![rule_kind(k)])
    } else if rule_fires(ents, k) && rule_mult(k) == cur_max {
        co_fold(ents, k + 1, cur_max, cur.push(rule_kind(k)))
    } else {
        co_fold(ents, k + 1, cur_max, cur)
    }
}

/// The co-occurrence multiplier (tenths) and the tied rule names.
pub open spec fn co_result(ents: Seq<(String, u32)>) -> (u32, Seq<RuleKind>) {
    co_fold(ents, 0, 10, Seq::empty())
}

/// Natural logarithm in milli-units, by a fixed-point table for counts
/// up to ten and the halving rule `ln n = ln(n/2) + ln 2` beyond. The
/// recursive case is clamped from below at the table's last entry so
/// that the function never decreases, and from above (unreachably for
/// 32-bit counts) at 24000 to keep the arithmetic bounded.
pub open spec fn ln_milli(n: u32) -> u32
    decreases n,
{
    if n <= 1 {
        0
    } else if n == 2 {
        693
    } else if n == 3 {
        1099
    } else if n == 4 {
        1386
    } else if n == 5 {
        1609
    } else if n == 6 {
        1792
    } else if n == 7 {
        1946
    } else if n == 8 {
        2079
    } else if n == 9 {
        2197
    } else if n == 10 {
        2303
    } else if ln_milli(n / 2) + 693 > 24000 {
        24000
    } else if ln_milli(n / 2) + 693 < 2303 {
        2303
    } else {
        (ln_milli(n / 2) + 693) as u32
    }
}

proof fn lemma_ln_milli_step(n: u32)
    requires
        n < u32::MAX,
    ensures
        ln_milli(n) <= ln_milli((n + 1) as u32),
    decreases n,
{
    let m = (n + 1) as u32;
    if m <= 10 {
    } else if n == 10 {
        assert(ln_milli(11) >= 2303);
    } else {
        if m / 2 == n / 2 + 1 {
            lemma_ln_milli_step(n / 2);
        }
    }
}

/// `ln_milli` never decreases as the count grows.
pub proof fn lemma_ln_milli_monotone(a: u32, b: u32)
    requires
        a <= b,
    ensures
        ln_milli(a) <= ln_milli(b),
    decreases b,
{
    if a < b {
        lemma_ln_milli_monotone(a, (b - 1) as u32);
        lemma_ln_milli_step((b - 1) as u32);
    }
}

pub proof fn lemma_ln_milli_le(n: u32)
    ensures
        ln_milli(n) <= 24000,
    decreases n,
{
    if n > 10 {
        lemma_ln_milli_le(n / 2);
    }
}

/// Compute `ln_milli`.
pub fn ln_milli_exec(n: u32) -> (r: u32)
    ensures
        r == ln_milli(n),
        r <= 24000,
    decreases n,
{
    proof {
        lemma_ln_milli_le(n);
    }
    if n <= 1 {
        0
    } else if n == 2 {
        693
    } else if n == 3 {
        1099
    } else if n == 4 {
        1386
    } else if n == 5 {
        1609
    } else if n == 6 {
        1792
    } else if n == 7 {
        1946
    } else if n == 8 {
        2079
    } else if n == 9 {
        2197
    } else if n == 10 {
        2303
    } else {
        let v = ln_milli_exec(n / 2) + 693;
        if v > 24000 {
            24000
        } else if v < 2303 {
            2303
        } else {
            v
        }
    }
}

/// The milli-point item_milliution of one entity entry at a given overall
/// confidence (hundredths).
pub open spec fn entity_score_milli(e: (String, u32), conf: u32) -> int {
    spec_weight(norm_entity(entity_bytes(e))) * 4 * (1000 + ln_milli(e.1)) * conf / 100
}

/// The raw milli-point sum over all entries.
pub open spec fn total_milli(ents: Seq<(String, u32)>, conf: u32) -> int
    decreases ents.len(),
{
    if ents.len() == 0 {
        0
    } else {
        total_milli(ents.drop_last(), conf) + entity_score_milli(ents.last(), conf)
    }
}

/// Every table weight is at most ten.
pub proof fn lemma_weight_le(nm: Seq<u8>)
    ensures
        spec_weight(nm) <= 10,
{
    reveal(spec_weight);
}

pub proof fn lemma_entity_score_bounds(e: (String, u32), conf: u32)
    requires
        conf <= 100,
    ensures
        0 <= entity_score_milli(e, conf) <= 1000000,
{
    lemma_ln_milli_le(e.1);
    let w = spec_weight(norm_entity(entity_bytes(e)));
    let l = ln_milli(e.1);
    lemma_weight_le(norm_entity(entity_bytes(e)));
    assert(w * 4 * (1000 + l) * conf <= 100000000) by (nonlinear_arith)
        requires
            w <= 10,
            l <= 24000,
            conf <= 100,
    ;
    assert(w * 4 * (1000 + l) * conf >= 0) by (nonlinear_arith)
        requires
            w >= 0,
            l >= 0,
            conf >= 0,
    ;
}

pub proof fn lemma_total_milli_nonneg(ents: Seq<(String, u32)>, conf: u32)
    requires
        conf <= 100,
    ensures
        total_milli(ents, conf) >= 0,
    decreases ents.len(),
{
    if ents.len() > 0 {
        lemma_total_milli_nonneg(ents.drop_last(), conf);
        lemma_entity_score_bounds(ents.last(), conf);
    }
}


/// Raising a count never lowers an entity's contribution.
proof fn lemma_escore_monotone(e1: (String, u32), e2: (String, u32), conf: u32)
    requires
        conf <= 100,
        e1.0 == e2.0,
        e1.1 <= e2.1,
    ensures
        entity_score_milli(e1, conf) <= entity_score_milli(e2, conf),
{
    let w = spec_weight(norm_entity(entity_bytes(e1)));
    let l1 = ln_milli(e1.1);
    let l2 = ln_milli(e2.1);
    lemma_ln_milli_monotone(e1.1, e2.1);
    assert(entity_bytes(e1) == entity_bytes(e2));
    assert(w * 4 * (1000 + l1) * conf <= w * 4 * (1000 + l2) * conf) by (nonlinear_arith)
        requires
            l1 <= l2,
            w >= 0,
            conf >= 0,
    ;
    vstd::arithmetic::div_mod::lemma_div_is_ordered(
        w * 4 * (1000 + l1) * conf,
        w * 4 * (1000 + l2) * conf,
        100,
    );
}

/// Raising counts pointwise never lowers the raw milli-point sum.
proof fn lemma_total_monotone(ents1: Seq<(String, u32)>, ents2: Seq<(String, u32)>, conf: u32)
    requires
        conf <= 100,
        ents1.len() == ents2.len(),
        forall|j: int|
            0 <= j < ents1.len() ==> ((#[trigger] ents2[j]).0 == ents1[j].0 && ents1[j].1
                <= ents2[j].1),
    ensures
        total_milli(ents1, conf) <= total_milli(ents2, conf),
    decreases ents1.len(),
{
    if ents1.len() > 0 {
        assert(forall|j: int|
            0 <= j < ents1.drop_last().len() ==> ((#[trigger] ents2.drop_last()[j]).0
                == ents1.drop_last()[j].0 && ents1.drop_last()[j].1 <= ents2.drop_last()[j].1));
        lemma_total_monotone(ents1.drop_last(), ents2.drop_last(), conf);
        assert(ents1.last() == ents1[ents1.len() - 1]);
        lemma_escore_monotone(ents1.last(), ents2.last(), conf);
    }
}

/// Counts do not affect which categories are present.
proof fn lemma_categories_same(ents1: Seq<(String, u32)>, ents2: Seq<(String, u32)>)
    requires
        ents1.len() == ents2.len(),
        forall|j: int| 0 <= j < ents1.len() ==> (#[trigger] ents2[j]).0 == ents1[j].0,
    ensures
        forall|c: Category| has_category(ents1, c) == has_category(ents2, c),
{
    assert forall|c: Category| has_category(ents1, c) == has_category(ents2, c) by {
        if has_category(ents1, c) {
            let j = choose|j: int|
                0 <= j < ents1.len() && spec_category(
                    norm_entity(entity_bytes(#[trigger] ents1[j])),
                ) == c;
            assert(entity_bytes(ents2[j]) == entity_bytes(ents1[j]));
            assert(has_category(ents2, c));
        }
        if has_category(ents2, c) {
            let j = choose|j: int|
                0 <= j < ents2.len() && spec_category(
                    norm_entity(entity_bytes(#[trigger] ents2[j])),
                ) == c;
            assert(entity_bytes(ents1[j]) == entity_bytes(ents2[j]));
            assert(has_category(ents1, c));
        }
    }
}

/// The rule fold is determined by which rules fire.
proof fn lemma_co_fold_same(
    ents1: Seq<(String, u32)>,
    ents2: Seq<(String, u32)>,
    k: int,
    m: u32,
    cur: Seq<RuleKind>,
)
    requires
        forall|kk: int| 0 <= kk < 7 ==> rule_fires(ents1, kk) == rule_fires(ents2, kk),
    ensures
        co_fold(ents1, k, m, cur) == co_fold(ents2, k, m, cur),
    decreases 7 - k,
{
    if 0 <= k < 7 {
        if rule_fires(ents1, k) && rule_mult(k) > m {
            lemma_co_fold_same(ents1, ents2, k + 1, rule_mult(k), seq![rule_kind(k)]);
        } else if rule_fires(ents1, k) && rule_mult(k) == m {
            lemma_co_fold_same(ents1, ents2, k + 1, m, cur.push(rule_kind(k)));
        } else {
            lemma_co_fold_same(ents1, ents2, k + 1, m, cur);
        }
    }
}

/// More occurrences never lower the risk score: with the same entity
/// types in the same order, the same exposure and the same confidence,
/// raising any occurrence counts can only raise (or keep) the rounded
/// final score. The logarithmic aggregation gives diminishing, never
/// negative, marginal weight.
pub proof fn lemma_score_monotone_in_counts(
    ents1: Seq<(String, u32)>,
    ents2: Seq<(String, u32)>,
    exposure: Seq<u8>,
    conf: u32,
)
    requires
        conf <= 100,
        ents1.len() == ents2.len(),
        forall|j: int|
            0 <= j < ents1.len() ==> ((#[trigger] ents2[j]).0 == ents1[j].0 && ents1[j].1
                <= ents2[j].1),
    ensures
        (final_milli(ents1, exposure, conf) + 500) / 1000 <= (final_milli(ents2, exposure, conf)
            + 500) / 1000,
{
    lemma_total_monotone(ents1, ents2, conf);
    lemma_total_milli_nonneg(ents1, conf);
    let b1 = base_milli(ents1, conf);
    let b2 = base_milli(ents2, conf);
    assert(0 <= b1 && b1 <= b2);
    lemma_categories_same(ents1, ents2);
    assert(forall|kk: int| 0 <= kk < 7 ==> rule_fires(ents1, kk) == rule_fires(ents2, kk));
    lemma_co_fold_same(ents1, ents2, 0, 10, Seq::empty());
    let co = co_result(ents1).0 as int;
    assert(co_result(ents2).0 == co_result(ents1).0);
    assert(b1 * co <= b2 * co) by (nonlinear_arith)
        requires
            b1 <= b2,
            co >= 0,
    ;
    vstd::arithmetic::div_mod::lemma_div_is_ordered(b1 * co, b2 * co, 10);
    let c1 = content_milli(ents1, conf);
    let c2 = content_milli(ents2, conf);
    assert(c1 <= c2);
    let em = exposure_mult_tenths(exposure) as int;
    assert(c1 * em <= c2 * em) by (nonlinear_arith)
        requires
            c1 <= c2,
            em >= 0,
    ;
    vstd::arithmetic::div_mod::lemma_div_is_ordered(c1 * em, c2 * em, 10);
    let f1 = final_milli(ents1, exposure, conf);
    let f2 = final_milli(ents2, exposure, conf);
    assert(f1 <= f2);
    vstd::arithmetic::div_mod::lemma_div_is_ordered(f1 + 500, f2 + 500, 1000);
}

/// The content base in milli-points, capped at one million.
pub open spec fn base_milli(ents: Seq<(String, u32)>, conf: u32) -> int {
    if total_milli(ents, conf) > 1000000 {
        1000000int
    } else {
        total_milli(ents, conf)
    }
}

/// The exposure multiplier (tenths) of an exposure label, compared
/// case-insensitively; unknown labels multiply by 1.
pub open spec fn exposure_mult_tenths(e: Seq<u8>) -> u32 {
    if eqi(e, "PRIVATE".spec_bytes()) {
        10
    } else if eqi(e, "INTERNAL".spec_bytes()) {
        12
    } else if eqi(e, "ORG_WIDE".spec_bytes()) {
        18
    } else if eqi(e, "PUBLIC".spec_bytes()) {
        25
    } else {
        10
    }
}

/// Content score in milli-points: the capped base scaled by the
/// co-occurrence multiplier, capped at 100 points.
pub open spec fn content_milli(ents: Seq<(String, u32)>, conf: u32) -> int {
    let c = base_milli(ents, conf) * co_result(ents).0 / 10;
    if c > 100000 {
        100000int
    } else {
        c
    }
}

/// Final score in milli-points: the content score scaled by the
/// exposure multiplier, capped at 100 points.
pub open spec fn final_milli(ents: Seq<(String, u32)>, exposure: Seq<u8>, conf: u32) -> int {
    let f = content_milli(ents, conf) * exposure_mult_tenths(exposure) / 10;
    if f > 100000 {
        100000int
    } else {
        f
    }
}

/// The tier of a rounded final score.
pub open spec fn tier_of_score(score: int) -> Tier {
    if score >= 80 {
        Tier::Critical
    } else if score >= 55 {
        Tier::High
    } else if score >= 31 {
        Tier::Medium
    } else if score >= 11 {
        Tier::Low
    } else {
        Tier::Minimal
    }
}

/// The categories present in `ents`, in fixed table order, `unknown`
/// excluded.
pub open spec fn spec_categories(ents: Seq<(String, u32)>) -> Seq<Category> {
    let s0 = if has_category(ents, Category::DirectIdentifier) {
        seq![Category::DirectIdentifier]
    } else {
        Seq::empty()
    };
    let s1 = if has_category(ents, Category::HealthInfo) {
        seq![Category::HealthInfo]
    } else {
        Seq::empty()
    };
    let s2 = if has_category(ents, Category::Financial) {
        seq![Category::Financial]
    } else {
        Seq::empty()
    };
    let s3 = if has_category(ents, Category::Contact) {
        seq![Category::Contact]
    } else {
        Seq::empty()
    };
    let s4 = if has_category(ents, Category::Credential) {
        seq![Category::Credential]
    } else {
        Seq::empty()
    };
    let s5 = if has_category(ents, Category::QuasiIdentifier) {
        seq![Category::QuasiIdentifier]
    } else {
        Seq::empty()
    };
    let s6 = if has_category(ents, Category::ClassificationMarking) {
        seq![Category::ClassificationMarking]
    } else {
        Seq::empty()
    };
    s0 + s1 + s2 + s3 + s4 + s5 + s6
}

/// The outcome of scoring one entity-count map.
#[derive(Clone, Debug)]
pub struct ScoringResult {
    /// Final risk score, 0 to 100.
    pub score: u32,
    /// Risk tier of the final score.
    pub tier: Tier,
    /// Content score in milli-points, before the exposure multiplier.
    pub content_score_milli: u64,
    /// Exposure multiplier in tenths.
    pub exposure_multiplier_tenths: u32,
    /// Co-occurrence multiplier in tenths.
    pub co_occurrence_multiplier_tenths: u32,
    /// Every co-occurrence rule tied at the maximum multiplier.
    pub triggered_rules: Vec<RuleKind>,
    /// The categories present, in fixed table order.
    pub categories: Vec<Category>,
}

/// Whether a scoring result is the one the scoring rules prescribe for
/// the given entity counts, exposure and confidence.
pub open spec fn scoring_result_ok(
    ents: Seq<(String, u32)>,
    exposure: Seq<u8>,
    conf: u32,
    r: ScoringResult,
) -> bool {
    if ents.len() == 0 {
        &&& r.score == 0
        &&& r.tier == Tier::Minimal
        &&& r.content_score_milli == 0
        &&& r.exposure_multiplier_tenths == 10
        &&& r.co_occurrence_multiplier_tenths == 10
        &&& r.triggered_rules@ =~= Seq::<RuleKind>::empty()
        &&& r.categories@ =~= Seq::<Category>::empty()
    } else {
        &&& r.score == (final_milli(ents, exposure, conf) + 500) / 1000
        &&& r.tier == tier_of_score((final_milli(ents, exposure, conf) + 500) / 1000)
        &&& r.content_score_milli == content_milli(ents, conf)
        &&& r.exposure_multiplier_tenths == exposure_mult_tenths(exposure)
        &&& r.co_occurrence_multiplier_tenths == co_result(ents).0
        &&& r.triggered_rules@ == co_result(ents).1
        &&& r.categories@ == spec_categories(ents)
    }
}

/// Which categories are present in an entity-count list.
struct CategoryFlags {
    direct: bool,
    health: bool,
    financial: bool,
    contact: bool,
    credential: bool,
    quasi: bool,
    marking: bool,
}

/// Accumulate the capped milli-point base of an entity-count list.
fn content_base(entities: &Vec<(String, u32)>, confidence: u32) -> (base: u64)
    requires
        confidence <= 100,
    ensures
        base as int == base_milli(entities@, confidence),
        base <= 1000000,
{
    let n = entities.len();
    let mut base: u64 = 0;
    for i in 0..n
        invariant
            n == entities@.len(),
            confidence <= 100,
            base as int == base_milli(entities@.take(i as int), confidence),
            base <= 1000000,
    {
        let e = &entities[i];
        let nm = normalize_entity(e.0.as_str());
        let w = get_weight(nm.as_slice());
        let l = ln_milli_exec(e.1);
        proof {
            lemma_weight_le(nm@);
            assert((w as u64) * 4 * (1000 + l as u64) <= 1000000) by (nonlinear_arith)
                requires
                    w <= 10,
                    l <= 24000,
            ;
            assert((w as u64) * 4 * (1000 + l as u64) * (confidence as u64) <= 100000000)
                by (nonlinear_arith)
                requires
                    w <= 10,
                    l <= 24000,
                    confidence <= 100,
            ;
        }
        let item_milli: u64 = (w as u64) * 4 * (1000 + l as u64) * (confidence as u64) / 100;
        proof {
            let ent = entities@[i as int];
            assert(encode_utf8(ent.0@) == entity_bytes(ent));
            assert(item_milli as int == entity_score_milli(ent, confidence));
            assert(entities@.take(i + 1).drop_last() =~= entities@.take(i as int));
            assert(entities@.take(i + 1).last() == ent);
            lemma_total_milli_nonneg(entities@.take(i as int), confidence);
            lemma_entity_score_bounds(ent, confidence);
        }
        base = base + item_milli;
        if base > 1000000 {
            base = 1000000;
        }
    }
    proof {
        assert(entities@.take(n as int) =~= entities@);
    }
    base
}

/// Scan an entity-count list for the categories it touches.
fn category_flags(entities: &Vec<(String, u32)>) -> (flags: CategoryFlags)
    ensures
        flags.direct == has_category(entities@, Category::DirectIdentifier),
        flags.health == has_category(entities@, Category::HealthInfo),
        flags.financial == has_category(entities@, Category::Financial),
        flags.contact == has_category(entities@, Category::Contact),
        flags.credential == has_category(entities@, Category::Credential),
        flags.quasi == has_category(entities@, Category::QuasiIdentifier),
        flags.marking == has_category(entities@, Category::ClassificationMarking),
{
    let n = entities.len();
    let mut has_direct = false;
    let mut has_health = false;
    let mut has_financial = false;
    let mut has_contact = false;
    let mut has_credential = false;
    let mut has_quasi = false;
    let mut has_marking = false;
    for i in 0..n
        invariant
            n == entities@.len(),
            has_direct == has_category(entities@.take(i as int), Category::DirectIdentifier),
            has_health == has_category(entities@.take(i as int), Category::HealthInfo),
            has_financial == has_category(entities@.take(i as int), Category::Financial),
            has_contact == has_category(entities@.take(i as int), Category::Contact),
            has_credential == has_category(entities@.take(i as int), Category::Credential),
            has_quasi == has_category(entities@.take(i as int), Category::QuasiIdentifier),
            has_marking == has_category(entities@.take(i as int), Category::ClassificationMarking),
    {
        let e = &entities[i];
        let nm = normalize_entity(e.0.as_str());
        let c = get_category(nm.as_slice());
        proof {
            let ent = entities@[i as int];
            assert(spec_category(norm_entity(entity_bytes(ent))) == c);
            assert(entities@.take(i + 1)[i as int] == ent);
            assert(forall|j: int|
                0 <= j < i ==> entities@.take(i + 1)[j] == entities@.take(i as int)[j]);
            lemma_has_category_step(entities@, i as int, Category::DirectIdentifier);
            lemma_has_category_step(entities@, i as int, Category::HealthInfo);
            lemma_has_category_step(entities@, i as int, Category::Financial);
            lemma_has_category_step(entities@, i as int, Category::Contact);
            lemma_has_category_step(entities@, i as int, Category::Credential);
            lemma_has_category_step(entities@, i as int, Category::QuasiIdentifier);
            lemma_has_category_step(entities@, i as int, Category::ClassificationMarking);
        }
        if matches!(c, Category::DirectIdentifier) {
            has_direct = true;
        } else if matches!(c, Category::HealthInfo) {
            has_health = true;
        } else if matches!(c, Category::Financial) {
            has_financial = true;
        } else if matches!(c, Category::Contact) {
            has_contact = true;
        } else if matches!(c, Category::Credential) {
            has_credential = true;
        } else if matches!(c, Category::QuasiIdentifier) {
            has_quasi = true;
        } else if matches!(c, Category::ClassificationMarking) {
            has_marking = true;
        }
    }
    proof {
        assert(entities@.take(n as int) =~= entities@);
    }
    CategoryFlags {
        direct: has_direct,
        health: has_health,
        financial: has_financial,
        contact: has_contact,
        credential: has_credential,
        quasi: has_quasi,
        marking: has_marking,
    }
}

/// Score a set of entity counts under an exposure classification and an
/// overall confidence (in hundredths).
///
/// Deterministic and free of side effects: the result is a function of
/// the arguments alone.
#[verifier::rlimit(100)]
pub fn score_entities(entities: &Vec<(String, u32)>, exposure: &str, confidence: u32) -> (r:
    ScoringResult)
    requires
        confidence <= 100,
    ensures
        scoring_result_ok(entities@, exposure.spec_bytes(), confidence, r),
{
    let n = entities.len();
    if n == 0 {
        return ScoringResult {
            score: 0,
            tier: Tier::Minimal,
            content_score_milli: 0,
            exposure_multiplier_tenths: 10,
            co_occurrence_multiplier_tenths: 10,
            triggered_rules: Vec::new(),
            categories: Vec::new(),
        };
    }
    let base: u64 = content_base(entities, confidence);
    let flags: CategoryFlags = category_flags(entities);
    let has_direct = flags.direct;
    let has_health = flags.health;
    let has_financial = flags.financial;
    let has_contact = flags.contact;
    let has_credential = flags.credential;
    let has_quasi = flags.quasi;
    let has_marking = flags.marking;
    // Co-occurrence rule table, in order; ties at the maximum are all
    // reported.
    let mut co_mult: u32 = 10;
    let mut triggered: Vec<RuleKind> = Vec::new();
    let mut k: usize = 0;
    while k < 7
        invariant
            k <= 7,
            n == entities@.len(),
            has_direct == has_category(entities@, Category::DirectIdentifier),
            has_health == has_category(entities@, Category::HealthInfo),
            has_financial == has_category(entities@, Category::Financial),
            has_contact == has_category(entities@, Category::Contact),
            has_credential == has_category(entities@, Category::Credential),
            has_quasi == has_category(entities@, Category::QuasiIdentifier),
            has_marking == has_category(entities@, Category::ClassificationMarking),
            co_fold(entities@, k as int, co_mult, triggered@) == co_result(entities@),
            co_mult >= 10,
        decreases 7 - k,
    {
        let fires: bool = if k == 0 {
            has_direct && has_health
        } else if k == 1 {
            has_direct && has_financial
        } else if k == 2 {
            has_credential
        } else if k == 3 {
            has_quasi && has_health
        } else if k == 4 {
            has_contact && has_health
        } else if k == 5 {
            has_direct && has_quasi && has_financial
        } else {
            has_marking
        };
        let mult: u32 = if k == 0 {
            20
        } else if k == 1 {
            18
        } else if k == 2 {
            15
        } else if k == 3 {
            15
        } else if k == 4 {
            14
        } else if k == 5 {
            22
        } else {
            25
        };
        let kind: RuleKind = if k == 0 {
            RuleKind::HipaaPhi
        } else if k == 1 {
            RuleKind::IdentityTheft
        } else if k == 2 {
            RuleKind::CredentialExposure
        } else if k == 3 {
            RuleKind::PhiWithoutId
        } else if k == 4 {
            RuleKind::PhiWithContact
        } else if k == 5 {
            RuleKind::FullIdentity
        } else {
            RuleKind::ClassifiedData
        };
        proof {
            assert(fires == rule_fires(entities@, k as int));
            assert(mult == rule_mult(k as int));
            assert(kind == rule_kind(k as int));
        }
        if fires && mult > co_mult {
            co_mult = mult;
            triggered = Vec::new();
            triggered.push(kind);
            proof {
                assert(triggered@ =~= seq![kind]);
            }
        } else if fires && mult == co_mult {
            triggered.push(kind);
        }
        k = k + 1;
    }
    // Content, exposure and final score.
    proof {
        assert(co_result(entities@).0 == co_mult && co_result(entities@).1 == triggered@);
        assert(co_mult <= 25) by {
            lemma_co_fold_mult_le(entities@, 0, 10, Seq::empty());
        }
        assert(base * (co_mult as u64) <= 25000000) by (nonlinear_arith)
            requires
                base <= 1000000,
                co_mult <= 25,
        ;
    }
    let content: u64 = {
        let c = base * co_mult as u64 / 10;
        if c > 100000 {
            100000
        } else {
            c
        }
    };
    proof {
        assert(content as int == content_milli(entities@, confidence));
    }
    let exp_mult: u32 = exposure_mult_exec(exposure);
    proof {
        assert(exp_mult <= 25);
        assert(content * (exp_mult as u64) <= 2500000) by (nonlinear_arith)
            requires
                content <= 100000,
                exp_mult <= 25,
        ;
    }
    let fin: u64 = {
        let f = content * exp_mult as u64 / 10;
        if f > 100000 {
            100000
        } else {
            f
        }
    };
    proof {
        assert(fin as int == final_milli(entities@, exposure.spec_bytes(), confidence));
    }
    let score: u32 = ((fin + 500) / 1000) as u32;
    let tier: Tier = if score >= 80 {
        Tier::Critical
    } else if score >= 55 {
        Tier::High
    } else if score >= 31 {
        Tier::Medium
    } else if score >= 11 {
        Tier::Low
    } else {
        Tier::Minimal
    };
    // Categories present, in table order.
    let mut categories: Vec<Category> = Vec::new();
    if has_direct {
        categories.push(Category::DirectIdentifier);
    }
    if has_health {
        categories.push(Category::HealthInfo);
    }
    if has_financial {
        categories.push(Category::Financial);
    }
    if has_contact {
        categories.push(Category::Contact);
    }
    if has_credential {
        categories.push(Category::Credential);
    }
    if has_quasi {
        categories.push(Category::QuasiIdentifier);
    }
    if has_marking {
        categories.push(Category::ClassificationMarking);
    }
    proof {
        assert(categories@ =~= spec_categories(entities@));
    }
    ScoringResult {
        score,
        tier,
        content_score_milli: content,
        exposure_multiplier_tenths: exp_mult,
        co_occurrence_multiplier_tenths: co_mult,
        triggered_rules: triggered,
        categories,
    }
}

/// The maximum multiplier the rule table can fold to.
proof fn lemma_co_fold_mult_le(ents: Seq<(String, u32)>, k: int, cur_max: u32, cur: Seq<RuleKind>)
    requires
        cur_max <= 25,
    ensures
        co_fold(ents, k, cur_max, cur).0 <= 25,
    decreases 7 - k,
{
    if 0 <= k < 7 {
        if rule_fires(ents, k) && rule_mult(k) > cur_max {
            lemma_co_fold_mult_le(ents, k + 1, rule_mult(k), seq![rule_kind(k)]);
        } else if rule_fires(ents, k) && rule_mult(k) == cur_max {
            lemma_co_fold_mult_le(ents, k + 1, cur_max, cur.push(rule_kind(k)));
        } else {
            lemma_co_fold_mult_le(ents, k + 1, cur_max, cur);
        }
    }
}

/// Category presence over a one-longer prefix.
proof fn lemma_has_category_step(ents: Seq<(String, u32)>, i: int, c: Category)
    requires
        0 <= i < ents.len(),
    ensures
        has_category(ents.take(i + 1), c) == (has_category(ents.take(i), c) || spec_category(
            norm_entity(entity_bytes(ents[i])),
        ) == c),
{
    if has_category(ents.take(i), c) {
        let j = choose|j: int|
            0 <= j < ents.take(i).len() && spec_category(
                norm_entity(entity_bytes(#[trigger] ents.take(i)[j])),
            ) == c;
        assert(ents.take(i + 1)[j] == ents.take(i)[j]);
        assert(has_category(ents.take(i + 1), c));
    }
    if spec_category(norm_entity(entity_bytes(ents[i]))) == c {
        assert(ents.take(i + 1)[i] == ents[i]);
        assert(has_category(ents.take(i + 1), c));
    }
    if has_category(ents.take(i + 1), c) {
        let j = choose|j: int|
            0 <= j < ents.take(i + 1).len() && spec_category(
                norm_entity(entity_bytes(#[trigger] ents.take(i + 1)[j])),
            ) == c;
        if j < i {
            assert(ents.take(i)[j] == ents.take(i + 1)[j]);
            assert(has_category(ents.take(i), c));
        } else {
            assert(ents.take(i + 1)[j] == ents[i]);
        }
    }
}

/// Look up the exposure multiplier (tenths) of an exposure label.
fn exposure_mult_exec(exposure: &str) -> (r: u32)
    ensures
        r == exposure_mult_tenths(exposure.spec_bytes()),
{
    let e = exposure.as_bytes();
    if bytes_eqi(e, "PRIVATE".as_bytes()) {
        10
    } else if bytes_eqi(e, "INTERNAL".as_bytes()) {
        12
    } else if bytes_eqi(e, "ORG_WIDE".as_bytes()) {
        18
    } else if bytes_eqi(e, "PUBLIC".as_bytes()) {
        25
    } else {
        10
    }
}

/// Relies on `rayon`'s indexed parallel iterators: `par_iter().map(..)
/// .collect()` preserves input order, so entry `i` of the result is the
/// verified `score_entities` applied to entry `i` of the batch.
#[verifier::external_body]
fn par_score_batch(batch: &Vec<(Vec<(String, u32)>, String, u32)>) -> (r: Vec<ScoringResult>)
    requires
        forall|i: int| 0 <= i < batch@.len() ==> (#[trigger] batch@[i]).2 <= 100,
    ensures
        r@.len() == batch@.len(),
        forall|i: int|
            0 <= i < r@.len() ==> scoring_result_ok(
                (#[trigger] batch@[i]).0@,
                encode_utf8(batch@[i].1@),
                batch@[i].2,
                r@[i],
            ),
{
    batch.par_iter().map(|item| score_entities(&item.0, item.1.as_str(), item.2)).collect()
}

/// Score many independent `(entity_counts, exposure, confidence)`
/// triples in parallel, in input order.
pub fn score_entities_batch(batch: &Vec<(Vec<(String, u32)>, String, u32)>) -> (r: Vec<
    ScoringResult,
>)
    requires
        forall|i: int| 0 <= i < batch@.len() ==> (#[trigger] batch@[i]).2 <= 100,
    ensures
        r@.len() == batch@.len(),
        forall|i: int|
            0 <= i < r@.len() ==> scoring_result_ok(
                (#[trigger] batch@[i]).0@,
                encode_utf8(batch@[i].1@),
                batch@[i].2,
                r@[i],
            ),
{
    par_score_batch(batch)
}

} // verus!
