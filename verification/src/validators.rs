//! Format and checksum validators for detected entities.
//!
//! Each validator is a pure function of the candidate text: it extracts
//! the relevant bytes, applies the format rule or check digit, and
//! returns a boolean. Malformed input (wrong length, disallowed
//! characters) is rejected, never an error.

use vstd::prelude::*;
use vstd::slice::{slice_subrange, slice_to_vec};
use vstd::string::StringSliceAdditionalSpecFns;
use crate::textops::{
    alnum_upper, contains_byte, count_byte, digit_val, extract_digits, has_byte, is_alpha_byte,
    is_digit_byte, is_upper_byte, lemma_count_concat, lemma_count_zero, luhn_ok, luhn_rem,
    luhn_sum, mod97, mod97_acc, parse_u32, spec_alnum_upper, spec_digits, spec_parse_u32,
    spec_split, split_bytes,
};

verus! {

// ---------------------------------------------------------------------------
// Shared spec-level rules
// ---------------------------------------------------------------------------

/// The SSN structural rule over the nine digit values: area not 000, 666
/// or 900-999; group not 00; serial not 0000.
pub open spec fn ssn_digits_ok(ds: Seq<u8>) -> bool {
    let area = ds[0] * 100 + ds[1] * 10 + ds[2];
    let group = ds[3] * 10 + ds[4];
    let serial = ds[5] * 1000 + ds[6] * 100 + ds[7] * 10 + ds[8];
    &&& ds.len() == 9
    &&& area != 0
    &&& area != 666
    &&& area < 900
    &&& group != 0
    &&& serial != 0
}

/// The decimal digits a byte contributes in IBAN/ISIN letter expansion:
/// a digit stands for itself, a letter `A`-`Z` for its value 10-35
/// written in two digits.
pub open spec fn letter_code_digits(b: u8) -> Seq<u8> {
    if is_digit_byte(b) {
        seq![digit_val(b)]
    } else if is_upper_byte(b) {
        seq![(((b - 55) / 10) as u8), (((b - 55) % 10) as u8)]
    } else {
        Seq::empty()
    }
}

/// Expansion of a whole byte sequence to decimal digit values, letters
/// mapped through `letter_code_digits`.
pub open spec fn code_digits(s: Seq<u8>) -> Seq<u8>
    decreases s.len(),
{
    if s.len() == 0 {
        Seq::empty()
    } else {
        code_digits(s.drop_last()) + letter_code_digits(s.last())
    }
}

pub proof fn lemma_code_digits_bounded(s: Seq<u8>)
    ensures
        forall|i: int| 0 <= i < code_digits(s).len() ==> code_digits(s)[i] < 10,
    decreases s.len(),
{
    if s.len() > 0 {
        lemma_code_digits_bounded(s.drop_last());
        assert forall|i: int| 0 <= i < code_digits(s).len() implies code_digits(s)[i] < 10 by {
            if i < code_digits(s.drop_last()).len() {
                assert(code_digits(s)[i] == code_digits(s.drop_last())[i]);
            }
        }
    }
}

/// Compute the digit expansion of `s` (digits and upper-case letters).
pub(crate) fn build_code_digits(s: &[u8]) -> (r: Vec<u8>)
    ensures
        r@ == code_digits(s@),
{
    let mut r: Vec<u8> = Vec::new();
    let n = s.len();
    for i in 0..n
        invariant
            n == s@.len(),
            r@ == code_digits(s@.take(i as int)),
    {
        let b = s[i];
        proof {
            assert(s@.take(i + 1).drop_last() =~= s@.take(i as int));
            assert(s@.take(i + 1).last() == s@[i as int]);
        }
        if 48 <= b && b <= 57 {
            r.push(b - 48);
        } else if 65 <= b && b <= 90 {
            r.push((b - 55) / 10);
            r.push((b - 55) % 10);
        }
        proof {
            assert(r@ =~= code_digits(s@.take(i + 1)));
        }
    }
    proof {
        assert(s@.take(n as int) =~= s@);
    }
    r
}

/// The IBAN mod-97 remainder of a cleaned (alphanumeric, upper-case)
/// candidate: the first four bytes move to the end, letters expand to
/// two digits, and the digit string is reduced modulo 97.
pub open spec fn iban_remainder(c: Seq<u8>) -> int {
    mod97_acc(code_digits(c.skip(4) + c.take(4)), 0)
}

/// IBAN validity of a cleaned candidate: length 15-34 and remainder 1.
pub open spec fn iban_clean_ok(c: Seq<u8>) -> bool {
    15 <= c.len() <= 34 && iban_remainder(c) == 1
}

/// Shared executable IBAN core, on a cleaned candidate.
pub(crate) fn iban_check_clean(c: &[u8]) -> (r: bool)
    requires
        forall|i: int| 0 <= i < c@.len() ==> is_digit_byte(c@[i]) || is_upper_byte(c@[i]),
    ensures
        r == iban_clean_ok(c@),
{
    let n = c.len();
    if n < 15 || n > 34 {
        return false;
    }
    let mut rearranged = slice_to_vec(slice_subrange(c, 4, n));
    let mut head = slice_to_vec(slice_subrange(c, 0, 4));
    rearranged.append(&mut head);
    proof {
        assert(rearranged@ =~= c@.skip(4) + c@.take(4));
    }
    let ds = build_code_digits(rearranged.as_slice());
    proof {
        lemma_code_digits_bounded(rearranged@);
    }
    let rem = mod97(ds.as_slice());
    rem == 1
}

// ---------------------------------------------------------------------------
// Luhn validators
// ---------------------------------------------------------------------------

/// The digits of `s` pass the plain Luhn check (at least two of them).
pub open spec fn spec_validate_luhn(s: Seq<u8>) -> bool {
    luhn_ok(spec_digits(s))
}

pub(crate) fn validate_luhn_bytes(s: &[u8]) -> (r: bool)
    ensures
        r == spec_validate_luhn(s@),
{
    let ds = extract_digits(s);
    if ds.len() < 2 {
        return false;
    }
    luhn_rem(ds.as_slice()) == 0
}

/// Luhn check over the digits of `text`; fewer than two digits fail.
pub fn validate_luhn(text: &str) -> (r: bool)
    ensures
        r == spec_validate_luhn(text.spec_bytes()),
{
    validate_luhn_bytes(text.as_bytes())
}

/// A credit-card-sized Luhn check: 13 to 19 digits and a valid check digit.
pub open spec fn spec_luhn_card(s: Seq<u8>) -> bool {
    let ds = spec_digits(s);
    13 <= ds.len() <= 19 && luhn_sum(ds) % 10 == 0
}

pub(crate) fn luhn_bytes(s: &[u8]) -> (r: bool)
    ensures
        r == spec_luhn_card(s@),
{
    let ds = extract_digits(s);
    if ds.len() < 13 || ds.len() > 19 {
        return false;
    }
    luhn_rem(ds.as_slice()) == 0
}

/// Luhn check for credit-card numbers: 13-19 digits, check digit valid.
pub fn luhn(number: &str) -> (r: bool)
    ensures
        r == spec_luhn_card(number.spec_bytes()),
{
    luhn_bytes(number.as_bytes())
}

// ---------------------------------------------------------------------------
// SSN
// ---------------------------------------------------------------------------

/// The digits of `s` form a structurally valid SSN.
pub open spec fn spec_validate_ssn(s: Seq<u8>) -> bool {
    ssn_digits_ok(spec_digits(s))
}

pub(crate) fn validate_ssn_bytes(s: &[u8]) -> (r: bool)
    ensures
        r == spec_validate_ssn(s@),
{
    let ds = extract_digits(s);
    if ds.len() != 9 {
        return false;
    }
    let area: u32 = ds[0] as u32 * 100 + ds[1] as u32 * 10 + ds[2] as u32;
    let group: u32 = ds[3] as u32 * 10 + ds[4] as u32;
    let serial: u32 = ds[5] as u32 * 1000 + ds[6] as u32 * 100 + ds[7] as u32 * 10 + ds[8] as u32;
    if area == 0 || area == 666 || area >= 900 {
        return false;
    }
    group != 0 && serial != 0
}

/// Structural validity of a Social Security number: nine digits, area
/// not 000/666/900-999, group and serial non-zero.
pub fn validate_ssn(text: &str) -> (r: bool)
    ensures
        r == spec_validate_ssn(text.spec_bytes()),
{
    validate_ssn_bytes(text.as_bytes())
}

/// Same structural rule as `validate_ssn`.
pub fn ssn_format(ssn: &str) -> (r: bool)
    ensures
        r == spec_validate_ssn(ssn.spec_bytes()),
{
    validate_ssn_bytes(ssn.as_bytes())
}

// ---------------------------------------------------------------------------
// Phone
// ---------------------------------------------------------------------------

/// A plausible phone number: 10 to 15 digits.
pub open spec fn spec_validate_phone(s: Seq<u8>) -> bool {
    10 <= spec_digits(s).len() <= 15
}

pub(crate) fn validate_phone_bytes(s: &[u8]) -> (r: bool)
    ensures
        r == spec_validate_phone(s@),
{
    let ds = extract_digits(s);
    10 <= ds.len() && ds.len() <= 15
}

/// A phone number has a plausible digit count (10 to 15).
pub fn validate_phone(text: &str) -> (r: bool)
    ensures
        r == spec_validate_phone(text.spec_bytes()),
{
    validate_phone_bytes(text.as_bytes())
}

/// The North-American phone format rule over the digit values of `s`:
/// 10 digits (or 11 with a leading 1, which is stripped), area code and
/// exchange not starting with 0 or 1, and no fictional 555-01xx number.
pub open spec fn spec_phone_format(s: Seq<u8>) -> bool {
    let all = spec_digits(s);
    let d = if all.len() == 11 && all[0] == 1 {
        all.drop_first()
    } else {
        all
    };
    &&& (all.len() == 10 || (all.len() == 11 && all[0] == 1))
    &&& d.len() == 10
    &&& d[0] != 0
    &&& d[0] != 1
    &&& d[3] != 0
    &&& d[3] != 1
    &&& !(d[3] == 5 && d[4] == 5 && d[5] == 5 && d[6] * 10 + d[7] < 2)
}

pub(crate) fn phone_format_bytes(s: &[u8]) -> (r: bool)
    ensures
        r == spec_phone_format(s@),
{
    let all = extract_digits(s);
    let skip: usize = if all.len() == 11 && all[0] == 1 {
        1
    } else if all.len() == 10 {
        0
    } else {
        return false;
    };
    let d = slice_subrange(all.as_slice(), skip, all.len());
    proof {
        if skip == 1 {
            assert(d@ =~= spec_digits(s@).drop_first());
        } else {
            assert(d@ =~= spec_digits(s@));
        }
    }
    if d[0] == 0 || d[0] == 1 {
        return false;
    }
    if d[3] == 0 || d[3] == 1 {
        return false;
    }
    if d[3] == 5 && d[4] == 5 && d[5] == 5 && d[6] * 10 + d[7] < 2 {
        return false;
    }
    true
}

/// North-American phone format: area code and exchange rules, and the
/// fictional 555-01xx range rejected.
pub fn phone_format(phone: &str) -> (r: bool)
    ensures
        r == spec_phone_format(phone.spec_bytes()),
{
    phone_format_bytes(phone.as_bytes())
}

// ---------------------------------------------------------------------------
// Email
// ---------------------------------------------------------------------------

/// Basic email shape: exactly one `@`, a non-empty local part, and a
/// domain that contains a dot but neither starts nor ends with one.
pub open spec fn spec_validate_email(s: Seq<u8>) -> bool {
    let parts = spec_split(s, 64);
    &&& parts.len() == 2
    &&& parts[0].len() > 0
    &&& parts[1].len() > 0
    &&& contains_byte(parts[1], 46)
    &&& parts[1][0] != 46
    &&& parts[1].last() != 46
}

pub(crate) fn validate_email_bytes(s: &[u8]) -> (r: bool)
    ensures
        r == spec_validate_email(s@),
{
    let parts = split_bytes(s, 64);
    if parts.len() != 2 {
        return false;
    }
    let local = &parts[0];
    let domain = &parts[1];
    proof {
        assert(local@ == spec_split(s@, 64)[0]);
        assert(domain@ == spec_split(s@, 64)[1]);
    }
    if local.len() == 0 || domain.len() == 0 {
        return false;
    }
    if !has_byte(domain.as_slice(), 46) {
        return false;
    }
    domain[0] != 46 && domain[domain.len() - 1] != 46
}

/// Basic email address validation.
pub fn validate_email(text: &str) -> (r: bool)
    ensures
        r == spec_validate_email(text.spec_bytes()),
{
    validate_email_bytes(text.as_bytes())
}

// ---------------------------------------------------------------------------
// IPv4
// ---------------------------------------------------------------------------

/// A dotted part parses as a number at most 255.
pub open spec fn octet_ok(p: Seq<u8>) -> bool {
    match spec_parse_u32(p) {
        Some(v) => v <= 255,
        None => false,
    }
}

/// Four dot-separated parts, each parsing to at most 255.
pub open spec fn spec_validate_ipv4(s: Seq<u8>) -> bool {
    let parts = spec_split(s, 46);
    parts.len() == 4 && forall|i: int| 0 <= i < 4 ==> octet_ok(#[trigger] parts[i])
}

pub(crate) fn validate_ipv4_bytes(s: &[u8]) -> (r: bool)
    ensures
        r == spec_validate_ipv4(s@),
{
    let parts = split_bytes(s, 46);
    if parts.len() != 4 {
        return false;
    }
    let n = parts.len();
    for i in 0..n
        invariant
            n == 4,
            parts.deep_view() == spec_split(s@, 46),
            parts@.len() == 4,
            forall|j: int| 0 <= j < i ==> octet_ok(#[trigger] spec_split(s@, 46)[j]),
    {
        proof {
            assert(parts@[i as int]@ == spec_split(s@, 46)[i as int]);
        }
        match parse_u32(parts[i].as_slice()) {
            Some(v) => {
                if v > 255 {
                    return false;
                }
            },
            None => {
                return false;
            },
        }
    }
    true
}

/// Dotted-quad IPv4 validation: four parts, each a number at most 255.
pub fn validate_ipv4(text: &str) -> (r: bool)
    ensures
        r == spec_validate_ipv4(text.spec_bytes()),
{
    validate_ipv4_bytes(text.as_bytes())
}

/// The strict IPv4 format rule: exactly three dots, four parts, no part
/// with a leading zero (except `0` itself), each at most 255.
pub open spec fn spec_ipv4_format(s: Seq<u8>) -> bool {
    let parts = spec_split(s, 46);
    &&& parts.len() == 4
    &&& forall|i: int|
        0 <= i < 4 ==> (octet_ok(#[trigger] parts[i]) && !(parts[i].len() > 1 && parts[i][0]
            == 48))
}

/// Relies on `memchr::memchr`: the index of the first occurrence of
/// `needle` in `haystack`, or `None` when it does not occur.
#[verifier::external_body]
fn find_first_byte(needle: u8, haystack: &[u8]) -> (r: Option<usize>)
    ensures
        match r {
            Some(i) => i < haystack@.len() && haystack@[i as int] == needle && forall|j: int|
                0 <= j < i ==> haystack@[j] != needle,
            None => forall|j: int| 0 <= j < haystack@.len() ==> haystack@[j] != needle,
        },
{
    memchr::memchr(needle, haystack)
}

/// Count the occurrences of `b` in `s`, scanning with `find_first_byte`.
fn count_byte_fast(s: &[u8], b: u8) -> (r: usize)
    ensures
        r as int == count_byte(s@, b),
{
    let n = s.len();
    let mut count: usize = 0;
    let mut pos: usize = 0;
    proof {
        lemma_count_zero(s@.take(0), b);
        crate::textops::lemma_count_nonneg(s@, b);
        crate::textops::lemma_count_le_len(s@, b);
    }
    loop
        invariant
            pos <= n,
            n == s@.len(),
            count as int == count_byte(s@.take(pos as int), b),
            count <= pos,
        decreases n - pos,
    {
        match find_first_byte(b, slice_subrange(s, pos, n)) {
            Some(idx) => {
                proof {
                    let tail = s@.skip(pos as int);
                    let seg = tail.take(idx + 1);
                    assert(forall|j: int| 0 <= j < seg.len() ==> seg[j] == s@[pos + j]);
                    lemma_count_zero(seg.drop_last(), b);
                    assert(count_byte(seg, b) == 1);
                    lemma_count_concat(s@.take(pos as int), seg, b);
                    assert(s@.take(pos as int) + seg =~= s@.take(pos + idx + 1));
                }
                count = count + 1;
                pos = pos + idx + 1;
            },
            None => {
                proof {
                    let tail = s@.skip(pos as int);
                    assert(forall|j: int| 0 <= j < tail.len() ==> tail[j] == s@[pos + j]);
                    lemma_count_zero(tail, b);
                    lemma_count_concat(s@.take(pos as int), tail, b);
                    assert(s@.take(pos as int) + tail =~= s@);
                }
                return count;
            },
        }
    }
}

pub(crate) fn ipv4_format_bytes(s: &[u8]) -> (r: bool)
    ensures
        r == spec_ipv4_format(s@),
{
    let dots = count_byte_fast(s, 46);
    if dots != 3 {
        proof {
            crate::textops::lemma_split_count(s@, 46);
        }
        return false;
    }
    let parts = split_bytes(s, 46);
    if parts.len() != 4 {
        return false;
    }
    let n = parts.len();
    for i in 0..n
        invariant
            n == 4,
            parts.deep_view() == spec_split(s@, 46),
            parts@.len() == 4,
            forall|j: int|
                0 <= j < i ==> (octet_ok(#[trigger] spec_split(s@, 46)[j]) && !(spec_split(
                    s@,
                    46,
                )[j].len() > 1 && spec_split(s@, 46)[j][0] == 48)),
    {
        proof {
            assert(parts@[i as int]@ == spec_split(s@, 46)[i as int]);
        }
        let part = &parts[i];
        if part.len() > 1 && part[0] == 48 {
            return false;
        }
        match parse_u32(part.as_slice()) {
            Some(v) => {
                if v > 255 {
                    return false;
                }
            },
            None => {
                return false;
            },
        }
    }
    true
}

/// Strict IPv4 format: exactly three dots, no leading zeros, each octet
/// at most 255.
pub fn ipv4_format(ip: &str) -> (r: bool)
    ensures
        r == spec_ipv4_format(ip.spec_bytes()),
{
    ipv4_format_bytes(ip.as_bytes())
}

/// The values of the dot-separated parts of `s` that parse as `u32`,
/// parts that do not parse being dropped.
pub open spec fn parsed_octets(parts: Seq<Seq<u8>>) -> Seq<u32>
    decreases parts.len(),
{
    if parts.len() == 0 {
        Seq::empty()
    } else {
        parsed_octets(parts.drop_last()) + match spec_parse_u32(parts.last()) {
            Some(v) => seq![v],
            None => Seq::empty(),
        }
    }
}

/// A private, loopback, this-network or multicast/reserved IPv4 address:
/// exactly four parseable parts whose first octets fall in the reserved
/// ranges.
pub open spec fn spec_is_private_ip(s: Seq<u8>) -> bool {
    let vals = parsed_octets(spec_split(s, 46));
    let a = vals[0];
    let b = vals[1];
    &&& vals.len() == 4
    &&& (a == 10 || (a == 172 && 16 <= b <= 31) || (a == 192 && b == 168) || a == 127 || a == 0
        || a >= 224)
}

pub(crate) fn is_private_ip_bytes(s: &[u8]) -> (r: bool)
    ensures
        r == spec_is_private_ip(s@),
{
    let parts = split_bytes(s, 46);
    let mut vals: Vec<u32> = Vec::new();
    let n = parts.len();
    for i in 0..n
        invariant
            n == parts@.len(),
            parts.deep_view() == spec_split(s@, 46),
            vals@ == parsed_octets(spec_split(s@, 46).take(i as int)),
    {
        proof {
            let ps = spec_split(s@, 46);
            assert(parts@[i as int]@ == ps[i as int]);
            assert(ps.take(i + 1).drop_last() =~= ps.take(i as int));
            assert(ps.take(i + 1).last() == ps[i as int]);
        }
        match parse_u32(parts[i].as_slice()) {
            Some(v) => {
                vals.push(v);
            },
            None => {},
        }
        proof {
            assert(vals@ =~= parsed_octets(spec_split(s@, 46).take(i + 1)));
        }
    }
    proof {
        assert(spec_split(s@, 46).take(n as int) =~= spec_split(s@, 46));
    }
    if vals.len() != 4 {
        return false;
    }
    let a = vals[0];
    let b = vals[1];
    a == 10 || (a == 172 && 16 <= b && b <= 31) || (a == 192 && b == 168) || a == 127 || a == 0
        || a >= 224
}

/// Whether an IPv4 address lies in a private or reserved range.
pub fn is_private_ip(ip: &str) -> (r: bool)
    ensures
        r == spec_is_private_ip(ip.spec_bytes()),
{
    is_private_ip_bytes(ip.as_bytes())
}

// ---------------------------------------------------------------------------
// IBAN
// ---------------------------------------------------------------------------

/// IBAN validity of `s` after keeping only its ASCII letters and digits
/// (upper-cased): length 15-34 and mod-97 remainder 1.
pub open spec fn spec_validate_iban(s: Seq<u8>) -> bool {
    iban_clean_ok(spec_alnum_upper(s))
}

pub(crate) fn validate_iban_bytes(s: &[u8]) -> (r: bool)
    ensures
        r == spec_validate_iban(s@),
{
    let c = alnum_upper(s);
    proof {
        crate::textops::lemma_alnum_upper_classes(s@);
    }
    iban_check_clean(c.as_slice())
}

/// IBAN mod-97 validation.
pub fn validate_iban(text: &str) -> (r: bool)
    ensures
        r == spec_validate_iban(text.spec_bytes()),
{
    validate_iban_bytes(text.as_bytes())
}

// ---------------------------------------------------------------------------
// NPI
// ---------------------------------------------------------------------------

/// NPI rule: ten digits, the first 1 or 2, Luhn valid once prefixed
/// with the issuer constant 80840.
pub open spec fn spec_validate_npi(s: Seq<u8>) -> bool {
    let ds = spec_digits(s);
    &&& ds.len() == 10
    &&& (ds[0] == 1 || ds[0] == 2)
    &&& luhn_sum(seq![8u8, 0u8, 8u8, 4u8, 0u8] + ds) % 10 == 0
}

pub(crate) fn validate_npi_bytes(s: &[u8]) -> (r: bool)
    ensures
        r == spec_validate_npi(s@),
{
    let ds = extract_digits(s);
    if ds.len() != 10 {
        return false;
    }
    if ds[0] != 1 && ds[0] != 2 {
        return false;
    }
    let mut prefixed: Vec<u8> = Vec::new();
    prefixed.push(8);
    prefixed.push(0);
    prefixed.push(8);
    prefixed.push(4);
    prefixed.push(0);
    let mut tail = slice_to_vec(ds.as_slice());
    prefixed.append(&mut tail);
    proof {
        assert(prefixed@ =~= seq![8u8, 0u8, 8u8, 4u8, 0u8] + spec_digits(s@));
    }
    luhn_rem(prefixed.as_slice()) == 0
}

/// National Provider Identifier validation: Luhn over `80840` + digits.
pub fn validate_npi(text: &str) -> (r: bool)
    ensures
        r == spec_validate_npi(text.spec_bytes()),
{
    validate_npi_bytes(text.as_bytes())
}

// ---------------------------------------------------------------------------
// CUSIP
// ---------------------------------------------------------------------------

/// The CUSIP character value over cleaned bytes: digits stand for
/// themselves, letters for 10-35.
pub open spec fn cusip_char_val(b: u8) -> int {
    if is_digit_byte(b) {
        digit_val(b) as int
    } else if is_upper_byte(b) {
        b - 55
    } else {
        0
    }
}

/// The CUSIP weighted digit sum over the first eight cleaned bytes:
/// values on odd positions are doubled, and the digit sum of each
/// (possibly doubled) value is accumulated.
pub open spec fn cusip_sum(c: Seq<u8>, i: int) -> int
    decreases 8 - i,
{
    if i < 0 || i >= 8 {
        0
    } else {
        let v = cusip_char_val(c[i]);
        let w = if i % 2 == 1 {
            2 * v
        } else {
            v
        };
        w / 10 + w % 10 + cusip_sum(c, i + 1)
    }
}

/// CUSIP validity of `s` after keeping its ASCII letters and digits
/// (upper-cased): nine characters whose weighted digit sum matches the
/// ninth as check digit.
pub open spec fn spec_validate_cusip(s: Seq<u8>) -> bool {
    let c = spec_alnum_upper(s);
    &&& c.len() == 9
    &&& is_digit_byte(c[8])
    &&& digit_val(c[8]) as int == (10 - cusip_sum(c, 0) % 10) % 10
}

/// The executable CUSIP sum over cleaned bytes.
fn cusip_sum_exec(c: &[u8]) -> (r: u64)
    requires
        c@.len() >= 8,
        forall|i: int| 0 <= i < c@.len() ==> is_digit_byte(c@[i]) || is_upper_byte(c@[i]),
    ensures
        r as int == cusip_sum(c@, 0),
{
    let mut total: u64 = 0;
    let mut i: usize = 8;
    while i > 0
        invariant
            i <= 8,
            c@.len() >= 8,
            forall|k: int| 0 <= k < c@.len() ==> is_digit_byte(c@[k]) || is_upper_byte(c@[k]),
            total as int == cusip_sum(c@, i as int),
            total <= 18 * (8 - i),
        decreases i,
    {
        i = i - 1;
        let b = c[i];
        let v: u64 = if 48 <= b && b <= 57 {
            (b - 48) as u64
        } else {
            (b - 55) as u64
        };
        let w: u64 = if i % 2 == 1 {
            2 * v
        } else {
            v
        };
        total = total + w / 10 + w % 10;
    }
    total
}

pub(crate) fn validate_cusip_bytes(s: &[u8]) -> (r: bool)
    ensures
        r == spec_validate_cusip(s@),
{
    let c = alnum_upper(s);
    proof {
        crate::textops::lemma_alnum_upper_classes(s@);
    }
    if c.len() != 9 {
        return false;
    }
    let total = cusip_sum_exec(c.as_slice());
    let check = (10 - total % 10) % 10;
    let last = c[8];
    if !(48 <= last && last <= 57) {
        return false;
    }
    (last - 48) as u64 == check
}

/// CUSIP check-digit validation.
pub fn validate_cusip(text: &str) -> (r: bool)
    ensures
        r == spec_validate_cusip(text.spec_bytes()),
{
    validate_cusip_bytes(text.as_bytes())
}

// ---------------------------------------------------------------------------
// ISIN
// ---------------------------------------------------------------------------

/// ISIN validity of `s` after keeping its ASCII letters and digits
/// (upper-cased): twelve characters, two leading letters, and a Luhn
/// check over the full digit expansion.
pub open spec fn spec_validate_isin(s: Seq<u8>) -> bool {
    let c = spec_alnum_upper(s);
    &&& c.len() == 12
    &&& is_alpha_byte(c[0])
    &&& is_alpha_byte(c[1])
    &&& luhn_ok(code_digits(c))
}

pub(crate) fn validate_isin_bytes(s: &[u8]) -> (r: bool)
    ensures
        r == spec_validate_isin(s@),
{
    let c = alnum_upper(s);
    proof {
        crate::textops::lemma_alnum_upper_classes(s@);
    }
    if c.len() != 12 {
        return false;
    }
    let b0 = c[0];
    let b1 = c[1];
    if !(65 <= b0 && b0 <= 90) || !(65 <= b1 && b1 <= 90) {
        return false;
    }
    let ds = build_code_digits(c.as_slice());
    proof {
        lemma_code_digits_bounded(c@);
    }
    if ds.len() < 2 {
        return false;
    }
    luhn_rem(ds.as_slice()) == 0
}

/// ISIN validation: country code, letter expansion and Luhn check.
pub fn validate_isin(text: &str) -> (r: bool)
    ensures
        r == spec_validate_isin(text.spec_bytes()),
{
    validate_isin_bytes(text.as_bytes())
}

} // verus!
