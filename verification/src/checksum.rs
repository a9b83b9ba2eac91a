//! Checksum validators with graduated confidence.
//!
//! Each validator returns `(valid, confidence)` where confidence is
//! expressed in hundredths (99 stands for 0.99). A rejected or
//! malformed candidate yields `(false, 0)`; some validators accept a
//! structurally plausible candidate at a reduced confidence band.

use rayon::iter::{IntoParallelRefIterator, ParallelIterator};
use vstd::prelude::*;
use vstd::slice::{slice_subrange, slice_to_vec};
use vstd::string::StringSliceAdditionalSpecFns;
use vstd::utf8::encode_utf8;
use crate::textops::{
    bytes_eq, digit_val, extract_digits, is_digit_byte, is_upper_byte, luhn_ok, luhn_rem,
    luhn_sum, sanitize, spec_digits, spec_sanitize, spec_trim, trim_bytes,
};
use crate::validators::{
    build_code_digits, code_digits, iban_check_clean, iban_clean_ok, lemma_code_digits_bounded,
};

verus! {

// ---------------------------------------------------------------------------
// Weighted digit sums
// ---------------------------------------------------------------------------

/// Sum of `vals[i] * ws[i]` from position `i` on, over the positions
/// both sequences cover.
pub open spec fn wsum(vals: Seq<u8>, ws: Seq<u8>, i: int) -> int
    decreases vals.len() - i,
{
    if 0 <= i < vals.len() && i < ws.len() {
        vals[i] * ws[i] + wsum(vals, ws, i + 1)
    } else {
        0
    }
}

/// Alternating weights starting at `a`: `a, b, a, b, ...` of length `n`.
pub open spec fn alt_weights(a: u8, b: u8, n: int) -> Seq<u8> {
    Seq::new(n as nat, |k: int| if k % 2 == 0 { a } else { b })
}

proof fn lemma_wsum_nonneg(vals: Seq<u8>, ws: Seq<u8>, i: int)
    ensures
        wsum(vals, ws, i) >= 0,
    decreases vals.len() - i,
{
    if 0 <= i < vals.len() && i < ws.len() {
        lemma_wsum_nonneg(vals, ws, i + 1);
    }
}

/// Compute a weighted digit sum.
fn wsum_exec(vals: &[u8], ws: &[u8]) -> (r: u64)
    requires
        vals@.len() <= 64,
        forall|k: int| 0 <= k < vals@.len() ==> vals@[k] < 10,
        forall|k: int| 0 <= k < ws@.len() ==> ws@[k] <= 10,
    ensures
        r as int == wsum(vals@, ws@, 0),
{
    let n = vals.len();
    let m = ws.len();
    let mut total: u64 = 0;
    let mut i = if m < n {
        m
    } else {
        n
    };
    let lim = i;
    while i > 0
        invariant
            i <= lim <= 64,
            lim <= n && lim <= m,
            n == vals@.len(),
            m == ws@.len(),
            lim == if m < n { m as int } else { n as int },
            forall|k: int| 0 <= k < vals@.len() ==> vals@[k] < 10,
            forall|k: int| 0 <= k < ws@.len() ==> ws@[k] <= 10,
            total as int == wsum(vals@, ws@, i as int),
            total <= 90 * ((lim - i) as u64),
        decreases i,
    {
        i = i - 1;
        let v = vals[i];
        let w = ws[i];
        proof {
            assert((v as u64) * (w as u64) <= 90) by (nonlinear_arith)
                requires
                    v < 10,
                    w <= 10,
            ;
        }
        let prod: u64 = (v as u64) * (w as u64);
        total = total + prod;
    }
    total
}

/// Build the alternating weight vector `a, b, a, b, ...` of length `n`.
fn alt_weights_exec(a: u8, b: u8, n: usize) -> (r: Vec<u8>)
    ensures
        r@ == alt_weights(a, b, n as int),
{
    let mut r: Vec<u8> = Vec::new();
    for i in 0..n
        invariant
            r@ == alt_weights(a, b, i as int),
    {
        if i % 2 == 0 {
            r.push(a);
        } else {
            r.push(b);
        }
        proof {
            assert(r@ =~= alt_weights(a, b, i + 1));
        }
    }
    r
}

// ---------------------------------------------------------------------------
// SSN
// ---------------------------------------------------------------------------

/// Graduated SSN validation over the trimmed candidate: only digits,
/// dashes and spaces are allowed, and exactly nine digits. Confidence
/// 99, lowered to 85 for an invalid area (000, 666, 9xx) and capped at
/// 80 for group 00 or serial 0000.
pub open spec fn spec_checksum_ssn(s: Seq<u8>) -> (bool, u32) {
    let t = spec_trim(s);
    let ds = spec_digits(t);
    if t.len() > 0 && (forall|i: int|
        0 <= i < t.len() ==> (is_digit_byte(#[trigger] t[i]) || t[i] == 45 || t[i] == 32))
        && ds.len() == 9 {
        let area_bad = (ds[0] == 0 && ds[1] == 0 && ds[2] == 0) || (ds[0] == 6 && ds[1] == 6
            && ds[2] == 6) || ds[0] == 9;
        let group_bad = ds[3] == 0 && ds[4] == 0;
        let serial_bad = ds[5] == 0 && ds[6] == 0 && ds[7] == 0 && ds[8] == 0;
        let conf: u32 = if group_bad || serial_bad {
            80
        } else if area_bad {
            85
        } else {
            99
        };
        (true, conf)
    } else {
        (false, 0)
    }
}

/// Validate an SSN with graduated confidence.
pub fn checksum_ssn(ssn: &str) -> (r: (bool, u32))
    ensures
        r == spec_checksum_ssn(ssn.spec_bytes()),
{
    checksum_ssn_bytes(ssn.as_bytes())
}

pub(crate) fn checksum_ssn_bytes(s: &[u8]) -> (r: (bool, u32))
    ensures
        r == spec_checksum_ssn(s@),
{
    let t = trim_bytes(s);
    if t.len() == 0 {
        return (false, 0);
    }
    let n = t.len();
    for i in 0..n
        invariant
            n == t@.len(),
            t@ == spec_trim(s@),
            forall|j: int|
                0 <= j < i ==> (is_digit_byte(#[trigger] t@[j]) || t@[j] == 45 || t@[j] == 32),
    {
        let b = t[i];
        if !((48 <= b && b <= 57) || b == 45 || b == 32) {
            return (false, 0);
        }
    }
    let ds = extract_digits(t.as_slice());
    if ds.len() != 9 {
        return (false, 0);
    }
    let area_bad = (ds[0] == 0 && ds[1] == 0 && ds[2] == 0) || (ds[0] == 6 && ds[1] == 6 && ds[2]
        == 6) || ds[0] == 9;
    let group_bad = ds[3] == 0 && ds[4] == 0;
    let serial_bad = ds[5] == 0 && ds[6] == 0 && ds[7] == 0 && ds[8] == 0;
    let conf: u32 = if group_bad || serial_bad {
        80
    } else if area_bad {
        85
    } else {
        99
    };
    (true, conf)
}

// ---------------------------------------------------------------------------
// Credit card
// ---------------------------------------------------------------------------

/// A known issuer prefix over the digit values (Visa, Mastercard, Amex,
/// Discover, JCB, Diners Club).
pub open spec fn card_prefix_ok(ds: Seq<u8>) -> bool {
    let p2 = ds[0] * 10 + ds[1];
    let p3 = ds[0] * 100 + ds[1] * 10 + ds[2];
    let p4 = ds[0] * 1000 + ds[1] * 100 + ds[2] * 10 + ds[3];
    ||| ds[0] == 4
    ||| 51 <= p2 <= 55
    ||| 2221 <= p4 <= 2720
    ||| p2 == 34
    ||| p2 == 37
    ||| p4 == 6011
    ||| p2 == 65
    ||| 644 <= p3 <= 649
    ||| p2 == 35
    ||| p2 == 36
    ||| 300 <= p3 <= 305
    ||| p2 == 38
    ||| p2 == 39
}

/// Credit-card validation: 13-19 digits and a known issuer prefix.
/// Confidence 99 with a valid Luhn check digit, 87 without one.
pub open spec fn spec_checksum_credit_card(s: Seq<u8>) -> (bool, u32) {
    let ds = spec_digits(s);
    if 13 <= ds.len() <= 19 && card_prefix_ok(ds) {
        if luhn_sum(ds) % 10 == 0 {
            (true, 99)
        } else {
            (true, 87)
        }
    } else {
        (false, 0)
    }
}

/// Validate a credit card number: issuer prefix plus Luhn.
pub fn checksum_credit_card(cc: &str) -> (r: (bool, u32))
    ensures
        r == spec_checksum_credit_card(cc.spec_bytes()),
{
    checksum_credit_card_bytes(cc.as_bytes())
}

pub(crate) fn checksum_credit_card_bytes(s: &[u8]) -> (r: (bool, u32))
    ensures
        r == spec_checksum_credit_card(s@),
{
    let ds = extract_digits(s);
    if ds.len() < 13 || ds.len() > 19 {
        return (false, 0);
    }
    let p2: u32 = ds[0] as u32 * 10 + ds[1] as u32;
    let p3: u32 = ds[0] as u32 * 100 + ds[1] as u32 * 10 + ds[2] as u32;
    let p4: u32 = ds[0] as u32 * 1000 + ds[1] as u32 * 100 + ds[2] as u32 * 10 + ds[3] as u32;
    let valid_prefix = ds[0] == 4 || (51 <= p2 && p2 <= 55) || (2221 <= p4 && p4 <= 2720) || p2
        == 34 || p2 == 37 || p4 == 6011 || p2 == 65 || (644 <= p3 && p3 <= 649) || p2 == 35 || p2
        == 36 || (300 <= p3 && p3 <= 305) || p2 == 38 || p2 == 39;
    if !valid_prefix {
        return (false, 0);
    }
    if luhn_rem(ds.as_slice()) != 0 {
        return (true, 87);
    }
    (true, 99)
}

// ---------------------------------------------------------------------------
// NPI
// ---------------------------------------------------------------------------

/// NPI validation: ten digits, the first 1 or 2, Luhn over the digits
/// prefixed with the issuer constant 80840.
pub open spec fn spec_checksum_npi(s: Seq<u8>) -> (bool, u32) {
    let ds = spec_digits(s);
    if ds.len() == 10 && (ds[0] == 1 || ds[0] == 2) && luhn_sum(
        seq![8u8, 0u8, 8u8, 4u8, 0u8] + ds,
    ) % 10 == 0 {
        (true, 99)
    } else {
        (false, 0)
    }
}

/// Validate an NPI using Luhn with the 80840 prefix.
pub fn checksum_npi(npi: &str) -> (r: (bool, u32))
    ensures
        r == spec_checksum_npi(npi.spec_bytes()),
{
    checksum_npi_bytes(npi.as_bytes())
}

pub(crate) fn checksum_npi_bytes(s: &[u8]) -> (r: (bool, u32))
    ensures
        r == spec_checksum_npi(s@),
{
    let ds = extract_digits(s);
    if ds.len() != 10 {
        return (false, 0);
    }
    if ds[0] != 1 && ds[0] != 2 {
        return (false, 0);
    }
    let mut prefixed: Vec<u8> = Vec::new();
    prefixed.push(8);
    prefixed.push(0);
    prefixed.push(8);
    prefixed.push(4);
    prefixed.push(0);
    let mut tail = slice_to_vec(ds.as_slice());
    prefixed.append(&mut tail);
    proof {
        assert(prefixed@ =~= seq![8u8, 0u8, 8u8, 4u8, 0u8] + spec_digits(s@));
    }
    if luhn_rem(prefixed.as_slice()) != 0 {
        return (false, 0);
    }
    (true, 99)
}

// ---------------------------------------------------------------------------
// DEA
// ---------------------------------------------------------------------------

/// DEA number validation over the cleaned (upper-cased, space-free)
/// candidate: two letters, seven digits, and the DEA weighted checksum
/// matching the seventh digit.
pub open spec fn spec_checksum_dea(s: Seq<u8>) -> (bool, u32) {
    let c = spec_sanitize(s, false);
    if c.len() == 9 && is_upper_byte(c[0]) && is_upper_byte(c[1]) && (forall|i: int|
        2 <= i < 9 ==> is_digit_byte(#[trigger] c[i])) && (digit_val(c[2]) + digit_val(c[4])
        + digit_val(c[6]) + 2 * (digit_val(c[3]) + digit_val(c[5]) + digit_val(c[7]))) % 10
        == digit_val(c[8]) {
        (true, 99)
    } else {
        (false, 0)
    }
}

/// Validate a DEA registration number.
pub fn checksum_dea(dea: &str) -> (r: (bool, u32))
    ensures
        r == spec_checksum_dea(dea.spec_bytes()),
{
    checksum_dea_bytes(dea.as_bytes())
}

pub(crate) fn checksum_dea_bytes(s: &[u8]) -> (r: (bool, u32))
    ensures
        r == spec_checksum_dea(s@),
{
    let c = sanitize(s, false);
    if c.len() != 9 {
        return (false, 0);
    }
    if !(65 <= c[0] && c[0] <= 90) || !(65 <= c[1] && c[1] <= 90) {
        return (false, 0);
    }
    let n = c.len();
    let mut i: usize = 2;
    while i < 9
        invariant
            2 <= i <= 9,
            n == c@.len() == 9,
            c@ == spec_sanitize(s@, false),
            forall|j: int| 2 <= j < i ==> is_digit_byte(#[trigger] c@[j]),
        decreases 9 - i,
    {
        let b = c[i];
        if !(48 <= b && b <= 57) {
            return (false, 0);
        }
        i = i + 1;
    }
    let check: u32 = ((c[2] - 48) as u32 + (c[4] - 48) as u32 + (c[6] - 48) as u32 + 2 * ((c[3]
        - 48) as u32 + (c[5] - 48) as u32 + (c[7] - 48) as u32)) % 10;
    if check != (c[8] - 48) as u32 {
        return (false, 0);
    }
    (true, 99)
}

// ---------------------------------------------------------------------------
// IBAN
// ---------------------------------------------------------------------------

/// IBAN validation over the cleaned candidate: length 15-34, only
/// digits and letters, and mod-97 remainder 1.
pub open spec fn spec_checksum_iban(s: Seq<u8>) -> (bool, u32) {
    let c = spec_sanitize(s, false);
    if (forall|i: int|
        0 <= i < c.len() ==> (is_digit_byte(#[trigger] c[i]) || is_upper_byte(c[i])))
        && iban_clean_ok(c) {
        (true, 99)
    } else {
        (false, 0)
    }
}

/// Validate an IBAN using the mod-97 algorithm.
pub fn checksum_iban(iban: &str) -> (r: (bool, u32))
    ensures
        r == spec_checksum_iban(iban.spec_bytes()),
{
    checksum_iban_bytes(iban.as_bytes())
}

pub(crate) fn checksum_iban_bytes(s: &[u8]) -> (r: (bool, u32))
    ensures
        r == spec_checksum_iban(s@),
{
    let c = sanitize(s, false);
    let n = c.len();
    for i in 0..n
        invariant
            n == c@.len(),
            c@ == spec_sanitize(s@, false),
            forall|j: int|
                0 <= j < i ==> (is_digit_byte(#[trigger] c@[j]) || is_upper_byte(c@[j])),
    {
        let b = c[i];
        if !((48 <= b && b <= 57) || (65 <= b && b <= 90)) {
            return (false, 0);
        }
    }
    if iban_check_clean(c.as_slice()) {
        (true, 99)
    } else {
        (false, 0)
    }
}

// ---------------------------------------------------------------------------
// VIN
// ---------------------------------------------------------------------------

/// A byte the VIN transliteration accepts: digits and letters except
/// I, O and Q.
pub open spec fn vin_char_ok(b: u8) -> bool {
    is_digit_byte(b) || (65 <= b <= 72) || (74 <= b <= 78) || b == 80 || b == 82 || (83 <= b <= 90)
}

/// The VIN transliteration value of a byte.
pub open spec fn vin_char_val(b: u8) -> u8 {
    if is_digit_byte(b) {
        digit_val(b)
    } else if 65 <= b <= 72 {
        (b - 64) as u8
    } else if 74 <= b <= 78 {
        (b - 73) as u8
    } else if b == 80 {
        7
    } else if b == 82 {
        9
    } else if 83 <= b <= 90 {
        (b - 81) as u8
    } else {
        0
    }
}

/// The fixed VIN position weights.
pub open spec fn vin_weights() -> Seq<u8> {
    seq![8u8, 7u8, 6u8, 5u8, 4u8, 3u8, 2u8, 10u8, 0u8, 9u8, 8u8, 7u8, 6u8, 5u8, 4u8, 3u8, 2u8]
}

/// VIN validation over the cleaned candidate: 17 transliterable
/// characters, and the weighted sum modulo 11 matching the check
/// character at position 8 (10 written as `X`).
pub open spec fn spec_checksum_vin(s: Seq<u8>) -> (bool, u32) {
    let c = spec_sanitize(s, false);
    let vals = c.map_values(|b: u8| vin_char_val(b));
    let total = wsum(vals, vin_weights(), 0);
    let check = total % 11;
    let check_byte: u8 = if check == 10 {
        88
    } else {
        (48 + check) as u8
    };
    if c.len() == 17 && (forall|i: int| 0 <= i < 17 ==> vin_char_ok(#[trigger] c[i])) && c[8]
        == check_byte {
        (true, 99)
    } else {
        (false, 0)
    }
}

/// Validate a VIN using its check digit.
pub fn checksum_vin(vin: &str) -> (r: (bool, u32))
    ensures
        r == spec_checksum_vin(vin.spec_bytes()),
{
    checksum_vin_bytes(vin.as_bytes())
}

pub(crate) fn checksum_vin_bytes(s: &[u8]) -> (r: (bool, u32))
    ensures
        r == spec_checksum_vin(s@),
{
    let c = sanitize(s, false);
    if c.len() != 17 {
        return (false, 0);
    }
    let mut vals: Vec<u8> = Vec::new();
    let n = c.len();
    for i in 0..n
        invariant
            n == c@.len() == 17,
            c@ == spec_sanitize(s@, false),
            forall|j: int| 0 <= j < i ==> vin_char_ok(#[trigger] c@[j]),
            vals@ == c@.take(i as int).map_values(|b: u8| vin_char_val(b)),
            forall|j: int| 0 <= j < vals@.len() ==> vals@[j] < 10,
    {
        let b = c[i];
        let v: u8 = if 48 <= b && b <= 57 {
            b - 48
        } else if 65 <= b && b <= 72 {
            b - 64
        } else if 74 <= b && b <= 78 {
            b - 73
        } else if b == 80 {
            7
        } else if b == 82 {
            9
        } else if 83 <= b && b <= 90 {
            b - 81
        } else {
            return (false, 0);
        };
        vals.push(v);
        proof {
            assert(vals@ =~= c@.take(i + 1).map_values(|x: u8| vin_char_val(x)));
        }
    }
    proof {
        assert(c@.take(17) =~= c@);
    }
    let mut ws: Vec<u8> = Vec::new();
    ws.push(8);
    ws.push(7);
    ws.push(6);
    ws.push(5);
    ws.push(4);
    ws.push(3);
    ws.push(2);
    ws.push(10);
    ws.push(0);
    ws.push(9);
    ws.push(8);
    ws.push(7);
    ws.push(6);
    ws.push(5);
    ws.push(4);
    ws.push(3);
    ws.push(2);
    proof {
        assert(ws@ =~= vin_weights());
    }
    let total = wsum_exec(vals.as_slice(), ws.as_slice());
    let check = total % 11;
    let check_byte: u8 = if check == 10 {
        88
    } else {
        48 + check as u8
    };
    proof {
        lemma_wsum_nonneg(vals@, ws@, 0);
    }
    if c[8] != check_byte {
        return (false, 0);
    }
    (true, 99)
}

// ---------------------------------------------------------------------------
// ABA routing
// ---------------------------------------------------------------------------

/// ABA routing number validation: nine digits, a valid Federal Reserve
/// prefix, and the 3-7-1 weighted checksum divisible by ten.
pub open spec fn spec_checksum_aba(s: Seq<u8>) -> (bool, u32) {
    let ds = spec_digits(s);
    let prefix = ds[0] * 10 + ds[1];
    let total = 3 * (ds[0] + ds[3] + ds[6]) + 7 * (ds[1] + ds[4] + ds[7]) + ds[2] + ds[5] + ds[8];
    if ds.len() == 9 && (prefix <= 12 || (21 <= prefix <= 32) || (61 <= prefix <= 72) || prefix
        == 80) && total % 10 == 0 {
        (true, 99)
    } else {
        (false, 0)
    }
}

/// Validate an ABA routing number.
pub fn checksum_aba_routing(aba: &str) -> (r: (bool, u32))
    ensures
        r == spec_checksum_aba(aba.spec_bytes()),
{
    checksum_aba_routing_bytes(aba.as_bytes())
}

pub(crate) fn checksum_aba_routing_bytes(s: &[u8]) -> (r: (bool, u32))
    ensures
        r == spec_checksum_aba(s@),
{
    let ds = extract_digits(s);
    if ds.len() != 9 {
        return (false, 0);
    }
    let prefix: u32 = ds[0] as u32 * 10 + ds[1] as u32;
    let valid_prefix = prefix <= 12 || (21 <= prefix && prefix <= 32) || (61 <= prefix && prefix
        <= 72) || prefix == 80;
    if !valid_prefix {
        return (false, 0);
    }
    let total: u32 = 3 * (ds[0] as u32 + ds[3] as u32 + ds[6] as u32) + 7 * (ds[1] as u32
        + ds[4] as u32 + ds[7] as u32) + ds[2] as u32 + ds[5] as u32 + ds[8] as u32;
    if total % 10 != 0 {
        return (false, 0);
    }
    (true, 99)
}

// ---------------------------------------------------------------------------
// UPS tracking
// ---------------------------------------------------------------------------

/// A byte the UPS transliteration accepts: digits and letters except
/// I and O.
pub open spec fn ups_char_ok(b: u8) -> bool {
    is_digit_byte(b) || (65 <= b <= 72) || (74 <= b <= 78) || (80 <= b <= 90)
}

/// The UPS transliteration value of a byte.
pub open spec fn ups_char_val(b: u8) -> u8 {
    if is_digit_byte(b) {
        digit_val(b)
    } else if 65 <= b <= 72 {
        (b - 63) as u8
    } else if 74 <= b <= 78 {
        (b - 73) as u8
    } else if b == 80 {
        7
    } else if b == 81 {
        8
    } else if b == 82 {
        9
    } else if 83 <= b <= 90 {
        (b - 82) as u8
    } else {
        0
    }
}

/// UPS tracking number validation over the cleaned candidate: `1Z`
/// followed by 16 transliterable characters, alternating 1-2 weights
/// over the first 15, and `(10 - total) mod 10` matching the last.
pub open spec fn spec_checksum_ups(s: Seq<u8>) -> (bool, u32) {
    let c = spec_sanitize(s, false);
    let data = c.skip(2);
    let vals = data.map_values(|b: u8| ups_char_val(b));
    let total = wsum(vals, alt_weights(1, 2, 15), 0);
    if c.len() == 18 && c[0] == 49 && c[1] == 90 && (forall|i: int|
        0 <= i < 16 ==> ups_char_ok(#[trigger] data[i])) && (10 - total % 10) % 10 == vals[15] {
        (true, 99)
    } else {
        (false, 0)
    }
}

/// Validate a UPS tracking number.
pub fn checksum_ups_tracking(tracking: &str) -> (r: (bool, u32))
    ensures
        r == spec_checksum_ups(tracking.spec_bytes()),
{
    checksum_ups_tracking_bytes(tracking.as_bytes())
}

pub(crate) fn checksum_ups_tracking_bytes(s: &[u8]) -> (r: (bool, u32))
    ensures
        r == spec_checksum_ups(s@),
{
    let c = sanitize(s, false);
    if c.len() != 18 || c[0] != 49 || c[1] != 90 {
        return (false, 0);
    }
    let data = slice_subrange(c.as_slice(), 2, 18);
    proof {
        assert(data@ =~= spec_sanitize(s@, false).skip(2));
    }
    let mut vals: Vec<u8> = Vec::new();
    let n = data.len();
    for i in 0..n
        invariant
            n == data@.len() == 16,
            data@ == spec_sanitize(s@, false).skip(2),
            forall|j: int| 0 <= j < i ==> ups_char_ok(#[trigger] data@[j]),
            vals@ == data@.take(i as int).map_values(|b: u8| ups_char_val(b)),
            forall|j: int| 0 <= j < vals@.len() ==> vals@[j] < 10,
    {
        let b = data[i];
        let v: u8 = if 48 <= b && b <= 57 {
            b - 48
        } else if 65 <= b && b <= 72 {
            b - 63
        } else if 74 <= b && b <= 78 {
            b - 73
        } else if b == 80 {
            7
        } else if b == 81 {
            8
        } else if b == 82 {
            9
        } else if 83 <= b && b <= 90 {
            b - 82
        } else {
            return (false, 0);
        };
        vals.push(v);
        proof {
            assert(vals@ =~= data@.take(i + 1).map_values(|x: u8| ups_char_val(x)));
        }
    }
    proof {
        assert(data@.take(16) =~= data@);
    }
    let ws = alt_weights_exec(1, 2, 15);
    let total = wsum_exec(vals.as_slice(), ws.as_slice());
    proof {
        lemma_wsum_nonneg(vals@, ws@, 0);
    }
    let expected = (10 - total % 10) % 10;
    if expected != vals[15] as u64 {
        return (false, 0);
    }
    (true, 99)
}

// ---------------------------------------------------------------------------
// FedEx tracking
// ---------------------------------------------------------------------------

/// The fixed weight vector of the 12-digit FedEx format.
pub open spec fn fedex12_weights() -> Seq<u8> {
    seq![1u8, 7u8, 3u8, 1u8, 7u8, 3u8, 1u8, 7u8, 3u8, 1u8, 7u8]
}

/// Sum of a digit-value sequence over positions `i..n`.
pub open spec fn digit_sum(ds: Seq<u8>, i: int) -> int
    decreases ds.len() - i,
{
    if 0 <= i < ds.len() {
        ds[i] + digit_sum(ds, i + 1)
    } else {
        0
    }
}

/// FedEx tracking number validation: length-dependent weighted
/// checksums for the 12, 15 (prefix 96), 20 and 22 (prefix 92) digit
/// formats.
pub open spec fn spec_checksum_fedex(s: Seq<u8>) -> (bool, u32) {
    let ds = spec_digits(s);
    if ds.len() == 12 {
        let total = wsum(ds, fedex12_weights(), 0);
        if (total % 11) % 10 == ds[11] {
            (true, 99)
        } else {
            (false, 0)
        }
    } else if ds.len() == 15 && ds[0] == 9 && ds[1] == 6 {
        let total = digit_sum(ds.take(14), 0);
        if (10 - total % 10) % 10 == ds[14] {
            (true, 99)
        } else {
            (false, 0)
        }
    } else if ds.len() == 20 {
        let total = wsum(ds, alt_weights(3, 1, 19), 0);
        if (10 - total % 10) % 10 == ds[19] {
            (true, 99)
        } else {
            (false, 0)
        }
    } else if ds.len() == 22 && ds[0] == 9 && ds[1] == 2 {
        let total = wsum(ds, alt_weights(3, 1, 21), 0);
        if (10 - total % 10) % 10 == ds[21] {
            (true, 99)
        } else {
            (false, 0)
        }
    } else {
        (false, 0)
    }
}

proof fn lemma_digit_sum_nonneg(ds: Seq<u8>, i: int)
    ensures
        digit_sum(ds, i) >= 0,
    decreases ds.len() - i,
{
    if 0 <= i < ds.len() {
        lemma_digit_sum_nonneg(ds, i + 1);
    }
}

/// Sum the digit values of `ds`.
fn digit_sum_exec(ds: &[u8]) -> (r: u64)
    requires
        ds@.len() <= 64,
        forall|k: int| 0 <= k < ds@.len() ==> ds@[k] < 10,
    ensures
        r as int == digit_sum(ds@, 0),
{
    let n = ds.len();
    let mut total: u64 = 0;
    let mut i = n;
    while i > 0
        invariant
            i <= n <= 64,
            n == ds@.len(),
            forall|k: int| 0 <= k < ds@.len() ==> ds@[k] < 10,
            total as int == digit_sum(ds@, i as int),
            total <= 10 * ((n - i) as u64),
        decreases i,
    {
        i = i - 1;
        total = total + ds[i] as u64;
    }
    total
}

/// Validate a FedEx tracking number.
pub fn checksum_fedex_tracking(tracking: &str) -> (r: (bool, u32))
    ensures
        r == spec_checksum_fedex(tracking.spec_bytes()),
{
    checksum_fedex_tracking_bytes(tracking.as_bytes())
}

pub(crate) fn checksum_fedex_tracking_bytes(s: &[u8]) -> (r: (bool, u32))
    ensures
        r == spec_checksum_fedex(s@),
{
    let ds = extract_digits(s);
    if ds.len() == 12 {
        let mut ws: Vec<u8> = Vec::new();
        ws.push(1);
        ws.push(7);
        ws.push(3);
        ws.push(1);
        ws.push(7);
        ws.push(3);
        ws.push(1);
        ws.push(7);
        ws.push(3);
        ws.push(1);
        ws.push(7);
        proof {
            assert(ws@ =~= fedex12_weights());
        }
        let total = wsum_exec(ds.as_slice(), ws.as_slice());
        proof {
            lemma_wsum_nonneg(ds@, ws@, 0);
        }
        if (total % 11) % 10 == ds[11] as u64 {
            (true, 99)
        } else {
            (false, 0)
        }
    } else if ds.len() == 15 && ds[0] == 9 && ds[1] == 6 {
        let head = slice_subrange(ds.as_slice(), 0, 14);
        proof {
            assert(head@ =~= spec_digits(s@).take(14));
        }
        let total = digit_sum_exec(head);
        proof {
            lemma_digit_sum_nonneg(head@, 0);
        }
        if (10 - total % 10) % 10 == ds[14] as u64 {
            (true, 99)
        } else {
            (false, 0)
        }
    } else if ds.len() == 20 {
        let ws = alt_weights_exec(3, 1, 19);
        let total = wsum_exec(ds.as_slice(), ws.as_slice());
        proof {
            lemma_wsum_nonneg(ds@, ws@, 0);
        }
        if (10 - total % 10) % 10 == ds[19] as u64 {
            (true, 99)
        } else {
            (false, 0)
        }
    } else if ds.len() == 22 && ds[0] == 9 && ds[1] == 2 {
        let ws = alt_weights_exec(3, 1, 21);
        let total = wsum_exec(ds.as_slice(), ws.as_slice());
        proof {
            lemma_wsum_nonneg(ds@, ws@, 0);
        }
        if (10 - total % 10) % 10 == ds[21] as u64 {
            (true, 99)
        } else {
            (false, 0)
        }
    } else {
        (false, 0)
    }
}

// ---------------------------------------------------------------------------
// USPS tracking
// ---------------------------------------------------------------------------

/// The fixed weight vector of the international USPS format.
pub open spec fn usps_intl_weights() -> Seq<u8> {
    seq![8u8, 6u8, 4u8, 2u8, 3u8, 5u8, 9u8, 7u8]
}

/// The international USPS candidate shape over the cleaned bytes: two
/// letters, nine digits, two letters.
pub open spec fn usps_intl_shape(c: Seq<u8>) -> bool {
    &&& c.len() == 13
    &&& is_upper_byte(c[0])
    &&& is_upper_byte(c[1])
    &&& is_upper_byte(c[11])
    &&& is_upper_byte(c[12])
}

/// The international USPS check: weighted mod-11 with remainders 10 and
/// 11 remapped to 0 and 5.
pub open spec fn usps_intl_ok(c: Seq<u8>) -> bool {
    let d = c.subrange(2, 11).map_values(|b: u8| digit_val(b));
    let total = wsum(d, usps_intl_weights(), 0);
    let check = if 11 - total % 11 == 10 {
        0int
    } else if 11 - total % 11 == 11 {
        5int
    } else {
        11 - total % 11
    };
    &&& forall|i: int| 2 <= i < 11 ==> is_digit_byte(#[trigger] c[i])
    &&& check == d[8]
}

/// The numeric USPS check over the digits of the cleaned candidate:
/// length 20 or 22, alternating 3-1 weights over all but the last digit.
pub open spec fn usps_numeric_ok(ds: Seq<u8>) -> bool {
    let total = wsum(ds, alt_weights(3, 1, ds.len() as int - 1), 0);
    &&& (ds.len() == 20 || ds.len() == 22)
    &&& (10 - total % 10) % 10 == ds[ds.len() - 1]
}

/// USPS tracking number validation: the international letter format or
/// the numeric 20/22-digit format.
pub open spec fn spec_checksum_usps(s: Seq<u8>) -> (bool, u32) {
    let c = spec_sanitize(s, false);
    if usps_intl_shape(c) {
        if usps_intl_ok(c) {
            (true, 99)
        } else {
            (false, 0)
        }
    } else if usps_numeric_ok(spec_digits(c)) {
        (true, 99)
    } else {
        (false, 0)
    }
}

/// Validate a USPS tracking number.
pub fn checksum_usps_tracking(tracking: &str) -> (r: (bool, u32))
    ensures
        r == spec_checksum_usps(tracking.spec_bytes()),
{
    checksum_usps_tracking_bytes(tracking.as_bytes())
}

pub(crate) fn checksum_usps_tracking_bytes(s: &[u8]) -> (r: (bool, u32))
    ensures
        r == spec_checksum_usps(s@),
{
    let c = sanitize(s, false);
    if c.len() == 13 && (65 <= c[0] && c[0] <= 90) && (65 <= c[1] && c[1] <= 90) && (65 <= c[11]
        && c[11] <= 90) && (65 <= c[12] && c[12] <= 90) {
        let mut d: Vec<u8> = Vec::new();
        let mut i: usize = 2;
        while i < 11
            invariant
                2 <= i <= 11,
                c@.len() == 13,
                c@ == spec_sanitize(s@, false),
                usps_intl_shape(c@),
                forall|j: int| 2 <= j < i ==> is_digit_byte(#[trigger] c@[j]),
                d@ == c@.subrange(2, i as int).map_values(|b: u8| digit_val(b)),
                forall|j: int| 0 <= j < d@.len() ==> d@[j] < 10,
            decreases 11 - i,
        {
            let b = c[i];
            if !(48 <= b && b <= 57) {
                return (false, 0);
            }
            d.push(b - 48);
            proof {
                assert(d@ =~= c@.subrange(2, i + 1).map_values(|x: u8| digit_val(x)));
            }
            i = i + 1;
        }
        let mut ws: Vec<u8> = Vec::new();
        ws.push(8);
        ws.push(6);
        ws.push(4);
        ws.push(2);
        ws.push(3);
        ws.push(5);
        ws.push(9);
        ws.push(7);
        proof {
            assert(ws@ =~= usps_intl_weights());
        }
        let total = wsum_exec(d.as_slice(), ws.as_slice());
        proof {
            lemma_wsum_nonneg(d@, ws@, 0);
        }
        let rem = 11 - total % 11;
        let check: u64 = if rem == 10 {
            0
        } else if rem == 11 {
            5
        } else {
            rem
        };
        if check != d[8] as u64 {
            return (false, 0);
        }
        return (true, 99);
    }
    let ds = extract_digits(c.as_slice());
    if ds.len() == 20 || ds.len() == 22 {
        let ws = alt_weights_exec(3, 1, ds.len() - 1);
        let total = wsum_exec(ds.as_slice(), ws.as_slice());
        proof {
            lemma_wsum_nonneg(ds@, ws@, 0);
        }
        if (10 - total % 10) % 10 == ds[ds.len() - 1] as u64 {
            return (true, 99);
        }
        return (false, 0);
    }
    (false, 0)
}

// ---------------------------------------------------------------------------
// CUSIP (extended character set)
// ---------------------------------------------------------------------------

/// A byte the CUSIP table accepts: digits, letters, `*`, `@`, `#`.
pub open spec fn cusip_ext_ok(b: u8) -> bool {
    is_digit_byte(b) || is_upper_byte(b) || b == 42 || b == 64 || b == 35
}

/// The CUSIP table value of a byte, `*`, `@` and `#` mapping to 36-38.
pub open spec fn cusip_ext_val(b: u8) -> int {
    if is_digit_byte(b) {
        digit_val(b) as int
    } else if is_upper_byte(b) {
        b - 55
    } else if b == 42 {
        36
    } else if b == 64 {
        37
    } else if b == 35 {
        38
    } else {
        0
    }
}

/// The CUSIP weighted digit sum over the first eight cleaned bytes.
pub open spec fn cusip_ext_sum(c: Seq<u8>, i: int) -> int
    decreases 8 - i,
{
    if i < 0 || i >= 8 {
        0
    } else {
        let v = cusip_ext_val(c[i]);
        let w = if i % 2 == 1 {
            2 * v
        } else {
            v
        };
        w / 10 + w % 10 + cusip_ext_sum(c, i + 1)
    }
}

/// CUSIP validation over the cleaned (upper-case, space- and dash-free)
/// candidate: nine characters from the CUSIP table whose weighted digit
/// sum matches the ninth as check digit.
pub open spec fn spec_checksum_cusip(s: Seq<u8>) -> (bool, u32) {
    let c = spec_sanitize(s, true);
    if c.len() == 9 && (forall|i: int| 0 <= i < 8 ==> cusip_ext_ok(#[trigger] c[i]))
        && is_digit_byte(c[8]) && digit_val(c[8]) as int == (10 - cusip_ext_sum(c, 0) % 10) % 10 {
        (true, 99)
    } else {
        (false, 0)
    }
}

/// Validate a CUSIP security identifier.
pub fn checksum_cusip(cusip: &str) -> (r: (bool, u32))
    ensures
        r == spec_checksum_cusip(cusip.spec_bytes()),
{
    checksum_cusip_bytes(cusip.as_bytes())
}

pub(crate) fn checksum_cusip_bytes(s: &[u8]) -> (r: (bool, u32))
    ensures
        r == spec_checksum_cusip(s@),
{
    let c = sanitize(s, true);
    if c.len() != 9 {
        return (false, 0);
    }
    let mut total: u64 = 0;
    let mut i: usize = 8;
    while i > 0
        invariant
            i <= 8,
            c@.len() == 9,
            c@ == spec_sanitize(s@, true),
            forall|j: int| i <= j < 8 ==> cusip_ext_ok(#[trigger] c@[j]),
            total as int == cusip_ext_sum(c@, i as int),
            total <= 18 * (8 - i),
        decreases i,
    {
        i = i - 1;
        let b = c[i];
        let v: u64 = if 48 <= b && b <= 57 {
            (b - 48) as u64
        } else if 65 <= b && b <= 90 {
            (b - 55) as u64
        } else if b == 42 {
            36
        } else if b == 64 {
            37
        } else if b == 35 {
            38
        } else {
            return (false, 0);
        };
        let w: u64 = if i % 2 == 1 {
            2 * v
        } else {
            v
        };
        total = total + w / 10 + w % 10;
    }
    let last = c[8];
    if !(48 <= last && last <= 57) {
        return (false, 0);
    }
    if (last - 48) as u64 != (10 - total % 10) % 10 {
        return (false, 0);
    }
    (true, 99)
}

// ---------------------------------------------------------------------------
// ISIN
// ---------------------------------------------------------------------------

/// ISIN validation over the cleaned candidate: twelve characters, two
/// leading letters, the first eleven digits or letters, and a Luhn
/// check over the digit expansion (the last character contributing only
/// when it is a digit).
pub open spec fn spec_checksum_isin(s: Seq<u8>) -> (bool, u32) {
    let c = spec_sanitize(s, false);
    let numeric = code_digits(c.take(11)) + if is_digit_byte(c[11]) {
        seq![digit_val(c[11])]
    } else {
        Seq::<u8>::empty()
    };
    if c.len() == 12 && is_upper_byte(c[0]) && is_upper_byte(c[1]) && (forall|i: int|
        0 <= i < 11 ==> (is_digit_byte(#[trigger] c[i]) || is_upper_byte(c[i]))) && luhn_ok(
        numeric,
    ) {
        (true, 99)
    } else {
        (false, 0)
    }
}

/// Validate an ISIN security identifier.
pub fn checksum_isin(isin: &str) -> (r: (bool, u32))
    ensures
        r == spec_checksum_isin(isin.spec_bytes()),
{
    checksum_isin_bytes(isin.as_bytes())
}

pub(crate) fn checksum_isin_bytes(s: &[u8]) -> (r: (bool, u32))
    ensures
        r == spec_checksum_isin(s@),
{
    let c = sanitize(s, false);
    if c.len() != 12 {
        return (false, 0);
    }
    if !(65 <= c[0] && c[0] <= 90) || !(65 <= c[1] && c[1] <= 90) {
        return (false, 0);
    }
    let n: usize = 11;
    for i in 0..n
        invariant
            n == 11,
            c@.len() == 12,
            c@ == spec_sanitize(s@, false),
            forall|j: int|
                0 <= j < i ==> (is_digit_byte(#[trigger] c@[j]) || is_upper_byte(c@[j])),
    {
        let b = c[i];
        if !((48 <= b && b <= 57) || (65 <= b && b <= 90)) {
            return (false, 0);
        }
    }
    let head = slice_subrange(c.as_slice(), 0, 11);
    proof {
        assert(head@ =~= spec_sanitize(s@, false).take(11));
    }
    let mut numeric = build_code_digits(head);
    let last = c[11];
    if 48 <= last && last <= 57 {
        numeric.push(last - 48);
    }
    proof {
        lemma_code_digits_bounded(head@);
        let cseq = spec_sanitize(s@, false);
        let expected = code_digits(cseq.take(11)) + if is_digit_byte(cseq[11]) {
            seq![digit_val(cseq[11])]
        } else {
            Seq::<u8>::empty()
        };
        assert(numeric@ =~= expected);
    }
    if numeric.len() < 2 {
        return (false, 0);
    }
    if luhn_rem(numeric.as_slice()) != 0 {
        return (false, 0);
    }
    (true, 99)
}

// ---------------------------------------------------------------------------
// Named dispatch and batch
// ---------------------------------------------------------------------------

/// The result of running the checksum validator named `name` on `v`:
/// an unknown name rejects uniformly.
pub open spec fn spec_checksum_named(name: Seq<u8>, v: Seq<u8>) -> (bool, u32) {
    if name == "ssn".spec_bytes() {
        spec_checksum_ssn(v)
    } else if name == "credit_card".spec_bytes() {
        spec_checksum_credit_card(v)
    } else if name == "npi".spec_bytes() {
        spec_checksum_npi(v)
    } else if name == "dea".spec_bytes() {
        spec_checksum_dea(v)
    } else if name == "iban".spec_bytes() {
        spec_checksum_iban(v)
    } else if name == "vin".spec_bytes() {
        spec_checksum_vin(v)
    } else if name == "aba_routing".spec_bytes() {
        spec_checksum_aba(v)
    } else if name == "ups_tracking".spec_bytes() {
        spec_checksum_ups(v)
    } else if name == "fedex_tracking".spec_bytes() {
        spec_checksum_fedex(v)
    } else if name == "usps_tracking".spec_bytes() {
        spec_checksum_usps(v)
    } else if name == "cusip".spec_bytes() {
        spec_checksum_cusip(v)
    } else if name == "isin".spec_bytes() {
        spec_checksum_isin(v)
    } else {
        (false, 0)
    }
}

/// Run the checksum validator named `name` on a single value.
pub fn checksum_named(name: &str, value: &str) -> (r: (bool, u32))
    ensures
        r == spec_checksum_named(name.spec_bytes(), value.spec_bytes()),
{
    let nb = name.as_bytes();
    if bytes_eq(nb, "ssn".as_bytes()) {
        checksum_ssn_bytes(value.as_bytes())
    } else if bytes_eq(nb, "credit_card".as_bytes()) {
        checksum_credit_card_bytes(value.as_bytes())
    } else if bytes_eq(nb, "npi".as_bytes()) {
        checksum_npi_bytes(value.as_bytes())
    } else if bytes_eq(nb, "dea".as_bytes()) {
        checksum_dea_bytes(value.as_bytes())
    } else if bytes_eq(nb, "iban".as_bytes()) {
        checksum_iban_bytes(value.as_bytes())
    } else if bytes_eq(nb, "vin".as_bytes()) {
        checksum_vin_bytes(value.as_bytes())
    } else if bytes_eq(nb, "aba_routing".as_bytes()) {
        checksum_aba_routing_bytes(value.as_bytes())
    } else if bytes_eq(nb, "ups_tracking".as_bytes()) {
        checksum_ups_tracking_bytes(value.as_bytes())
    } else if bytes_eq(nb, "fedex_tracking".as_bytes()) {
        checksum_fedex_tracking_bytes(value.as_bytes())
    } else if bytes_eq(nb, "usps_tracking".as_bytes()) {
        checksum_usps_tracking_bytes(value.as_bytes())
    } else if bytes_eq(nb, "cusip".as_bytes()) {
        checksum_cusip_bytes(value.as_bytes())
    } else if bytes_eq(nb, "isin".as_bytes()) {
        checksum_isin_bytes(value.as_bytes())
    } else {
        (false, 0)
    }
}

/// Relies on `rayon`'s indexed parallel iterators: `par_iter().map(..)
/// .collect()` preserves input order, so entry `i` of the result is the
/// verified `checksum_named` applied to entry `i` of the input.
#[verifier::external_body]
fn par_checksum_batch(validator_name: &str, values: &Vec<String>) -> (r: Vec<(bool, u32)>)
    ensures
        r@.len() == values@.len(),
        forall|i: int|
            0 <= i < r@.len() ==> r@[i] == spec_checksum_named(
                validator_name.spec_bytes(),
                encode_utf8(values@[i]@),
            ),
{
    values.par_iter().map(|v| checksum_named(validator_name, v.as_str())).collect()
}

/// Run a named checksum validator over many values in parallel,
/// preserving input order; an unknown name rejects every value.
pub fn checksum_batch(validator_name: &str, values: &Vec<String>) -> (r: Vec<(bool, u32)>)
    ensures
        r@.len() == values@.len(),
        forall|i: int|
            0 <= i < r@.len() ==> r@[i] == spec_checksum_named(
                validator_name.spec_bytes(),
                encode_utf8(values@[i]@),
            ),
{
    par_checksum_batch(validator_name, values)
}

} // verus!
