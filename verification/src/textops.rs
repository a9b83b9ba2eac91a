//! Byte-level text primitives shared by the validators, the checksum
//! library and the matcher: character classes, digit extraction, the
//! Luhn and mod-97 folds, unsigned parsing, splitting and trimming.
//!
//! All functions work on the UTF-8 bytes of the input. Only ASCII
//! characters are meaningful to the identifier formats checked here;
//! non-ASCII bytes never count as digits, letters or whitespace.

use vstd::prelude::*;
use vstd::slice::{slice_subrange, slice_to_vec};

verus! {

// ---------------------------------------------------------------------------
// Byte classes
// ---------------------------------------------------------------------------

/// ASCII decimal digit.
pub open spec fn is_digit_byte(b: u8) -> bool {
    48 <= b <= 57
}

/// Value of an ASCII digit byte.
pub open spec fn digit_val(b: u8) -> u8 {
    (b - 48) as u8
}

/// ASCII whitespace, the bytes that `char::is_whitespace` accepts below 0x80.
pub open spec fn is_space_byte(b: u8) -> bool {
    b == 32 || (9 <= b <= 13)
}

/// ASCII upper-case letter.
pub open spec fn is_upper_byte(b: u8) -> bool {
    65 <= b <= 90
}

/// ASCII lower-case letter.
pub open spec fn is_lower_byte(b: u8) -> bool {
    97 <= b <= 122
}

/// ASCII letter.
pub open spec fn is_alpha_byte(b: u8) -> bool {
    is_upper_byte(b) || is_lower_byte(b)
}

/// ASCII letter or digit.
pub open spec fn is_alnum_byte(b: u8) -> bool {
    is_alpha_byte(b) || is_digit_byte(b)
}

/// Upper-case folding of a single byte; bytes outside `a`-`z` are unchanged.
pub open spec fn upper_byte(b: u8) -> u8 {
    if is_lower_byte(b) {
        (b - 32) as u8
    } else {
        b
    }
}

/// Case-insensitive (ASCII) equality of two byte sequences.
pub open spec fn eqi(a: Seq<u8>, b: Seq<u8>) -> bool {
    a.len() == b.len() && forall|i: int| 0 <= i < a.len() ==> upper_byte(a[i]) == upper_byte(b[i])
}

// ---------------------------------------------------------------------------
// Digit extraction and sanitising
// ---------------------------------------------------------------------------

/// The values (0..9) of the ASCII digits of `s`, in order; every other
/// byte is discarded.
pub open spec fn spec_digits(s: Seq<u8>) -> Seq<u8>
    decreases s.len(),
{
    if s.len() == 0 {
        Seq::empty()
    } else {
        spec_digits(s.drop_last()) + if is_digit_byte(s.last()) {
            seq![digit_val(s.last())]
        } else {
            Seq::empty()
        }
    }
}

pub proof fn lemma_digits_bounded(s: Seq<u8>)
    ensures
        forall|i: int| 0 <= i < spec_digits(s).len() ==> spec_digits(s)[i] < 10,
    decreases s.len(),
{
    if s.len() > 0 {
        lemma_digits_bounded(s.drop_last());
        assert forall|i: int| 0 <= i < spec_digits(s).len() implies spec_digits(s)[i] < 10 by {
            if i < spec_digits(s.drop_last()).len() {
                assert(spec_digits(s)[i] == spec_digits(s.drop_last())[i]);
            }
        }
    }
}

/// Extract the digit values of `s`.
pub fn extract_digits(s: &[u8]) -> (r: Vec<u8>)
    ensures
        r@ == spec_digits(s@),
        forall|i: int| 0 <= i < r@.len() ==> r@[i] < 10,
{
    let mut r: Vec<u8> = Vec::new();
    let n = s.len();
    for i in 0..n
        invariant
            n == s@.len(),
            r@ == spec_digits(s@.take(i as int)),
            forall|k: int| 0 <= k < r@.len() ==> r@[k] < 10,
    {
        let b = s[i];
        proof {
            assert(s@.take(i + 1).drop_last() =~= s@.take(i as int));
            assert(s@.take(i + 1).last() == s@[i as int]);
        }
        if 48 <= b && b <= 57 {
            r.push(b - 48);
        }
        proof {
            assert(r@ =~= spec_digits(s@.take(i + 1)));
        }
    }
    proof {
        assert(s@.take(n as int) =~= s@);
    }
    r
}

/// `keep_sanitized(b, strip_dash)` holds when `b` survives the cleaning
/// done before a checksum: spaces go, and dashes too when asked.
pub open spec fn keep_sanitized(b: u8, strip_dash: bool) -> bool {
    b != 32 && (!strip_dash || b != 45)
}

/// Upper-cased bytes of `s` with spaces (and optionally dashes) removed.
pub open spec fn spec_sanitize(s: Seq<u8>, strip_dash: bool) -> Seq<u8>
    decreases s.len(),
{
    if s.len() == 0 {
        Seq::empty()
    } else {
        spec_sanitize(s.drop_last(), strip_dash) + if keep_sanitized(s.last(), strip_dash) {
            seq![upper_byte(s.last())]
        } else {
            Seq::empty()
        }
    }
}

/// Upper-case `s` and drop spaces, and dashes when `strip_dash` is set.
pub fn sanitize(s: &[u8], strip_dash: bool) -> (r: Vec<u8>)
    ensures
        r@ == spec_sanitize(s@, strip_dash),
{
    let mut r: Vec<u8> = Vec::new();
    let n = s.len();
    for i in 0..n
        invariant
            n == s@.len(),
            r@ == spec_sanitize(s@.take(i as int), strip_dash),
    {
        let b = s[i];
        proof {
            assert(s@.take(i + 1).drop_last() =~= s@.take(i as int));
            assert(s@.take(i + 1).last() == s@[i as int]);
        }
        if b != 32 && (!strip_dash || b != 45) {
            if 97 <= b && b <= 122 {
                r.push(b - 32);
            } else {
                r.push(b);
            }
        }
        proof {
            assert(r@ =~= spec_sanitize(s@.take(i + 1), strip_dash));
        }
    }
    proof {
        assert(s@.take(n as int) =~= s@);
    }
    r
}

/// Upper-cased ASCII letters and digits of `s`, in order; every other
/// byte is discarded.
pub open spec fn spec_alnum_upper(s: Seq<u8>) -> Seq<u8>
    decreases s.len(),
{
    if s.len() == 0 {
        Seq::empty()
    } else {
        spec_alnum_upper(s.drop_last()) + if is_alnum_byte(s.last()) {
            seq![upper_byte(s.last())]
        } else {
            Seq::empty()
        }
    }
}

/// Keep the ASCII letters and digits of `s`, upper-cased.
pub fn alnum_upper(s: &[u8]) -> (r: Vec<u8>)
    ensures
        r@ == spec_alnum_upper(s@),
{
    let mut r: Vec<u8> = Vec::new();
    let n = s.len();
    for i in 0..n
        invariant
            n == s@.len(),
            r@ == spec_alnum_upper(s@.take(i as int)),
    {
        let b = s[i];
        proof {
            assert(s@.take(i + 1).drop_last() =~= s@.take(i as int));
            assert(s@.take(i + 1).last() == s@[i as int]);
        }
        if (48 <= b && b <= 57) || (65 <= b && b <= 90) {
            r.push(b);
        } else if 97 <= b && b <= 122 {
            r.push(b - 32);
        }
        proof {
            assert(r@ =~= spec_alnum_upper(s@.take(i + 1)));
        }
    }
    proof {
        assert(s@.take(n as int) =~= s@);
    }
    r
}

// ---------------------------------------------------------------------------
// Luhn
// ---------------------------------------------------------------------------

/// One digit's contribution to a Luhn sum: doubled (minus nine when two
/// digits) on alternating positions.
pub open spec fn luhn_term(d: int, doubled: bool) -> int {
    if doubled {
        if 2 * d > 9 {
            2 * d - 9
        } else {
            2 * d
        }
    } else {
        d
    }
}

/// The Luhn sum of a digit-value sequence: counting from the rightmost
/// digit (not doubled), every second digit is doubled.
pub open spec fn luhn_sum(ds: Seq<u8>) -> int
    decreases ds.len(),
{
    if ds.len() == 0 {
        0
    } else {
        luhn_term(ds[0] as int, (ds.len() as int - 1) % 2 == 1) + luhn_sum(ds.drop_first())
    }
}

pub proof fn lemma_luhn_sum_bound(ds: Seq<u8>)
    requires
        forall|i: int| 0 <= i < ds.len() ==> ds[i] < 10,
    ensures
        0 <= luhn_sum(ds) <= 18 * ds.len(),
    decreases ds.len(),
{
    if ds.len() > 0 {
        lemma_luhn_sum_bound(ds.drop_first());
    }
}

/// A digit sequence passes the Luhn check: at least two digits, and the
/// Luhn sum is a multiple of ten.
pub open spec fn luhn_ok(ds: Seq<u8>) -> bool {
    ds.len() >= 2 && luhn_sum(ds) % 10 == 0
}

/// The Luhn sum of `ds`, reduced modulo 10.
pub fn luhn_rem(ds: &[u8]) -> (r: u8)
    requires
        forall|i: int| 0 <= i < ds@.len() ==> ds@[i] < 10,
    ensures
        r as int == luhn_sum(ds@) % 10,
{
    let n = ds.len();
    let mut acc: u128 = 0;
    let mut i = n;
    proof {
        assert(ds@.skip(n as int) =~= Seq::<u8>::empty());
    }
    while i > 0
        invariant
            i <= n,
            n == ds@.len(),
            forall|k: int| 0 <= k < ds@.len() ==> ds@[k] < 10,
            acc as int == luhn_sum(ds@.skip(i as int)),
            acc <= 18 * ((n - i) as u128),
        decreases i,
    {
        i = i - 1;
        let d = ds[i];
        let doubled = (n - 1 - i) % 2 == 1;
        let term: u8 = if doubled {
            let t = 2 * d;
            if t > 9 {
                t - 9
            } else {
                t
            }
        } else {
            d
        };
        proof {
            assert(ds@.skip(i as int).drop_first() =~= ds@.skip(i + 1));
            assert(ds@.skip(i as int)[0] == ds@[i as int]);
            assert(ds@.skip(i as int).len() as int - 1 == n - 1 - i);
        }
        acc = acc + term as u128;
    }
    proof {
        assert(ds@.skip(0) =~= ds@);
        lemma_luhn_sum_bound(ds@);
    }
    (acc % 10) as u8
}

// ---------------------------------------------------------------------------
// Mod 97 (IBAN)
// ---------------------------------------------------------------------------

/// Left fold of the decimal digits of a large number, reduced modulo 97
/// at every step: the IBAN remainder.
pub open spec fn mod97_acc(ds: Seq<u8>, acc: int) -> int
    decreases ds.len(),
{
    if ds.len() == 0 {
        acc
    } else {
        mod97_acc(ds.drop_first(), (acc * 10 + ds[0]) % 97)
    }
}

/// The mod-97 remainder of the number whose decimal digit values are `ds`.
pub fn mod97(ds: &[u8]) -> (r: u64)
    requires
        forall|i: int| 0 <= i < ds@.len() ==> ds@[i] < 10,
    ensures
        r as int == mod97_acc(ds@, 0),
        r < 97,
{
    let n = ds.len();
    let mut acc: u64 = 0;
    proof {
        assert(ds@.skip(0) =~= ds@);
    }
    for i in 0..n
        invariant
            n == ds@.len(),
            forall|k: int| 0 <= k < ds@.len() ==> ds@[k] < 10,
            acc < 97,
            mod97_acc(ds@, 0) == mod97_acc(ds@.skip(i as int), acc as int),
    {
        let d = ds[i];
        proof {
            assert(ds@.skip(i as int).drop_first() =~= ds@.skip(i + 1));
            assert(ds@.skip(i as int)[0] == ds@[i as int]);
        }
        acc = (acc * 10 + d as u64) % 97;
    }
    proof {
        assert(ds@.skip(n as int) =~= Seq::<u8>::empty());
    }
    acc
}

// ---------------------------------------------------------------------------
// Unsigned decimal parsing
// ---------------------------------------------------------------------------

/// The value of a sequence of ASCII digit bytes read as a decimal number.
pub open spec fn digits_value(s: Seq<u8>) -> int
    decreases s.len(),
{
    if s.len() == 0 {
        0
    } else {
        digits_value(s.drop_last()) * 10 + digit_val(s.last())
    }
}

pub open spec fn all_digit_bytes(s: Seq<u8>) -> bool {
    forall|i: int| 0 <= i < s.len() ==> is_digit_byte(s[i])
}

pub proof fn lemma_digits_value_nonneg(s: Seq<u8>)
    requires
        all_digit_bytes(s),
    ensures
        digits_value(s) >= 0,
    decreases s.len(),
{
    if s.len() > 0 {
        assert(all_digit_bytes(s.drop_last())) by {
            assert(forall|i: int|
                0 <= i < s.drop_last().len() ==> s.drop_last()[i] == s[i]);
        }
        lemma_digits_value_nonneg(s.drop_last());
    }
}

/// A decimal prefix never exceeds the value of the whole digit string.
pub proof fn lemma_digits_value_prefix_le(s: Seq<u8>, k: int)
    requires
        all_digit_bytes(s),
        0 <= k <= s.len(),
    ensures
        digits_value(s.take(k)) <= digits_value(s),
    decreases s.len() - k,
{
    if k < s.len() {
        lemma_digits_value_prefix_le(s, k + 1);
        assert(s.take(k + 1).drop_last() =~= s.take(k));
        assert(all_digit_bytes(s.take(k + 1))) by {
            assert(forall|i: int| 0 <= i < k + 1 ==> s.take(k + 1)[i] == s[i]);
        }
        lemma_digits_value_nonneg(s.take(k));
        assert(digits_value(s.take(k + 1)) == digits_value(s.take(k)) * 10 + digit_val(
            s.take(k + 1).last(),
        ));
    } else {
        assert(s.take(k) =~= s);
    }
}

/// The digits of a decimal literal: everything after an optional leading `+`.
pub open spec fn parse_body(s: Seq<u8>) -> Seq<u8> {
    if s.len() > 0 && s[0] == 43 {
        s.drop_first()
    } else {
        s
    }
}

/// What `str::parse::<u32>` returns on `s`: an optional leading `+`,
/// then at least one digit, all digits, value within `u32`.
pub open spec fn spec_parse_u32(s: Seq<u8>) -> Option<u32> {
    let body = parse_body(s);
    if body.len() > 0 && all_digit_bytes(body) && digits_value(body) <= u32::MAX {
        Some(digits_value(body) as u32)
    } else {
        None
    }
}

/// Parse `s` as an unsigned decimal number, as `str::parse::<u32>` would.
pub fn parse_u32(s: &[u8]) -> (r: Option<u32>)
    ensures
        r == spec_parse_u32(s@),
{
    let n = s.len();
    let start: usize = if n > 0 && s[0] == 43 {
        1
    } else {
        0
    };
    let ghost body = parse_body(s@);
    proof {
        assert(body =~= s@.skip(start as int));
    }
    if n == start {
        return None;
    }
    let mut acc: u64 = 0;
    let mut i = start;
    while i < n
        invariant
            start <= i <= n,
            n == s@.len(),
            start == 0 || start == 1,
            body == parse_body(s@),
            body == s@.skip(start as int),
            body.len() == n - start,
            all_digit_bytes(body.take(i - start)),
            acc as int == digits_value(body.take(i - start)),
            acc <= u32::MAX,
        decreases n - i,
    {
        let b = s[i];
        proof {
            assert(body[i - start] == s@[i as int]);
            assert(body.take(i + 1 - start).drop_last() =~= body.take(i - start));
            assert(body.take(i + 1 - start).last() == body[i - start]);
        }
        if !(48 <= b && b <= 57) {
            proof {
                assert(!is_digit_byte(body[i - start]));
                assert(!all_digit_bytes(body));
            }
            return None;
        }
        proof {
            assert(all_digit_bytes(body.take(i + 1 - start))) by {
                assert(forall|k: int|
                    0 <= k < i + 1 - start ==> body.take(i + 1 - start)[k] == body[k]);
            }
        }
        acc = acc * 10 + (b - 48) as u64;
        i = i + 1;
        if acc > u32::MAX as u64 {
            proof {
                if all_digit_bytes(body) {
                    lemma_digits_value_prefix_le(body, i - start);
                    assert(digits_value(body) > u32::MAX);
                }
            }
            return None;
        }
    }
    proof {
        assert(body.take(n - start) =~= body);
    }
    Some(acc as u32)
}

// ---------------------------------------------------------------------------
// Splitting
// ---------------------------------------------------------------------------

/// Length of the prefix of `s` before the first occurrence of `sep`
/// (the whole length when `sep` does not occur).
pub open spec fn split_first_index(s: Seq<u8>, sep: u8) -> int
    decreases s.len(),
{
    if s.len() == 0 {
        0
    } else if s[0] == sep {
        0
    } else {
        1 + split_first_index(s.drop_first(), sep)
    }
}

pub proof fn lemma_split_first_index(s: Seq<u8>, sep: u8)
    ensures
        0 <= split_first_index(s, sep) <= s.len(),
        forall|j: int| 0 <= j < split_first_index(s, sep) ==> s[j] != sep,
        split_first_index(s, sep) < s.len() ==> s[split_first_index(s, sep)] == sep,
    decreases s.len(),
{
    if s.len() > 0 && s[0] != sep {
        lemma_split_first_index(s.drop_first(), sep);
        assert forall|j: int| 0 <= j < split_first_index(s, sep) implies s[j] != sep by {
            if j > 0 {
                assert(s.drop_first()[j - 1] == s[j]);
            }
        }
    }
}

/// The first occurrence is characterised by "a separator with none before it".
pub proof fn lemma_split_first_index_at(s: Seq<u8>, sep: u8, p: int)
    requires
        0 <= p <= s.len(),
        forall|j: int| 0 <= j < p ==> s[j] != sep,
        p < s.len() ==> s[p] == sep,
    ensures
        split_first_index(s, sep) == p,
    decreases s.len(),
{
    if s.len() > 0 && s[0] != sep {
        lemma_split_first_index_at(s.drop_first(), sep, p - 1);
    }
}

/// `s` split at every occurrence of `sep`, exactly as `str::split` does:
/// `n` separators give `n + 1` parts, empty parts included.
pub open spec fn spec_split(s: Seq<u8>, sep: u8) -> Seq<Seq<u8>>
    decreases s.len(),
{
    let i = split_first_index(s, sep);
    if 0 <= i < s.len() {
        seq![s.take(i)] + spec_split(s.skip(i + 1), sep)
    } else {
        seq![s]
    }
}

/// Split `s` at every occurrence of `sep`.
pub fn split_bytes(s: &[u8], sep: u8) -> (r: Vec<Vec<u8>>)
    ensures
        r.deep_view() == spec_split(s@, sep),
{
    let mut r: Vec<Vec<u8>> = Vec::new();
    let n = s.len();
    let mut start: usize = 0;
    let mut i: usize = 0;
    proof {
        assert(s@.skip(0) =~= s@);
        assert(r.deep_view() + spec_split(s@, sep) =~~= spec_split(s@, sep));
    }
    while i < n
        invariant
            start <= i <= n,
            n == s@.len(),
            forall|j: int| start <= j < i ==> s@[j] != sep,
            spec_split(s@, sep) == r.deep_view() + spec_split(s@.skip(start as int), sep),
        decreases n - i,
    {
        if s[i] == sep {
            let ghost old_dv = r.deep_view();
            let part = slice_to_vec(slice_subrange(s, start, i));
            r.push(part);
            proof {
                let rest = s@.skip(start as int);
                assert(forall|j: int| 0 <= j <= i - start ==> rest[j] == s@[start + j]);
                lemma_split_first_index_at(rest, sep, i - start);
                assert(rest.take(i - start) =~= s@.subrange(start as int, i as int));
                assert(rest.skip(i - start + 1) =~= s@.skip(i + 1));
                assert(spec_split(rest, sep) == seq![s@.subrange(start as int, i as int)]
                    + spec_split(s@.skip(i + 1), sep));
                assert(r.deep_view() =~~= old_dv + seq![s@.subrange(start as int, i as int)]);
                assert(old_dv + (seq![s@.subrange(start as int, i as int)] + spec_split(
                    s@.skip(i + 1),
                    sep,
                )) =~~= r.deep_view() + spec_split(s@.skip(i + 1), sep));
            }
            start = i + 1;
        }
        i = i + 1;
    }
    let ghost old_dv = r.deep_view();
    let last_part = slice_to_vec(slice_subrange(s, start, n));
    r.push(last_part);
    proof {
        let rest = s@.skip(start as int);
        assert(forall|j: int| 0 <= j < rest.len() ==> rest[j] == s@[start + j]);
        lemma_split_first_index_at(rest, sep, rest.len() as int);
        assert(spec_split(rest, sep) == seq![rest]);
        assert(rest =~= s@.subrange(start as int, n as int));
        assert(r.deep_view() =~~= old_dv + seq![rest]);
    }
    r
}

// ---------------------------------------------------------------------------
// Trimming and scanning
// ---------------------------------------------------------------------------

/// `s` without its leading ASCII whitespace.
pub open spec fn drop_leading_ws(s: Seq<u8>) -> Seq<u8>
    decreases s.len(),
{
    if s.len() > 0 && is_space_byte(s[0]) {
        drop_leading_ws(s.drop_first())
    } else {
        s
    }
}

/// `s` without its trailing ASCII whitespace.
pub open spec fn drop_trailing_ws(s: Seq<u8>) -> Seq<u8>
    decreases s.len(),
{
    if s.len() > 0 && is_space_byte(s.last()) {
        drop_trailing_ws(s.drop_last())
    } else {
        s
    }
}

/// `s` trimmed of ASCII whitespace on both ends.
pub open spec fn spec_trim(s: Seq<u8>) -> Seq<u8> {
    drop_trailing_ws(drop_leading_ws(s))
}

proof fn lemma_drop_leading_ws_skip(s: Seq<u8>, k: int)
    requires
        0 <= k <= s.len(),
        forall|j: int| 0 <= j < k ==> is_space_byte(s[j]),
        k < s.len() ==> !is_space_byte(s[k]),
    ensures
        drop_leading_ws(s) =~= s.skip(k),
    decreases s.len(),
{
    if s.len() > 0 && is_space_byte(s[0]) {
        lemma_drop_leading_ws_skip(s.drop_first(), k - 1);
        assert(s.drop_first().skip(k - 1) =~= s.skip(k));
    } else {
        assert(s.skip(0) =~= s);
    }
}

proof fn lemma_drop_trailing_ws_take(s: Seq<u8>, k: int)
    requires
        0 <= k <= s.len(),
        forall|j: int| k <= j < s.len() ==> is_space_byte(s[j]),
        k > 0 ==> !is_space_byte(s[k - 1]),
    ensures
        drop_trailing_ws(s) =~= s.take(k),
    decreases s.len(),
{
    if s.len() > 0 && is_space_byte(s.last()) {
        lemma_drop_trailing_ws_take(s.drop_last(), k);
    } else {
        assert(s.take(s.len() as int) =~= s);
    }
}

/// Trim ASCII whitespace from both ends of `s`.
pub fn trim_bytes(s: &[u8]) -> (r: Vec<u8>)
    ensures
        r@ == spec_trim(s@),
{
    let n = s.len();
    let mut a: usize = 0;
    while a < n && (s[a] == 32 || (9 <= s[a] && s[a] <= 13))
        invariant
            a <= n,
            n == s@.len(),
            forall|j: int| 0 <= j < a ==> is_space_byte(s@[j]),
        decreases n - a,
    {
        a = a + 1;
    }
    proof {
        lemma_drop_leading_ws_skip(s@, a as int);
    }
    let mut b: usize = n;
    while b > a && (s[b - 1] == 32 || (9 <= s[b - 1] && s[b - 1] <= 13))
        invariant
            a <= b <= n,
            n == s@.len(),
            forall|j: int| 0 <= j < a ==> is_space_byte(s@[j]),
            forall|j: int| b <= j < n ==> is_space_byte(s@[j]),
        decreases b,
    {
        b = b - 1;
    }
    let r = slice_to_vec(slice_subrange(s, a, b));
    proof {
        let mid = s@.skip(a as int);
        assert(forall|j: int| 0 <= j < mid.len() ==> mid[j] == s@[a + j]);
        if b == a {
            lemma_drop_trailing_ws_take(mid, 0);
        } else {
            lemma_drop_trailing_ws_take(mid, b - a);
        }
        assert(mid.take(b - a) =~= s@.subrange(a as int, b as int));
    }
    r
}

/// The number of occurrences of `b` in `s`.
pub open spec fn count_byte(s: Seq<u8>, b: u8) -> int
    decreases s.len(),
{
    if s.len() == 0 {
        0
    } else {
        count_byte(s.drop_last(), b) + if s.last() == b {
            1int
        } else {
            0int
        }
    }
}

pub proof fn lemma_count_nonneg(s: Seq<u8>, b: u8)
    ensures
        count_byte(s, b) >= 0,
    decreases s.len(),
{
    if s.len() > 0 {
        lemma_count_nonneg(s.drop_last(), b);
    }
}

pub proof fn lemma_count_le_len(s: Seq<u8>, b: u8)
    ensures
        count_byte(s, b) <= s.len(),
    decreases s.len(),
{
    if s.len() > 0 {
        lemma_count_le_len(s.drop_last(), b);
    }
}

pub proof fn lemma_count_zero(s: Seq<u8>, b: u8)
    requires
        forall|j: int| 0 <= j < s.len() ==> s[j] != b,
    ensures
        count_byte(s, b) == 0,
    decreases s.len(),
{
    if s.len() > 0 {
        lemma_count_zero(s.drop_last(), b);
    }
}

pub proof fn lemma_count_concat(a: Seq<u8>, c: Seq<u8>, b: u8)
    ensures
        count_byte(a + c, b) == count_byte(a, b) + count_byte(c, b),
    decreases c.len(),
{
    if c.len() == 0 {
        assert(a + c =~= a);
    } else {
        lemma_count_concat(a, c.drop_last(), b);
        assert((a + c).drop_last() =~= a + c.drop_last());
        assert((a + c).last() == c.last());
    }
}

/// Splitting on `sep` yields one part more than there are separators.
pub proof fn lemma_split_count(s: Seq<u8>, sep: u8)
    ensures
        spec_split(s, sep).len() == count_byte(s, sep) + 1,
    decreases s.len(),
{
    lemma_split_first_index(s, sep);
    let i = split_first_index(s, sep);
    if i == s.len() {
        lemma_count_zero(s, sep);
    } else {
        lemma_split_count(s.skip(i + 1), sep);
        assert(forall|j: int| 0 <= j < i ==> s.take(i + 1)[j] == s[j]);
        lemma_count_zero(s.take(i + 1).drop_last(), sep);
        assert(s.take(i + 1).last() == s[i]);
        assert(count_byte(s.take(i + 1), sep) == 1);
        lemma_count_concat(s.take(i + 1), s.skip(i + 1), sep);
        assert(s.take(i + 1) + s.skip(i + 1) =~= s);
    }
}

/// Every byte that `spec_alnum_upper` keeps is a digit or an upper-case
/// letter.
pub proof fn lemma_alnum_upper_classes(s: Seq<u8>)
    ensures
        forall|i: int|
            0 <= i < spec_alnum_upper(s).len() ==> (is_digit_byte(spec_alnum_upper(s)[i])
                || is_upper_byte(spec_alnum_upper(s)[i])),
    decreases s.len(),
{
    if s.len() > 0 {
        lemma_alnum_upper_classes(s.drop_last());
        assert forall|i: int| 0 <= i < spec_alnum_upper(s).len() implies (is_digit_byte(
            spec_alnum_upper(s)[i],
        ) || is_upper_byte(spec_alnum_upper(s)[i])) by {
            if i < spec_alnum_upper(s.drop_last()).len() {
                assert(spec_alnum_upper(s)[i] == spec_alnum_upper(s.drop_last())[i]);
            }
        }
    }
}

/// Some byte of `s` equals `b`.
pub open spec fn contains_byte(s: Seq<u8>, b: u8) -> bool {
    exists|i: int| 0 <= i < s.len() && s[i] == b
}

/// Whether `b` occurs in `s`.
pub fn has_byte(s: &[u8], b: u8) -> (r: bool)
    ensures
        r == contains_byte(s@, b),
{
    let n = s.len();
    for i in 0..n
        invariant
            n == s@.len(),
            forall|j: int| 0 <= j < i ==> s@[j] != b,
    {
        if s[i] == b {
            return true;
        }
    }
    false
}

/// Exact equality of two byte slices.
pub fn bytes_eq(a: &[u8], b: &[u8]) -> (r: bool)
    ensures
        r == (a@ == b@),
{
    let n = a.len();
    if n != b.len() {
        return false;
    }
    for i in 0..n
        invariant
            n == a@.len() == b@.len(),
            forall|j: int| 0 <= j < i ==> a@[j] == b@[j],
    {
        if a[i] != b[i] {
            return false;
        }
    }
    proof {
        assert(a@ =~= b@);
    }
    true
}

/// Case-insensitive (ASCII) equality of two byte slices.
pub fn bytes_eqi(a: &[u8], b: &[u8]) -> (r: bool)
    ensures
        r == eqi(a@, b@),
{
    let n = a.len();
    if n != b.len() {
        return false;
    }
    for i in 0..n
        invariant
            n == a@.len() == b@.len(),
            forall|j: int| 0 <= j < i ==> upper_byte(a@[j]) == upper_byte(b@[j]),
    {
        let x = a[i];
        let y = b[i];
        let xu = if 97 <= x && x <= 122 {
            x - 32
        } else {
            x
        };
        let yu = if 97 <= y && y <= 122 {
            y - 32
        } else {
            y
        };
        if xu != yu {
            return false;
        }
    }
    true
}

} // verus!
