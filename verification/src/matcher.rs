//! Compiled multi-pattern matcher.
//!
//! A catalog of patterns is compiled once: every pattern that compiles
//! gets one slot (patterns that fail to compile are dropped and
//! counted, never assigned an id), a combined regex set answers "which
//! patterns match this text at all", and an optional literal pre-filter
//! gives a cheap necessary condition. Matching a text runs the
//! combined test, extracts exact positions only for the patterns that
//! matched, drops empty and whitespace-only candidates, and applies
//! the pattern's declared validator to accept, reject or boost each
//! candidate.

use rayon::iter::{IntoParallelRefIterator, ParallelIterator};
use vstd::prelude::*;
use vstd::slice::{slice_subrange, slice_to_vec};
use vstd::string::StringSliceAdditionalSpecFns;
use vstd::utf8::encode_utf8;
use crate::textops::is_space_byte;
use crate::validators::{
    spec_validate_luhn, spec_validate_ssn, spec_validate_phone, spec_validate_email,
    spec_validate_ipv4, spec_validate_iban, spec_validate_npi, spec_validate_cusip,
    spec_validate_isin, validate_luhn_bytes, validate_ssn_bytes, validate_phone_bytes,
    validate_email_bytes, validate_ipv4_bytes, validate_iban_bytes, validate_npi_bytes,
    validate_cusip_bytes, validate_isin_bytes,
};
use crate::textops::bytes_eq;

verus! {

// ---------------------------------------------------------------------------
// Trusted declarations for the regex and aho-corasick crates
// ---------------------------------------------------------------------------

#[verifier::external_type_specification]
#[verifier::external_body]
pub struct ExRegex(regex::bytes::Regex);

#[verifier::external_type_specification]
#[verifier::external_body]
pub struct ExRegexSet(regex::bytes::RegexSet);

#[verifier::external_type_specification]
#[verifier::external_body]
pub struct ExRegexError(regex::Error);

#[verifier::external_type_specification]
#[verifier::external_body]
pub struct ExAhoCorasick(aho_corasick::AhoCorasick);

#[verifier::external_type_specification]
#[verifier::external_body]
pub struct ExAcBuildError(aho_corasick::BuildError);

/// Whether a pattern string compiles as a regex; compilation succeeds
/// or fails as a function of the pattern alone.
pub uninterp spec fn regex_compiles(pattern: Seq<char>) -> bool;

/// The pattern string a compiled regex was built from.
pub uninterp spec fn regex_pattern(re: regex::bytes::Regex) -> Seq<char>;

/// The successive non-overlapping leftmost match ranges of a pattern
/// over a byte haystack; a function of the pattern and haystack alone.
pub uninterp spec fn regex_find_ranges(pattern: Seq<char>, text: Seq<u8>) -> Seq<(usize, usize)>;

/// For each match of the pattern over the haystack, the range of the
/// requested capture group, or `None` where the group did not
/// participate in that match.
pub uninterp spec fn regex_capture_ranges(pattern: Seq<char>, group: usize, text: Seq<u8>) -> Seq<
    Option<(usize, usize)>,
>;

/// The pattern strings a regex set was built from.
pub uninterp spec fn regex_set_contents(rs: regex::bytes::RegexSet) -> Seq<Seq<char>>;

/// Whether a list of pattern strings builds into a combined regex set;
/// a function of the pattern list alone.
pub uninterp spec fn regex_set_builds(patterns: Seq<Seq<char>>) -> bool;

/// The literal patterns an Aho-Corasick automaton was built from.
pub uninterp spec fn ac_contents(ac: aho_corasick::AhoCorasick) -> Seq<Seq<u8>>;

/// Whether a list of literals builds into an Aho-Corasick automaton;
/// a function of the literal list alone.
pub uninterp spec fn ac_builds(patterns: Seq<Seq<u8>>) -> bool;

/// `needle` occurs contiguously inside `hay`.
pub open spec fn is_substring(needle: Seq<u8>, hay: Seq<u8>) -> bool {
    exists|j: int|
        0 <= j && j + needle.len() <= hay.len() && #[trigger] hay.subrange(j, j + needle.len())
            == needle
}

/// Relies on `regex::bytes::Regex::new`: compiling succeeds or fails
/// as a function of the pattern string alone, and the compiled regex
/// remembers its pattern.
#[verifier::external_body]
fn regex_new(pattern: &str) -> (r: Result<regex::bytes::Regex, regex::Error>)
    ensures
        r is Ok <==> regex_compiles(pattern@),
        r is Ok ==> regex_pattern(r->Ok_0) == pattern@,
{
    regex::bytes::Regex::new(pattern)
}

/// Relies on `regex::bytes::Regex::find_iter`: the successive
/// non-overlapping leftmost match ranges, each with
/// `start <= end <= len` (byte offsets into the haystack).
#[verifier::external_body]
fn regex_find_all(re: &regex::bytes::Regex, text: &[u8]) -> (r: Vec<(usize, usize)>)
    ensures
        r@ == regex_find_ranges(regex_pattern(*re), text@),
        forall|k: int| 0 <= k < r@.len() ==> (#[trigger] r@[k]).0 <= r@[k].1 <= text@.len(),
{
    re.find_iter(text).map(|m| (m.start(), m.end())).collect()
}

/// Relies on `regex::bytes::Regex::captures_iter`: one entry per
/// overall match (the same matches `find_iter` yields, so the counts
/// agree), giving the requested group's range when it participated;
/// group ranges satisfy `start <= end <= len`.
#[verifier::external_body]
fn regex_captures_all(re: &regex::bytes::Regex, group: usize, text: &[u8]) -> (r: Vec<
    Option<(usize, usize)>,
>)
    ensures
        r@ == regex_capture_ranges(regex_pattern(*re), group, text@),
        r@.len() == regex_find_ranges(regex_pattern(*re), text@).len(),
        forall|k: int, g: (usize, usize)|
            0 <= k < r@.len() && r@[k] == Some(g) ==> g.0 <= g.1 <= text@.len(),
{
    re.captures_iter(text).map(|c| c.get(group).map(|m| (m.start(), m.end()))).collect()
}

/// Relies on `regex::bytes::RegexSet::new`: building succeeds as a
/// function of the pattern list alone, and the set remembers its
/// patterns.
#[verifier::external_body]
fn regex_set_new(patterns: &Vec<String>) -> (r: Result<regex::bytes::RegexSet, regex::Error>)
    ensures
        r is Ok <==> regex_set_builds(patterns.deep_view()),
        r is Ok ==> regex_set_contents(r->Ok_0) == patterns.deep_view(),
{
    regex::bytes::RegexSet::new(patterns)
}

/// Relies on `regex::bytes::RegexSet::matches` and
/// `SetMatches::iter`: the indices of exactly the patterns that match
/// anywhere in the haystack (a pattern matches somewhere iff its own
/// `find_iter` yields at least one range), in ascending order.
#[verifier::external_body]
fn regex_set_matched(rs: &regex::bytes::RegexSet, text: &[u8]) -> (r: Vec<usize>)
    ensures
        forall|k: int| 0 <= k < r@.len() ==> (#[trigger] r@[k]) < regex_set_contents(*rs).len(),
        forall|k1: int, k2: int| 0 <= k1 < k2 < r@.len() ==> r@[k1] < r@[k2],
        forall|i: usize|
            i < regex_set_contents(*rs).len() ==> (r@.contains(i) <==> regex_find_ranges(
                regex_set_contents(*rs)[i as int],
                text@,
            ).len() > 0),
{
    rs.matches(text).iter().collect()
}

/// Relies on `aho_corasick::AhoCorasick::new`: building succeeds as a
/// function of the literal list alone, and the automaton remembers its
/// literals.
#[verifier::external_body]
fn ac_new(patterns: &Vec<Vec<u8>>) -> (r: Result<
    aho_corasick::AhoCorasick,
    aho_corasick::BuildError,
>)
    ensures
        r is Ok <==> ac_builds(patterns.deep_view()),
        r is Ok ==> ac_contents(r->Ok_0) == patterns.deep_view(),
{
    aho_corasick::AhoCorasick::new(patterns)
}

/// Relies on `aho_corasick::AhoCorasick::is_match`: true exactly when
/// one of the automaton's literals occurs as a substring of the
/// haystack.
#[verifier::external_body]
fn ac_is_match(ac: &aho_corasick::AhoCorasick, text: &[u8]) -> (r: bool)
    ensures
        r == (exists|i: int|
            0 <= i < ac_contents(*ac).len() && is_substring(#[trigger] ac_contents(*ac)[i], text@)),
{
    ac.is_match(text)
}

// ---------------------------------------------------------------------------
// Pattern specifications and raw matches
// ---------------------------------------------------------------------------

/// One pattern of the catalog: a regex source, the entity type it
/// detects, a base confidence in hundredths, the capture group whose
/// span to report (0 for the whole match), and an optional validator
/// name.
pub struct PatternSpec {
    pub regex: String,
    pub entity_type: String,
    pub base_confidence: u32,
    pub capture_group_index: usize,
    pub validator: Option<String>,
}

/// The mathematical shape of a pattern.
pub ghost struct PatternView {
    pub regex: Seq<char>,
    pub entity_type: Seq<char>,
    pub base_confidence: u32,
    pub capture_group_index: usize,
    pub validator: Option<Seq<char>>,
}

impl View for PatternSpec {
    type V = PatternView;

    open spec fn view(&self) -> PatternView {
        PatternView {
            regex: self.regex@,
            entity_type: self.entity_type@,
            base_confidence: self.base_confidence,
            capture_group_index: self.capture_group_index,
            validator: match self.validator {
                Some(s) => Some(s@),
                None => None,
            },
        }
    }
}

impl Clone for PatternSpec {
    fn clone(&self) -> (r: Self)
        ensures
            r@ == self@,
    {
        PatternSpec {
            regex: self.regex.clone(),
            entity_type: self.entity_type.clone(),
            base_confidence: self.base_confidence,
            capture_group_index: self.capture_group_index,
            validator: match &self.validator {
                Some(s) => Some(s.clone()),
                None => None,
            },
        }
    }
}

/// One candidate detection: the pattern that produced it, the byte
/// range and exact bytes of the match, the entity type, the adjusted
/// confidence in hundredths, and the validator that confirmed it.
pub struct RawMatch {
    pub pattern_id: usize,
    pub start: usize,
    pub end: usize,
    pub text: Vec<u8>,
    pub entity_type: String,
    pub confidence: u32,
    pub validator: Option<String>,
}

/// The mathematical shape of a raw match.
pub ghost struct RawMatchView {
    pub pattern_id: usize,
    pub start: usize,
    pub end: usize,
    pub text: Seq<u8>,
    pub entity_type: Seq<char>,
    pub confidence: u32,
    pub validator: Option<Seq<char>>,
}

impl View for RawMatch {
    type V = RawMatchView;

    open spec fn view(&self) -> RawMatchView {
        RawMatchView {
            pattern_id: self.pattern_id,
            start: self.start,
            end: self.end,
            text: self.text@,
            entity_type: self.entity_type@,
            confidence: self.confidence,
            validator: match self.validator {
                Some(s) => Some(s@),
                None => None,
            },
        }
    }
}

/// The views of a match list.
pub open spec fn matches_view(ms: Seq<RawMatch>) -> Seq<RawMatchView> {
    Seq::new(ms.len(), |i: int| ms[i]@)
}

/// The views of a pattern list.
pub open spec fn specs_view(ps: Seq<PatternSpec>) -> Seq<PatternView> {
    Seq::new(ps.len(), |i: int| ps[i]@)
}

// ---------------------------------------------------------------------------
// Validator application
// ---------------------------------------------------------------------------

/// The verdict of the validator named `nb` (as UTF-8 bytes) on a
/// candidate: whether it is accepted and the confidence boost in
/// hundredths. Unknown names pass the candidate through unboosted.
pub open spec fn validator_verdict_bytes(nb: Seq<u8>, cand: Seq<u8>) -> (bool, u32) {
    if nb == "luhn".spec_bytes() {
        if spec_validate_luhn(cand) {
            (true, 15)
        } else {
            (false, 0)
        }
    } else if nb == "ssn".spec_bytes() {
        if spec_validate_ssn(cand) {
            (true, 10)
        } else {
            (false, 0)
        }
    } else if nb == "phone".spec_bytes() {
        if spec_validate_phone(cand) {
            (true, 5)
        } else {
            (false, 0)
        }
    } else if nb == "email".spec_bytes() {
        if spec_validate_email(cand) {
            (true, 5)
        } else {
            (false, 0)
        }
    } else if nb == "ipv4".spec_bytes() {
        if spec_validate_ipv4(cand) {
            (true, 5)
        } else {
            (false, 0)
        }
    } else if nb == "iban".spec_bytes() {
        if spec_validate_iban(cand) {
            (true, 15)
        } else {
            (false, 0)
        }
    } else if nb == "npi".spec_bytes() {
        if spec_validate_npi(cand) {
            (true, 15)
        } else {
            (false, 0)
        }
    } else if nb == "cusip".spec_bytes() {
        if spec_validate_cusip(cand) {
            (true, 15)
        } else {
            (false, 0)
        }
    } else if nb == "isin".spec_bytes() {
        if spec_validate_isin(cand) {
            (true, 15)
        } else {
            (false, 0)
        }
    } else {
        (true, 0)
    }
}

/// The verdict of a pattern's optional validator on a candidate: no
/// validator accepts unboosted.
pub open spec fn validator_verdict(nv: Option<Seq<char>>, cand: Seq<u8>) -> (bool, u32) {
    match nv {
        None => (true, 0),
        Some(nm) => validator_verdict_bytes(encode_utf8(nm), cand),
    }
}

/// Run a pattern's optional validator on a candidate.
fn run_validator(validator: &Option<String>, cand: &[u8]) -> (r: (bool, u32))
    ensures
        r == validator_verdict(
            match *validator {
                Some(ref s) => Some(s@),
                None => None,
            },
            cand@,
        ),
        r.1 <= 15,
{
    match validator {
        None => (true, 0),
        Some(name) => {
            let nb = name.as_str().as_bytes();
            if bytes_eq(nb, "luhn".as_bytes()) {
                if validate_luhn_bytes(cand) {
                    (true, 15)
                } else {
                    (false, 0)
                }
            } else if bytes_eq(nb, "ssn".as_bytes()) {
                if validate_ssn_bytes(cand) {
                    (true, 10)
                } else {
                    (false, 0)
                }
            } else if bytes_eq(nb, "phone".as_bytes()) {
                if validate_phone_bytes(cand) {
                    (true, 5)
                } else {
                    (false, 0)
                }
            } else if bytes_eq(nb, "email".as_bytes()) {
                if validate_email_bytes(cand) {
                    (true, 5)
                } else {
                    (false, 0)
                }
            } else if bytes_eq(nb, "ipv4".as_bytes()) {
                if validate_ipv4_bytes(cand) {
                    (true, 5)
                } else {
                    (false, 0)
                }
            } else if bytes_eq(nb, "iban".as_bytes()) {
                if validate_iban_bytes(cand) {
                    (true, 15)
                } else {
                    (false, 0)
                }
            } else if bytes_eq(nb, "npi".as_bytes()) {
                if validate_npi_bytes(cand) {
                    (true, 15)
                } else {
                    (false, 0)
                }
            } else if bytes_eq(nb, "cusip".as_bytes()) {
                if validate_cusip_bytes(cand) {
                    (true, 15)
                } else {
                    (false, 0)
                }
            } else if bytes_eq(nb, "isin".as_bytes()) {
                if validate_isin_bytes(cand) {
                    (true, 15)
                } else {
                    (false, 0)
                }
            } else {
                (true, 0)
            }
        },
    }
}

// ---------------------------------------------------------------------------
// Match extraction, specified
// ---------------------------------------------------------------------------

/// The byte length of one whitespace character at the front of `s`,
/// or 0 when `s` does not start with whitespace. Recognises the UTF-8
/// encodings of every character `char::is_whitespace` accepts: the
/// ASCII whitespace bytes, U+0085 and U+00A0, and the space
/// separators U+1680, U+2000-200A, U+2028, U+2029, U+202F, U+205F and
/// U+3000.
pub open spec fn ws_char_len(s: Seq<u8>) -> int {
    if s.len() >= 1 && is_space_byte(s[0]) {
        1
    } else if s.len() >= 2 && s[0] == 0xC2 && (s[1] == 0x85 || s[1] == 0xA0) {
        2
    } else if s.len() >= 3 && s[0] == 0xE1 && s[1] == 0x9A && s[2] == 0x80 {
        3
    } else if s.len() >= 3 && s[0] == 0xE2 && s[1] == 0x80 && ((0x80 <= s[2] <= 0x8A) || s[2]
        == 0xA8 || s[2] == 0xA9 || s[2] == 0xAF) {
        3
    } else if s.len() >= 3 && s[0] == 0xE2 && s[1] == 0x81 && s[2] == 0x9F {
        3
    } else if s.len() >= 3 && s[0] == 0xE3 && s[1] == 0x80 && s[2] == 0x80 {
        3
    } else {
        0
    }
}

/// `s` consists entirely of whitespace characters; the empty sequence
/// counts as whitespace-only.
pub open spec fn all_whitespace(s: Seq<u8>) -> bool
    decreases s.len(),
{
    if s.len() == 0 {
        true
    } else if ws_char_len(s) > 0 {
        all_whitespace(s.skip(ws_char_len(s)))
    } else {
        false
    }
}

/// A candidate byte range survives: it holds something besides
/// whitespace, so it is neither empty nor whitespace-only.
pub open spec fn keep_candidate(text: Seq<u8>, s: int, e: int) -> bool {
    !all_whitespace(text.subrange(s, e))
}

/// The raw matches (none or one) a single extracted range contributes:
/// in-bounds, not whitespace-only, and accepted by the pattern's
/// validator, with the boosted confidence capped at 100.
pub open spec fn candidate_match(
    pv: PatternView,
    pid: usize,
    text: Seq<u8>,
    rng: (usize, usize),
) -> Seq<RawMatchView> {
    let s = rng.0;
    let e = rng.1;
    if s <= e <= text.len() && keep_candidate(text, s as int, e as int) {
        let cand = text.subrange(s as int, e as int);
        let verdict = validator_verdict(pv.validator, cand);
        if verdict.0 {
            seq![
                RawMatchView {
                    pattern_id: pid,
                    start: s,
                    end: e,
                    text: cand,
                    entity_type: pv.entity_type,
                    confidence: if pv.base_confidence + verdict.1 > 100 {
                        100
                    } else {
                        (pv.base_confidence + verdict.1) as u32
                    },
                    validator: pv.validator,
                },
            ]
        } else {
            Seq::empty()
        }
    } else {
        Seq::empty()
    }
}

/// The ranges of the capture entries where the group participated.
pub open spec fn present_ranges(os: Seq<Option<(usize, usize)>>) -> Seq<(usize, usize)>
    decreases os.len(),
{
    if os.len() == 0 {
        Seq::empty()
    } else {
        present_ranges(os.drop_last()) + match os.last() {
            Some(g) => seq![g],
            None => Seq::empty(),
        }
    }
}

/// The extracted ranges of a pattern: whole-match ranges for capture
/// group 0, else the ranges of the selected group where it
/// participated.
pub open spec fn spans_of_pattern(pv: PatternView, text: Seq<u8>) -> Seq<(usize, usize)> {
    if pv.capture_group_index == 0 {
        regex_find_ranges(pv.regex, text)
    } else {
        present_ranges(regex_capture_ranges(pv.regex, pv.capture_group_index, text))
    }
}

/// The matches a list of extracted ranges contributes, in order.
pub open spec fn matches_from_spans(
    pv: PatternView,
    pid: usize,
    text: Seq<u8>,
    spans: Seq<(usize, usize)>,
) -> Seq<RawMatchView>
    decreases spans.len(),
{
    if spans.len() == 0 {
        Seq::empty()
    } else {
        matches_from_spans(pv, pid, text, spans.drop_last()) + candidate_match(
            pv,
            pid,
            text,
            spans.last(),
        )
    }
}

/// All matches of pattern `pid`: none unless its regex matches
/// somewhere in the text (the combined match test gates the scan),
/// else the surviving candidates of its extracted ranges.
pub open spec fn matches_of_pattern(pv: PatternView, pid: usize, text: Seq<u8>) -> Seq<
    RawMatchView,
> {
    if regex_find_ranges(pv.regex, text).len() == 0 {
        Seq::empty()
    } else {
        matches_from_spans(pv, pid, text, spans_of_pattern(pv, text))
    }
}

/// The matches of the patterns with id below `k`, concatenated in id
/// order.
pub open spec fn find_matches_up_to(cats: Seq<PatternView>, text: Seq<u8>, k: int) -> Seq<
    RawMatchView,
>
    decreases k,
{
    if k <= 0 {
        Seq::empty()
    } else {
        find_matches_up_to(cats, text, k - 1) + matches_of_pattern(
            cats[k - 1],
            (k - 1) as usize,
            text,
        )
    }
}

/// Every match of the catalog over a text, in pattern id order.
pub open spec fn spec_find_matches(cats: Seq<PatternView>, text: Seq<u8>) -> Seq<RawMatchView> {
    find_matches_up_to(cats, text, cats.len() as int)
}

/// The compiled subset of a pattern list: the patterns whose regex
/// compiles, in order.
pub open spec fn spec_compile(inputs: Seq<PatternView>) -> Seq<PatternView>
    decreases inputs.len(),
{
    if inputs.len() == 0 {
        Seq::empty()
    } else {
        spec_compile(inputs.drop_last()) + if regex_compiles(inputs.last().regex) {
            seq![inputs.last()]
        } else {
            Seq::empty()
        }
    }
}

/// The regex sources of a compiled pattern list.
pub open spec fn regex_sources(cats: Seq<PatternView>) -> Seq<Seq<char>> {
    cats.map_values(|c: PatternView| c.regex)
}

/// The literals of the built-in pre-filter: `@`, `-`, `.`, `/`, `:`
/// and the space, bytes that the common identifier patterns need.
pub open spec fn prefilter_literals() -> Seq<Seq<u8>> {
    seq![seq![64u8], seq![45u8], seq![46u8], seq![47u8], seq![58u8], seq![32u8]]
}

/// Some pre-filter literal occurs in the text.
pub open spec fn text_has_prefilter_literal(text: Seq<u8>) -> bool {
    exists|i: int|
        0 <= i < prefilter_literals().len() && is_substring(
            #[trigger] prefilter_literals()[i],
            text,
        )
}

/// Every match the specification yields is well-formed: a non-empty,
/// non-whitespace-only range inside the text, whose bytes it carries.
pub proof fn lemma_matches_from_spans_wf(
    pv: PatternView,
    pid: usize,
    text: Seq<u8>,
    spans: Seq<(usize, usize)>,
)
    ensures
        forall|k: int|
            0 <= k < matches_from_spans(pv, pid, text, spans).len() ==> {
                let m = #[trigger] matches_from_spans(pv, pid, text, spans)[k];
                &&& m.start < m.end <= text.len()
                &&& m.text == text.subrange(m.start as int, m.end as int)
                &&& keep_candidate(text, m.start as int, m.end as int)
            },
    decreases spans.len(),
{
    if spans.len() > 0 {
        lemma_matches_from_spans_wf(pv, pid, text, spans.drop_last());
        let all = matches_from_spans(pv, pid, text, spans);
        let prev = matches_from_spans(pv, pid, text, spans.drop_last());
        assert forall|k: int| 0 <= k < all.len() implies {
            let m = #[trigger] all[k];
            &&& m.start < m.end <= text.len()
            &&& m.text == text.subrange(m.start as int, m.end as int)
            &&& keep_candidate(text, m.start as int, m.end as int)
        } by {
            if k < prev.len() {
                assert(all[k] == prev[k]);
            } else {
                let rng = spans.last();
                let s = rng.0;
                let e = rng.1;
                assert(keep_candidate(text, s as int, e as int));
                assert(s < e) by {
                    if s == e {
                        assert(text.subrange(s as int, e as int).len() == 0);
                        assert(all_whitespace(text.subrange(s as int, e as int)));
                    }
                }
            }
        }
    }
}

pub proof fn lemma_find_up_to_wf(cats: Seq<PatternView>, text: Seq<u8>, n: int)
    ensures
        forall|k: int|
            0 <= k < find_matches_up_to(cats, text, n).len() ==> {
                let m = #[trigger] find_matches_up_to(cats, text, n)[k];
                &&& m.start < m.end <= text.len()
                &&& m.text == text.subrange(m.start as int, m.end as int)
                &&& keep_candidate(text, m.start as int, m.end as int)
            },
    decreases n,
{
    if n > 0 {
        lemma_find_up_to_wf(cats, text, n - 1);
        lemma_matches_from_spans_wf(cats[n - 1], (n - 1) as usize, text, spans_of_pattern(cats[n - 1], text));
        let all = find_matches_up_to(cats, text, n);
        let prev = find_matches_up_to(cats, text, n - 1);
        assert forall|k: int| 0 <= k < all.len() implies {
            let m = #[trigger] all[k];
            &&& m.start < m.end <= text.len()
            &&& m.text == text.subrange(m.start as int, m.end as int)
            &&& keep_candidate(text, m.start as int, m.end as int)
        } by {
            if k < prev.len() {
                assert(all[k] == prev[k]);
            } else {
                let tail = matches_of_pattern(cats[n - 1], (n - 1) as usize, text);
                assert(all[k] == tail[k - prev.len()]);
            }
        }
    }
}

/// Patterns whose regex matches nowhere contribute nothing, so the
/// concatenation can skip over them.
pub proof fn lemma_up_to_skip(cats: Seq<PatternView>, text: Seq<u8>, a: int, b: int)
    requires
        0 <= a <= b <= cats.len(),
        forall|id: int|
            a <= id < b ==> regex_find_ranges((#[trigger] cats[id]).regex, text).len() == 0,
    ensures
        find_matches_up_to(cats, text, b) == find_matches_up_to(cats, text, a),
    decreases b - a,
{
    if a < b {
        lemma_up_to_skip(cats, text, a, b - 1);
        assert(matches_of_pattern(cats[b - 1], (b - 1) as usize, text) =~= Seq::<
            RawMatchView,
        >::empty());
        assert(find_matches_up_to(cats, text, b) =~= find_matches_up_to(cats, text, b - 1));
    }
}

/// Compiling the same pattern set twice yields the same match results
/// for the same text: both compilation and matching are functions of
/// the pattern set and the text alone, so two catalogs built from the
/// same specifications behave identically.
pub proof fn lemma_match_results_stable(
    c1: Seq<PatternView>,
    c2: Seq<PatternView>,
    inputs: Seq<PatternView>,
    text: Seq<u8>,
)
    requires
        c1 == spec_compile(inputs),
        c2 == spec_compile(inputs),
    ensures
        spec_find_matches(c1, text) == spec_find_matches(c2, text),
{
}

// ---------------------------------------------------------------------------
// The compiled catalog
// ---------------------------------------------------------------------------

/// A compiled pattern catalog: one compiled regex and one metadata slot
/// per pattern that compiled, a combined regex set over the same
/// sources, an optional literal pre-filter, and the map from original
/// pattern positions to compiled ids.
pub struct PatternMatcher {
    regexes: Vec<regex::bytes::Regex>,
    metas: Vec<PatternSpec>,
    set: regex::bytes::RegexSet,
    prefilter: Option<aho_corasick::AhoCorasick>,
    index_map: Vec<Option<usize>>,
    failed: usize,
}

impl View for PatternMatcher {
    type V = Seq<PatternView>;

    closed spec fn view(&self) -> Seq<PatternView> {
        specs_view(self.metas@)
    }
}

impl PatternMatcher {
    /// Internal consistency of a catalog: one regex per metadata slot,
    /// compiled from that slot's source; the set built over the same
    /// sources; the pre-filter, when present, built over the fixed
    /// literals; base confidences within range.
    #[verifier::type_invariant]
    spec fn wf(self) -> bool {
        &&& self.regexes@.len() == self.metas@.len()
        &&& forall|i: int|
            0 <= i < self.metas@.len() ==> regex_pattern(#[trigger] self.regexes@[i])
                == self.metas@[i].regex@
        &&& forall|i: int|
            0 <= i < self.metas@.len() ==> (#[trigger] self.metas@[i]).base_confidence <= 100
        &&& regex_set_contents(self.set) == regex_sources(specs_view(self.metas@))
        &&& match self.prefilter {
            Some(ac) => ac_contents(ac) == prefilter_literals(),
            None => true,
        }
        &&& forall|i: int|
            0 <= i < self.index_map@.len() ==> match #[trigger] self.index_map@[i] {
                Some(j) => j < self.metas@.len(),
                None => true,
            }
    }

    /// The number of patterns that failed to compile.
    pub closed spec fn spec_failed(self) -> int {
        self.failed as int
    }

    /// Whether the pattern at an original position compiled.
    pub closed spec fn spec_has_pattern(self, index: usize) -> bool {
        index < self.index_map@.len() && self.index_map@[index as int] is Some
    }

    /// Whether a literal pre-filter is available.
    pub closed spec fn spec_has_prefilter(self) -> bool {
        self.prefilter is Some
    }

    /// Compile a pattern catalog. A pattern whose regex does not
    /// compile is dropped and counted, never assigned an id; the call
    /// fails only when the combined set over the surviving sources
    /// cannot be built.
    pub fn new(patterns: Vec<PatternSpec>) -> (r: Result<PatternMatcher, regex::Error>)
        requires
            forall|i: int|
                0 <= i < patterns@.len() ==> (#[trigger] patterns@[i]).base_confidence <= 100,
        ensures
            r is Ok <==> regex_set_builds(regex_sources(spec_compile(specs_view(patterns@)))),
            r is Ok ==> {
                let c = r->Ok_0;
                &&& c@ == spec_compile(specs_view(patterns@))
                &&& c.spec_failed() == patterns@.len() - c@.len()
                &&& forall|i: usize|
                    c.spec_has_pattern(i) <==> (i < patterns@.len() && regex_compiles(
                        (#[trigger] patterns@[i as int])@.regex,
                    ))
                &&& c.spec_has_prefilter() == ac_builds(prefilter_literals())
            },
    {
        let n = patterns.len();
        let mut regexes: Vec<regex::bytes::Regex> = Vec::new();
        let mut metas: Vec<PatternSpec> = Vec::new();
        let mut index_map: Vec<Option<usize>> = Vec::new();
        let mut failed: usize = 0;
        for i in 0..n
            invariant
                n == patterns@.len(),
                forall|k: int|
                    0 <= k < patterns@.len() ==> (#[trigger] patterns@[k]).base_confidence <= 100,
                specs_view(metas@) == spec_compile(specs_view(patterns@.take(i as int))),
                regexes@.len() == metas@.len(),
                forall|k: int|
                    0 <= k < metas@.len() ==> regex_pattern(#[trigger] regexes@[k])
                        == metas@[k].regex@,
                forall|k: int|
                    0 <= k < metas@.len() ==> (#[trigger] metas@[k]).base_confidence <= 100,
                index_map@.len() == i,
                forall|k: int|
                    0 <= k < i ==> match #[trigger] index_map@[k] {
                        Some(j) => j < metas@.len(),
                        None => true,
                    },
                forall|k: int|
                    0 <= k < i ==> ((#[trigger] index_map@[k]) is Some <==> regex_compiles(
                        patterns@[k]@.regex,
                    )),
                metas@.len() + failed == i,
        {
            let p = (&patterns[i]).clone();
            proof {
                assert(specs_view(patterns@.take(i + 1)).drop_last() =~= specs_view(
                    patterns@.take(i as int),
                ));
                assert(specs_view(patterns@.take(i + 1)).last() == patterns@[i as int]@);
            }
            match regex_new(p.regex.as_str()) {
                Ok(re) => {
                    index_map.push(Some(metas.len()));
                    regexes.push(re);
                    metas.push(p);
                    proof {
                        assert(specs_view(metas@) =~= spec_compile(
                            specs_view(patterns@.take(i + 1)),
                        ));
                    }
                },
                Err(_) => {
                    index_map.push(None);
                    failed = failed + 1;
                    proof {
                        assert(specs_view(metas@) =~= spec_compile(
                            specs_view(patterns@.take(i + 1)),
                        ));
                    }
                },
            }
        }
        proof {
            assert(patterns@.take(n as int) =~= patterns@);
            assert(specs_view(patterns@.take(n as int)) =~= specs_view(patterns@));
        }
        let mut sources: Vec<String> = Vec::new();
        let m = metas.len();
        for k in 0..m
            invariant
                m == metas@.len(),
                sources@.len() == k,
                forall|t: int| 0 <= t < k ==> (#[trigger] sources@[t])@ == metas@[t].regex@,
        {
            sources.push(metas[k].regex.clone());
        }
        proof {
            assert(sources.deep_view() =~= regex_sources(specs_view(metas@)));
        }
        let set = match regex_set_new(&sources) {
            Ok(s) => s,
            Err(e) => {
                return Err(e);
            },
        };
        let mut lits: Vec<Vec<u8>> = Vec::new();
        let mut lit0: Vec<u8> = Vec::new();
        lit0.push(64);
        lits.push(lit0);
        let mut lit1: Vec<u8> = Vec::new();
        lit1.push(45);
        lits.push(lit1);
        let mut lit2: Vec<u8> = Vec::new();
        lit2.push(46);
        lits.push(lit2);
        let mut lit3: Vec<u8> = Vec::new();
        lit3.push(47);
        lits.push(lit3);
        let mut lit4: Vec<u8> = Vec::new();
        lit4.push(58);
        lits.push(lit4);
        let mut lit5: Vec<u8> = Vec::new();
        lit5.push(32);
        lits.push(lit5);
        proof {
            assert(lits.deep_view() =~~= prefilter_literals());
        }
        let prefilter = match ac_new(&lits) {
            Ok(ac) => Some(ac),
            Err(_) => None,
        };
        let c = PatternMatcher { regexes, metas, set, prefilter, index_map, failed };
        Ok(c)
    }

    /// The number of patterns that compiled.
    pub fn pattern_count(&self) -> (r: usize)
        ensures
            r == self@.len(),
    {
        proof {
            use_type_invariant(self);
        }
        self.metas.len()
    }

    /// The number of patterns that failed to compile.
    pub fn failed_count(&self) -> (r: usize)
        ensures
            r as int == self.spec_failed(),
    {
        self.failed
    }

    /// Whether the pattern at an original catalog position compiled.
    pub fn has_pattern(&self, index: usize) -> (r: bool)
        ensures
            r == self.spec_has_pattern(index),
    {
        index < self.index_map.len() && self.index_map[index].is_some()
    }

    /// The entity types of the compiled patterns, in id order.
    pub fn pattern_names(&self) -> (r: Vec<String>)
        ensures
            r@.len() == self@.len(),
            forall|i: int| 0 <= i < r@.len() ==> (#[trigger] r@[i])@ == self@[i].entity_type,
    {
        proof {
            use_type_invariant(self);
        }
        let n = self.metas.len();
        let mut r: Vec<String> = Vec::new();
        for i in 0..n
            invariant
                n == self.metas@.len(),
                self@ == specs_view(self.metas@),
                r@.len() == i,
                forall|k: int| 0 <= k < i ==> (#[trigger] r@[k])@ == self@[k].entity_type,
        {
            r.push(self.metas[i].entity_type.clone());
        }
        r
    }

    /// A cheap pre-check: `false` only when none of the pre-filter
    /// literals occurs in the text; without a pre-filter the answer is
    /// always `true`. A `false` is a guaranteed negative exactly when
    /// the literals are necessary for every pattern, as the last
    /// clause states: if each pattern can only match texts holding a
    /// pre-filter literal, then a `false` answer means `find_matches`
    /// returns nothing. For a catalog whose patterns need none of the
    /// literals the pre-check proves nothing, and the caller must not
    /// skip the regex stage on its account.
    pub fn might_contain_patterns(&self, text: &[u8]) -> (r: bool)
        ensures
            self.spec_has_prefilter() ==> r == text_has_prefilter_literal(text@),
            !self.spec_has_prefilter() ==> r == true,
            (!r && (forall|i: int|
                0 <= i < self@.len() ==> (regex_find_ranges(
                    (#[trigger] self@[i]).regex,
                    text@,
                ).len() > 0 ==> text_has_prefilter_literal(text@)))) ==> spec_find_matches(
                self@,
                text@,
            ) =~= Seq::<RawMatchView>::empty(),
    {
        proof {
            use_type_invariant(self);
        }
        match &self.prefilter {
            Some(ac) => {
                let r = ac_is_match(ac, text);
                proof {
                    if !r && (forall|i: int|
                        0 <= i < self@.len() ==> (regex_find_ranges(
                            (#[trigger] self@[i]).regex,
                            text@,
                        ).len() > 0 ==> text_has_prefilter_literal(text@))) {
                        assert(!text_has_prefilter_literal(text@));
                        assert forall|i: int| 0 <= i < self@.len() implies regex_find_ranges(
                            (#[trigger] self@[i]).regex,
                            text@,
                        ).len() == 0 by {}
                        lemma_up_to_skip(self@, text@, 0, self@.len() as int);
                        assert(find_matches_up_to(self@, text@, 0) =~= Seq::<
                            RawMatchView,
                        >::empty());
                    }
                }
                r
            },
            None => true,
        }
    }

    /// Find every pattern match in a text.
    ///
    /// Runs the combined match test, extracts exact positions for the
    /// patterns that matched (whole match or selected capture group),
    /// drops empty and whitespace-only candidates, and applies each
    /// pattern's validator: rejected candidates are dropped, accepted
    /// ones get the validator's boost, capped at 100. Every returned
    /// span satisfies `start < end <= text.len()` and carries exactly
    /// the bytes of its range.
    pub fn find_matches(&self, text: &[u8]) -> (r: Vec<RawMatch>)
        ensures
            matches_view(r@) == spec_find_matches(self@, text@),
            forall|k: int|
                0 <= k < r@.len() ==> {
                    let m = #[trigger] r@[k];
                    &&& m.start < m.end <= text@.len()
                    &&& m.text@ == text@.subrange(m.start as int, m.end as int)
                    &&& keep_candidate(text@, m.start as int, m.end as int)
                },
    {
        proof {
            use_type_invariant(self);
        }
        let ghost cats = self@;
        let n = self.metas.len();
        let matched = regex_set_matched(&self.set, text);
        let mut result: Vec<RawMatch> = Vec::new();
        let mut ptr: usize = 0;
        let mlen = matched.len();
        for id in 0..n
            invariant
                n == self.metas@.len(),
                cats == self@,
                cats == specs_view(self.metas@),
                cats.len() == n,
                self.wf(),
                mlen == matched@.len(),
                ptr <= mlen,
                forall|k: int| 0 <= k < mlen ==> (#[trigger] matched@[k]) < n,
                forall|k1: int, k2: int| 0 <= k1 < k2 < mlen ==> matched@[k1] < matched@[k2],
                forall|i: usize|
                    i < n ==> (matched@.contains(i) <==> regex_find_ranges(
                        (#[trigger] cats[i as int]).regex,
                        text@,
                    ).len() > 0),
                forall|k: int| ptr <= k < mlen ==> (#[trigger] matched@[k]) >= id,
                forall|k: int| 0 <= k < ptr ==> (#[trigger] matched@[k]) < id,
                matches_view(result@) == find_matches_up_to(cats, text@, id as int),
        {
            proof {
                assert(regex_set_contents(self.set) == regex_sources(cats));
                assert forall|i: int| 0 <= i < n implies (#[trigger] cats[i]).regex
                    == regex_sources(cats)[i] by {}
            }
            if ptr < mlen && matched[ptr] == id {
                self.scan_pattern(id, text, &mut result, Ghost(cats));
                ptr = ptr + 1;
            } else {
                proof {
                    if matched@.contains(id) {
                        let k = choose|k: int| 0 <= k < mlen && matched@[k] == id;
                        if k < ptr {
                            assert(matched@[k] < id);
                        } else {
                            assert(matched@[k] >= id);
                            if k > ptr {
                                assert(matched@[ptr as int] < matched@[k]);
                            }
                        }
                    }
                    assert(!matched@.contains(id));
                    assert(regex_find_ranges(cats[id as int].regex, text@).len() == 0);
                    assert(matches_of_pattern(cats[id as int], id, text@) =~= Seq::<
                        RawMatchView,
                    >::empty());
                    assert(find_matches_up_to(cats, text@, id + 1) =~= find_matches_up_to(
                        cats,
                        text@,
                        id as int,
                    ));
                }
            }
            proof {
                assert forall|k: int| ptr <= k < mlen implies (#[trigger] matched@[k]) >= id
                    + 1 by {
                    if matched@[k] == id {
                        if k > 0 && ptr > 0 && k >= ptr {
                        }
                        assert(matched@.contains(matched@[k]));
                    }
                }
            }
        }
        proof {
            lemma_find_up_to_wf(cats, text@, n as int);
            assert forall|k: int| 0 <= k < result@.len() implies {
                let m = #[trigger] result@[k];
                &&& m.start < m.end <= text@.len()
                &&& m.text@ == text@.subrange(m.start as int, m.end as int)
                &&& keep_candidate(text@, m.start as int, m.end as int)
            } by {
                assert(matches_view(result@)[k] == result@[k]@);
            }
        }
        result
    }

    /// Extract and validate the candidates of one matched pattern,
    /// appending the survivors.
    fn scan_pattern(
        &self,
        id: usize,
        text: &[u8],
        result: &mut Vec<RawMatch>,
        Ghost(cats): Ghost<Seq<PatternView>>,
    )
        requires
            self.wf(),
            cats == specs_view(self.metas@),
            id < self.metas@.len(),
            regex_find_ranges(cats[id as int].regex, text@).len() > 0,
            matches_view(old(result)@) == find_matches_up_to(cats, text@, id as int),
        ensures
            matches_view(final(result)@) == find_matches_up_to(cats, text@, id + 1),
    {
        let ghost pv = cats[id as int];
        let meta = &self.metas[id];
        let re = &self.regexes[id];
        proof {
            assert(regex_pattern(*re) == pv.regex);
        }
        let spans: Vec<(usize, usize)> = if meta.capture_group_index == 0 {
            regex_find_all(re, text)
        } else {
            let opts = regex_captures_all(re, meta.capture_group_index, text);
            let mut out: Vec<(usize, usize)> = Vec::new();
            let olen = opts.len();
            for oi in 0..olen
                invariant
                    olen == opts@.len(),
                    out@ == present_ranges(opts@.take(oi as int)),
                    forall|k: int, g: (usize, usize)|
                        0 <= k < opts@.len() && opts@[k] == Some(g) ==> g.0 <= g.1 <= text@.len(),
                    forall|k: int|
                        0 <= k < out@.len() ==> (#[trigger] out@[k]).0 <= out@[k].1 <= text@.len(),
            {
                proof {
                    assert(opts@.take(oi + 1).drop_last() =~= opts@.take(oi as int));
                    assert(opts@.take(oi + 1).last() == opts@[oi as int]);
                }
                match opts[oi] {
                    Some(g) => {
                        out.push(g);
                        proof {
                            assert(opts@[oi as int] == Some(g));
                        }
                    },
                    None => {},
                }
                proof {
                    assert(out@ =~= present_ranges(opts@.take(oi + 1)));
                }
            }
            proof {
                assert(opts@.take(olen as int) =~= opts@);
            }
            out
        };
        proof {
            assert(spans@ == spans_of_pattern(pv, text@));
            assert(matches_of_pattern(pv, id, text@) == matches_from_spans(
                pv,
                id,
                text@,
                spans@,
            ));
        }
        let slen = spans.len();
        for si in 0..slen
            invariant
                slen == spans@.len(),
                spans@ == spans_of_pattern(pv, text@),
                forall|k: int|
                    0 <= k < spans@.len() ==> (#[trigger] spans@[k]).0 <= spans@[k].1
                        <= text@.len(),
                pv == cats[id as int],
                id < self.metas@.len(),
                cats == specs_view(self.metas@),
                self.wf(),
                matches_view(result@) == find_matches_up_to(cats, text@, id as int)
                    + matches_from_spans(pv, id, text@, spans@.take(si as int)),
        {
            let meta2 = &self.metas[id];
            let rng = spans[si];
            let s = rng.0;
            let e = rng.1;
            proof {
                assert(spans@.take(si + 1).drop_last() =~= spans@.take(si as int));
                assert(spans@.take(si + 1).last() == spans@[si as int]);
            }
            let mut kept = false;
            let mut scan = s;
            while scan < e
                invariant
                    s <= scan <= e,
                    e <= text@.len(),
                    !kept ==> all_whitespace(text@.subrange(scan as int, e as int))
                        == all_whitespace(text@.subrange(s as int, e as int)),
                    kept ==> keep_candidate(text@, s as int, e as int),
                ensures
                    kept == keep_candidate(text@, s as int, e as int),
                decreases e - scan,
            {
                let rem = e - scan;
                let b0 = text[scan];
                let step: usize = if b0 == 32 || (9 <= b0 && b0 <= 13) {
                    1
                } else if b0 == 0xC2 && rem >= 2 && (text[scan + 1] == 0x85 || text[scan + 1]
                    == 0xA0) {
                    2
                } else if b0 == 0xE1 && rem >= 3 && text[scan + 1] == 0x9A && text[scan + 2]
                    == 0x80 {
                    3
                } else if b0 == 0xE2 && rem >= 3 && text[scan + 1] == 0x80 && ((0x80 <= text[scan
                    + 2] && text[scan + 2] <= 0x8A) || text[scan + 2] == 0xA8 || text[scan + 2]
                    == 0xA9 || text[scan + 2] == 0xAF) {
                    3
                } else if b0 == 0xE2 && rem >= 3 && text[scan + 1] == 0x81 && text[scan + 2]
                    == 0x9F {
                    3
                } else if b0 == 0xE3 && rem >= 3 && text[scan + 1] == 0x80 && text[scan + 2]
                    == 0x80 {
                    3
                } else {
                    0
                };
                proof {
                    let sub = text@.subrange(scan as int, e as int);
                    assert(sub.len() == e - scan);
                    assert(sub[0] == text@[scan as int]);
                    if rem >= 2 {
                        assert(sub[1] == text@[scan as int + 1]);
                    }
                    if rem >= 3 {
                        assert(sub[2] == text@[scan as int + 2]);
                    }
                }
                if step == 0 {
                    kept = true;
                    proof {
                        let sub = text@.subrange(scan as int, e as int);
                        assert(ws_char_len(sub) == 0);
                        assert(!all_whitespace(sub));
                    }
                    break ;
                }
                proof {
                    let sub = text@.subrange(scan as int, e as int);
                    assert(ws_char_len(sub) == step);
                    assert(sub.skip(step as int) =~= text@.subrange(scan + step, e as int));
                    assert(all_whitespace(sub) == all_whitespace(
                        text@.subrange(scan + step, e as int),
                    ));
                }
                scan = scan + step;
            }
            if kept {
                let cand = slice_to_vec(slice_subrange(text, s, e));
                let verdict = run_validator(&meta2.validator, cand.as_slice());
                if verdict.0 {
                    let mut conf = meta2.base_confidence + verdict.1;
                    if conf > 100 {
                        conf = 100;
                    }
                    let m = RawMatch {
                        pattern_id: id,
                        start: s,
                        end: e,
                        text: cand,
                        entity_type: meta2.entity_type.clone(),
                        confidence: conf,
                        validator: match &meta2.validator {
                            Some(v) => Some(v.clone()),
                            None => None,
                        },
                    };
                    let ghost old_mv = matches_view(result@);
                    result.push(m);
                    proof {
                        assert(matches_view(result@) =~= old_mv + candidate_match(
                            pv,
                            id,
                            text@,
                            spans@[si as int],
                        ));
                    }
                } else {
                    proof {
                        assert(candidate_match(pv, id, text@, spans@[si as int]) =~= Seq::<
                            RawMatchView,
                        >::empty());
                    }
                }
            } else {
                proof {
                    assert(candidate_match(pv, id, text@, spans@[si as int]) =~= Seq::<
                        RawMatchView,
                    >::empty());
                }
            }
            proof {
                assert(matches_view(result@) =~= find_matches_up_to(cats, text@, id as int)
                    + matches_from_spans(pv, id, text@, spans@.take(si + 1)));
            }
        }
        proof {
            assert(spans@.take(slen as int) =~= spans@);
            assert(find_matches_up_to(cats, text@, id + 1) =~= find_matches_up_to(
                cats,
                text@,
                id as int,
            ) + matches_of_pattern(pv, id, text@));
        }
    }

    /// Find matches in many texts in parallel, one result list per
    /// text, in input order.
    pub fn find_matches_batch(&self, texts: &Vec<Vec<u8>>) -> (r: Vec<Vec<RawMatch>>)
        ensures
            r@.len() == texts@.len(),
            forall|i: int|
                0 <= i < r@.len() ==> matches_view(r@[i]@) == spec_find_matches(
                    self@,
                    (#[trigger] texts@[i])@,
                ),
    {
        self.par_find_matches(texts)
    }

    /// Relies on `rayon`'s indexed parallel iterators:
    /// `par_iter().map(..).collect()` preserves input order, so entry
    /// `i` of the result is the verified `find_matches` applied to
    /// text `i`.
    #[verifier::external_body]
    fn par_find_matches(&self, texts: &Vec<Vec<u8>>) -> (r: Vec<Vec<RawMatch>>)
        ensures
            r@.len() == texts@.len(),
            forall|i: int|
                0 <= i < r@.len() ==> matches_view(r@[i]@) == spec_find_matches(
                    self@,
                    (#[trigger] texts@[i])@,
                ),
    {
        texts.par_iter().map(|t| self.find_matches(t.as_slice())).collect()
    }
}

} // verus!
