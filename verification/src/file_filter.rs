//! File filtering for enumeration.
//!
//! A filter is built once from exclusion lists (extensions, glob
//! patterns, accounts) and size limits, and then decides per file
//! whether it should be scanned. All matching is case-insensitive.

use rayon::iter::{IntoParallelRefIterator, ParallelIterator};
use vstd::prelude::*;
use vstd::slice::slice_to_vec;
use vstd::string::StringSliceAdditionalSpecFns;
use vstd::utf8::encode_utf8;

verus! {

// ---------------------------------------------------------------------------
// Glob matching
// ---------------------------------------------------------------------------

/// Glob semantics over bytes: `*` matches any (possibly empty) run,
/// `?` any single byte, anything else itself.
pub open spec fn glob_match_spec(pat: Seq<u8>, txt: Seq<u8>) -> bool
    decreases pat.len() + txt.len(),
{
    if pat.len() == 0 {
        txt.len() == 0
    } else if pat[0] == 42 {
        glob_match_spec(pat.drop_first(), txt) || (txt.len() > 0 && glob_match_spec(
            pat,
            txt.drop_first(),
        ))
    } else {
        txt.len() > 0 && (pat[0] == 63 || pat[0] == txt[0]) && glob_match_spec(
            pat.drop_first(),
            txt.drop_first(),
        )
    }
}

fn glob_rec(pat: &[u8], txt: &[u8], pi: usize, ti: usize) -> (r: bool)
    requires
        pi <= pat@.len(),
        ti <= txt@.len(),
    ensures
        r == glob_match_spec(pat@.skip(pi as int), txt@.skip(ti as int)),
    decreases pat@.len() - pi + txt@.len() - ti,
{
    proof {
        if pi < pat@.len() {
            assert(pat@.skip(pi as int)[0] == pat@[pi as int]);
            assert(pat@.skip(pi as int).drop_first() =~= pat@.skip(pi + 1));
        }
        if ti < txt@.len() {
            assert(txt@.skip(ti as int)[0] == txt@[ti as int]);
            assert(txt@.skip(ti as int).drop_first() =~= txt@.skip(ti + 1));
        }
    }
    if pi == pat.len() {
        ti == txt.len()
    } else if pat[pi] == 42 {
        if glob_rec(pat, txt, pi + 1, ti) {
            true
        } else if ti < txt.len() {
            glob_rec(pat, txt, pi, ti + 1)
        } else {
            false
        }
    } else {
        if ti == txt.len() {
            false
        } else if pat[pi] == 63 || pat[pi] == txt[ti] {
            glob_rec(pat, txt, pi + 1, ti + 1)
        } else {
            false
        }
    }
}

/// Match a byte pattern with `*` and `?` wildcards against a byte
/// string.
pub fn glob_match(pattern: &[u8], text: &[u8]) -> (r: bool)
    ensures
        r == glob_match_spec(pattern@, text@),
{
    let r = glob_rec(pattern, text, 0, 0);
    proof {
        assert(pattern@.skip(0) =~= pattern@);
        assert(text@.skip(0) =~= text@);
    }
    r
}

// ---------------------------------------------------------------------------
// Byte helpers
// ---------------------------------------------------------------------------

/// Lower-case folding of a single byte.
pub open spec fn lower_byte(b: u8) -> u8 {
    if 65 <= b <= 90 {
        (b + 32) as u8
    } else {
        b
    }
}

/// Lower-case folding of a byte sequence.
pub open spec fn lower_seq(s: Seq<u8>) -> Seq<u8> {
    s.map_values(|b: u8| lower_byte(b))
}

/// Lower-case the bytes of `s`.
fn lower_bytes(s: &[u8]) -> (r: Vec<u8>)
    ensures
        r@ == lower_seq(s@),
{
    let mut r: Vec<u8> = Vec::new();
    let n = s.len();
    for i in 0..n
        invariant
            n == s@.len(),
            r@ == lower_seq(s@.take(i as int)),
    {
        let b = s[i];
        if 65 <= b && b <= 90 {
            r.push(b + 32);
        } else {
            r.push(b);
        }
        proof {
            assert(r@ =~= lower_seq(s@.take(i + 1)));
        }
    }
    proof {
        assert(s@.take(n as int) =~= s@);
    }
    r
}

/// `s` without its leading dots.
pub open spec fn strip_leading_dots(s: Seq<u8>) -> Seq<u8>
    decreases s.len(),
{
    if s.len() > 0 && s[0] == 46 {
        strip_leading_dots(s.drop_first())
    } else {
        s
    }
}

fn strip_dots(s: &[u8]) -> (r: Vec<u8>)
    ensures
        r@ == strip_leading_dots(s@),
{
    let n = s.len();
    let mut a: usize = 0;
    proof {
        assert(s@.skip(0) =~= s@);
    }
    while a < n && s[a] == 46
        invariant
            a <= n,
            n == s@.len(),
            strip_leading_dots(s@) == strip_leading_dots(s@.skip(a as int)),
        decreases n - a,
    {
        proof {
            assert(s@.skip(a as int)[0] == s@[a as int]);
            assert(s@.skip(a as int).drop_first() =~= s@.skip(a + 1));
        }
        a = a + 1;
    }
    proof {
        if a < n {
            assert(s@.skip(a as int)[0] == s@[a as int]);
        }
        assert(strip_leading_dots(s@.skip(a as int)) =~= s@.skip(a as int));
    }
    let mut r: Vec<u8> = Vec::new();
    let mut i = a;
    while i < n
        invariant
            a <= i <= n,
            n == s@.len(),
            r@ =~= s@.subrange(a as int, i as int),
        decreases n - i,
    {
        r.push(s[i]);
        i = i + 1;
    }
    proof {
        assert(r@ =~= s@.skip(a as int));
    }
    r
}

/// Whether `x` occurs in a list of byte strings.
pub open spec fn seqs_contain(ss: Seq<Seq<u8>>, x: Seq<u8>) -> bool {
    exists|i: int| 0 <= i < ss.len() && ss[i] == x
}

fn vecs_contain(ss: &Vec<Vec<u8>>, x: &[u8]) -> (r: bool)
    ensures
        r == seqs_contain(ss.deep_view(), x@),
{
    let n = ss.len();
    for i in 0..n
        invariant
            n == ss@.len(),
            forall|j: int| 0 <= j < i ==> ss.deep_view()[j] != x@,
    {
        if crate::textops::bytes_eq(ss[i].as_slice(), x) {
            proof {
                assert(ss.deep_view()[i as int] == x@);
            }
            return true;
        }
        proof {
            assert(ss.deep_view()[i as int] == ss@[i as int]@);
        }
    }
    false
}

/// The byte index after the last `.` of `name`, when one occurs.
pub open spec fn last_dot_index(s: Seq<u8>) -> int
    decreases s.len(),
{
    if s.len() == 0 {
        -1
    } else if s.last() == 46 {
        s.len() - 1
    } else {
        last_dot_index(s.drop_last())
    }
}

fn find_last_dot(s: &[u8]) -> (r: Option<usize>)
    ensures
        match r {
            Some(i) => last_dot_index(s@) == i && i < s@.len(),
            None => last_dot_index(s@) == -1,
        },
{
    let n = s.len();
    let mut i = n;
    proof {
        assert(s@.take(n as int) =~= s@);
    }
    while i > 0
        invariant
            i <= n,
            n == s@.len(),
            last_dot_index(s@) == last_dot_index(s@.take(i as int)),
        decreases i,
    {
        i = i - 1;
        proof {
            assert(s@.take(i + 1).drop_last() =~= s@.take(i as int));
            assert(s@.take(i + 1).last() == s@[i as int]);
        }
        if s[i] == 46 {
            proof {
                assert(last_dot_index(s@.take(i + 1)) == i);
            }
            return Some(i);
        }
    }
    proof {
        assert(s@.take(0) =~= Seq::<u8>::empty());
    }
    None
}

// ---------------------------------------------------------------------------
// The filter
// ---------------------------------------------------------------------------

/// The mathematical shape of a file filter: every stored byte string
/// is already lower-cased.
pub ghost struct FilterView {
    pub exts: Seq<Seq<u8>>,
    pub pats: Seq<Seq<u8>>,
    pub accounts: Seq<Seq<u8>>,
    pub account_pats: Seq<Seq<u8>>,
    pub min_size: Option<i64>,
    pub max_size: Option<i64>,
}

/// A compiled file filter: extension, glob-pattern and account
/// exclusion lists plus size limits.
pub struct FileFilter {
    exclude_extensions: Vec<Vec<u8>>,
    exclude_patterns: Vec<Vec<u8>>,
    exclude_accounts: Vec<Vec<u8>>,
    exclude_account_patterns: Vec<Vec<u8>>,
    min_size: Option<i64>,
    max_size: Option<i64>,
}

impl View for FileFilter {
    type V = FilterView;

    closed spec fn view(&self) -> FilterView {
        FilterView {
            exts: self.exclude_extensions.deep_view(),
            pats: self.exclude_patterns.deep_view(),
            accounts: self.exclude_accounts.deep_view(),
            account_pats: self.exclude_account_patterns.deep_view(),
            min_size: self.min_size,
            max_size: self.max_size,
        }
    }
}

/// A list with each element's first occurrence kept and later
/// duplicates dropped.
pub open spec fn dedup_first(ss: Seq<Seq<u8>>) -> Seq<Seq<u8>>
    decreases ss.len(),
{
    if ss.len() == 0 {
        Seq::empty()
    } else {
        let p = dedup_first(ss.drop_last());
        if seqs_contain(p, ss.last()) {
            p
        } else {
            p.push(ss.last())
        }
    }
}

/// The stored extension list: lower-cased, leading dots stripped,
/// duplicates dropped.
pub open spec fn spec_ext_list(exts: Seq<Seq<char>>) -> Seq<Seq<u8>> {
    dedup_first(exts.map_values(|e: Seq<char>| strip_leading_dots(lower_seq(encode_utf8(e)))))
}

/// A glob character occurs in `s`.
pub open spec fn has_wildcard(s: Seq<u8>) -> bool {
    crate::textops::contains_byte(s, 42) || crate::textops::contains_byte(s, 63)
}

/// The stored exact-account list: the lower-cased accounts without
/// wildcards, in order.
pub open spec fn spec_exact_accounts(accts: Seq<Seq<char>>) -> Seq<Seq<u8>>
    decreases accts.len(),
{
    if accts.len() == 0 {
        Seq::empty()
    } else {
        spec_exact_accounts(accts.drop_last()) + if has_wildcard(encode_utf8(accts.last())) {
            Seq::empty()
        } else {
            seq![lower_seq(encode_utf8(accts.last()))]
        }
    }
}

/// The stored account-pattern list: the lower-cased accounts with
/// wildcards, in order.
pub open spec fn spec_account_pats(accts: Seq<Seq<char>>) -> Seq<Seq<u8>>
    decreases accts.len(),
{
    if accts.len() == 0 {
        Seq::empty()
    } else {
        spec_account_pats(accts.drop_last()) + if has_wildcard(encode_utf8(accts.last())) {
            seq![lower_seq(encode_utf8(accts.last()))]
        } else {
            Seq::empty()
        }
    }
}

/// The file name's extension (lower-cased bytes after the last dot)
/// is on the exclusion list.
pub open spec fn ext_excluded(fv: FilterView, name: Seq<u8>) -> bool {
    &&& fv.exts.len() > 0
    &&& last_dot_index(name) >= 0
    &&& seqs_contain(fv.exts, lower_seq(name.skip(last_dot_index(name) + 1)))
}

/// Some exclusion pattern matches the lower-cased path, directly or
/// with a `*/` prefix allowing any parent components.
pub open spec fn path_excluded(fv: FilterView, path: Seq<u8>) -> bool {
    exists|i: int|
        0 <= i < fv.pats.len() && (glob_match_spec(#[trigger] fv.pats[i], lower_seq(path))
            || glob_match_spec(seq![42u8, 47u8] + fv.pats[i], lower_seq(path)))
}

/// The owner is excluded, by exact match or by account pattern.
pub open spec fn account_excluded(fv: FilterView, owner: Seq<u8>) -> bool {
    ||| seqs_contain(fv.accounts, lower_seq(owner))
    ||| exists|i: int|
        0 <= i < fv.account_pats.len() && glob_match_spec(
            #[trigger] fv.account_pats[i],
            lower_seq(owner),
        )
}

/// The size limits admit `size`.
pub open spec fn size_ok(fv: FilterView, size: i64) -> bool {
    &&& match fv.min_size {
        Some(m) => size >= m,
        None => true,
    }
    &&& match fv.max_size {
        Some(m) => size <= m,
        None => true,
    }
}

/// Whether a file passes every filter.
pub open spec fn spec_include(
    fv: FilterView,
    name: Seq<u8>,
    path: Seq<u8>,
    owner: Option<Seq<u8>>,
    size: i64,
) -> bool {
    &&& !ext_excluded(fv, name)
    &&& !path_excluded(fv, path)
    &&& match owner {
        Some(o) => !account_excluded(fv, o),
        None => true,
    }
    &&& size_ok(fv, size)
}

impl FileFilter {
    /// Build a filter from exclusion lists and size limits.
    /// Extensions are lower-cased, stripped of leading dots and
    /// deduplicated; accounts with wildcards become account patterns.
    pub fn new(
        exclude_extensions: Vec<String>,
        exclude_patterns: Vec<String>,
        exclude_accounts: Vec<String>,
        min_size: Option<i64>,
        max_size: Option<i64>,
    ) -> (r: FileFilter)
        ensures
            r@.exts == spec_ext_list(exclude_extensions.deep_view()),
            r@.pats == exclude_patterns.deep_view().map_values(
                |p: Seq<char>| lower_seq(encode_utf8(p)),
            ),
            r@.accounts == spec_exact_accounts(exclude_accounts.deep_view()),
            r@.account_pats == spec_account_pats(exclude_accounts.deep_view()),
            r@.min_size == min_size,
            r@.max_size == max_size,
    {
        let ghost evs = exclude_extensions.deep_view();
        let mut exts: Vec<Vec<u8>> = Vec::new();
        let n = exclude_extensions.len();
        for i in 0..n
            invariant
                n == exclude_extensions@.len(),
                evs == exclude_extensions.deep_view(),
                exts.deep_view() == dedup_first(
                    evs.take(i as int).map_values(
                        |e: Seq<char>| strip_leading_dots(lower_seq(encode_utf8(e))),
                    ),
                ),
        {
            let low = lower_bytes(exclude_extensions[i].as_str().as_bytes());
            let stripped = strip_dots(low.as_slice());
            proof {
                let mapped = evs.take(i + 1).map_values(
                    |e: Seq<char>| strip_leading_dots(lower_seq(encode_utf8(e))),
                );
                assert(mapped.drop_last() =~= evs.take(i as int).map_values(
                    |e: Seq<char>| strip_leading_dots(lower_seq(encode_utf8(e))),
                ));
                assert(mapped.last() == strip_leading_dots(
                    lower_seq(encode_utf8(evs[i as int])),
                ));
                assert(stripped@ == mapped.last());
            }
            if !vecs_contain(&exts, stripped.as_slice()) {
                let ghost old_dv = exts.deep_view();
                exts.push(stripped);
                proof {
                    assert(exts.deep_view() =~~= old_dv.push(
                        strip_leading_dots(lower_seq(encode_utf8(evs[i as int]))),
                    ));
                }
            }
            proof {
                assert(exts.deep_view() =~~= dedup_first(
                    evs.take(i + 1).map_values(
                        |e: Seq<char>| strip_leading_dots(lower_seq(encode_utf8(e))),
                    ),
                ));
            }
        }
        proof {
            assert(evs.take(n as int) =~= evs);
        }
        let ghost pvs = exclude_patterns.deep_view();
        let mut pats: Vec<Vec<u8>> = Vec::new();
        let np = exclude_patterns.len();
        for i in 0..np
            invariant
                np == exclude_patterns@.len(),
                pvs == exclude_patterns.deep_view(),
                pats.deep_view() == pvs.take(i as int).map_values(
                    |p: Seq<char>| lower_seq(encode_utf8(p)),
                ),
        {
            let low = lower_bytes(exclude_patterns[i].as_str().as_bytes());
            let ghost old_dv = pats.deep_view();
            pats.push(low);
            proof {
                let mapped = pvs.take(i + 1).map_values(|p: Seq<char>| lower_seq(encode_utf8(p)));
                assert(mapped.drop_last() =~= pvs.take(i as int).map_values(
                    |p: Seq<char>| lower_seq(encode_utf8(p)),
                ));
                assert(mapped.last() == lower_seq(encode_utf8(pvs[i as int])));
                assert(pats.deep_view() =~~= old_dv.push(lower_seq(encode_utf8(pvs[i as int]))));
                assert(pats.deep_view() =~~= mapped);
            }
        }
        proof {
            assert(pvs.take(np as int) =~= pvs);
        }
        let ghost avs = exclude_accounts.deep_view();
        let mut accounts: Vec<Vec<u8>> = Vec::new();
        let mut account_pats: Vec<Vec<u8>> = Vec::new();
        let na = exclude_accounts.len();
        for i in 0..na
            invariant
                na == exclude_accounts@.len(),
                avs == exclude_accounts.deep_view(),
                accounts.deep_view() == spec_exact_accounts(avs.take(i as int)),
                account_pats.deep_view() == spec_account_pats(avs.take(i as int)),
        {
            let ab = exclude_accounts[i].as_str().as_bytes();
            let wild = crate::textops::has_byte(ab, 42) || crate::textops::has_byte(ab, 63);
            let low = lower_bytes(ab);
            proof {
                assert(avs.take(i + 1).drop_last() =~= avs.take(i as int));
                assert(avs.take(i + 1).last() == avs[i as int]);
                assert(wild == has_wildcard(encode_utf8(avs[i as int])));
            }
            if wild {
                account_pats.push(low);
            } else {
                accounts.push(low);
            }
            proof {
                assert(accounts.deep_view() =~~= spec_exact_accounts(avs.take(i + 1)));
                assert(account_pats.deep_view() =~~= spec_account_pats(avs.take(i + 1)));
            }
        }
        proof {
            assert(avs.take(na as int) =~= avs);
        }
        FileFilter {
            exclude_extensions: exts,
            exclude_patterns: pats,
            exclude_accounts: accounts,
            exclude_account_patterns: account_pats,
            min_size,
            max_size,
        }
    }

    /// Whether a file passes every filter: extension, path patterns,
    /// owner exclusion and size limits.
    pub fn should_include(&self, name: &str, path: &str, owner: Option<&str>, size: i64) -> (r:
        bool)
        ensures
            r == spec_include(
                self@,
                name.spec_bytes(),
                path.spec_bytes(),
                match owner {
                    Some(o) => Some(o.spec_bytes()),
                    None => None,
                },
                size,
            ),
    {
        self.check_include(name.as_bytes(), path.as_bytes(), match owner {
            Some(o) => Some(o.as_bytes()),
            None => None,
        }, size)
    }

    /// Byte-level filter core.
    pub fn check_include(&self, name: &[u8], path: &[u8], owner: Option<&[u8]>, size: i64) -> (r:
        bool)
        ensures
            r == spec_include(
                self@,
                name@,
                path@,
                match owner {
                    Some(o) => Some(o@),
                    None => None,
                },
                size,
            ),
    {
        if self.exclude_extensions.len() > 0 {
            match find_last_dot(name) {
                Some(dot) => {
                    let nlen = name.len();
                    proof {
                        assert(dot < nlen);
                    }
                    let ext = lower_bytes(slice_after(name, dot + 1));
                    if vecs_contain(&self.exclude_extensions, ext.as_slice()) {
                        return false;
                    }
                },
                None => {},
            }
        }
        let path_lower = lower_bytes(path);
        let np = self.exclude_patterns.len();
        for i in 0..np
            invariant
                np == self.exclude_patterns@.len(),
                path_lower@ == lower_seq(path@),
                forall|j: int|
                    0 <= j < i ==> !(glob_match_spec(#[trigger] self@.pats[j], lower_seq(path@))
                        || glob_match_spec(seq![42u8, 47u8] + self@.pats[j], lower_seq(path@))),
        {
            let pat = &self.exclude_patterns[i];
            proof {
                assert(self@.pats[i as int] == self.exclude_patterns@[i as int]@);
            }
            if glob_match(pat.as_slice(), path_lower.as_slice()) {
                return false;
            }
            let mut prefixed: Vec<u8> = Vec::new();
            prefixed.push(42);
            prefixed.push(47);
            let mut tail = slice_to_vec(pat.as_slice());
            prefixed.append(&mut tail);
            proof {
                assert(prefixed@ =~= seq![42u8, 47u8] + self@.pats[i as int]);
            }
            if glob_match(prefixed.as_slice(), path_lower.as_slice()) {
                return false;
            }
        }
        match owner {
            Some(o) => {
                let ol = lower_bytes(o);
                if vecs_contain(&self.exclude_accounts, ol.as_slice()) {
                    return false;
                }
                let na = self.exclude_account_patterns.len();
                for i in 0..na
                    invariant
                        owner == Some(o),
                        na == self.exclude_account_patterns@.len(),
                        ol@ == lower_seq(o@),
                        forall|j: int|
                            0 <= j < i ==> !glob_match_spec(
                                #[trigger] self@.account_pats[j],
                                lower_seq(o@),
                            ),
                {
                    proof {
                        assert(self@.account_pats[i as int]
                            == self.exclude_account_patterns@[i as int]@);
                    }
                    if glob_match(self.exclude_account_patterns[i].as_slice(), ol.as_slice()) {
                        return false;
                    }
                }
            },
            None => {},
        }
        match self.min_size {
            Some(m) => {
                if size < m {
                    return false;
                }
            },
            None => {},
        }
        match self.max_size {
            Some(m) => {
                if size > m {
                    return false;
                }
            },
            None => {},
        }
        true
    }

    /// The number of distinct excluded extensions.
    pub fn extension_count(&self) -> (r: usize)
        ensures
            r == self@.exts.len(),
    {
        self.exclude_extensions.len()
    }

    /// The number of exclusion patterns.
    pub fn pattern_count(&self) -> (r: usize)
        ensures
            r == self@.pats.len(),
    {
        self.exclude_patterns.len()
    }

    /// Filter many files in parallel, one verdict per file, in input
    /// order. An empty owner string means the owner is unknown.
    pub fn filter_batch(&self, files: &Vec<(String, String, String, i64)>) -> (r: Vec<bool>)
        ensures
            r@.len() == files@.len(),
            forall|i: int|
                0 <= i < r@.len() ==> r@[i] == spec_include(
                    self@,
                    encode_utf8((#[trigger] files@[i]).0@),
                    encode_utf8(files@[i].1@),
                    if files@[i].2@.len() == 0 {
                        None
                    } else {
                        Some(encode_utf8(files@[i].2@))
                    },
                    files@[i].3,
                ),
    {
        self.par_filter(files)
    }

    /// Decide one batch entry: an empty owner string means the owner
    /// is unknown.
    fn filter_one(&self, file: &(String, String, String, i64)) -> (r: bool)
        ensures
            r == spec_include(
                self@,
                encode_utf8(file.0@),
                encode_utf8(file.1@),
                if file.2@.len() == 0 {
                    None
                } else {
                    Some(encode_utf8(file.2@))
                },
                file.3,
            ),
    {
        let owner = if file.2.as_str().is_empty() {
            None
        } else {
            Some(file.2.as_str())
        };
        self.should_include(file.0.as_str(), file.1.as_str(), owner, file.3)
    }

    /// Relies on `rayon`'s indexed parallel iterators:
    /// `par_iter().map(..).collect()` preserves input order, so entry
    /// `i` of the result is the verified `filter_one` applied to
    /// file `i`.
    #[verifier::external_body]
    fn par_filter(&self, files: &Vec<(String, String, String, i64)>) -> (r: Vec<bool>)
        ensures
            r@.len() == files@.len(),
            forall|i: int|
                0 <= i < r@.len() ==> r@[i] == spec_include(
                    self@,
                    encode_utf8((#[trigger] files@[i]).0@),
                    encode_utf8(files@[i].1@),
                    if files@[i].2@.len() == 0 {
                        None
                    } else {
                        Some(encode_utf8(files@[i].2@))
                    },
                    files@[i].3,
                ),
    {
        files.par_iter().map(|f| self.filter_one(f)).collect()
    }
}

/// The suffix of `s` from `from` on.
fn slice_after(s: &[u8], from: usize) -> (r: &[u8])
    requires
        from <= s@.len(),
    ensures
        r@ == s@.skip(from as int),
{
    let r = vstd::slice::slice_subrange(s, from, s.len());
    proof {
        assert(r@ =~= s@.skip(from as int));
    }
    r
}

} // verus!
