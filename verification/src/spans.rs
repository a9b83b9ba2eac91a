//! Span overlap detection and deduplication.
//!
//! Both operations sort the spans by `(start, end)` and sweep linearly:
//! once a candidate starts at or after the current span's end, no later
//! candidate can overlap it, so the scan can stop early.

use rayon::iter::{IntoParallelRefIterator, ParallelIterator};
use vstd::prelude::*;
use vstd::pervasive::VecAdditionalExecFns;

verus! {

// ---------------------------------------------------------------------------
// Sorting spans by (start, end)
// ---------------------------------------------------------------------------

/// Strict total order on span indices: by start, then end, then index.
pub open spec fn key_lt(keys: Seq<(usize, usize)>, a: usize, b: usize) -> bool {
    let ka = keys[a as int];
    let kb = keys[b as int];
    ka.0 < kb.0 || (ka.0 == kb.0 && (ka.1 < kb.1 || (ka.1 == kb.1 && a < b)))
}

/// Insert `v` into an index sequence sorted by `key_lt`.
pub open spec fn spec_insert(ord: Seq<usize>, v: usize, keys: Seq<(usize, usize)>) -> Seq<usize>
    decreases ord.len(),
{
    if ord.len() == 0 {
        seq![v]
    } else if key_lt(keys, ord.last(), v) {
        ord.push(v)
    } else {
        spec_insert(ord.drop_last(), v, keys).push(ord.last())
    }
}

/// The indices `0..n` sorted by `key_lt`, built by insertion.
pub open spec fn spec_order_rec(keys: Seq<(usize, usize)>, n: int) -> Seq<usize>
    decreases n,
{
    if n <= 0 {
        Seq::empty()
    } else {
        spec_insert(spec_order_rec(keys, n - 1), (n - 1) as usize, keys)
    }
}

/// The sorted index order of a span sequence.
pub open spec fn spec_order(keys: Seq<(usize, usize)>) -> Seq<usize> {
    spec_order_rec(keys, keys.len() as int)
}

/// An index sequence sorted strictly by `key_lt`.
pub open spec fn ord_sorted(keys: Seq<(usize, usize)>, ord: Seq<usize>) -> bool {
    forall|k1: int, k2: int|
        0 <= k1 < k2 < ord.len() ==> key_lt(keys, #[trigger] ord[k1], #[trigger] ord[k2])
}

proof fn lemma_key_lt_trans(keys: Seq<(usize, usize)>, a: usize, b: usize, c: usize)
    requires
        key_lt(keys, a, b),
        key_lt(keys, b, c),
    ensures
        key_lt(keys, a, c),
{
}

proof fn lemma_key_lt_total(keys: Seq<(usize, usize)>, a: usize, b: usize)
    requires
        a != b,
    ensures
        key_lt(keys, a, b) || key_lt(keys, b, a),
        !(key_lt(keys, a, b) && key_lt(keys, b, a)),
{
}

proof fn lemma_insert_props(ord: Seq<usize>, v: usize, keys: Seq<(usize, usize)>)
    requires
        ord_sorted(keys, ord),
        !ord.contains(v),
    ensures
        spec_insert(ord, v, keys).len() == ord.len() + 1,
        forall|x: usize|
            spec_insert(ord, v, keys).contains(x) <==> (ord.contains(x) || x == v),
        ord_sorted(keys, spec_insert(ord, v, keys)),
    decreases ord.len(),
{
    let res = spec_insert(ord, v, keys);
    if ord.len() == 0 {
        assert forall|x: usize| res.contains(x) <==> (ord.contains(x) || x == v) by {
            if x == v {
                assert(res[0] == v);
            }
        }
    } else if key_lt(keys, ord.last(), v) {
        assert forall|x: usize| res.contains(x) <==> (ord.contains(x) || x == v) by {
            if ord.contains(x) {
                let k = choose|k: int| 0 <= k < ord.len() && ord[k] == x;
                assert(res[k] == x);
            }
            if x == v {
                assert(res[ord.len() as int] == v);
            }
            if res.contains(x) {
                let k = choose|k: int| 0 <= k < res.len() && res[k] == x;
                if k < ord.len() {
                    assert(ord[k] == x);
                }
            }
        }
        assert forall|k1: int, k2: int| 0 <= k1 < k2 < res.len() implies key_lt(
            keys,
            res[k1],
            res[k2],
        ) by {
            if k2 == ord.len() {
                if k1 < ord.len() - 1 {
                    lemma_key_lt_trans(keys, ord[k1], ord.last(), v);
                }
            }
        }
    } else {
        let sub = ord.drop_last();
        assert(ord_sorted(keys, sub)) by {
            assert(forall|k: int| 0 <= k < sub.len() ==> sub[k] == ord[k]);
        }
        assert(!sub.contains(v)) by {
            if sub.contains(v) {
                let k = choose|k: int| 0 <= k < sub.len() && sub[k] == v;
                assert(ord[k] == v);
            }
        }
        lemma_insert_props(sub, v, keys);
        let inner = spec_insert(sub, v, keys);
        assert(res == inner.push(ord.last()));
        assert(ord.contains(ord.last()));
        assert(v != ord.last());
        lemma_key_lt_total(keys, v, ord.last());
        assert(key_lt(keys, v, ord.last()));
        assert forall|x: usize| res.contains(x) <==> (ord.contains(x) || x == v) by {
            if res.contains(x) {
                let k = choose|k: int| 0 <= k < res.len() && res[k] == x;
                if k < inner.len() {
                    assert(inner[k] == x);
                    assert(inner.contains(x));
                    if sub.contains(x) {
                        let k2 = choose|k2: int| 0 <= k2 < sub.len() && sub[k2] == x;
                        assert(ord[k2] == x);
                    }
                }
            }
            if ord.contains(x) {
                let k = choose|k: int| 0 <= k < ord.len() && ord[k] == x;
                if k < ord.len() - 1 {
                    assert(sub[k] == x);
                    assert(sub.contains(x));
                    assert(inner.contains(x));
                    let k2 = choose|k2: int| 0 <= k2 < inner.len() && inner[k2] == x;
                    assert(res[k2] == x);
                } else {
                    assert(res[res.len() - 1] == x);
                }
            }
            if x == v {
                assert(inner.contains(v));
                let k2 = choose|k2: int| 0 <= k2 < inner.len() && inner[k2] == v;
                assert(res[k2] == v);
            }
        }
        assert forall|k1: int, k2: int| 0 <= k1 < k2 < res.len() implies key_lt(
            keys,
            res[k1],
            res[k2],
        ) by {
            if k2 == res.len() - 1 {
                assert(res[k1] == inner[k1]);
                assert(inner.contains(inner[k1]));
                let x = inner[k1];
                if sub.contains(x) {
                    let k3 = choose|k3: int| 0 <= k3 < sub.len() && sub[k3] == x;
                    assert(ord[k3] == x);
                    assert(key_lt(keys, x, ord.last()));
                } else {
                    assert(x == v);
                }
            } else {
                assert(res[k1] == inner[k1] && res[k2] == inner[k2]);
            }
        }
    }
}

proof fn lemma_order_rec_props(keys: Seq<(usize, usize)>, n: int)
    requires
        0 <= n <= usize::MAX,
    ensures
        spec_order_rec(keys, n).len() == n,
        ord_sorted(keys, spec_order_rec(keys, n)),
        forall|x: usize| spec_order_rec(keys, n).contains(x) <==> x < n,
        forall|k: int| 0 <= k < n ==> (#[trigger] spec_order_rec(keys, n)[k]) < n,
    decreases n,
{
    if n > 0 {
        lemma_order_rec_props(keys, n - 1);
        let prev = spec_order_rec(keys, n - 1);
        assert(!prev.contains((n - 1) as usize)) by {
            if prev.contains((n - 1) as usize) {
                assert(((n - 1) as usize) < n - 1);
            }
        }
        lemma_insert_props(prev, (n - 1) as usize, keys);
        let cur = spec_order_rec(keys, n);
        assert forall|x: usize| cur.contains(x) <==> x < n by {
            assert(cur.contains(x) <==> (prev.contains(x) || x == (n - 1) as usize));
            assert(prev.contains(x) <==> x < n - 1);
        }
        assert forall|k: int| 0 <= k < n implies (#[trigger] cur[k]) < n by {
            assert(cur.contains(cur[k]));
        }
    }
}

/// Positions of two distinct indices in a strictly sorted order differ.
proof fn lemma_ord_injective(keys: Seq<(usize, usize)>, ord: Seq<usize>, k1: int, k2: int)
    requires
        ord_sorted(keys, ord),
        0 <= k1 < ord.len(),
        0 <= k2 < ord.len(),
        k1 != k2,
    ensures
        ord[k1] != ord[k2],
{
    if k1 < k2 {
        assert(key_lt(keys, ord[k1], ord[k2]));
    } else {
        assert(key_lt(keys, ord[k2], ord[k1]));
    }
}

proof fn lemma_insert_at(ord: Seq<usize>, v: usize, keys: Seq<(usize, usize)>, pos: int)
    requires
        ord_sorted(keys, ord),
        0 <= pos <= ord.len(),
        forall|k: int| pos <= k < ord.len() ==> key_lt(keys, v, #[trigger] ord[k]),
        forall|k: int| 0 <= k < pos ==> key_lt(keys, #[trigger] ord[k], v),
    ensures
        spec_insert(ord, v, keys) =~= ord.take(pos) + seq![v] + ord.skip(pos),
    decreases ord.len(),
{
    if ord.len() == 0 {
    } else if key_lt(keys, ord.last(), v) {
        assert(pos == ord.len()) by {
            if pos < ord.len() {
                lemma_key_lt_total(keys, v, ord.last());
            }
        }
        assert(ord.take(pos) =~= ord);
        assert(ord.skip(pos) =~= Seq::<usize>::empty());
    } else {
        let sub = ord.drop_last();
        assert(pos < ord.len()) by {
            if pos == ord.len() {
                assert(key_lt(keys, ord.last(), v));
            }
        }
        assert(ord_sorted(keys, sub)) by {
            assert(forall|k: int| 0 <= k < sub.len() ==> sub[k] == ord[k]);
        }
        lemma_insert_at(sub, v, keys, pos);
    }
}

/// Compare two span indices by `(start, end, index)`.
fn key_lt_exec(keys: &Vec<(usize, usize)>, a: usize, b: usize) -> (r: bool)
    requires
        a < keys@.len(),
        b < keys@.len(),
    ensures
        r == key_lt(keys@, a, b),
{
    let ka = keys[a];
    let kb = keys[b];
    ka.0 < kb.0 || (ka.0 == kb.0 && (ka.1 < kb.1 || (ka.1 == kb.1 && a < b)))
}

/// Sort the indices of `keys` by `(start, end, index)` with insertion
/// sort.
fn sort_indices(keys: &Vec<(usize, usize)>) -> (ord: Vec<usize>)
    ensures
        ord@ == spec_order(keys@),
{
    let n = keys.len();
    let mut ord: Vec<usize> = Vec::new();
    for v in 0..n
        invariant
            n == keys@.len(),
            ord@ == spec_order_rec(keys@, v as int),
    {
        proof {
            lemma_order_rec_props(keys@, v as int);
        }
        let mut j = ord.len();
        while j > 0 && key_lt_exec(keys, v, ord[j - 1])
            invariant
                j <= ord@.len(),
                n == keys@.len(),
                v < n,
                ord@ == spec_order_rec(keys@, v as int),
                ord@.len() == v,
                ord_sorted(keys@, ord@),
                forall|x: usize| ord@.contains(x) <==> x < v,
                forall|k: int| 0 <= k < v ==> (#[trigger] ord@[k]) < v,
                forall|k: int| j <= k < ord@.len() ==> key_lt(keys@, v, #[trigger] ord@[k]),
            decreases j,
        {
            j = j - 1;
        }
        proof {
            if j > 0 {
                assert(ord@.contains(ord@[j - 1]));
                assert(ord@[j - 1] != v);
                lemma_key_lt_total(keys@, v, ord@[j - 1]);
                assert(key_lt(keys@, ord@[j - 1], v));
                assert forall|k: int| 0 <= k < j implies key_lt(keys@, #[trigger] ord@[k], v) by {
                    if k < j - 1 {
                        lemma_key_lt_trans(keys@, ord@[k], ord@[j - 1], v);
                    }
                }
            }
            lemma_insert_at(ord@, v, keys@, j as int);
        }
        ord.insert(j, v);
        proof {
            assert(ord@ =~= spec_order_rec(keys@, v + 1));
        }
    }
    ord
}

// ---------------------------------------------------------------------------
// Overlap detection
// ---------------------------------------------------------------------------

/// Two spans at exactly the same position.
pub open spec fn same_position(x: (usize, usize), y: (usize, usize)) -> bool {
    x.0 == y.0 && x.1 == y.1
}

/// The sweep's overlap criterion: the span that sorts later by
/// `(start, end)` starts before the earlier one ends. For spans at the
/// same position this means they are non-empty.
pub open spec fn spans_conflict(x: (usize, usize), y: (usize, usize)) -> bool {
    if x.0 < y.0 || (x.0 == y.0 && x.1 < y.1) {
        y.0 < x.1
    } else if y.0 < x.0 || (y.0 == x.0 && y.1 < x.1) {
        x.0 < y.1
    } else {
        x.0 < x.1
    }
}

/// Whether the pair of original indices `(a, b)` belongs in the result
/// of `check_overlaps`.
pub open spec fn reported_pair(
    sp: Seq<(usize, usize)>,
    allow_identical: bool,
    a: int,
    b: int,
) -> bool {
    &&& 0 <= a < b < sp.len()
    &&& spans_conflict(sp[a], sp[b])
    &&& !(allow_identical && same_position(sp[a], sp[b]))
}

/// What `check_overlaps` promises of its result: every reported pair
/// overlaps (smaller index first), every overlapping pair is reported,
/// no pair is reported twice, and pairs appear in the sweep's order
/// (lexicographically by the sorted positions of their spans) - which
/// determines the list uniquely.
pub open spec fn overlap_result_ok(
    sp: Seq<(usize, usize)>,
    allow_identical: bool,
    out: Seq<(usize, usize)>,
) -> bool {
    &&& forall|k: int|
        0 <= k < out.len() ==> reported_pair(
            sp,
            allow_identical,
            (#[trigger] out[k]).0 as int,
            out[k].1 as int,
        )
    &&& forall|a: int, b: int|
        reported_pair(sp, allow_identical, a, b) ==> out.contains((a as usize, b as usize))
    &&& forall|k1: int, k2: int| 0 <= k1 < k2 < out.len() ==> out[k1] != out[k2]
    &&& forall|k1: int, k2: int|
        0 <= k1 < k2 < out.len() ==> pair_pos_lt(sp, #[trigger] out[k1], #[trigger] out[k2])
}

/// The pair `(a, b)` with the smaller index first.
pub open spec fn norm_pair(a: usize, b: usize) -> (usize, usize) {
    if a < b {
        (a, b)
    } else {
        (b, a)
    }
}

/// The position of original index `a` in the sorted order of `keys`.
pub open spec fn order_position(keys: Seq<(usize, usize)>, a: usize) -> int {
    choose|p: int| 0 <= p < spec_order(keys).len() && spec_order(keys)[p] == a
}

/// The sorted positions of a pair's two indices, smaller position first.
pub open spec fn pair_positions(keys: Seq<(usize, usize)>, pair: (usize, usize)) -> (int, int) {
    let p = order_position(keys, pair.0);
    let q = order_position(keys, pair.1);
    if p <= q {
        (p, q)
    } else {
        (q, p)
    }
}

/// `x` comes before `y` in sweep order: lexicographically by the
/// sorted positions of their spans.
pub open spec fn pair_pos_lt(
    keys: Seq<(usize, usize)>,
    x: (usize, usize),
    y: (usize, usize),
) -> bool {
    let a = pair_positions(keys, x);
    let b = pair_positions(keys, y);
    a.0 < b.0 || (a.0 == b.0 && a.1 < b.1)
}

/// The sweep's hit criterion at sorted positions `p < q`.
spec fn pos_hit(
    sp: Seq<(usize, usize)>,
    ord: Seq<usize>,
    allow_identical: bool,
    p: int,
    q: int,
) -> bool {
    &&& sp[ord[q] as int].0 < sp[ord[p] as int].1
    &&& !(allow_identical && same_position(sp[ord[p] as int], sp[ord[q] as int]))
}

/// A ghost log entry: result entry `pair` came from sorted positions `pq`.
spec fn gpos_entry_ok(
    sp: Seq<(usize, usize)>,
    ord: Seq<usize>,
    allow_identical: bool,
    pq: (int, int),
    pair: (usize, usize),
) -> bool {
    &&& 0 <= pq.0 < pq.1 < ord.len()
    &&& pos_hit(sp, ord, allow_identical, pq.0, pq.1)
    &&& pair == norm_pair(ord[pq.0], ord[pq.1])
}

/// A sweep hit at sorted positions is a reported pair of original
/// indices, and conversely.
proof fn lemma_hit_is_reported(
    sp: Seq<(usize, usize)>,
    ord: Seq<usize>,
    allow_identical: bool,
    p: int,
    q: int,
)
    requires
        ord == spec_order(sp),
        ord.len() == sp.len(),
        ord_sorted(sp, ord),
        forall|k: int| 0 <= k < ord.len() ==> (#[trigger] ord[k]) < sp.len(),
        0 <= p < q < ord.len(),
    ensures
        pos_hit(sp, ord, allow_identical, p, q) <==> reported_pair(
            sp,
            allow_identical,
            norm_pair(ord[p], ord[q]).0 as int,
            norm_pair(ord[p], ord[q]).1 as int,
        ),
{
    let a = ord[p];
    let b = ord[q];
    assert(key_lt(sp, a, b));
    lemma_ord_injective(sp, ord, p, q);
}


/// Lists satisfying the overlap contract and agreeing on a prefix
/// agree everywhere.
proof fn lemma_overlap_out_eq(
    sp: Seq<(usize, usize)>,
    allow_identical: bool,
    out1: Seq<(usize, usize)>,
    out2: Seq<(usize, usize)>,
    k: int,
)
    requires
        overlap_result_ok(sp, allow_identical, out1),
        overlap_result_ok(sp, allow_identical, out2),
        0 <= k <= out1.len(),
        k <= out2.len(),
        forall|j: int| 0 <= j < k ==> out1[j] == out2[j],
    ensures
        out1 =~= out2,
    decreases out1.len() - k,
{
    if k < out1.len() && k < out2.len() {
        let x = out1[k];
        let y = out2[k];
        if x != y {
            assert(reported_pair(sp, allow_identical, x.0 as int, x.1 as int));
            assert(out2.contains(x));
            let j = choose|j: int| 0 <= j < out2.len() && out2[j] == x;
            if j < k {
                assert(out1[j] == x);
                assert(out1[j] != out1[k]);
                assert(false);
            } else if j == k {
                assert(false);
            } else {
                assert(pair_pos_lt(sp, y, x));
                assert(reported_pair(sp, allow_identical, y.0 as int, y.1 as int));
                assert(out1.contains(y));
                let j2 = choose|j2: int| 0 <= j2 < out1.len() && out1[j2] == y;
                if j2 < k {
                    assert(out2[j2] == y);
                    assert(out2[j2] != out2[k]);
                    assert(false);
                } else if j2 == k {
                    assert(false);
                } else {
                    assert(pair_pos_lt(sp, x, y));
                    assert(false);
                }
            }
        }
        lemma_overlap_out_eq(sp, allow_identical, out1, out2, k + 1);
    } else if k < out1.len() {
        let x = out1[k];
        assert(reported_pair(sp, allow_identical, x.0 as int, x.1 as int));
        assert(out2.contains(x));
        let j = choose|j: int| 0 <= j < out2.len() && out2[j] == x;
        assert(out1[j] == x);
        assert(out1[j] != out1[k]);
        assert(false);
    } else if k < out2.len() {
        let y = out2[k];
        assert(reported_pair(sp, allow_identical, y.0 as int, y.1 as int));
        assert(out1.contains(y));
        let j = choose|j: int| 0 <= j < out1.len() && out1[j] == y;
        assert(out2[j] == y);
        assert(out2[j] != out2[k]);
        assert(false);
    } else {
        assert forall|j: int| 0 <= j < out1.len() implies out1[j] == out2[j] by {}
    }
}

/// The overlap contract determines the result list uniquely: any two
/// lists satisfying it for the same spans and flag are equal. In
/// particular each entry of `batch_overlap_check` is exactly what
/// `check_overlaps` returns on that group.
pub proof fn lemma_overlap_result_unique(
    sp: Seq<(usize, usize)>,
    allow_identical: bool,
    out1: Seq<(usize, usize)>,
    out2: Seq<(usize, usize)>,
)
    requires
        overlap_result_ok(sp, allow_identical, out1),
        overlap_result_ok(sp, allow_identical, out2),
    ensures
        out1 =~= out2,
{
    lemma_overlap_out_eq(sp, allow_identical, out1, out2, 0);
}

/// In a strictly sorted order, `order_position` inverts indexing.
proof fn lemma_order_position_inverse(keys: Seq<(usize, usize)>, ord: Seq<usize>, p: int)
    requires
        ord == spec_order(keys),
        ord_sorted(keys, ord),
        0 <= p < ord.len(),
    ensures
        order_position(keys, ord[p]) == p,
{
    assert(0 <= p < spec_order(keys).len() && spec_order(keys)[p] == ord[p]);
    let p2 = order_position(keys, ord[p]);
    assert(0 <= p2 < spec_order(keys).len() && spec_order(keys)[p2] == ord[p]) by {
        assert(exists|x: int|
            0 <= x < spec_order(keys).len() && spec_order(keys)[x] == ord[p]);
    }
    if p2 != p {
        lemma_ord_injective(keys, ord, p2, p);
    }
}

/// A result entry's sorted positions are exactly the ghost log's.
proof fn lemma_pair_positions_of_entry(
    sp: Seq<(usize, usize)>,
    ord: Seq<usize>,
    allow_identical: bool,
    pq: (int, int),
    pair: (usize, usize),
)
    requires
        ord == spec_order(sp),
        ord_sorted(sp, ord),
        gpos_entry_ok(sp, ord, allow_identical, pq, pair),
    ensures
        pair_positions(sp, pair) == pq,
{
    lemma_order_position_inverse(sp, ord, pq.0);
    lemma_order_position_inverse(sp, ord, pq.1);
    lemma_ord_injective(sp, ord, pq.0, pq.1);
}

/// Check for overlapping spans by sort-and-sweep.
///
/// Returns every pair of original indices (smaller first) whose spans
/// overlap; a pair at exactly the same position is omitted when
/// `allow_identical` is set.
pub fn check_overlaps(spans: &Vec<(usize, usize)>, allow_identical: bool) -> (r: Vec<
    (usize, usize),
>)
    ensures
        overlap_result_ok(spans@, allow_identical, r@),
{
    let n = spans.len();
    let mut r: Vec<(usize, usize)> = Vec::new();
    if n < 2 {
        return r;
    }
    let ord = sort_indices(spans);
    proof {
        lemma_order_rec_props(spans@, n as int);
    }
    let ghost mut gpos: Seq<(int, int)> = Seq::empty();
    for i in 0..n
        invariant
            n == spans@.len(),
            ord@ == spec_order(spans@),
            ord@.len() == n,
            ord_sorted(spans@, ord@),
            forall|k: int| 0 <= k < n ==> (#[trigger] ord@[k]) < n,
            forall|x: usize| ord@.contains(x) <==> x < n,
            gpos.len() == r@.len(),
            forall|k: int|
                0 <= k < r@.len() ==> gpos_entry_ok(
                    spans@,
                    ord@,
                    allow_identical,
                    #[trigger] gpos[k],
                    r@[k],
                ),
            forall|k: int| 0 <= k < gpos.len() ==> (#[trigger] gpos[k]).0 < i,
            forall|k1: int, k2: int|
                0 <= k1 < k2 < gpos.len() ==> ((#[trigger] gpos[k1]).0 < (#[trigger] gpos[k2]).0
                    || (gpos[k1].0 == gpos[k2].0 && gpos[k1].1 < gpos[k2].1)),
            forall|p: int, q: int|
                0 <= p < q < n && p < i && pos_hit(spans@, ord@, allow_identical, p, q)
                    ==> r@.contains(norm_pair(ord@[p], ord@[q])),
    {
        let idx_i = ord[i];
        let end_i = spans[idx_i].1;
        let mut j = i + 1;
        loop
            invariant_except_break
                i < j <= n,
                i < n,
                idx_i == ord@[i as int],
                end_i == spans@[idx_i as int].1,
                n == spans@.len(),
                ord@ == spec_order(spans@),
                ord@.len() == n,
                ord_sorted(spans@, ord@),
                forall|k: int| 0 <= k < n ==> (#[trigger] ord@[k]) < n,
                gpos.len() == r@.len(),
                forall|k: int|
                    0 <= k < r@.len() ==> gpos_entry_ok(
                        spans@,
                        ord@,
                        allow_identical,
                        #[trigger] gpos[k],
                        r@[k],
                    ),
                forall|k: int|
                    0 <= k < gpos.len() ==> ((#[trigger] gpos[k]).0 < i || (gpos[k].0 == i
                        && gpos[k].1 < j)),
                forall|k1: int, k2: int|
                    0 <= k1 < k2 < gpos.len() ==> ((#[trigger] gpos[k1]).0 < (
                    #[trigger] gpos[k2]).0 || (gpos[k1].0 == gpos[k2].0 && gpos[k1].1
                        < gpos[k2].1)),
                forall|p: int, q: int|
                    0 <= p < q < n && (p < i || (p == i && q < j)) && pos_hit(
                        spans@,
                        ord@,
                        allow_identical,
                        p,
                        q,
                    ) ==> r@.contains(norm_pair(ord@[p], ord@[q])),
            ensures
                gpos.len() == r@.len(),
                forall|k: int|
                    0 <= k < r@.len() ==> gpos_entry_ok(
                        spans@,
                        ord@,
                        allow_identical,
                        #[trigger] gpos[k],
                        r@[k],
                    ),
                forall|k: int| 0 <= k < gpos.len() ==> (#[trigger] gpos[k]).0 < i + 1,
                forall|k1: int, k2: int|
                    0 <= k1 < k2 < gpos.len() ==> ((#[trigger] gpos[k1]).0 < (
                    #[trigger] gpos[k2]).0 || (gpos[k1].0 == gpos[k2].0 && gpos[k1].1
                        < gpos[k2].1)),
                forall|p: int, q: int|
                    0 <= p < q < n && p < i + 1 && pos_hit(spans@, ord@, allow_identical, p, q)
                        ==> r@.contains(norm_pair(ord@[p], ord@[q])),
            decreases n - j,
        {
            if j >= n {
                break ;
            }
            let idx_j = ord[j];
            let start_j = spans[idx_j].0;
            if start_j >= end_i {
                proof {
                    assert forall|q: int|
                        j <= q < n implies !pos_hit(spans@, ord@, allow_identical, i as int, q) by {
                        if q > j {
                            assert(key_lt(spans@, ord@[j as int], ord@[q]));
                        }
                    }
                }
                break ;
            }
            let sp_i = spans[idx_i];
            let sp_j = spans[idx_j];
            let identical = sp_i.0 == sp_j.0 && sp_i.1 == sp_j.1;
            if !(allow_identical && identical) {
                let pair = if idx_i < idx_j {
                    (idx_i, idx_j)
                } else {
                    (idx_j, idx_i)
                };
                let ghost old_r = r@;
                r.push(pair);
                proof {
                    gpos = gpos.push((i as int, j as int));
                    assert forall|x: (usize, usize)| old_r.contains(x) implies r@.contains(x) by {
                        let k = choose|k: int| 0 <= k < old_r.len() && old_r[k] == x;
                        assert(r@[k] == x);
                    }
                    assert(r@[r@.len() - 1] == pair);
                    assert(r@.contains(pair));
                    assert(norm_pair(ord@[i as int], ord@[j as int]) == pair);
                }
            }
            j = j + 1;
        }
    }
    proof {
        assert forall|k: int|
            0 <= k < r@.len() implies reported_pair(
            spans@,
            allow_identical,
            (#[trigger] r@[k]).0 as int,
            r@[k].1 as int,
        ) by {
            let pq = gpos[k];
            lemma_hit_is_reported(spans@, ord@, allow_identical, pq.0, pq.1);
        }
        assert forall|a: int, b: int|
            reported_pair(spans@, allow_identical, a, b) implies r@.contains(
            (a as usize, b as usize),
        ) by {
            assert(ord@.contains(a as usize));
            assert(ord@.contains(b as usize));
            let p0 = choose|p0: int| 0 <= p0 < ord@.len() && ord@[p0] == a as usize;
            let q0 = choose|q0: int| 0 <= q0 < ord@.len() && ord@[q0] == b as usize;
            let p = if p0 < q0 {
                p0
            } else {
                q0
            };
            let q = if p0 < q0 {
                q0
            } else {
                p0
            };
            assert(p < q) by {
                lemma_ord_injective(spans@, ord@, p0, q0);
            }
            lemma_hit_is_reported(spans@, ord@, allow_identical, p, q);
            assert(norm_pair(ord@[p], ord@[q]) == (a as usize, b as usize));
            assert(pos_hit(spans@, ord@, allow_identical, p, q));
        }
        assert forall|k1: int, k2: int| 0 <= k1 < k2 < r@.len() implies r@[k1] != r@[k2] by {
            let pq1 = gpos[k1];
            let pq2 = gpos[k2];
            assert(gpos_entry_ok(spans@, ord@, allow_identical, pq1, r@[k1]));
            assert(gpos_entry_ok(spans@, ord@, allow_identical, pq2, r@[k2]));
            if pq1.0 != pq2.0 || pq1.1 != pq2.1 {
                lemma_ord_injective(spans@, ord@, pq1.0, pq1.1);
                lemma_ord_injective(spans@, ord@, pq2.0, pq2.1);
                if pq1.0 != pq2.0 {
                    lemma_ord_injective(spans@, ord@, pq1.0, pq2.0);
                }
                if pq1.0 != pq2.1 {
                    lemma_ord_injective(spans@, ord@, pq1.0, pq2.1);
                }
                if pq1.1 != pq2.0 {
                    lemma_ord_injective(spans@, ord@, pq1.1, pq2.0);
                }
                if pq1.1 != pq2.1 {
                    lemma_ord_injective(spans@, ord@, pq1.1, pq2.1);
                }
            }
        }
        assert forall|k1: int, k2: int| 0 <= k1 < k2 < r@.len() implies pair_pos_lt(
            spans@,
            #[trigger] r@[k1],
            #[trigger] r@[k2],
        ) by {
            let pq1 = gpos[k1];
            let pq2 = gpos[k2];
            assert(gpos_entry_ok(spans@, ord@, allow_identical, pq1, r@[k1]));
            assert(gpos_entry_ok(spans@, ord@, allow_identical, pq2, r@[k2]));
            lemma_pair_positions_of_entry(spans@, ord@, allow_identical, pq1, r@[k1]);
            lemma_pair_positions_of_entry(spans@, ord@, allow_identical, pq2, r@[k2]);
        }
    }
    r
}

// ---------------------------------------------------------------------------
// Deduplication
// ---------------------------------------------------------------------------

/// The `(start, end)` keys of a span list with entity type and
/// confidence (in hundredths).
pub open spec fn span_keys(sp: Seq<(usize, usize, String, u32)>) -> Seq<(usize, usize)> {
    sp.map_values(|t: (usize, usize, String, u32)| (t.0, t.1))
}

/// Span `x` wins against overlapping span `y`: strictly higher
/// confidence, or equal confidence and strictly longer.
pub open spec fn span_beats(x: (usize, usize, String, u32), y: (usize, usize, String, u32)) -> bool {
    x.3 > y.3 || (x.3 == y.3 && x.1 - x.0 > y.1 - y.0)
}

/// One inner sweep step of deduplication: scan forward from sorted
/// position `j` while candidates overlap the span at position `i`;
/// the loser of each comparison is dropped, and the scan stops when
/// the span at `i` itself loses.
pub open spec fn dedup_inner(
    sp: Seq<(usize, usize, String, u32)>,
    ord: Seq<usize>,
    keep: Seq<bool>,
    i: int,
    j: int,
) -> Seq<bool>
    decreases ord.len() - j,
{
    if j < 0 || j >= ord.len() || !(0 <= i < ord.len()) {
        keep
    } else if sp[ord[j] as int].0 >= sp[ord[i] as int].1 {
        keep
    } else if !keep[ord[j] as int] {
        dedup_inner(sp, ord, keep, i, j + 1)
    } else if span_beats(sp[ord[j] as int], sp[ord[i] as int]) {
        keep.update(ord[i] as int, false)
    } else {
        dedup_inner(sp, ord, keep.update(ord[j] as int, false), i, j + 1)
    }
}

/// The outer sweep of deduplication over sorted positions.
pub open spec fn dedup_outer(
    sp: Seq<(usize, usize, String, u32)>,
    ord: Seq<usize>,
    keep: Seq<bool>,
    i: int,
) -> Seq<bool>
    decreases ord.len() - i,
{
    if i < 0 || i >= ord.len() {
        keep
    } else if !keep[ord[i] as int] {
        dedup_outer(sp, ord, keep, i + 1)
    } else {
        dedup_outer(sp, ord, dedup_inner(sp, ord, keep, i, i + 1), i + 1)
    }
}

/// The keep/drop flags deduplication leaves on a span list.
pub open spec fn spec_dedup_keep(sp: Seq<(usize, usize, String, u32)>) -> Seq<bool> {
    dedup_outer(sp, spec_order(span_keys(sp)), Seq::new(sp.len(), |k: int| true), 0)
}

/// The indices whose flag is set, in ascending order.
pub open spec fn kept_indices(keep: Seq<bool>) -> Seq<usize>
    decreases keep.len(),
{
    if keep.len() == 0 {
        Seq::empty()
    } else {
        kept_indices(keep.drop_last()) + if keep.last() {
            seq![(keep.len() - 1) as usize]
        } else {
            Seq::empty()
        }
    }
}

proof fn lemma_kept_indices_props(keep: Seq<bool>)
    requires
        keep.len() <= usize::MAX,
    ensures
        kept_indices(keep).len() <= keep.len(),
        forall|k: int|
            0 <= k < kept_indices(keep).len() ==> (#[trigger] kept_indices(keep)[k])
                < keep.len(),
        forall|k1: int, k2: int|
            0 <= k1 < k2 < kept_indices(keep).len() ==> kept_indices(keep)[k1] < kept_indices(
                keep,
            )[k2],
    decreases keep.len(),
{
    if keep.len() > 0 {
        lemma_kept_indices_props(keep.drop_last());
        let prev = kept_indices(keep.drop_last());
        let cur = kept_indices(keep);
        assert forall|k: int| 0 <= k < cur.len() implies (#[trigger] cur[k]) < keep.len() by {
            if k < prev.len() {
                assert(cur[k] == prev[k]);
            }
        }
        assert forall|k1: int, k2: int| 0 <= k1 < k2 < cur.len() implies cur[k1] < cur[k2] by {
            if k2 < prev.len() {
                assert(cur[k1] == prev[k1] && cur[k2] == prev[k2]);
            } else {
                assert(cur[k1] == prev[k1]);
            }
        }
    }
}

/// Deduplicate overlapping spans, keeping for each overlap the span
/// with the higher confidence, on ties the longer one, and on full
/// ties the one sorting earlier. Returns the surviving original
/// indices in ascending order; a single span always survives.
pub fn deduplicate_spans(spans: &Vec<(usize, usize, String, u32)>) -> (r: Vec<usize>)
    requires
        forall|k: int| 0 <= k < spans@.len() ==> (#[trigger] spans@[k]).0 <= spans@[k].1,
    ensures
        r@ == kept_indices(spec_dedup_keep(spans@)),
        r@.len() <= spans@.len(),
        forall|k: int| 0 <= k < r@.len() ==> (#[trigger] r@[k]) < spans@.len(),
        forall|k1: int, k2: int| 0 <= k1 < k2 < r@.len() ==> r@[k1] < r@[k2],
        spans@.len() == 0 ==> r@.len() == 0,
        spans@.len() == 1 ==> r@ =~= seq![0usize],
{
    let n = spans.len();
    let ghost target = spec_dedup_keep(spans@);
    if n == 0 {
        let r: Vec<usize> = Vec::new();
        proof {
            assert(Seq::new(0, |k: int| true) =~= Seq::<bool>::empty());
            assert(target =~= Seq::<bool>::empty());
            assert(r@ =~= kept_indices(target));
        }
        return r;
    }
    let mut keys: Vec<(usize, usize)> = Vec::new();
    let mut t: usize = 0;
    while t < n
        invariant
            t <= n,
            n == spans@.len(),
            keys@ == span_keys(spans@.take(t as int)),
        decreases n - t,
    {
        let s = &spans[t];
        keys.push((s.0, s.1));
        proof {
            assert(keys@ =~= span_keys(spans@.take(t + 1)));
        }
        t = t + 1;
    }
    proof {
        assert(spans@.take(n as int) =~= spans@);
    }
    let ord = sort_indices(&keys);
    proof {
        lemma_order_rec_props(keys@, n as int);
    }
    let mut keep: Vec<bool> = vec![true; n];
    proof {
        assert(keep@ =~= Seq::new(spans@.len(), |k: int| true));
    }
    for i in 0..n
        invariant
            n == spans@.len(),
            keys@ == span_keys(spans@),
            ord@ == spec_order(keys@),
            ord@.len() == n,
            forall|k: int| 0 <= k < n ==> (#[trigger] ord@[k]) < n,
            forall|k: int| 0 <= k < spans@.len() ==> (#[trigger] spans@[k]).0 <= spans@[k].1,
            keep@.len() == n,
            target == spec_dedup_keep(spans@),
            dedup_outer(spans@, ord@, keep@, i as int) == target,
    {
        let idx_i = ord[i];
        if keep[idx_i] {
            let end_i = spans[idx_i].1;
            let mut j = i + 1;
            proof {
                assert(dedup_outer(spans@, ord@, dedup_inner(spans@, ord@, keep@, i as int, i + 1), i + 1)
                    == target);
            }
            loop
                invariant_except_break
                    i < j <= n,
                    i < n,
                    idx_i == ord@[i as int],
                    end_i == spans@[idx_i as int].1,
                    n == spans@.len(),
                    ord@.len() == n,
                    forall|k: int| 0 <= k < n ==> (#[trigger] ord@[k]) < n,
                    forall|k: int|
                        0 <= k < spans@.len() ==> (#[trigger] spans@[k]).0 <= spans@[k].1,
                    keep@.len() == n,
                    dedup_outer(
                        spans@,
                        ord@,
                        dedup_inner(spans@, ord@, keep@, i as int, j as int),
                        i + 1,
                    ) == target,
                ensures
                    keep@.len() == n,
                    dedup_outer(spans@, ord@, keep@, i + 1) == target,
                decreases n - j,
            {
                if j >= n {
                    break ;
                }
                let idx_j = ord[j];
                if spans[idx_j].0 >= end_i {
                    break ;
                }
                if !keep[idx_j] {
                    j = j + 1;
                    continue ;
                }
                let c_i = spans[idx_i].3;
                let c_j = spans[idx_j].3;
                let len_i = spans[idx_i].1 - spans[idx_i].0;
                let len_j = spans[idx_j].1 - spans[idx_j].0;
                if c_j > c_i || (c_j == c_i && len_j > len_i) {
                    proof {
                        assert(span_beats(spans@[idx_j as int], spans@[idx_i as int]));
                    }
                    keep.set(idx_i, false);
                    break ;
                } else {
                    proof {
                        assert(!span_beats(spans@[idx_j as int], spans@[idx_i as int]));
                    }
                    keep.set(idx_j, false);
                    j = j + 1;
                }
            }
        }
    }
    let mut r: Vec<usize> = Vec::new();
    let mut i: usize = 0;
    while i < n
        invariant
            i <= n,
            n == spans@.len(),
            keep@.len() == n,
            keep@ == target,
            r@ == kept_indices(keep@.take(i as int)),
        decreases n - i,
    {
        proof {
            assert(keep@.take(i + 1).drop_last() =~= keep@.take(i as int));
        }
        if keep[i] {
            r.push(i);
        }
        proof {
            assert(r@ =~= kept_indices(keep@.take(i + 1)));
        }
        i = i + 1;
    }
    proof {
        assert(keep@.take(n as int) =~= keep@);
        lemma_kept_indices_props(target);
        if spans@.len() == 1 {
            let keys1 = span_keys(spans@);
            assert(spec_order_rec(keys1, 0) =~= Seq::<usize>::empty());
            assert(spec_order(keys1) =~= seq![0usize]);
            let keep0 = Seq::new(spans@.len(), |k: int| true);
            assert(keep0[0] == true);
            assert(dedup_inner(spans@, spec_order(keys1), keep0, 0, 1) == keep0);
            assert(dedup_outer(spans@, spec_order(keys1), keep0, 1) == keep0);
            assert(dedup_outer(spans@, spec_order(keys1), keep0, 0) == dedup_outer(
                spans@,
                spec_order(keys1),
                dedup_inner(spans@, spec_order(keys1), keep0, 0, 1),
                1,
            ));
            assert(target == keep0);
            assert(kept_indices(keep0.drop_last()) =~= Seq::<usize>::empty());
            assert(r@ =~= seq![0usize]);
        }
    }
    r
}

// ---------------------------------------------------------------------------
// Batch operations
// ---------------------------------------------------------------------------

/// Relies on `rayon`'s indexed parallel iterators: `par_iter().map(..)
/// .collect()` preserves input order, so entry `i` of the result is the
/// verified `check_overlaps` applied to group `i`.
#[verifier::external_body]
fn par_overlap_check(span_groups: &Vec<Vec<(usize, usize)>>, allow_identical: bool) -> (r: Vec<
    Vec<(usize, usize)>,
>)
    ensures
        r@.len() == span_groups@.len(),
        forall|i: int|
            0 <= i < r@.len() ==> overlap_result_ok(
                (#[trigger] span_groups@[i])@,
                allow_identical,
                r@[i]@,
            ),
{
    span_groups.par_iter().map(|group| check_overlaps(group, allow_identical)).collect()
}

/// Check many span groups for overlaps in parallel, one result list per
/// group, in input order.
pub fn batch_overlap_check(span_groups: &Vec<Vec<(usize, usize)>>, allow_identical: bool) -> (r:
    Vec<Vec<(usize, usize)>>)
    ensures
        r@.len() == span_groups@.len(),
        forall|i: int|
            0 <= i < r@.len() ==> overlap_result_ok(
                (#[trigger] span_groups@[i])@,
                allow_identical,
                r@[i]@,
            ),
{
    par_overlap_check(span_groups, allow_identical)
}

/// Relies on `rayon`'s indexed parallel iterators: `par_iter().map(..)
/// .collect()` preserves input order, so entry `i` of the result is the
/// verified `deduplicate_spans` applied to group `i`.
#[verifier::external_body]
fn par_deduplicate(span_groups: &Vec<Vec<(usize, usize, String, u32)>>) -> (r: Vec<Vec<usize>>)
    requires
        forall|i: int, k: int|
            0 <= i < span_groups@.len() && 0 <= k < span_groups@[i]@.len() ==> (
            #[trigger] span_groups@[i]@[k]).0 <= span_groups@[i]@[k].1,
    ensures
        r@.len() == span_groups@.len(),
        forall|i: int|
            0 <= i < r@.len() ==> r@[i]@ == kept_indices(
                spec_dedup_keep((#[trigger] span_groups@[i])@),
            ),
{
    span_groups.par_iter().map(|group| deduplicate_spans(group)).collect()
}

/// Deduplicate many span groups in parallel, one kept-index list per
/// group, in input order.
pub fn batch_deduplicate(span_groups: &Vec<Vec<(usize, usize, String, u32)>>) -> (r: Vec<
    Vec<usize>,
>)
    requires
        forall|i: int, k: int|
            0 <= i < span_groups@.len() && 0 <= k < span_groups@[i]@.len() ==> (
            #[trigger] span_groups@[i]@[k]).0 <= span_groups@[i]@[k].1,
    ensures
        r@.len() == span_groups@.len(),
        forall|i: int|
            0 <= i < r@.len() ==> r@[i]@ == kept_indices(
                spec_dedup_keep((#[trigger] span_groups@[i])@),
            ),
{
    par_deduplicate(span_groups)
}

} // verus!
