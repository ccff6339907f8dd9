//! Scanline polygon rasterization with a per-polygon depth test.
//!
//! A polygon's screen points are given in order; each scanline row collects
//! the X coordinates where polygon edges cross the row, sorts them, and fills
//! the spans between successive pairs. A pixel is written only when the
//! polygon's average depth is closer than what the depth buffer holds.
use vstd::prelude::*;
use crate::fixed::{tdiv, div_trunc, lemma_pixel_index, lemma_index_of_pixel, lemma_tdiv_bound};

verus! {

/// Bound on screen coordinates handed to the rasterizer; the projector
/// saturates to this range, which keeps every interpolation product in `i64`.
pub const SCREEN_LIMIT: i64 = 1_000_000;

/// Bound on per-vertex depth values.
pub const DEPTH_LIMIT: i64 = 1_000_000_000_000;

/// Bound on the number of polygon corners.
pub const POINTS_LIMIT: usize = 1_000_000;

/// Whether an edge from `p1` to `p2` crosses scanline `y`. The test is
/// half-open so a vertex shared by two edges is counted once.
pub open spec fn edge_crosses(p1: (i64, i64), p2: (i64, i64), y: int) -> bool {
    (p1.1 <= y && p2.1 > y) || (p2.1 <= y && p1.1 > y)
}

/// The X coordinate where the edge crosses row `y`, by linear interpolation
/// with division truncating toward zero.
pub open spec fn edge_hit_val(p1: (i64, i64), p2: (i64, i64), y: int) -> int {
    p1.0 + tdiv((y - p1.1) * (p2.0 - p1.0), p2.1 - p1.1)
}

/// The crossing X as a machine integer; for bounded points it never leaves
/// the endpoints' X range, so the cast is exact.
pub open spec fn edge_hit(p1: (i64, i64), p2: (i64, i64), y: int) -> i64 {
    edge_hit_val(p1, p2, y) as i64
}

/// The crossing Xs of the first `k` edges with row `y`, in edge order. Edge
/// `i` runs from point `i` to point `i + 1`, the last edge back to point 0.
pub open spec fn hits_upto(points: Seq<(i64, i64)>, y: int, k: int) -> Seq<i64>
    decreases k,
{
    if k <= 0 {
        Seq::empty()
    } else {
        let p1 = points[k - 1];
        let p2 = points[k % points.len() as int];
        let rest = hits_upto(points, y, k - 1);
        if edge_crosses(p1, p2, y) {
            rest.push(edge_hit(p1, p2, y))
        } else {
            rest
        }
    }
}

/// All crossing Xs of the polygon's edges with row `y`.
pub open spec fn row_hits(points: Seq<(i64, i64)>, y: int) -> Seq<i64> {
    hits_upto(points, y, points.len() as int)
}

/// Whether a sequence is sorted ascending.
pub open spec fn sorted(s: Seq<i64>) -> bool {
    forall|i: int, j: int| 0 <= i <= j < s.len() ==> s[i] <= s[j]
}

/// Insertion into a sorted sequence, before the first element not below `x`.
pub open spec fn insert_sorted(x: i64, s: Seq<i64>) -> Seq<i64>
    decreases s.len(),
{
    if s.len() == 0 {
        seq![x]
    } else if x <= s[0] {
        seq![x] + s
    } else {
        seq![s[0]] + insert_sorted(x, s.drop_first())
    }
}

/// Insertion sort at the specification level.
pub open spec fn sort_seq(s: Seq<i64>) -> Seq<i64>
    decreases s.len(),
{
    if s.len() == 0 {
        Seq::empty()
    } else {
        insert_sorted(s[0], sort_seq(s.drop_first()))
    }
}

/// Whether `x` lies in one of the spans between successive pairs of a sorted
/// crossing list (first and second, third and fourth, and so on).
pub open spec fn covered_sorted(s: Seq<i64>, x: int) -> bool
    decreases s.len(),
{
    if s.len() < 2 {
        false
    } else {
        (s[0] <= x && x <= s[1]) || covered_sorted(s.skip(2), x)
    }
}

/// Whether the scanline fill writes the pixel at column `x` of row `y`.
pub open spec fn raster_covers(points: Seq<(i64, i64)>, y: int, x: int) -> bool {
    covered_sorted(sort_seq(row_hits(points, y)), x)
}

/// The sum of a depth list.
pub open spec fn sum_seq(s: Seq<i64>) -> int
    decreases s.len(),
{
    if s.len() == 0 {
        0
    } else {
        s[0] + sum_seq(s.drop_first())
    }
}

/// The polygon's single depth: the truncated average of its vertex depths.
pub open spec fn raster_avg(depths: Seq<i64>) -> int {
    tdiv(sum_seq(depths), depths.len() as int)
}

/// The depth buffer after one polygon: covered pixels whose stored depth was
/// farther than the average take the average; everything else is unchanged.
/// A polygon with fewer than three corners is a no-op.
pub open spec fn raster_zbuf_after(
    zbuf: Seq<i64>,
    points: Seq<(i64, i64)>,
    depths: Seq<i64>,
    w: int,
) -> Seq<i64> {
    if points.len() < 3 {
        zbuf
    } else {
        Seq::new(zbuf.len(), |j: int| if raster_covers(points, j / w, j % w) && zbuf[j]
            > raster_avg(depths) {
            raster_avg(depths) as i64
        } else {
            zbuf[j]
        })
    }
}

/// The color buffer after one polygon: exactly the pixels that pass the
/// depth test take the polygon's color.
pub open spec fn raster_buf_after(
    buf: Seq<u32>,
    zbuf: Seq<i64>,
    points: Seq<(i64, i64)>,
    depths: Seq<i64>,
    w: int,
    color: u32,
) -> Seq<u32> {
    if points.len() < 3 {
        buf
    } else {
        Seq::new(buf.len(), |j: int| if raster_covers(points, j / w, j % w) && zbuf[j]
            > raster_avg(depths) {
            color
        } else {
            buf[j]
        })
    }
}

/// A ratio `n / d` in the unit interval scales `m` to a value between zero
/// and `m`.
pub proof fn lemma_tdiv_fraction(n: int, d: int, m: int)
    requires
        (0 <= n < d) || (d <= n <= 0 && d < 0),
    ensures
        m >= 0 ==> 0 <= tdiv(n * m, d) <= m,
        m < 0 ==> m <= tdiv(n * m, d) <= 0,
{
    if d < 0 {
        lemma_tdiv_neg_both(n * m, d);
        assert((-n) * m == -(n * m)) by (nonlinear_arith);
        lemma_tdiv_fraction_pos(-n, -d, m);
        assert(tdiv(n * m, d) == tdiv((-n) * m, -d));
    } else {
        lemma_tdiv_fraction_pos(n, d, m);
    }
}

/// The nonnegative-divisor case of `lemma_tdiv_fraction`.
proof fn lemma_tdiv_fraction_pos(n: int, d: int, m: int)
    requires
        0 <= n <= d,
        0 < d,
    ensures
        m >= 0 ==> 0 <= tdiv(n * m, d) <= m,
        m < 0 ==> m <= tdiv(n * m, d) <= 0,
{
    if m >= 0 {
        assert(0 <= n * m && n * m <= m * d) by (nonlinear_arith)
            requires
                0 <= n <= d && m >= 0,
        ;
        lemma_tdiv_bound(n * m, d, m);
        vstd::arithmetic::div_mod::lemma_div_pos_is_pos(n * m, d);
    } else {
        assert(-((-m) * d) <= n * m && n * m <= (-m) * d && n * m <= 0) by (nonlinear_arith)
            requires
                0 <= n <= d && m < 0,
        ;
        lemma_tdiv_bound(n * m, d, -m);
        vstd::arithmetic::div_mod::lemma_div_pos_is_pos(-(n * m), d);
    }
}

/// Truncating division is unchanged when both operands are negated.
pub proof fn lemma_tdiv_neg_both(a: int, b: int)
    requires
        b != 0,
    ensures
        tdiv(a, b) == tdiv(-a, -b),
{
}

/// A crossing X never leaves the X range of the edge's endpoints.
pub proof fn lemma_edge_hit_in_range(p1: (i64, i64), p2: (i64, i64), y: int)
    requires
        edge_crosses(p1, p2, y),
    ensures
        p1.0 <= p2.0 ==> p1.0 <= edge_hit_val(p1, p2, y) <= p2.0,
        p2.0 <= p1.0 ==> p2.0 <= edge_hit_val(p1, p2, y) <= p1.0,
{
    let n = y - p1.1;
    let d = p2.1 - p1.1;
    let m = p2.0 - p1.0;
    if p1.1 <= y && p2.1 > y {
        assert(0 <= n < d);
    } else {
        assert(d <= n <= 0 && d < 0);
    }
    lemma_tdiv_fraction(n, d, m);
}

/// A row that no edge crosses collects no crossing Xs.
pub proof fn lemma_hits_empty(points: Seq<(i64, i64)>, y: int, k: int)
    requires
        forall|i: int|
            0 <= i < k ==> !edge_crosses(
                #[trigger] points[i],
                points[(i + 1) % points.len() as int],
                y,
            ),
        k <= points.len(),
    ensures
        hits_upto(points, y, k).len() == 0,
    decreases k,
{
    if k > 0 {
        lemma_hits_empty(points, y, k - 1);
        assert(!edge_crosses(points[k - 1], points[k % points.len() as int], y)) by {
            if k - 1 < points.len() as int {
                assert(points[(k - 1 + 1) % points.len() as int] == points[k
                    % points.len() as int]);
            }
        }
    }
}

/// Inserting into a sorted sequence keeps it sorted, grows it by one, and
/// adds exactly the new element to its multiset.
pub proof fn lemma_insert_sorted_props(x: i64, s: Seq<i64>)
    requires
        sorted(s),
    ensures
        sorted(insert_sorted(x, s)),
        insert_sorted(x, s).len() == s.len() + 1,
        insert_sorted(x, s).to_multiset() == s.to_multiset().insert(x),
    decreases s.len(),
{
    broadcast use vstd::seq_lib::group_to_multiset_ensures;

    let r = insert_sorted(x, s);
    if s.len() == 0 {
        assert(r =~= Seq::empty().push(x));
        assert(r.to_multiset() =~= s.to_multiset().insert(x));
    } else if x <= s[0] {
        assert(r =~= seq![x] + s);
        assert(sorted(r)) by {
            assert forall|i: int, j: int| 0 <= i <= j < r.len() implies r[i] <= r[j] by {
                if i == 0 && j > 0 {
                    assert(r[j] == s[j - 1]);
                    assert(s[0] <= s[j - 1]);
                }
            }
        }
        lemma_multiset_prepend(x, s);
    } else {
        let tail = s.drop_first();
        assert(sorted(tail)) by {
            assert forall|i: int, j: int| 0 <= i <= j < tail.len() implies tail[i] <= tail[j] by {
                assert(tail[i] == s[i + 1] && tail[j] == s[j + 1]);
            }
        }
        lemma_insert_sorted_props(x, tail);
        let it = insert_sorted(x, tail);
        assert(r =~= seq![s[0]] + it);
        assert(sorted(r)) by {
            assert forall|i: int, j: int| 0 <= i <= j < r.len() implies r[i] <= r[j] by {
                if i == 0 && j > 0 {
                    assert(r[j] == it[j - 1]);
                    // the head is below x and below every tail element
                    assert(it.to_multiset().count(it[j - 1]) > 0);
                    assert(it.contains(it[j - 1]));
                    if it[j - 1] == x {
                        assert(s[0] <= x);
                    } else {
                        assert(tail.to_multiset().count(it[j - 1]) > 0) by {
                            assert(it.to_multiset() == tail.to_multiset().insert(x));
                        }
                        assert(tail.contains(it[j - 1]));
                        let w = choose|w: int| 0 <= w < tail.len() && tail[w] == it[j - 1];
                        assert(s[0] <= s[w + 1]);
                    }
                } else if i > 0 && j > 0 {
                    assert(r[i] == it[i - 1] && r[j] == it[j - 1]);
                }
            }
        }
        lemma_multiset_prepend(s[0], it);
        lemma_multiset_prepend(s[0], tail);
        assert(r.to_multiset() =~= s.to_multiset().insert(x)) by {
            assert(r.to_multiset() == it.to_multiset().insert(s[0]));
            assert(it.to_multiset() == tail.to_multiset().insert(x));
            assert(s =~= seq![s[0]] + tail);
            assert(s.to_multiset() == tail.to_multiset().insert(s[0]));
        }
    }
}

/// Prepending one element inserts it into the multiset.
pub proof fn lemma_multiset_prepend(x: i64, s: Seq<i64>)
    ensures
        (seq![x] + s).to_multiset() == s.to_multiset().insert(x),
    decreases s.len(),
{
    broadcast use vstd::seq_lib::group_to_multiset_ensures;

    if s.len() == 0 {
        assert(seq![x] + s =~= Seq::empty().push(x));
        assert((seq![x] + s).to_multiset() =~= s.to_multiset().insert(x));
    } else {
        let r = seq![x] + s;
        assert(r =~= (seq![x] + s.drop_last()).push(s.last()));
        lemma_multiset_prepend(x, s.drop_last());
        assert(s =~= s.drop_last().push(s.last()));
        assert(r.to_multiset() =~= s.to_multiset().insert(x)) by {
            assert(r.to_multiset() == (seq![x] + s.drop_last()).to_multiset().insert(s.last()));
            assert((seq![x] + s.drop_last()).to_multiset() == s.drop_last().to_multiset().insert(
                x,
            ));
            assert(s.to_multiset() == s.drop_last().to_multiset().insert(s.last()));
            assert(s.drop_last().to_multiset().insert(x).insert(s.last())
                =~= s.drop_last().to_multiset().insert(s.last()).insert(x));
        }
    }
}

/// The insertion sort of a sequence is sorted and keeps its multiset.
pub proof fn lemma_sort_seq_props(s: Seq<i64>)
    ensures
        sorted(sort_seq(s)),
        sort_seq(s).len() == s.len(),
        sort_seq(s).to_multiset() == s.to_multiset(),
    decreases s.len(),
{
    broadcast use vstd::seq_lib::group_to_multiset_ensures;

    if s.len() == 0 {
    } else {
        let tail = s.drop_first();
        lemma_sort_seq_props(tail);
        lemma_insert_sorted_props(s[0], sort_seq(tail));
        assert(s =~= seq![s[0]] + tail);
        lemma_multiset_prepend(s[0], tail);
        assert(sort_seq(s).to_multiset() == sort_seq(tail).to_multiset().insert(s[0]));
    }
}

/// Two sorted sequences over the same multiset are the same sequence.
pub proof fn lemma_sorted_unique(a: Seq<i64>, b: Seq<i64>)
    requires
        sorted(a),
        sorted(b),
        a.to_multiset() == b.to_multiset(),
    ensures
        a =~= b,
    decreases a.len(),
{
    broadcast use vstd::seq_lib::group_to_multiset_ensures;

    a.to_multiset_ensures();
    b.to_multiset_ensures();
    if a.len() == 0 {
        assert(b.to_multiset().len() == 0);
    } else {
        assert(b.to_multiset().len() == a.to_multiset().len());
        assert(b.len() == a.len());
        // the heads agree: each head occurs in the other sequence, and a
        // sorted sequence starts with its least element
        assert(a.to_multiset().count(a[0]) > 0);
        assert(a.contains(a[0]));
        assert(b.to_multiset().count(a[0]) > 0);
        assert(b.contains(a[0]));
        let ia = choose|i: int| 0 <= i < b.len() && b[i] == a[0];
        assert(b[0] <= a[0]);
        assert(a.to_multiset().count(b[0]) > 0);
        assert(a.contains(b[0]));
        let ib = choose|i: int| 0 <= i < a.len() && a[i] == b[0];
        assert(a[0] <= b[0]);
        assert(a[0] == b[0]);
        let ta = a.drop_first();
        let tb = b.drop_first();
        assert(a =~= seq![a[0]] + ta);
        assert(b =~= seq![b[0]] + tb);
        lemma_multiset_prepend(a[0], ta);
        lemma_multiset_prepend(b[0], tb);
        assert(ta.to_multiset() =~= tb.to_multiset()) by {
            assert(a.to_multiset() == ta.to_multiset().insert(a[0]));
            assert(b.to_multiset() == tb.to_multiset().insert(b[0]));
            assert(forall|e: i64|
                ta.to_multiset().count(e) == #[trigger] tb.to_multiset().count(e)) by {
                assert forall|e: i64|
                    ta.to_multiset().count(e) == #[trigger] tb.to_multiset().count(e) by {
                    assert(ta.to_multiset().insert(a[0]).count(e) == tb.to_multiset().insert(
                        b[0],
                    ).count(e));
                }
            }
        }
        assert(sorted(ta)) by {
            assert forall|i: int, j: int| 0 <= i <= j < ta.len() implies ta[i] <= ta[j] by {
                assert(ta[i] == a[i + 1] && ta[j] == a[j + 1]);
            }
        }
        assert(sorted(tb)) by {
            assert forall|i: int, j: int| 0 <= i <= j < tb.len() implies tb[i] <= tb[j] by {
                assert(tb[i] == b[i + 1] && tb[j] == b[j + 1]);
            }
        }
        lemma_sorted_unique(ta, tb);
    }
}

/// Span membership as a direct pairing: `x` is covered exactly when some
/// pair of the sorted crossing list brackets it.
pub proof fn lemma_covered_pairs(s: Seq<i64>, x: int)
    ensures
        covered_sorted(s, x) <==> exists|m: int|
            0 <= m < s.len() / 2 && (#[trigger] s[2 * m]) <= x <= s[2 * m + 1],
    decreases s.len(),
{
    if s.len() < 2 {
    } else {
        let t = s.skip(2);
        lemma_covered_pairs(t, x);
        if covered_sorted(s, x) {
            if s[0] <= x <= s[1] {
                assert(s[2 * 0int] <= x <= s[2 * 0int + 1]);
            } else {
                let m = choose|m: int| 0 <= m < t.len() / 2 && (#[trigger] t[2 * m]) <= x <= t[2
                    * m + 1];
                assert(t[2 * m] == s[2 * (m + 1)] && t[2 * m + 1] == s[2 * (m + 1) + 1]);
                assert(s[2 * (m + 1)] <= x <= s[2 * (m + 1) + 1]);
            }
        }
        if exists|m: int| 0 <= m < s.len() / 2 && (#[trigger] s[2 * m]) <= x <= s[2 * m + 1] {
            let m = choose|m: int| 0 <= m < s.len() / 2 && (#[trigger] s[2 * m]) <= x <= s[2 * m
                + 1];
            if m == 0 {
                assert(covered_sorted(s, x));
            } else {
                assert(t[2 * (m - 1)] == s[2 * m] && t[2 * (m - 1) + 1] == s[2 * m + 1]);
                assert(covered_sorted(t, x));
            }
        }
    }
}

/// Inserts a value into a sorted vector, keeping it sorted.
fn insert_into_sorted(xs: &mut Vec<i64>, x: i64)
    requires
        sorted(old(xs)@),
        old(xs)@.len() < usize::MAX,
    ensures
        sorted(final(xs)@),
        final(xs)@.to_multiset() == old(xs)@.to_multiset().insert(x),
        final(xs)@.len() == old(xs)@.len() + 1,
{
    broadcast use vstd::seq_lib::group_to_multiset_ensures;

    let n = xs.len();
    let mut pos: usize = 0;
    while pos < n && xs[pos] < x
        invariant
            n == xs@.len(),
            pos <= n,
            sorted(xs@),
            xs@ == old(xs)@,
            forall|k: int| 0 <= k < pos ==> xs@[k] < x,
        decreases n - pos,
    {
        pos = pos + 1;
    }
    let ghost s0 = xs@;
    let ghost p = pos as int;
    xs.insert(pos, x);
    proof {
        s0.insert_ensures(p, x);
        let s1 = xs@;
        assert(s1 == s0.insert(p, x));
        assert(sorted(s1)) by {
            assert forall|i: int, j: int| 0 <= i <= j < s1.len() implies s1[i] <= s1[j] by {
                if i < p {
                    assert(s1[i] == s0[i]);
                } else if i == p {
                    assert(s1[i] == x);
                } else {
                    assert(s1[i] == s0[i - 1]);
                }
                if j < p {
                    assert(s1[j] == s0[j]);
                } else if j == p {
                    assert(s1[j] == x);
                } else {
                    assert(s1[j] == s0[j - 1]);
                }
                if i < p && j == p {
                    assert(s0[i] < x);
                } else if i == p && j > p {
                    // everything from the insertion point on is at least x
                    assert(p < s0.len());
                    assert(s0[p] >= x);
                    assert(s0[p] <= s0[j - 1]);
                }
            }
        }
        assert(s1.to_multiset() == s0.to_multiset().insert(x)) by {
            assert(s1.remove(p) =~= s0);
            assert(s1.remove(p).to_multiset() == s1.to_multiset().remove(s1[p]));
            assert(s1[p] == x);
            assert(s1.contains(x));
            assert(s1.to_multiset().count(x) > 0);
            assert forall|e: i64|
                s1.to_multiset().count(e) == #[trigger] s0.to_multiset().insert(x).count(e) by {
                assert(s0.to_multiset().count(e) == s1.to_multiset().remove(x).count(e));
            }
            assert(s1.to_multiset() =~= s0.to_multiset().insert(x));
        }
    }
}

/// The sorted crossing Xs of all polygon edges with row `y`.
fn row_intersections(points: &Vec<(i64, i64)>, y: i64) -> (xs: Vec<i64>)
    requires
        forall|k: int|
            0 <= k < points@.len() ==> -SCREEN_LIMIT <= (#[trigger] points@[k]).0 <= SCREEN_LIMIT
                && -SCREEN_LIMIT <= points@[k].1 <= SCREEN_LIMIT,
        points@.len() >= 1,
        points@.len() <= POINTS_LIMIT,
        -SCREEN_LIMIT <= y <= SCREEN_LIMIT,
    ensures
        xs@ == sort_seq(row_hits(points@, y as int)),
        sorted(xs@),
        xs@.len() <= points@.len(),
{
    broadcast use vstd::seq_lib::group_to_multiset_ensures;

    let n = points.len();
    let mut xs: Vec<i64> = Vec::new();
    let mut k: usize = 0;
    while k < n
        invariant
            n == points@.len(),
            1 <= n <= POINTS_LIMIT,
            k <= n,
            forall|i: int|
                0 <= i < n ==> -SCREEN_LIMIT <= (#[trigger] points@[i]).0 <= SCREEN_LIMIT
                    && -SCREEN_LIMIT <= points@[i].1 <= SCREEN_LIMIT,
            -SCREEN_LIMIT <= y <= SCREEN_LIMIT,
            sorted(xs@),
            xs@.to_multiset() == hits_upto(points@, y as int, k as int).to_multiset(),
            xs@.len() <= k,
        decreases n - k,
    {
        let p1 = points[k];
        let p2 = points[if k + 1 == n {
            0
        } else {
            k + 1
        }];
        proof {
            assert((k + 1) as int % n as int == (if k + 1 == n {
                0int
            } else {
                k as int + 1
            })) by (nonlinear_arith)
                requires
                    0 <= k < n,
            ;
        }
        if (p1.1 <= y && p2.1 > y) || (p2.1 <= y && p1.1 > y) {
            proof {
                lemma_edge_hit_in_range(p1, p2, y as int);
                lemma_tdiv_fraction(y as int - p1.1, p2.1 - p1.1, p2.0 - p1.0);
                assert(-4_000_000_000_000 <= (y as int - p1.1) * (p2.0 - p1.0)
                    <= 4_000_000_000_000) by (nonlinear_arith)
                    requires
                        -2_000_000 <= y as int - p1.1 <= 2_000_000 && -2_000_000 <= p2.0 - p1.0
                            <= 2_000_000,
                ;
            }
            let num: i64 = (y - p1.1) * (p2.0 - p1.0);
            let den: i64 = p2.1 - p1.1;
            let q: i64 = div_trunc(num, den);
            let x: i64 = p1.0 + q;
            proof {
                assert(x == edge_hit(p1, p2, y as int));
                assert(hits_upto(points@, y as int, k as int + 1) == hits_upto(
                    points@,
                    y as int,
                    k as int,
                ).push(edge_hit(p1, p2, y as int)));
            }
            insert_into_sorted(&mut xs, x);
            proof {
                vstd::seq_lib::to_multiset_build(
                    hits_upto(points@, y as int, k as int),
                    edge_hit(p1, p2, y as int),
                );
            }
        } else {
            proof {
                assert(hits_upto(points@, y as int, k as int + 1) == hits_upto(
                    points@,
                    y as int,
                    k as int,
                ));
            }
        }
        k = k + 1;
    }
    proof {
        lemma_sort_seq_props(row_hits(points@, y as int));
        lemma_sorted_unique(xs@, sort_seq(row_hits(points@, y as int)));
    }
    xs
}

/// The truncated average of the vertex depths.
fn avg_of(depths: &Vec<i64>) -> (avg: i64)
    requires
        depths@.len() >= 1,
        depths@.len() <= POINTS_LIMIT,
        forall|k: int| 0 <= k < depths@.len() ==> -DEPTH_LIMIT <= #[trigger] depths@[k] <= DEPTH_LIMIT,
    ensures
        avg == raster_avg(depths@),
        -DEPTH_LIMIT <= avg <= DEPTH_LIMIT,
{
    let n = depths.len();
    let mut sum: i64 = 0;
    let mut i: usize = 0;
    proof {
        assert(depths@.skip(0) =~= depths@);
    }
    while i < n
        invariant
            n == depths@.len(),
            1 <= n <= POINTS_LIMIT,
            i <= n,
            forall|k: int| 0 <= k < n ==> -DEPTH_LIMIT <= #[trigger] depths@[k] <= DEPTH_LIMIT,
            sum + sum_seq(depths@.skip(i as int)) == sum_seq(depths@),
            -(i as int) * DEPTH_LIMIT <= sum <= (i as int) * DEPTH_LIMIT,
        decreases n - i,
    {
        proof {
            assert(depths@.skip(i as int)[0] == depths@[i as int]);
            assert(depths@.skip(i as int).drop_first() =~= depths@.skip(i as int + 1));
            assert((i as int + 1) * DEPTH_LIMIT == (i as int) * DEPTH_LIMIT + DEPTH_LIMIT)
                by (nonlinear_arith);
            assert((i as int) * DEPTH_LIMIT <= 1_000_000 * DEPTH_LIMIT) by (nonlinear_arith)
                requires
                    0 <= i as int <= 1_000_000,
            ;
        }
        sum = sum + depths[i];
        i = i + 1;
    }
    proof {
        assert(depths@.skip(n as int).len() == 0);
        assert((n as int) * DEPTH_LIMIT <= 1_000_000 * DEPTH_LIMIT) by (nonlinear_arith)
            requires
                0 < n as int <= 1_000_000,
        ;
        assert(-(1_000_000 * DEPTH_LIMIT) <= sum <= 1_000_000 * DEPTH_LIMIT);
        assert(-((DEPTH_LIMIT as int) * (n as int)) <= sum as int <= (DEPTH_LIMIT as int) * (
        n as int)) by (nonlinear_arith)
            requires
                -((n as int) * DEPTH_LIMIT) <= sum as int <= (n as int) * DEPTH_LIMIT,
        ;
        lemma_tdiv_bound(sum as int, n as int, DEPTH_LIMIT as int);
    }
    div_trunc(sum, n as i64)
}

/// The rows a polygon spans: bounds over all its points' Y coordinates.
fn row_bounds(points: &Vec<(i64, i64)>) -> (r: (i64, i64))
    requires
        points@.len() >= 1,
        forall|k: int|
            0 <= k < points@.len() ==> -SCREEN_LIMIT <= (#[trigger] points@[k]).0 <= SCREEN_LIMIT
                && -SCREEN_LIMIT <= points@[k].1 <= SCREEN_LIMIT,
    ensures
        forall|k: int| 0 <= k < points@.len() ==> r.0 <= (#[trigger] points@[k]).1 <= r.1,
        -SCREEN_LIMIT <= r.0 <= r.1 <= SCREEN_LIMIT,
{
    let n = points.len();
    let mut min_y: i64 = points[0].1;
    let mut max_y: i64 = points[0].1;
    let mut k: usize = 1;
    while k < n
        invariant
            n == points@.len(),
            1 <= k <= n,
            forall|i: int|
                0 <= i < n ==> -SCREEN_LIMIT <= (#[trigger] points@[i]).0 <= SCREEN_LIMIT
                    && -SCREEN_LIMIT <= points@[i].1 <= SCREEN_LIMIT,
            forall|i: int| 0 <= i < k ==> min_y <= (#[trigger] points@[i]).1 <= max_y,
            -SCREEN_LIMIT <= min_y <= max_y <= SCREEN_LIMIT,
        decreases n - k,
    {
        let py = points[k].1;
        if py < min_y {
            min_y = py;
        }
        if py > max_y {
            max_y = py;
        }
        k = k + 1;
    }
    (min_y, max_y)
}

/// One pixel's relation between the buffers before and after a polygon.
pub open spec fn pix_updated(
    z0: Seq<i64>,
    b0: Seq<u32>,
    z1: Seq<i64>,
    b1: Seq<u32>,
    covers: bool,
    avg: int,
    color: u32,
    j: int,
) -> bool {
    &&& z1[j] == (if covers && z0[j] > avg {
        avg as i64
    } else {
        z0[j]
    })
    &&& b1[j] == (if covers && z0[j] > avg {
        color
    } else {
        b0[j]
    })
}

/// Filling the same polygon twice at the same depth and color leaves the
/// buffers exactly as filling it once: the second pass finds the average
/// depth already stored wherever it would write, so its depth test fails
/// everywhere.
pub proof fn lemma_raster_idempotent(
    buf: Seq<u32>,
    zbuf: Seq<i64>,
    points: Seq<(i64, i64)>,
    depths: Seq<i64>,
    w: int,
    color: u32,
)
    requires
        buf.len() == zbuf.len(),
        i64::MIN <= raster_avg(depths) <= i64::MAX,
    ensures
        raster_zbuf_after(raster_zbuf_after(zbuf, points, depths, w), points, depths, w)
            == raster_zbuf_after(zbuf, points, depths, w),
        raster_buf_after(
            raster_buf_after(buf, zbuf, points, depths, w, color),
            raster_zbuf_after(zbuf, points, depths, w),
            points,
            depths,
            w,
            color,
        ) == raster_buf_after(buf, zbuf, points, depths, w, color),
{
    if points.len() < 3 {
    } else {
        let z1 = raster_zbuf_after(zbuf, points, depths, w);
        let b1 = raster_buf_after(buf, zbuf, points, depths, w, color);
        let avg = raster_avg(depths);
        assert forall|j: int| 0 <= j < z1.len() implies !(raster_covers(points, j / w, j % w)
            && z1[j] > avg) by {
            if raster_covers(points, j / w, j % w) {
                if zbuf[j] > avg {
                    assert(z1[j] == avg as i64);
                } else {
                    assert(z1[j] == zbuf[j]);
                }
            }
        }
        assert(raster_zbuf_after(z1, points, depths, w) =~= z1);
        assert(raster_buf_after(b1, z1, points, depths, w, color) =~= b1);
    }
}

/// The crossing Xs a row collects stay within the polygon's X range.
pub proof fn lemma_hits_bounded(points: Seq<(i64, i64)>, y: int, k: int, lo: int, hi: int)
    requires
        forall|i: int| 0 <= i < points.len() ==> lo <= (#[trigger] points[i]).0 <= hi,
        k <= points.len(),
    ensures
        forall|t: int|
            0 <= t < hits_upto(points, y, k).len() ==> lo <= #[trigger] hits_upto(points, y, k)[t]
                <= hi,
    decreases k,
{
    if k > 0 {
        lemma_hits_bounded(points, y, k - 1, lo, hi);
        let p1 = points[k - 1];
        let p2 = points[k % points.len() as int];
        assert(0 <= k % (points.len() as int) && k % (points.len() as int) < points.len())
            by (nonlinear_arith)
            requires
                0 < k <= points.len(),
        ;
        if edge_crosses(p1, p2, y) {
            lemma_edge_hit_in_range(p1, p2, y);
            let rest = hits_upto(points, y, k - 1);
            let s = hits_upto(points, y, k);
            assert(s == rest.push(edge_hit(p1, p2, y)));
            assert forall|t: int| 0 <= t < s.len() implies lo <= #[trigger] s[t] <= hi by {
                if t < rest.len() {
                    assert(s[t] == rest[t]);
                } else {
                    assert(s[t] == edge_hit(p1, p2, y));
                }
            }
        } else {
            assert(hits_upto(points, y, k) == hits_upto(points, y, k - 1));
        }
    }
}

/// A polygon that lies entirely outside the viewport's rows or columns
/// produces no buffer writes at all.
pub proof fn lemma_offscreen_polygon_no_writes(
    buf: Seq<u32>,
    zbuf: Seq<i64>,
    points: Seq<(i64, i64)>,
    depths: Seq<i64>,
    w: int,
    h: int,
    color: u32,
)
    requires
        zbuf.len() == w * h,
        buf.len() == w * h,
        0 <= w,
        0 <= h,
        forall|k: int|
            0 <= k < points.len() ==> -SCREEN_LIMIT <= (#[trigger] points[k]).0 <= SCREEN_LIMIT
                && -SCREEN_LIMIT <= points[k].1 <= SCREEN_LIMIT,
        (forall|k: int| 0 <= k < points.len() ==> (#[trigger] points[k]).1 < 0) || (forall|k: int|
            0 <= k < points.len() ==> (#[trigger] points[k]).1 >= h) || (forall|k: int|
            0 <= k < points.len() ==> (#[trigger] points[k]).0 < 0) || (forall|k: int|
            0 <= k < points.len() ==> (#[trigger] points[k]).0 >= w),
    ensures
        raster_zbuf_after(zbuf, points, depths, w) == zbuf,
        raster_buf_after(buf, zbuf, points, depths, w, color) == buf,
{
    broadcast use vstd::seq_lib::group_to_multiset_ensures;

    if points.len() < 3 {
    } else {
        assert forall|j: int| #![trigger zbuf[j]] 0 <= j < w * h implies !raster_covers(
            points,
            j / w,
            j % w,
        ) by {
            crate::fixed::lemma_pixel_index(j, w, h);
            let row = j / w;
            let col = j % w;
            if forall|k: int| 0 <= k < points.len() ==> (#[trigger] points[k]).1 < 0 {
                lemma_row_uncovered(points, -SCREEN_LIMIT as int, -1, row, col);
            } else if forall|k: int| 0 <= k < points.len() ==> (#[trigger] points[k]).1 >= h {
                lemma_row_uncovered(points, h, SCREEN_LIMIT as int, row, col);
            } else {
                let lo: int = if forall|k: int|
                    0 <= k < points.len() ==> (#[trigger] points[k]).0 < 0 {
                    -SCREEN_LIMIT as int
                } else {
                    w
                };
                let hi: int = if forall|k: int|
                    0 <= k < points.len() ==> (#[trigger] points[k]).0 < 0 {
                    -1
                } else {
                    SCREEN_LIMIT as int
                };
                assert(forall|k: int| 0 <= k < points.len() ==> lo <= (#[trigger] points[k]).0
                    <= hi);
                let hits = row_hits(points, row);
                lemma_hits_bounded(points, row, points.len() as int, lo, hi);
                lemma_sort_seq_props(hits);
                let ss = sort_seq(hits);
                assert forall|t: int| 0 <= t < ss.len() implies lo <= #[trigger] ss[t] <= hi by {
                    assert(ss.contains(ss[t]));
                    assert(ss.to_multiset().count(ss[t]) > 0);
                    assert(hits.to_multiset().count(ss[t]) > 0);
                    assert(hits.contains(ss[t]));
                    let u = choose|u: int| 0 <= u < hits.len() && hits[u] == ss[t];
                    assert(lo <= hits[u] <= hi);
                }
                if raster_covers(points, row, col) {
                    lemma_covered_pairs(ss, col);
                    let m = choose|m: int|
                        0 <= m < ss.len() / 2 && (#[trigger] ss[2 * m]) <= col <= ss[2 * m + 1];
                    assert(lo <= ss[2 * m] && ss[2 * m + 1] <= hi);
                }
            }
        }
        assert(raster_zbuf_after(zbuf, points, depths, w) =~= zbuf);
        assert(raster_buf_after(buf, zbuf, points, depths, w, color) =~= buf);
    }
}

/// Coverage by the first `m` span pairs of a sorted crossing list.
pub open spec fn covered_upto(s: Seq<i64>, x: int, m: int) -> bool {
    exists|t: int| 0 <= t < m && (#[trigger] s[2 * t]) <= x <= s[2 * t + 1]
}

/// A row outside the polygon's row range is never covered.
pub proof fn lemma_row_uncovered(pts: Seq<(i64, i64)>, min_y: int, max_y: int, y: int, x: int)
    requires
        forall|k: int| 0 <= k < pts.len() ==> min_y <= (#[trigger] pts[k]).1 <= max_y,
        y < min_y || y > max_y,
    ensures
        !raster_covers(pts, y, x),
{
    assert forall|i: int| 0 <= i < pts.len() implies !edge_crosses(
        #[trigger] pts[i],
        pts[(i + 1) % pts.len() as int],
        y,
    ) by {
        let p2 = pts[(i + 1) % pts.len() as int];
        assert(0 <= (i + 1) % (pts.len() as int) && (i + 1) % (pts.len() as int) < pts.len())
            by (nonlinear_arith)
            requires
                pts.len() > 0,
        ;
    }
    lemma_hits_empty(pts, y, pts.len() as int);
    lemma_sort_seq_props(row_hits(pts, y));
    assert(sort_seq(row_hits(pts, y)).len() == 0);
}

/// Fills one scanline row of the polygon: spans between successive pairs of
/// sorted edge crossings, each pixel depth-tested against the average depth.
fn fill_row(
    points: &Vec<(i64, i64)>,
    y: i64,
    avg: i64,
    color: u32,
    buffer: &mut Vec<u32>,
    zbuffer: &mut Vec<i64>,
    width: usize,
    height: usize,
)
    requires
        old(buffer)@.len() == width * height,
        old(zbuffer)@.len() == width * height,
        width * height <= usize::MAX,
        width <= 65536,
        height <= 65536,
        forall|k: int|
            0 <= k < points@.len() ==> -SCREEN_LIMIT <= (#[trigger] points@[k]).0 <= SCREEN_LIMIT
                && -SCREEN_LIMIT <= points@[k].1 <= SCREEN_LIMIT,
        points@.len() >= 1,
        points@.len() <= POINTS_LIMIT,
        0 <= y < height as i64,
    ensures
        final(zbuffer)@.len() == old(zbuffer)@.len(),
        final(buffer)@.len() == old(buffer)@.len(),
        forall|j: int|
            0 <= j < old(zbuffer)@.len() ==> (if j / (width as int) == y {
                pix_updated(
                    old(zbuffer)@,
                    old(buffer)@,
                    final(zbuffer)@,
                    final(buffer)@,
                    raster_covers(points@, y as int, j % (width as int)),
                    avg as int,
                    color,
                    j,
                )
            } else {
                final(zbuffer)@[j] == old(zbuffer)@[j] && final(buffer)@[j] == old(buffer)@[j]
            }),
{
    let ghost w = width as int;
    let ghost zr = zbuffer@;
    let ghost br = buffer@;
    let xs = row_intersections(points, y);
    let ghost s = xs@;
    let pair_count: usize = xs.len() / 2;
    let mut m: usize = 0;
    while m < pair_count
        invariant
            pair_count == s.len() / 2,
            s.len() <= POINTS_LIMIT,
            m <= pair_count,
            s == xs@,
            sorted(s),
            s == sort_seq(row_hits(points@, y as int)),
            zr.len() == width * height,
            br.len() == width * height,
            width * height <= usize::MAX,
            width <= 65536,
            height <= 65536,
            0 <= y < height as i64,
            zbuffer@.len() == zr.len(),
            buffer@.len() == br.len(),
            forall|j: int|
                0 <= j < zr.len() ==> (if j / (width as int) == y {
                    pix_updated(
                        zr,
                        br,
                        zbuffer@,
                        buffer@,
                        covered_upto(s, j % (width as int), m as int),
                        avg as int,
                        color,
                        j,
                    )
                } else {
                    zbuffer@[j] == zr[j] && buffer@[j] == br[j]
                }),
        decreases pair_count - m,
    {
        let a: i64 = xs[2 * m];
        let b: i64 = xs[2 * m + 1];
        let x_start: i64 = if a < 0 {
            0
        } else {
            a
        };
        let x_last: i64 = width as i64 - 1;
        let x_end: i64 = if b > x_last {
            x_last
        } else {
            b
        };
        proof {
            assert forall|j: int| #![trigger zr[j]] 0 <= j < zr.len() && j / (width as int) == y
                implies ((covered_upto(s, j % (width as int), m as int) || (a <= j % (
            width as int) <= b && j % (width as int) < x_start)) == covered_upto(
                s,
                j % (width as int),
                m as int,
            )) by {
                lemma_pixel_index(j, width as int, height as int);
            }
        }
        let mut x: i64 = x_start;
        while x <= x_end
            invariant
                pair_count == s.len() / 2,
                s.len() <= POINTS_LIMIT,
                m < pair_count,
                s == xs@,
                sorted(s),
                a == s[2 * m as int],
                b == s[2 * m as int + 1],
                x_start == (if a < 0 {
                    0
                } else {
                    a as int
                }),
                x_end == (if b > width as int - 1 {
                    width as int - 1
                } else {
                    b as int
                }),
                x_start <= x <= x_end + 1 || x == x_start,
                zr.len() == width * height,
                br.len() == width * height,
                width * height <= usize::MAX,
                width <= 65536,
                height <= 65536,
                0 <= y < height as i64,
                zbuffer@.len() == zr.len(),
                buffer@.len() == br.len(),
                forall|j: int|
                    0 <= j < zr.len() ==> (if j / (width as int) == y {
                        pix_updated(
                            zr,
                            br,
                            zbuffer@,
                            buffer@,
                            covered_upto(s, j % (width as int), m as int) || (a <= j % (
                            width as int) <= b && j % (width as int) < x),
                            avg as int,
                            color,
                            j,
                        )
                    } else {
                        zbuffer@[j] == zr[j] && buffer@[j] == br[j]
                    }),
            decreases x_end + 1 - x,
        {
            proof {
                lemma_index_of_pixel(x as int, y as int, width as int, height as int);
            }
            let idx: usize = (y as usize) * width + (x as usize);
            let ghost zprev = zbuffer@;
            let ghost bprev = buffer@;
            if zbuffer[idx] > avg {
                zbuffer.set(idx, avg);
                buffer.set(idx, color);
            }
            proof {
                let xi = x as int;
                assert forall|j: int| 0 <= j < zr.len() implies (if j / (width as int) == y {
                    pix_updated(
                        zr,
                        br,
                        zbuffer@,
                        buffer@,
                        covered_upto(s, j % (width as int), m as int) || (a <= j % (
                        width as int) <= b && j % (width as int) < xi + 1),
                        avg as int,
                        color,
                        j,
                    )
                } else {
                    zbuffer@[j] == zr[j] && buffer@[j] == br[j]
                }) by {
                    lemma_pixel_index(j, width as int, height as int);
                    if j == idx {
                        assert(j % (width as int) == xi && j / (width as int) == y);
                    } else {
                        assert(zbuffer@[j] == zprev[j] && buffer@[j] == bprev[j]);
                        if j / (width as int) == y && j % (width as int) == xi {
                            assert(j == (j / (width as int)) * (width as int) + j % (width as int));
                            assert(j == idx);
                        }
                    }
                }
            }
            x = x + 1;
        }
        proof {
            // the finished pair extends covered spans by exactly [a, b]
            assert forall|col: int| #![trigger covered_upto(s, col, m as int + 1)] 0 <= col
                < width as int implies (covered_upto(s, col, m as int + 1) == (covered_upto(
                s,
                col,
                m as int,
            ) || (a <= col <= b && col < x))) by {
                if covered_upto(s, col, m as int + 1) {
                    let t = choose|t: int| 0 <= t < m as int + 1 && (#[trigger] s[2 * t]) <= col
                        <= s[2 * t + 1];
                    if t < m as int {
                        assert(covered_upto(s, col, m as int));
                    } else {
                        assert(a <= col <= b);
                        assert(col < x);
                    }
                }
                if covered_upto(s, col, m as int) {
                    let t = choose|t: int| 0 <= t < m as int && (#[trigger] s[2 * t]) <= col <= s[2
                        * t + 1];
                    assert(covered_upto(s, col, m as int + 1));
                }
                if a <= col <= b && col < x {
                    assert(s[2 * (m as int)] <= col <= s[2 * (m as int) + 1]);
                    assert(covered_upto(s, col, m as int + 1));
                }
            }
            assert forall|j: int| #![trigger zr[j]] 0 <= j < zr.len() implies (if j / (
            width as int) == y {
                pix_updated(
                    zr,
                    br,
                    zbuffer@,
                    buffer@,
                    covered_upto(s, j % (width as int), m as int + 1),
                    avg as int,
                    color,
                    j,
                )
            } else {
                zbuffer@[j] == zr[j] && buffer@[j] == br[j]
            }) by {
                lemma_pixel_index(j, width as int, height as int);
            }
        }
        m = m + 1;
    }
    proof {
        assert forall|col: int| #![trigger covered_upto(s, col, pair_count as int)] 0 <= col
            < width as int implies covered_upto(s, col, pair_count as int) == raster_covers(
            points@,
            y as int,
            col,
        ) by {
            lemma_covered_pairs(s, col);
        }
    }
}

/// Fills the interior of a polygon given by its ordered screen points and one
/// depth per corner. Each interior pixel whose depth-buffer value is farther
/// than the polygon's average depth takes the given color and that average;
/// every other pixel, and every buffer cell outside the polygon, is
/// unchanged. The depth buffer never moves away from the viewer. Fewer than
/// three points draw nothing.
pub fn draw_filled_polygon(
    points: &Vec<(i64, i64)>,
    depths: &Vec<i64>,
    buffer: &mut Vec<u32>,
    zbuffer: &mut Vec<i64>,
    width: usize,
    height: usize,
    color: u32,
)
    requires
        old(buffer)@.len() == width * height,
        old(zbuffer)@.len() == width * height,
        width * height <= usize::MAX,
        width <= 65536,
        height <= 65536,
        depths@.len() == points@.len(),
        points@.len() <= POINTS_LIMIT,
        forall|k: int|
            0 <= k < points@.len() ==> -SCREEN_LIMIT <= (#[trigger] points@[k]).0 <= SCREEN_LIMIT
                && -SCREEN_LIMIT <= points@[k].1 <= SCREEN_LIMIT,
        forall|k: int|
            0 <= k < depths@.len() ==> -DEPTH_LIMIT <= #[trigger] depths@[k] <= DEPTH_LIMIT,
    ensures
        final(zbuffer)@ == raster_zbuf_after(old(zbuffer)@, points@, depths@, width as int),
        final(buffer)@ == raster_buf_after(
            old(buffer)@,
            old(zbuffer)@,
            points@,
            depths@,
            width as int,
            color,
        ),
        forall|j: int| 0 <= j < old(zbuffer)@.len() ==> final(zbuffer)@[j] <= old(zbuffer)@[j],
        final(zbuffer)@.len() == old(zbuffer)@.len(),
        final(buffer)@.len() == old(buffer)@.len(),
{
    if points.len() < 3 {
        return ;
    }
    let avg: i64 = avg_of(depths);
    let bounds = row_bounds(points);
    let min_y: i64 = bounds.0;
    let max_y: i64 = bounds.1;
    let ghost z0 = zbuffer@;
    let ghost b0 = buffer@;
    let ghost pts = points@;
    let ghost w = width as int;
    let mut y: i64 = min_y;
    proof {
        assert forall|j: int| #![trigger z0[j]] 0 <= j < z0.len() && j / w < min_y implies
            !raster_covers(pts, j / w, j % w) by {
            lemma_pixel_index(j, w, height as int);
            lemma_row_uncovered(pts, min_y as int, max_y as int, j / w, j % w);
        }
    }
    while y <= max_y
        invariant
            w == width as int,
            min_y <= y <= max_y + 1,
            -SCREEN_LIMIT <= min_y <= max_y <= SCREEN_LIMIT,
            pts == points@,
            pts.len() >= 3,
            pts.len() <= POINTS_LIMIT,
            forall|k: int|
                0 <= k < pts.len() ==> -SCREEN_LIMIT <= (#[trigger] pts[k]).0 <= SCREEN_LIMIT
                    && -SCREEN_LIMIT <= pts[k].1 <= SCREEN_LIMIT,
            forall|k: int| 0 <= k < pts.len() ==> min_y <= (#[trigger] pts[k]).1 <= max_y,
            avg == raster_avg(depths@),
            z0.len() == width * height,
            b0.len() == width * height,
            width * height <= usize::MAX,
            width <= 65536,
            height <= 65536,
            zbuffer@.len() == z0.len(),
            buffer@.len() == b0.len(),
            forall|j: int|
                0 <= j < z0.len() ==> (if j / w < y {
                    pix_updated(
                        z0,
                        b0,
                        zbuffer@,
                        buffer@,
                        raster_covers(pts, j / w, j % w),
                        avg as int,
                        color,
                        j,
                    )
                } else {
                    zbuffer@[j] == z0[j] && buffer@[j] == b0[j]
                }),
        decreases max_y + 1 - y,
    {
        if 0 <= y && y < height as i64 {
            let ghost zmid = zbuffer@;
            let ghost bmid = buffer@;
            fill_row(points, y, avg, color, buffer, zbuffer, width, height);
            proof {
                assert forall|j: int| 0 <= j < z0.len() implies (if j / w < y + 1 {
                    pix_updated(
                        z0,
                        b0,
                        zbuffer@,
                        buffer@,
                        raster_covers(pts, j / w, j % w),
                        avg as int,
                        color,
                        j,
                    )
                } else {
                    zbuffer@[j] == z0[j] && buffer@[j] == b0[j]
                }) by {
                    lemma_pixel_index(j, w, height as int);
                    if j / w < y {
                        assert(zbuffer@[j] == zmid[j] && buffer@[j] == bmid[j]);
                    } else if j / w == y {
                        assert(zmid[j] == z0[j] && bmid[j] == b0[j]);
                    } else {
                        assert(zbuffer@[j] == zmid[j] && buffer@[j] == bmid[j]);
                    }
                }
            }
        } else {
            proof {
                assert forall|j: int| #![trigger j / w] 0 <= j < z0.len() implies j / w != y by {
                    lemma_pixel_index(j, w, height as int);
                }
            }
        }
        y = y + 1;
    }
    proof {
        assert forall|j: int| #![trigger z0[j]] 0 <= j < z0.len() implies pix_updated(
            z0,
            b0,
            zbuffer@,
            buffer@,
            raster_covers(pts, j / w, j % w),
            avg as int,
            color,
            j,
        ) by {
            lemma_pixel_index(j, w, height as int);
            if j / w >= y {
                lemma_row_uncovered(pts, min_y as int, max_y as int, j / w, j % w);
            }
        }
        assert(zbuffer@ =~= raster_zbuf_after(z0, pts, depths@, w));
        assert(buffer@ =~= raster_buf_after(b0, z0, pts, depths@, w, color));
    }
}

} // verus!
