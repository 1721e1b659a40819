//! Detection boxes, score ordering and class-aware non-maximum suppression.
use vstd::prelude::*;
use crate::config::FIX_ONE;

verus! {

/// Largest magnitude of a fixed-point box coordinate (2^57: above
/// `u32::MAX` pixels).
pub const BOX_COORD_LIMIT: i64 = 144115188075855872;

/// One detection: corners `(x1, y1)` and `(x2, y2)` in original-image
/// pixels and the class confidence `score`, all in fixed point (see `FIX_ONE`).
#[derive(Clone, Copy, Debug, PartialEq, Eq, Structural)]
pub struct ResultBBOX {
    pub x1: i64,
    pub y1: i64,
    pub x2: i64,
    pub y2: i64,
    pub class: u32,
    pub score: i64,
}

impl ResultBBOX {
    /// Coordinates within the range the overlap arithmetic is sized for.
    pub open spec fn in_range(self) -> bool {
        &&& -BOX_COORD_LIMIT <= self.x1 <= BOX_COORD_LIMIT
        &&& -BOX_COORD_LIMIT <= self.y1 <= BOX_COORD_LIMIT
        &&& -BOX_COORD_LIMIT <= self.x2 <= BOX_COORD_LIMIT
        &&& -BOX_COORD_LIMIT <= self.y2 <= BOX_COORD_LIMIT
    }
}

pub open spec fn spec_max(a: int, b: int) -> int {
    if a >= b { a } else { b }
}

pub open spec fn spec_min(a: int, b: int) -> int {
    if a <= b { a } else { b }
}

/// Width and height of the intersection of two boxes (may be negative).
pub open spec fn inter_w(a: ResultBBOX, b: ResultBBOX) -> int {
    spec_min(a.x2 as int, b.x2 as int) - spec_max(a.x1 as int, b.x1 as int)
}

pub open spec fn inter_h(a: ResultBBOX, b: ResultBBOX) -> int {
    spec_min(a.y2 as int, b.y2 as int) - spec_max(a.y1 as int, b.y1 as int)
}

pub open spec fn area(a: ResultBBOX) -> int {
    (a.x2 - a.x1) * (a.y2 - a.y1)
}

/// Whether the boxes overlap with positive area.
pub open spec fn overlaps(a: ResultBBOX, b: ResultBBOX) -> bool {
    inter_w(a, b) > 0 && inter_h(a, b) > 0
}

pub open spec fn intersection(a: ResultBBOX, b: ResultBBOX) -> int {
    inter_w(a, b) * inter_h(a, b)
}

/// `areaA + areaB - intersection`.
pub open spec fn union_area(a: ResultBBOX, b: ResultBBOX) -> int {
    area(a) + area(b) - intersection(a, b)
}

/// Intersection-over-union of `a` and `b` is at most `thr / FIX_ONE`
/// (boxes without a positive overlap have IoU zero).
pub open spec fn iou_within(a: ResultBBOX, b: ResultBBOX, thr: i64) -> bool {
    overlaps(a, b) ==> intersection(a, b) * FIX_ONE <= thr * union_area(a, b)
}

/// `kept` rules out `cand`: same class and IoU above the threshold.
pub open spec fn suppresses(kept: ResultBBOX, cand: ResultBBOX, thr: i64) -> bool {
    kept.class == cand.class && !iou_within(cand, kept, thr)
}

/// Greedy suppression over a score-ordered sequence: a candidate is kept
/// when no already-kept box suppresses it; kept boxes stay in order.
pub open spec fn spec_nms(s: Seq<ResultBBOX>, thr: i64) -> Seq<ResultBBOX>
    decreases s.len(),
{
    if s.len() == 0 {
        Seq::empty()
    } else {
        let kept = spec_nms(s.drop_last(), thr);
        let c = s.last();
        if exists|k: int| 0 <= k < kept.len() && suppresses(#[trigger] kept[k], c, thr) {
            kept
        } else {
            kept.push(c)
        }
    }
}

/// Inserts `x` into a sequence ordered by descending score, after every
/// element whose score is at least `x.score`.
pub open spec fn spec_insert_desc(s: Seq<ResultBBOX>, x: ResultBBOX) -> Seq<ResultBBOX>
    decreases s.len(),
{
    if s.len() == 0 {
        seq![x]
    } else if s.last().score >= x.score {
        s.push(x)
    } else {
        spec_insert_desc(s.drop_last(), x).push(s.last())
    }
}

/// Stable sort by descending score (insertion of each element in turn).
pub open spec fn spec_sort_desc(s: Seq<ResultBBOX>) -> Seq<ResultBBOX>
    decreases s.len(),
{
    if s.len() == 0 {
        Seq::empty()
    } else {
        spec_insert_desc(spec_sort_desc(s.drop_last()), s.last())
    }
}

pub open spec fn sorted_desc(s: Seq<ResultBBOX>) -> bool {
    forall|i: int, j: int| 0 <= i < j < s.len() ==> s[i].score >= s[j].score
}

pub open spec fn all_in_range(s: Seq<ResultBBOX>) -> bool {
    forall|i: int| 0 <= i < s.len() ==> (#[trigger] s[i]).in_range()
}

/// Exact overlap test: whether IoU of `a` and `b` is at most `thr`.
pub fn iou_within_threshold(a: &ResultBBOX, b: &ResultBBOX, thr: i64) -> (r: bool)
    requires
        a.in_range(),
        b.in_range(),
        0 <= thr <= FIX_ONE,
    ensures
        r == iou_within(*a, *b, thr),
{
    let ax1 = a.x1 as i128;
    let ay1 = a.y1 as i128;
    let ax2 = a.x2 as i128;
    let ay2 = a.y2 as i128;
    let bx1 = b.x1 as i128;
    let by1 = b.y1 as i128;
    let bx2 = b.x2 as i128;
    let by2 = b.y2 as i128;
    let x1_max = if ax1 >= bx1 { ax1 } else { bx1 };
    let y1_max = if ay1 >= by1 { ay1 } else { by1 };
    let x2_min = if ax2 <= bx2 { ax2 } else { bx2 };
    let y2_min = if ay2 <= by2 { ay2 } else { by2 };
    if !(x1_max < x2_min && y1_max < y2_min) {
        return true;
    }
    let ghost lim: int = BOX_COORD_LIMIT as int;
    let iw = x2_min - x1_max;
    let ih = y2_min - y1_max;
    let aw = ax2 - ax1;
    let ah = ay2 - ay1;
    let bw = bx2 - bx1;
    let bh = by2 - by1;
    proof {
        assert(-4 * lim * lim <= aw * ah <= 4 * lim * lim) by (nonlinear_arith)
            requires -2 * lim <= aw <= 2 * lim, -2 * lim <= ah <= 2 * lim, lim > 0;
        assert(-4 * lim * lim <= bw * bh <= 4 * lim * lim) by (nonlinear_arith)
            requires -2 * lim <= bw <= 2 * lim, -2 * lim <= bh <= 2 * lim, lim > 0;
        assert(0 <= iw * ih <= 4 * lim * lim) by (nonlinear_arith)
            requires 0 < iw <= 2 * lim, 0 < ih <= 2 * lim, lim > 0;
    }
    let inter = iw * ih;
    let union = aw * ah + bw * bh - inter;
    proof {
        assert(0 < inter) by (nonlinear_arith)
            requires 0 < iw, 0 < ih, inter == iw * ih;
    }
    // `inter * FIX_ONE <= thr * union`, evaluated without overflow by
    // splitting `union` into whole and fractional parts of `FIX_ONE`.
    if union < 0 {
        proof {
            assert(thr * union <= 0) by (nonlinear_arith)
                requires union < 0, 0 <= thr;
            assert(inter * FIX_ONE > 0) by (nonlinear_arith)
                requires inter > 0;
        }
        return false;
    }
    let one = FIX_ONE as i128;
    let uq = union / one;
    let ur = union % one;
    proof {
        assert(0 <= thr * uq <= 12 * lim * lim) by (nonlinear_arith)
            requires 0 <= uq <= union, union <= 12 * lim * lim, 0 <= thr <= FIX_ONE, uq * FIX_ONE <= union;
        assert(0 <= thr * ur < FIX_ONE * FIX_ONE) by (nonlinear_arith)
            requires 0 <= ur < FIX_ONE, 0 <= thr <= FIX_ONE;
    }
    let d = inter - (thr as i128) * uq;
    proof {
        assert(union == uq * FIX_ONE + ur);
        assert(inter * FIX_ONE - thr * union == d * FIX_ONE - thr * ur) by (nonlinear_arith)
            requires union == uq * FIX_ONE + ur, d == inter - thr * uq;
    }
    if d <= 0 {
        proof {
            assert(d * FIX_ONE <= 0) by (nonlinear_arith) requires d <= 0;
            assert(thr * ur >= 0) by (nonlinear_arith) requires thr >= 0, ur >= 0;
        }
        return true;
    }
    if d >= one {
        proof {
            assert(d * FIX_ONE >= FIX_ONE * FIX_ONE) by (nonlinear_arith) requires d >= FIX_ONE;
        }
        return false;
    }
    d * one <= (thr as i128) * ur
}

/// Class-aware non-maximum suppression of a score-ordered sequence.
pub fn nms_sorted(sorted: &Vec<ResultBBOX>, nms_threshold: i64) -> (r: Vec<ResultBBOX>)
    requires
        all_in_range(sorted@),
        0 <= nms_threshold <= FIX_ONE,
    ensures
        r@ == spec_nms(sorted@, nms_threshold),
{
    let mut kept: Vec<ResultBBOX> = Vec::new();
    let mut i: usize = 0;
    while i < sorted.len()
        invariant
            i <= sorted@.len(),
            all_in_range(sorted@),
            0 <= nms_threshold <= FIX_ONE,
            kept@ == spec_nms(sorted@.take(i as int), nms_threshold),
            all_in_range(kept@),
        decreases sorted@.len() - i,
    {
        let cand = sorted[i];
        proof {
            assert(sorted@.take(i + 1).drop_last() =~= sorted@.take(i as int));
            assert(sorted@[i as int].in_range());
        }
        let mut keep = true;
        let mut j: usize = 0;
        while j < kept.len()
            invariant
                j <= kept@.len(),
                all_in_range(kept@),
                cand.in_range(),
                0 <= nms_threshold <= FIX_ONE,
                keep == (forall|k: int| 0 <= k < j ==> !suppresses(#[trigger] kept@[k], cand, nms_threshold)),
            decreases kept@.len() - j,
        {
            let k = kept[j];
            proof { assert(kept@[j as int].in_range()); }
            if keep && k.class == cand.class && !iou_within_threshold(&cand, &k, nms_threshold) {
                keep = false;
            }
            j = j + 1;
        }
        proof {
            if !keep {
                assert(exists|k: int| 0 <= k < kept@.len() && suppresses(#[trigger] kept@[k], cand, nms_threshold));
            } else {
                assert(j == kept@.len());
            }
        }
        if keep {
            kept.push(cand);
        }
        i = i + 1;
    }
    proof {
        assert(sorted@.take(sorted@.len() as int) =~= sorted@);
    }
    kept
}

/// Stable sort by descending score.
pub fn sort_by_score_desc(v: &Vec<ResultBBOX>) -> (r: Vec<ResultBBOX>)
    ensures
        r@ == spec_sort_desc(v@),
{
    let mut r: Vec<ResultBBOX> = Vec::new();
    let mut i: usize = 0;
    while i < v.len()
        invariant
            i <= v@.len(),
            r@ == spec_sort_desc(v@.take(i as int)),
        decreases v@.len() - i,
    {
        let x = v[i];
        proof {
            assert(v@.take(i + 1).drop_last() =~= v@.take(i as int));
        }
        let mut p: usize = r.len();
        proof {
            assert(r@.take(r@.len() as int) =~= r@);
            assert(r@.skip(r@.len() as int) =~= Seq::<ResultBBOX>::empty());
        }
        while p > 0 && r[p - 1].score < x.score
            invariant
                p <= r@.len(),
                spec_insert_desc(r@, x) =~= spec_insert_desc(r@.take(p as int), x) + r@.skip(p as int),
            decreases p,
        {
            proof {
                let t = r@.take(p as int);
                assert(t.drop_last() =~= r@.take(p - 1));
                assert(t.last() == r@[p - 1]);
                assert(spec_insert_desc(t, x) == spec_insert_desc(t.drop_last(), x).push(t.last()));
                assert(r@.skip(p - 1) =~= seq![r@[p - 1]] + r@.skip(p as int));
            }
            p = p - 1;
        }
        proof {
            let t = r@.take(p as int);
            if p == 0 {
                assert(t.len() == 0);
            } else {
                assert(t.last() == r@[p - 1]);
            }
            assert(spec_insert_desc(t, x) == t.push(x));
        }
        r.insert(p, x);
        proof {
            assert(r@ =~= r@.take(p as int).push(x) + r@.skip(p + 1));
        }
        i = i + 1;
    }
    proof {
        assert(v@.take(v@.len() as int) =~= v@);
    }
    r
}

/// Sorts candidates by descending score and applies class-aware
/// suppression: the result is `spec_nms(spec_sort_desc(detections))`.
pub fn bbox_nms(detections: &Vec<ResultBBOX>, nms_threshold: i64) -> (r: Vec<ResultBBOX>)
    requires
        all_in_range(detections@),
        0 <= nms_threshold <= FIX_ONE,
    ensures
        r@ == spec_nms(spec_sort_desc(detections@), nms_threshold),
{
    let sorted = sort_by_score_desc(detections);
    proof {
        lemma_sort_keeps_elements(detections@);
        assert forall|i: int| 0 <= i < sorted@.len() implies (#[trigger] sorted@[i]).in_range() by {
            let k = choose|k: int| 0 <= k < detections@.len() && detections@[k] == sorted@[i];
            assert(detections@[k].in_range());
        }
    }
    nms_sorted(&sorted, nms_threshold)
}

proof fn lemma_iou_symmetric(a: ResultBBOX, b: ResultBBOX, thr: i64)
    ensures
        iou_within(a, b, thr) == iou_within(b, a, thr),
{
    assert(inter_w(a, b) == inter_w(b, a));
    assert(inter_h(a, b) == inter_h(b, a));
    assert(intersection(a, b) == intersection(b, a));
    assert(union_area(a, b) == union_area(b, a));
}

/// Any two boxes of one class that suppression keeps overlap by at most
/// the threshold.
pub proof fn lemma_nms_pairwise(s: Seq<ResultBBOX>, thr: i64)
    ensures
        forall|i: int, j: int|
            0 <= i < spec_nms(s, thr).len() && 0 <= j < spec_nms(s, thr).len() && i != j
                && (#[trigger] spec_nms(s, thr)[i]).class == (#[trigger] spec_nms(s, thr)[j]).class
                ==> iou_within(spec_nms(s, thr)[i], spec_nms(s, thr)[j], thr),
    decreases s.len(),
{
    if s.len() > 0 {
        lemma_nms_pairwise(s.drop_last(), thr);
        let kept = spec_nms(s.drop_last(), thr);
        let c = s.last();
        let r = spec_nms(s, thr);
        if !(exists|k: int| 0 <= k < kept.len() && suppresses(#[trigger] kept[k], c, thr)) {
            assert forall|i: int, j: int|
                0 <= i < r.len() && 0 <= j < r.len() && i != j
                    && (#[trigger] r[i]).class == (#[trigger] r[j]).class
                implies iou_within(r[i], r[j], thr) by {
                if j == r.len() - 1 {
                    assert(!suppresses(kept[i], c, thr));
                    lemma_iou_symmetric(c, kept[i], thr);
                } else if i == r.len() - 1 {
                    assert(!suppresses(kept[j], c, thr));
                } else {
                    assert(r[i] == kept[i] && r[j] == kept[j]);
                }
            }
        }
    }
}

proof fn lemma_insert_sorted(s: Seq<ResultBBOX>, x: ResultBBOX)
    requires
        sorted_desc(s),
    ensures
        sorted_desc(spec_insert_desc(s, x)),
    decreases s.len(),
{
    if s.len() > 0 {
        if s.last().score >= x.score {
            let r = s.push(x);
            assert forall|i: int, j: int| 0 <= i < j < r.len() implies r[i].score >= r[j].score by {
                if j == r.len() - 1 && i < s.len() - 1 {
                    assert(s[i].score >= s[s.len() - 1].score);
                }
            }
        } else {
            let inner = spec_insert_desc(s.drop_last(), x);
            lemma_insert_sorted(s.drop_last(), x);
            lemma_insert_keeps_elements(s.drop_last(), x);
            let r = inner.push(s.last());
            assert forall|i: int, j: int| 0 <= i < j < r.len() implies r[i].score >= r[j].score by {
                if j == r.len() - 1 {
                    assert(inner[i] == x || s.drop_last().contains(inner[i]));
                    if inner[i] != x {
                        let k = choose|k: int| 0 <= k < s.drop_last().len() && s.drop_last()[k] == inner[i];
                        assert(s[k].score >= s[s.len() - 1].score);
                    }
                }
            }
        }
    }
}

proof fn lemma_sort_sorted(s: Seq<ResultBBOX>)
    ensures
        sorted_desc(spec_sort_desc(s)),
    decreases s.len(),
{
    if s.len() > 0 {
        lemma_sort_sorted(s.drop_last());
        lemma_insert_sorted(spec_sort_desc(s.drop_last()), s.last());
    }
}

proof fn lemma_nms_sorted(s: Seq<ResultBBOX>, thr: i64)
    requires
        sorted_desc(s),
    ensures
        sorted_desc(spec_nms(s, thr)),
    decreases s.len(),
{
    if s.len() > 0 {
        let p = s.drop_last();
        assert(sorted_desc(p));
        lemma_nms_sorted(p, thr);
        lemma_nms_members(p, thr);
        let kept = spec_nms(p, thr);
        let r = spec_nms(s, thr);
        assert forall|i: int, j: int| 0 <= i < j < r.len() implies r[i].score >= r[j].score by {
            if j == kept.len() {
                let k = choose|k: int| 0 <= k < p.len() && p[k] == kept[i];
                assert(s[k].score >= s[s.len() - 1].score);
            }
        }
    }
}

/// The output of `bbox_nms` is ordered by descending score, and no two of
/// its boxes of one class overlap by more than the threshold.
pub proof fn lemma_bbox_nms_output(detections: Seq<ResultBBOX>, thr: i64)
    ensures
        sorted_desc(spec_nms(spec_sort_desc(detections), thr)),
        forall|i: int, j: int|
            0 <= i < j < spec_nms(spec_sort_desc(detections), thr).len()
                && (#[trigger] spec_nms(spec_sort_desc(detections), thr)[i]).class
                    == (#[trigger] spec_nms(spec_sort_desc(detections), thr)[j]).class
                ==> iou_within(spec_nms(spec_sort_desc(detections), thr)[i],
                    spec_nms(spec_sort_desc(detections), thr)[j], thr),
{
    lemma_nms_pairwise(spec_sort_desc(detections), thr);
    lemma_sort_sorted(detections);
    lemma_nms_sorted(spec_sort_desc(detections), thr);
}

proof fn lemma_nms_members(s: Seq<ResultBBOX>, thr: i64)
    ensures
        forall|i: int| 0 <= i < spec_nms(s, thr).len() ==> s.contains(#[trigger] spec_nms(s, thr)[i]),
    decreases s.len(),
{
    if s.len() > 0 {
        lemma_nms_members(s.drop_last(), thr);
        let kept = spec_nms(s.drop_last(), thr);
        let r = spec_nms(s, thr);
        assert forall|i: int| 0 <= i < r.len() implies s.contains(#[trigger] r[i]) by {
            if i < kept.len() {
                assert(r[i] == kept[i]);
                let k = choose|k: int| 0 <= k < s.drop_last().len() && s.drop_last()[k] == kept[i];
                assert(s[k] == r[i]);
            } else {
                assert(s[s.len() - 1] == r[i]);
            }
        }
    }
}

/// Every box that `bbox_nms` returns is one of its input boxes.
pub proof fn lemma_bbox_nms_members(detections: Seq<ResultBBOX>, thr: i64)
    ensures
        forall|i: int| 0 <= i < spec_nms(spec_sort_desc(detections), thr).len()
            ==> detections.contains(#[trigger] spec_nms(spec_sort_desc(detections), thr)[i]),
{
    let sorted = spec_sort_desc(detections);
    lemma_sort_keeps_elements(detections);
    lemma_nms_members(sorted, thr);
    assert forall|i: int| 0 <= i < spec_nms(sorted, thr).len()
        implies detections.contains(#[trigger] spec_nms(sorted, thr)[i]) by {
        let k = choose|k: int| 0 <= k < sorted.len() && sorted[k] == spec_nms(sorted, thr)[i];
        assert(sorted.contains(sorted[k]));
    }
}

proof fn lemma_insert_keeps_elements(s: Seq<ResultBBOX>, x: ResultBBOX)
    ensures
        forall|i: int| 0 <= i < spec_insert_desc(s, x).len() ==>
            (#[trigger] spec_insert_desc(s, x)[i] == x || s.contains(spec_insert_desc(s, x)[i])),
        spec_insert_desc(s, x).len() == s.len() + 1,
    decreases s.len(),
{
    if s.len() > 0 && s.last().score < x.score {
        lemma_insert_keeps_elements(s.drop_last(), x);
        let r = spec_insert_desc(s, x);
        assert forall|i: int| 0 <= i < r.len() implies (#[trigger] r[i] == x || s.contains(r[i])) by {
            if i < r.len() - 1 {
                let inner = spec_insert_desc(s.drop_last(), x);
                assert(r[i] == inner[i]);
                if inner[i] != x {
                    let k = choose|k: int| 0 <= k < s.drop_last().len() && s.drop_last()[k] == inner[i];
                    assert(s[k] == r[i]);
                }
            } else {
                assert(s[s.len() - 1] == r[i]);
            }
        }
    } else if s.len() > 0 {
        let r = spec_insert_desc(s, x);
        assert forall|i: int| 0 <= i < r.len() implies (#[trigger] r[i] == x || s.contains(r[i])) by {
            if i < s.len() {
                assert(s[i] == r[i]);
            }
        }
    }
}

/// Every element of the sorted sequence comes from the input.
proof fn lemma_sort_keeps_elements(s: Seq<ResultBBOX>)
    ensures
        forall|i: int| 0 <= i < spec_sort_desc(s).len() ==> s.contains(#[trigger] spec_sort_desc(s)[i]),
        spec_sort_desc(s).len() == s.len(),
    decreases s.len(),
{
    if s.len() > 0 {
        let inner = spec_sort_desc(s.drop_last());
        lemma_sort_keeps_elements(s.drop_last());
        lemma_insert_keeps_elements(inner, s.last());
        let r = spec_sort_desc(s);
        assert forall|i: int| 0 <= i < r.len() implies s.contains(#[trigger] r[i]) by {
            if r[i] == s.last() {
                assert(s[s.len() - 1] == r[i]);
            } else {
                let k = choose|k: int| 0 <= k < inner.len() && inner[k] == r[i];
                let m = choose|m: int| 0 <= m < s.drop_last().len() && s.drop_last()[m] == inner[k];
                assert(s[m] == r[i]);
            }
        }
    }
}

} // verus!
