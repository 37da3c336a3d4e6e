use vstd::prelude::*;

verus! {

/// Worker `i` of `wc` workers owns port `p` of the range ending at `end` when
/// `p = start + i + k * wc` for some `k >= 0` and `p` does not exceed `end`.
pub open spec fn in_stride(start: int, end: int, wc: int, i: int, p: int) -> bool {
    exists|k: int| 0 <= k && p == start + i + #[trigger] (k * wc) && p <= end
}

/// The index of the worker whose stride set contains port `p`.
pub open spec fn owner(start: int, wc: int, p: int) -> int {
    (p - start) % wc
}

/// Stride membership without a quantifier: `p` lies in `[start + i, end]` at a
/// multiple of `wc` above `start + i`.
pub proof fn lemma_stride_characterization(start: int, end: int, wc: int, i: int, p: int)
    requires
        1 <= wc,
    ensures
        in_stride(start, end, wc, i, p) <==> (start + i <= p && p <= end && (p - start - i) % wc
            == 0),
{
    if in_stride(start, end, wc, i, p) {
        let k = choose|k: int| 0 <= k && p == start + i + #[trigger] (k * wc) && p <= end;
        assert(k * wc >= 0 && (k * wc) % wc == 0) by (nonlinear_arith)
            requires
                k >= 0,
                wc >= 1,
        ;
        assert((p - start - i) % wc == 0);
    }
    if start + i <= p && p <= end && (p - start - i) % wc == 0 {
        let d = p - start - i;
        let k = d / wc;
        assert(d == k * wc && k >= 0) by (nonlinear_arith)
            requires
                wc >= 1,
                d >= 0,
                d % wc == 0,
                k == d / wc,
        ;
        assert(0 <= k && p == start + i + k * wc && p <= end);
    }
}

/// Every port of `[start, end]` lies in the stride set of its owner, whose
/// index is a valid worker index.
pub proof fn lemma_stride_covers(start: int, end: int, wc: int, p: int)
    requires
        1 <= wc,
        start <= p && p <= end,
    ensures
        0 <= owner(start, wc, p) && owner(start, wc, p) < wc,
        in_stride(start, end, wc, owner(start, wc, p), p),
{
    let d = p - start;
    let i = d % wc;
    let k = d / wc;
    assert(d == i + k * wc && 0 <= i && i < wc && k >= 0) by (nonlinear_arith)
        requires
            wc >= 1,
            d >= 0,
            i == d % wc,
            k == d / wc,
    ;
    assert(0 <= k && p == start + i + k * wc && p <= end);
}

/// No port lies in the stride sets of two distinct worker indices.
pub proof fn lemma_stride_disjoint(start: int, end: int, wc: int, i: int, j: int, p: int)
    requires
        1 <= wc,
        0 <= i && i < wc,
        0 <= j && j < wc,
        in_stride(start, end, wc, i, p),
        in_stride(start, end, wc, j, p),
    ensures
        i == j,
{
    let k1 = choose|k: int| 0 <= k && p == start + i + #[trigger] (k * wc) && p <= end;
    let k2 = choose|k: int| 0 <= k && p == start + j + #[trigger] (k * wc) && p <= end;
    assert((k2 - k1) * wc == k2 * wc - k1 * wc) by (nonlinear_arith);
    assert(i == j) by (nonlinear_arith)
        requires
            i - j == (k2 - k1) * wc,
            0 <= i && i < wc,
            0 <= j && j < wc,
    ;
}

/// A stride set contains only ports of `[start + i, end]`.
pub proof fn lemma_stride_in_range(start: int, end: int, wc: int, i: int, p: int)
    requires
        1 <= wc,
        0 <= i,
        in_stride(start, end, wc, i, p),
    ensures
        start + i <= p && p <= end,
{
    let k = choose|k: int| 0 <= k && p == start + i + #[trigger] (k * wc) && p <= end;
    assert(k * wc >= 0) by (nonlinear_arith)
        requires
            k >= 0,
            wc >= 1,
    ;
}

/// Partition completeness: the stride sets of the worker indices `[0, wc)`
/// cover every port of `[start, end]`, are pairwise disjoint, and contain no
/// port outside `[start, end]`.
pub proof fn lemma_partition(start: int, end: int, wc: int)
    requires
        1 <= wc,
    ensures
        forall|p: int|
            start <= p && p <= end ==> 0 <= #[trigger] owner(start, wc, p) && owner(start, wc, p)
                < wc && in_stride(start, end, wc, owner(start, wc, p), p),
        forall|i: int, j: int, p: int|
            0 <= i && i < wc && 0 <= j && j < wc && #[trigger] in_stride(start, end, wc, i, p)
                && #[trigger] in_stride(start, end, wc, j, p) ==> i == j,
        forall|i: int, p: int|
            0 <= i && #[trigger] in_stride(start, end, wc, i, p) ==> start <= p && p <= end,
{
    assert forall|p: int| start <= p && p <= end implies 0 <= #[trigger] owner(start, wc, p)
        && owner(start, wc, p) < wc && in_stride(start, end, wc, owner(start, wc, p), p) by {
        lemma_stride_covers(start, end, wc, p);
    }
    assert forall|i: int, j: int, p: int|
        0 <= i && i < wc && 0 <= j && j < wc && #[trigger] in_stride(start, end, wc, i, p)
            && #[trigger] in_stride(start, end, wc, j, p) implies i == j by {
        lemma_stride_disjoint(start, end, wc, i, j, p);
    }
    assert forall|i: int, p: int|
        0 <= i && #[trigger] in_stride(start, end, wc, i, p) implies start <= p && p <= end by {
        lemma_stride_in_range(start, end, wc, i, p);
    }
}

} // verus!
