use vstd::prelude::*;

use vstd::seq_lib::lemma_multiset_commutative;
use vstd::seq_lib::to_multiset_build;

verus! {

/// Ascending order, duplicates allowed.
pub open spec fn sorted_asc(s: Seq<u16>) -> bool {
    forall|i: int, j: int| 0 <= i < j < s.len() ==> s[i] <= s[j]
}

/// Strictly ascending order: ascending and free of duplicates.
pub open spec fn strictly_asc(s: Seq<u16>) -> bool {
    forall|i: int, j: int| 0 <= i < j < s.len() ==> s[i] < s[j]
}

/// Insert `x` into the ascending vector `v`, keeping it ascending.
fn insert_sorted(v: &mut Vec<u16>, x: u16)
    requires
        sorted_asc(old(v)@),
    ensures
        sorted_asc(final(v)@),
        final(v)@.to_multiset() == old(v)@.to_multiset().insert(x),
        final(v)@.len() == old(v)@.len() + 1,
{
    let mut i: usize = 0;
    while i < v.len() && v[i] <= x
        invariant
            i <= v@.len(),
            forall|k: int| 0 <= k < i ==> v@[k] <= x,
        decreases v@.len() - i,
    {
        i += 1;
    }
    let ghost front = v@.subrange(0, i as int);
    let ghost back = v@.subrange(i as int, v@.len() as int);
    v.insert(i, x);
    proof {
        old(v)@.insert_ensures(i as int, x);
        assert(old(v)@ =~= front + back);
        assert(v@ =~= front.push(x) + back);
        lemma_multiset_commutative(front, back);
        lemma_multiset_commutative(front.push(x), back);
        to_multiset_build(front, x);
        broadcast use vstd::multiset::group_multiset_axioms;

        assert(v@.to_multiset() =~= old(v)@.to_multiset().insert(x));
        assert forall|a: int, b: int| 0 <= a < b < v@.len() implies v@[a] <= v@[b] by {
            if a < i && b > i {
                assert(v@[a] == old(v)@[a] && v@[b] == old(v)@[b - 1]);
            }
        }
    }
}

/// Collector: sort the received open-port reports ascending. The result is a
/// rearrangement of the received reports — it holds exactly the received
/// ports, neither more nor fewer.
pub fn collect(received: &Vec<u16>) -> (r: Vec<u16>)
    ensures
        sorted_asc(r@),
        r@.to_multiset() == received@.to_multiset(),
        r@.len() == received@.len(),
{
    let mut out: Vec<u16> = Vec::new();
    let mut idx: usize = 0;
    proof {
        assert(out@ =~= received@.subrange(0, 0));
    }
    while idx < received.len()
        invariant
            idx <= received@.len(),
            sorted_asc(out@),
            out@.to_multiset() == received@.subrange(0, idx as int).to_multiset(),
            out@.len() == idx,
        decreases received@.len() - idx,
    {
        let ghost prefix = received@.subrange(0, idx as int);
        insert_sorted(&mut out, received[idx]);
        proof {
            assert(received@.subrange(0, idx + 1) =~= prefix.push(received@[idx as int]));
            to_multiset_build(prefix, received@[idx as int]);
        }
        idx += 1;
    }
    proof {
        assert(received@.subrange(0, received@.len() as int) =~= received@);
    }
    out
}

/// Two sequences with the same multiset hold the same values: sorting neither
/// invents nor drops a port.
pub proof fn lemma_same_multiset_same_members(a: Seq<u16>, b: Seq<u16>)
    requires
        a.to_multiset() == b.to_multiset(),
    ensures
        forall|p: u16| a.contains(p) <==> b.contains(p),
{
    broadcast use vstd::seq_lib::group_to_multiset_ensures;

    assert forall|p: u16| a.contains(p) <==> b.contains(p) by {
        assert(a.contains(p) <==> a.to_multiset().count(p) > 0);
        assert(b.contains(p) <==> b.to_multiset().count(p) > 0);
    }
}

/// Output ordering: when the received reports are pairwise distinct — which
/// the partition of the port range across workers guarantees — the sorted
/// result is strictly ascending.
pub proof fn lemma_collect_strict(received: Seq<u16>, result: Seq<u16>)
    requires
        received.no_duplicates(),
        sorted_asc(result),
        result.to_multiset() == received.to_multiset(),
    ensures
        strictly_asc(result),
        result.no_duplicates(),
{
    received.lemma_multiset_has_no_duplicates();
    result.lemma_multiset_has_no_duplicates_conv();
}

/// A value of a flattened sequence of sequences comes from one of the pieces.
pub proof fn lemma_flatten_member(ss: Seq<Seq<u16>>, p: u16)
    requires
        ss.flatten().contains(p),
    ensures
        exists|i: int| 0 <= i < ss.len() && (#[trigger] ss[i]).contains(p),
    decreases ss.len(),
{
    assert(ss.len() > 0);
    assert(ss.flatten() == ss.first() + ss.drop_first().flatten());
    let j = ss.flatten().lemma_contains_to_index(p);
    if j < ss.first().len() {
        assert(ss.first()[j] == p);
        assert(ss[0].contains(p));
    } else {
        assert(ss.drop_first().flatten()[j - ss.first().len()] == p);
        assert(ss.drop_first().flatten().contains(p));
        lemma_flatten_member(ss.drop_first(), p);
        let i = choose|i: int| 0 <= i < ss.drop_first().len() && (#[trigger] ss.drop_first()[i]).contains(p);
        assert(ss[i + 1].contains(p));
    }
}

/// Conversely, a value of any piece reaches the flattening.
pub proof fn lemma_member_flatten(ss: Seq<Seq<u16>>, i: int, p: u16)
    requires
        0 <= i < ss.len(),
        ss[i].contains(p),
    ensures
        ss.flatten().contains(p),
    decreases ss.len(),
{
    assert(ss.flatten() == ss.first() + ss.drop_first().flatten());
    if i == 0 {
        let j = ss.first().lemma_contains_to_index(p);
        assert(ss.flatten()[j] == p);
        assert(ss.flatten().contains(p));
    } else {
        assert(ss.drop_first()[i - 1] == ss[i]);
        lemma_member_flatten(ss.drop_first(), i - 1, p);
        let j = ss.drop_first().flatten().lemma_contains_to_index(p);
        assert(ss.flatten()[ss.first().len() + j] == p);
        assert(ss.flatten().contains(p));
    }
}

/// Concatenation keeps freedom from duplicates when the parts share no value.
pub proof fn lemma_concat_no_duplicates(a: Seq<u16>, b: Seq<u16>)
    requires
        a.no_duplicates(),
        b.no_duplicates(),
        forall|p: u16| a.contains(p) ==> !b.contains(p),
    ensures
        (a + b).no_duplicates(),
{
    assert forall|i: int, j: int|
        0 <= i < (a + b).len() && 0 <= j < (a + b).len() && i != j implies (a + b)[i] != (a
        + b)[j] by {
        if i < a.len() && j >= a.len() {
            assert((a + b)[i] == a[i] && (a + b)[j] == b[j - a.len()]);
            assert(a.contains(a[i]) && b.contains(b[j - a.len()]));
        }
        if j < a.len() && i >= a.len() {
            assert((a + b)[j] == a[j] && (a + b)[i] == b[i - a.len()]);
            assert(a.contains(a[j]) && b.contains(b[i - a.len()]));
        }
    }
}

/// The flattening of piecewise duplicate-free, pairwise disjoint sequences is
/// duplicate-free — as the reports of workers with disjoint strides are.
pub proof fn lemma_flatten_no_duplicates(ss: Seq<Seq<u16>>)
    requires
        forall|i: int| 0 <= i < ss.len() ==> (#[trigger] ss[i]).no_duplicates(),
        forall|i: int, j: int, p: u16|
            #![trigger ss[i].contains(p), ss[j].contains(p)]
            0 <= i < ss.len() && 0 <= j < ss.len() && i != j && ss[i].contains(p) ==> !ss[j].contains(
                p,
            ),
    ensures
        ss.flatten().no_duplicates(),
    decreases ss.len(),
{
    if ss.len() == 0 {
        assert(ss.flatten() =~= Seq::<u16>::empty());
    } else {
        let tail = ss.drop_first();
        assert forall|i: int| 0 <= i < tail.len() implies (#[trigger] tail[i]).no_duplicates() by {
            assert(tail[i] == ss[i + 1]);
        }
        assert forall|i: int, j: int, p: u16|
            #![trigger tail[i].contains(p), tail[j].contains(p)]
            0 <= i < tail.len() && 0 <= j < tail.len() && i != j && tail[i].contains(
                p,
            ) implies !tail[j].contains(p) by {
            assert(tail[i] == ss[i + 1] && tail[j] == ss[j + 1]);
        }
        lemma_flatten_no_duplicates(tail);
        assert forall|p: u16| ss.first().contains(p) implies !tail.flatten().contains(p) by {
            if tail.flatten().contains(p) {
                lemma_flatten_member(tail, p);
                let i = choose|i: int| 0 <= i < tail.len() && (#[trigger] tail[i]).contains(p);
                assert(ss[i + 1].contains(p));
                assert(ss[0].contains(p));
            }
        }
        lemma_concat_no_duplicates(ss.first(), tail.flatten());
        assert(ss.flatten() == ss.first() + tail.flatten());
    }
}

/// A sequence with the multiset of a duplicate-free sequence is itself
/// duplicate-free.
pub proof fn lemma_same_multiset_no_duplicates(a: Seq<u16>, b: Seq<u16>)
    requires
        a.no_duplicates(),
        b.to_multiset() == a.to_multiset(),
    ensures
        b.no_duplicates(),
{
    a.lemma_multiset_has_no_duplicates();
    b.lemma_multiset_has_no_duplicates_conv();
}

} // verus!
