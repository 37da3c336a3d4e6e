use vstd::prelude::*;

use crate::collector::lemma_collect_strict;
use crate::collector::lemma_flatten_member;
use crate::collector::lemma_flatten_no_duplicates;
use crate::collector::lemma_member_flatten;
use crate::collector::lemma_same_multiset_no_duplicates;
use crate::collector::lemma_same_multiset_same_members;
use crate::collector::sorted_asc;
use crate::collector::strictly_asc;
use crate::config::ScanConfig;
use crate::stride::in_stride;
use crate::stride::lemma_stride_covers;
use crate::stride::lemma_stride_disjoint;
use crate::stride::lemma_stride_in_range;
use crate::stride::owner;
use crate::worker::lemma_reported_sound;
use crate::worker::lemma_reported_strict;
use crate::worker::Worker;

verus! {

/// The reports of a set of workers, one sequence per worker.
pub open spec fn reports_of(ws: Seq<Worker>) -> Seq<Seq<u16>> {
    ws.map_values(|w: Worker| w.found@)
}

/// Whether `ws` is the finished worker set of `config`: one well-formed
/// worker per stride index, each with its stride exhausted.
pub open spec fn finished_workers(config: ScanConfig, ws: Seq<Worker>) -> bool {
    &&& ws.len() == config.worker_count
    &&& forall|i: int|
        0 <= i < ws.len() ==> {
            let w = #[trigger] ws[i];
            w.inv() && w.done() && w.start_port == config.start_port && w.end_port
                == config.end_port && w.worker_count == config.worker_count && w.stride_index == i
        }
}

/// The final report of a completed scan, end to end. Once every worker has
/// walked its stride, take the workers' reports fanned in, in whatever
/// interleaving the channel produced, and any ascending rearrangement of
/// them: that report is strictly ascending with no duplicates, holds only
/// ports of the scanned range, and holds exactly the ports that some worker
/// probed open — no false positives, none dropped.
pub proof fn lemma_scan_report(
    config: ScanConfig,
    ws: Seq<Worker>,
    received: Seq<u16>,
    result: Seq<u16>,
)
    requires
        config.valid(),
        finished_workers(config, ws),
        received.to_multiset() == reports_of(ws).flatten().to_multiset(),
        sorted_asc(result),
        result.to_multiset() == received.to_multiset(),
    ensures
        strictly_asc(result),
        result.no_duplicates(),
        forall|p: u16|
            result.contains(p) <==> exists|i: int|
                0 <= i < ws.len() && (#[trigger] ws[i]).probed@.contains((p, true)),
        forall|p: u16| result.contains(p) ==> config.start_port <= p <= config.end_port,
{
    let start = config.start_port as int;
    let end = config.end_port as int;
    let wc = config.worker_count as int;
    let founds = reports_of(ws);

    // each worker's own reports are strictly ascending, hence duplicate-free
    assert forall|i: int| 0 <= i < founds.len() implies (#[trigger] founds[i]).no_duplicates() by {
        let w = ws[i];
        assert(founds[i] == w.found@);
        w.lemma_done_probed_assignment();
        lemma_reported_strict(w.probed@);
        assert forall|k1: int, k2: int|
            0 <= k1 < w.found@.len() && 0 <= k2 < w.found@.len() && k1 != k2 implies w.found@[k1]
            != w.found@[k2] by {}
    }

    // a worker reports only ports of its own stride
    assert forall|i: int, p: u16|
        0 <= i < founds.len() && #[trigger] founds[i].contains(p) implies in_stride(
        start,
        end,
        wc,
        i,
        p as int,
    ) by {
        let w = ws[i];
        assert(founds[i] == w.found@);
        lemma_reported_sound(w.probed@);
        assert(w.probed@.contains((p, true)));
        let k = w.probed@.lemma_contains_to_index((p, true));
        w.lemma_done_probed_assignment();
        assert((w.probed@[k]).0 == p);
    }

    // strides are disjoint, so no port is reported by two workers
    assert forall|i: int, j: int, p: u16|
        #![trigger founds[i].contains(p), founds[j].contains(p)]
        0 <= i < founds.len() && 0 <= j < founds.len() && i != j && founds[i].contains(
            p,
        ) implies !founds[j].contains(p) by {
        if founds[j].contains(p) {
            lemma_stride_disjoint(start, end, wc, i, j, p as int);
        }
    }

    lemma_flatten_no_duplicates(founds);
    lemma_same_multiset_no_duplicates(founds.flatten(), received);
    lemma_collect_strict(received, result);

    lemma_same_multiset_same_members(result, received);
    lemma_same_multiset_same_members(received, founds.flatten());

    assert forall|p: u16| result.contains(p) implies (exists|i: int|
        0 <= i < ws.len() && (#[trigger] ws[i]).probed@.contains((p, true))) && start <= p as int
        <= end by {
        assert(founds.flatten().contains(p));
        lemma_flatten_member(founds, p);
        let i = choose|i: int| 0 <= i < founds.len() && (#[trigger] founds[i]).contains(p);
        lemma_reported_sound(ws[i].probed@);
        assert(ws[i].probed@.contains((p, true)));
        lemma_stride_in_range(start, end, wc, i, p as int);
    }

    assert forall|p: u16|
        (exists|i: int|
            0 <= i < ws.len() && (#[trigger] ws[i]).probed@.contains(
                (p, true),
            )) implies result.contains(p) by {
        let i = choose|i: int| 0 <= i < ws.len() && (#[trigger] ws[i]).probed@.contains((p, true));
        lemma_reported_sound(ws[i].probed@);
        assert(founds[i] == ws[i].found@);
        assert(founds[i].contains(p));
        lemma_member_flatten(founds, i, p);
    }
}

/// The externally observable output is deterministic. Against a fixed set of
/// open ports, the final report of a completed scan holds exactly the open
/// ports of the scanned range — whatever the worker count, however the
/// strides fell, and in whatever order the reports arrived.
pub proof fn lemma_scan_deterministic(
    config: ScanConfig,
    ws: Seq<Worker>,
    received: Seq<u16>,
    result: Seq<u16>,
    open: Set<u16>,
)
    requires
        config.valid(),
        finished_workers(config, ws),
        received.to_multiset() == reports_of(ws).flatten().to_multiset(),
        sorted_asc(result),
        result.to_multiset() == received.to_multiset(),
        forall|i: int, k: int|
            #![trigger ws[i].probed@[k]]
            0 <= i < ws.len() && 0 <= k < ws[i].probed@.len() ==> ((ws[i].probed@[k]).1
                <==> open.contains((ws[i].probed@[k]).0)),
    ensures
        forall|p: u16|
            result.contains(p) <==> (open.contains(p) && config.start_port <= p && p
                <= config.end_port),
{
    lemma_scan_report(config, ws, received, result);
    let start = config.start_port as int;
    let end = config.end_port as int;
    let wc = config.worker_count as int;
    assert forall|p: u16| result.contains(p) implies open.contains(p) by {
        let i = choose|i: int| 0 <= i < ws.len() && (#[trigger] ws[i]).probed@.contains((p, true));
        let k = ws[i].probed@.lemma_contains_to_index((p, true));
    }
    assert forall|p: u16| open.contains(p) && start <= p <= end implies result.contains(p) by {
        lemma_stride_covers(start, end, wc, p as int);
        let i = owner(start, wc, p as int);
        let w = ws[i];
        w.lemma_done_probed_assignment();
        assert(in_stride(start, end, wc, i, p as int));
        let k = choose|k: int| 0 <= k < w.probed@.len() && (#[trigger] w.probed@[k]).0 == p;
        assert((w.probed@[k]).1 <==> open.contains(p));
        assert(w.probed@[k] == (p, true));
        assert(w.probed@.contains((p, true)));
    }
}

} // verus!
