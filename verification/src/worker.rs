use vstd::prelude::*;

use crate::config::ScanConfig;
use crate::stride::in_stride;

verus! {

/// The ports reported by a probe history: the ports of the entries whose
/// outcome was an accepted connection, in probe order.
pub open spec fn reported_of(probed: Seq<(u16, bool)>) -> Seq<u16>
    decreases probed.len(),
{
    if probed.len() == 0 {
        Seq::empty()
    } else {
        let rest = reported_of(probed.drop_last());
        if probed.last().1 {
            rest.push(probed.last().0)
        } else {
            rest
        }
    }
}

/// Soundness of a probe history: a port is reported exactly when some probe of
/// it came back open.
pub proof fn lemma_reported_sound(probed: Seq<(u16, bool)>)
    ensures
        forall|p: u16| reported_of(probed).contains(p) <==> probed.contains((p, true)),
    decreases probed.len(),
{
    if probed.len() > 0 {
        let rest = reported_of(probed.drop_last());
        lemma_reported_sound(probed.drop_last());
        assert forall|p: u16| probed.contains((p, true)) implies reported_of(probed).contains(
            p,
        ) by {
            let k = probed.lemma_contains_to_index((p, true));
            if k < probed.len() - 1 {
                assert(probed.drop_last()[k] == (p, true));
                assert(probed.drop_last().contains((p, true)));
                assert(rest.contains(p));
                let j = rest.lemma_contains_to_index(p);
                assert(reported_of(probed)[j] == p);
                assert(reported_of(probed).contains(p));
            } else {
                assert(probed.last() == (p, true));
                assert(reported_of(probed).last() == p);
                assert(reported_of(probed).contains(p));
            }
        }
        assert forall|p: u16| reported_of(probed).contains(p) implies probed.contains(
            (p, true),
        ) by {
            let j = reported_of(probed).lemma_contains_to_index(p);
            if probed.last().1 && j == rest.len() {
                assert(reported_of(probed)[j] == probed.last().0);
                assert(probed[probed.len() - 1] == (p, true));
                assert(probed.contains((p, true)));
            } else {
                assert(rest[j] == p);
                assert(rest.contains(p));
                let k = probed.drop_last().lemma_contains_to_index((p, true));
                assert(probed[k] == (p, true));
                assert(probed.contains((p, true)));
            }
        }
    }
}

/// Reports keep the probe order: when the probed ports ascend strictly, so do
/// the reported ones.
pub proof fn lemma_reported_strict(probed: Seq<(u16, bool)>)
    requires
        forall|k1: int, k2: int|
            0 <= k1 < k2 < probed.len() ==> (#[trigger] probed[k1]).0 < (#[trigger] probed[k2]).0,
    ensures
        forall|j1: int, j2: int|
            0 <= j1 < j2 < reported_of(probed).len() ==> reported_of(probed)[j1] < reported_of(
                probed,
            )[j2],
    decreases probed.len(),
{
    if probed.len() > 0 {
        let dl = probed.drop_last();
        lemma_reported_strict(dl);
        let rest = reported_of(dl);
        if probed.last().1 {
            lemma_reported_sound(dl);
            assert forall|j: int| 0 <= j < rest.len() implies rest[j] < probed.last().0 by {
                assert(rest.contains(rest[j]));
                assert(dl.contains((rest[j], true)));
                let k = dl.lemma_contains_to_index((rest[j], true));
                assert(probed[k] == (rest[j], true));
                assert(probed[k].0 < probed[probed.len() - 1].0);
            }
        }
    }
}

/// The probe state machine of one worker. The worker walks its stride of the
/// port range; the surrounding binary performs one connection attempt per
/// candidate port and feeds the outcome back through `record`.
pub struct Worker {
    pub start_port: u16,
    pub end_port: u16,
    pub worker_count: u16,
    pub stride_index: u16,
    pub candidate: u32,
    pub found: Vec<u16>,
    pub probed: Ghost<Seq<(u16, bool)>>,
}

impl Worker {
    /// First port of this worker's stride.
    pub open spec fn base(self) -> int {
        self.start_port + self.stride_index
    }

    /// Well-formedness: the candidate sits `probed.len()` strides above the
    /// base, every past probe hit exactly the stride ports in order, and
    /// `found` holds exactly the reported ports.
    pub open spec fn inv(self) -> bool {
        &&& 1 <= self.start_port <= self.end_port
        &&& self.worker_count >= 1
        &&& self.stride_index < self.worker_count
        &&& self.candidate == self.base() + self.probed@.len() * self.worker_count
        &&& forall|k: int|
            0 <= k < self.probed@.len() ==> (#[trigger] self.probed@[k]).0 == self.base() + k
                * self.worker_count && self.probed@[k].0 <= self.end_port
        &&& self.found@ == reported_of(self.probed@)
    }

    /// The worker is done when its candidate has passed the end of the range.
    pub open spec fn done(self) -> bool {
        self.candidate > self.end_port
    }

    /// A fresh worker for stride index `stride_index` of `config`: no probes
    /// yet, first candidate `start_port + stride_index`.
    pub fn new(config: &ScanConfig, stride_index: u16) -> (w: Worker)
        requires
            config.valid(),
            stride_index < config.worker_count,
        ensures
            w.inv(),
            w.start_port == config.start_port,
            w.end_port == config.end_port,
            w.worker_count == config.worker_count,
            w.stride_index == stride_index,
            w.candidate == config.start_port + stride_index,
            w.probed@ == Seq::<(u16, bool)>::empty(),
            w.found@ == Seq::<u16>::empty(),
    {
        Worker {
            start_port: config.start_port,
            end_port: config.end_port,
            worker_count: config.worker_count,
            stride_index,
            candidate: config.start_port as u32 + stride_index as u32,
            found: Vec::new(),
            probed: Ghost(Seq::empty()),
        }
    }

    /// The port to probe next, or `None` once the stride is exhausted.
    pub fn current(&self) -> (r: Option<u16>)
        ensures
            match r {
                Some(p) => !self.done() && p == self.candidate,
                None => self.done(),
            },
    {
        if self.candidate <= self.end_port as u32 {
            Some(self.candidate as u16)
        } else {
            None
        }
    }

    /// Record the outcome of the probe of the current candidate port and
    /// advance by one stride. Returns the report to emit: the probed port when
    /// the connection was accepted, nothing otherwise.
    pub fn record(&mut self, open: bool) -> (r: Option<u16>)
        requires
            old(self).inv(),
            !old(self).done(),
        ensures
            final(self).inv(),
            final(self).start_port == old(self).start_port,
            final(self).end_port == old(self).end_port,
            final(self).worker_count == old(self).worker_count,
            final(self).stride_index == old(self).stride_index,
            final(self).candidate == old(self).candidate + old(self).worker_count,
            final(self).probed@ == old(self).probed@.push((old(self).candidate as u16, open)),
            final(self).found@ == if open {
                old(self).found@.push(old(self).candidate as u16)
            } else {
                old(self).found@
            },
            r == if open {
                Some(old(self).candidate as u16)
            } else {
                None::<u16>
            },
    {
        let p = self.candidate as u16;
        if open {
            self.found.push(p);
        }
        self.candidate = self.candidate + self.worker_count as u32;
        proof {
            self.probed@ = self.probed@.push((p, open));
            assert(self.probed@.drop_last() =~= old(self).probed@);
            let n = old(self).probed@.len() as int;
            let wc = old(self).worker_count as int;
            assert((n + 1) * wc == n * wc + wc) by (nonlinear_arith);
        }
        if open {
            Some(p)
        } else {
            None
        }
    }

    /// Stride correctness: a finished worker has probed exactly its assigned
    /// stride of the port range, each port once, in ascending order.
    pub proof fn lemma_done_probed_assignment(self)
        requires
            self.inv(),
            self.done(),
        ensures
            forall|p: int|
                in_stride(
                    self.start_port as int,
                    self.end_port as int,
                    self.worker_count as int,
                    self.stride_index as int,
                    p,
                ) <==> (exists|k: int|
                    0 <= k < self.probed@.len() && (#[trigger] self.probed@[k]).0 == p),
            forall|k1: int, k2: int|
                0 <= k1 < k2 < self.probed@.len() ==> (#[trigger] self.probed@[k1]).0 < (
                #[trigger] self.probed@[k2]).0,
    {
        let start = self.start_port as int;
        let end = self.end_port as int;
        let wc = self.worker_count as int;
        let i = self.stride_index as int;
        let n = self.probed@.len() as int;
        assert forall|p: int| in_stride(start, end, wc, i, p) implies (exists|k: int|
            0 <= k < self.probed@.len() && (#[trigger] self.probed@[k]).0 == p) by {
            let k = choose|k: int| 0 <= k && p == start + i + #[trigger] (k * wc) && p <= end;
            assert(k < n) by (nonlinear_arith)
                requires
                    start + i + n * wc > end,
                    p == start + i + k * wc,
                    p <= end,
                    wc >= 1,
                    k >= 0,
            ;
            assert(self.probed@[k].0 == p);
        }
        assert forall|p: int| (exists|k: int|
            0 <= k < self.probed@.len() && (#[trigger] self.probed@[k]).0 == p) implies in_stride(
            start,
            end,
            wc,
            i,
            p,
        ) by {
            let k = choose|k: int| 0 <= k < self.probed@.len() && (#[trigger] self.probed@[k]).0
                == p;
            assert(p == start + i + k * wc && p <= end);
            assert(0 <= k && p == start + i + #[trigger] (k * wc) && p <= end);
        }
        assert forall|k1: int, k2: int| 0 <= k1 < k2 < self.probed@.len() implies (
        #[trigger] self.probed@[k1]).0 < (#[trigger] self.probed@[k2]).0 by {
            assert(k1 * wc < k2 * wc) by (nonlinear_arith)
                requires
                    k1 < k2,
                    wc >= 1,
            ;
        }
    }
}

} // verus!
