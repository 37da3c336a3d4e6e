use vstd::prelude::*;

use crate::config::ScanConfig;
use crate::worker::Worker;

verus! {

/// Dispatcher: one fresh worker per stride index `0 .. worker_count`, each
/// sharing the immutable configuration. The surrounding binary gives each
/// worker its own thread and the producing end of the report channel.
pub fn make_workers(config: &ScanConfig) -> (ws: Vec<Worker>)
    requires
        config.valid(),
    ensures
        ws@.len() == config.worker_count,
        forall|i: int|
            0 <= i < ws@.len() ==> {
                let w = #[trigger] ws@[i];
                w.inv() && w.start_port == config.start_port && w.end_port == config.end_port
                    && w.worker_count == config.worker_count && w.stride_index == i && w.probed@
                    =~= Seq::<(u16, bool)>::empty() && w.found@ =~= Seq::<u16>::empty()
            },
{
    let mut ws: Vec<Worker> = Vec::new();
    let mut i: u16 = 0;
    while i < config.worker_count
        invariant
            config.valid(),
            i <= config.worker_count,
            ws@.len() == i,
            forall|j: int|
                0 <= j < ws@.len() ==> {
                    let w = #[trigger] ws@[j];
                    w.inv() && w.start_port == config.start_port && w.end_port == config.end_port
                        && w.worker_count == config.worker_count && w.stride_index == j && w.probed@
                        =~= Seq::<(u16, bool)>::empty() && w.found@ =~= Seq::<u16>::empty()
                },
        decreases config.worker_count - i,
    {
        let w = Worker::new(config, i);
        ws.push(w);
        i = i + 1;
    }
    ws
}

} // verus!
