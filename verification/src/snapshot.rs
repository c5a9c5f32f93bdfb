//! One read of every sensor, as far as its figures are integers: the GPU
//! summary and the network reading. The percentages, degrees and rates that
//! the panel shows are derived from it.

use vstd::prelude::*;
use vstd::relations::sorted_by;
use crate::gpu::{hottest_temperature, summarize_gpus, utilization_samples, vram_totals, GpuSample, GpuSummary};
use crate::network::{chosen_interface, counter_names, counters_for, select_traffic, InterfaceCounters, TrafficReading};
use crate::text::{lemma_lex_total_ordering, lex_order};

verus! {

/// The integer figures of one refresh of every sensor.
pub struct Readings {
    /// What the detected GPUs reported, taken together.
    pub gpu: GpuSummary,
    /// The monitored interface, its byte counters and the listed interfaces.
    pub network: TrafficReading,
}

/// Takes the GPU samples and the interface counters of one refresh, with the
/// interface the user selected (if any), and summarizes both.
///
/// Whatever the inputs: without a GPU there is no GPU figure; VRAM use and
/// capacity are reported together or not at all; the listed interfaces are
/// sorted; and a selected interface is the one monitored.
pub fn take_readings(
    gpu_samples: &Vec<GpuSample>,
    counters: &Vec<InterfaceCounters>,
    selection: Option<String>,
) -> (r: Readings)
    ensures
        r.gpu.utilization_samples@ == utilization_samples(gpu_samples@),
        r.gpu.vram_used == (if vram_totals(gpu_samples@).2 { Some(vram_totals(gpu_samples@).0) } else { None }),
        r.gpu.vram_total == (if vram_totals(gpu_samples@).2 { Some(vram_totals(gpu_samples@).1) } else { None }),
        r.gpu.hottest == hottest_temperature(gpu_samples@),
        r.gpu.present == (gpu_samples@.len() > 0),
        r.network.available.deep_view() == counter_names(counters@).sort_by(lex_order()),
        r.network.interface.deep_view() == chosen_interface(r.network.available.deep_view(), selection.deep_view()),
        (r.network.received, r.network.transmitted) == match r.network.interface {
            Some(n) => counters_for(counters@, n@),
            None => (0u64, 0u64),
        },
        !r.gpu.present ==> r.gpu.utilization_samples@.len() == 0 && r.gpu.vram_used is None
            && r.gpu.vram_total is None && r.gpu.hottest is None,
        r.gpu.vram_used is Some <==> r.gpu.vram_total is Some,
        sorted_by(r.network.available.deep_view(), lex_order()),
        selection is Some ==> r.network.interface.deep_view() == selection.deep_view(),
{
    let gpu = summarize_gpus(gpu_samples);
    let network = select_traffic(counters, selection);
    Readings { gpu, network }
}

/// The invariants of every snapshot: without a GPU there is no utilization,
/// VRAM or temperature figure; VRAM use and capacity come together; the
/// listed interfaces are sorted; and a selected interface is the one
/// monitored, whether it is listed or not.
pub proof fn lemma_snapshot_invariants(
    gpu_samples: Seq<GpuSample>,
    names: Seq<Seq<char>>,
    selection: Option<Seq<char>>,
)
    ensures
        gpu_samples.len() == 0 ==> utilization_samples(gpu_samples).len() == 0
            && !vram_totals(gpu_samples).2 && hottest_temperature(gpu_samples) is None,
        sorted_by(names.sort_by(lex_order()), lex_order()),
        selection is Some ==> chosen_interface(names.sort_by(lex_order()), selection) == selection,
{
    lemma_lex_total_ordering();
    names.lemma_sort_by_ensures(lex_order());
}

} // verus!
