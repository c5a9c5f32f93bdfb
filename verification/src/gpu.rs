//! GPU discovery decisions and the aggregation of per-GPU readings into the
//! single panel line.

use vstd::prelude::*;
use std::path::PathBuf;
use crate::text::{
    chars_contain, chars_eq, chars_have_prefix, chars_of, decimal, find_field, has_prefix, line_field,
    lines_of, parse_unsigned, parse_unsigned_chars, push_decimal, push_str, string_from_chars, trim,
    trim_chars,
};

verus! {

#[verifier::external_type_specification]
#[verifier::external_body]
pub struct ExPathBuf(PathBuf);

/// How a detected GPU is read.
pub enum GpuBackend {
    /// Through NVML, by device index.
    Nvidia { index: u32 },
    /// Through the `amdgpu` sysfs interface of this device directory.
    Amd { device_dir: PathBuf },
    /// Through the hwmon sysfs interface of this device directory.
    Intel { device_dir: PathBuf },
}

/// One detected GPU.
pub struct Gpu {
    /// Human-readable name; currently informational only.
    pub name: String,
    /// How it is read.
    pub backend: GpuBackend,
}

/// Every detected GPU, reported as a single panel line.
pub struct Gpus {
    gpus: Vec<Gpu>,
}

/// The vendor of a DRM card that is monitored through sysfs.
#[derive(Clone, Copy, PartialEq, Eq, Structural, Debug)]
pub enum DrmVendor {
    Amd,
    Intel,
}

impl View for Gpus {
    type V = Seq<Gpu>;

    closed spec fn view(&self) -> Seq<Gpu> {
        self.gpus@
    }
}

/// The name given to an NVIDIA GPU: the name NVML reports, or a numbered
/// placeholder.
pub open spec fn nvidia_name(reported: Option<Seq<char>>, index: u32) -> Seq<char> {
    match reported {
        Some(n) => n,
        None => "NVIDIA GPU "@ + decimal(index as nat),
    }
}

/// A name read from sysfs, trimmed; an empty name counts as no name.
pub open spec fn clean_name_spec(raw: Seq<char>) -> Option<Seq<char>> {
    if trim(raw).len() == 0 { None } else { Some(trim(raw)) }
}

/// The name given to a DRM card: its cleaned sysfs name, or the vendor's
/// placeholder.
pub open spec fn drm_name(vendor: DrmVendor, raw: Option<Seq<char>>) -> Seq<char> {
    let cleaned = match raw {
        Some(r) => clean_name_spec(r),
        None => None,
    };
    match cleaned {
        Some(n) => n,
        None => match vendor {
            DrmVendor::Amd => "AMD GPU"@,
            DrmVendor::Intel => "Intel GPU"@,
        },
    }
}

/// A `/sys/class/drm` entry that is a card itself (`card0`), not one of its
/// connectors (`card0-DP-1`) or a render node.
pub open spec fn is_card_entry_spec(name: Seq<char>) -> bool {
    has_prefix(name, "card"@) && !name.contains('-')
}

/// The value of `key` in a uevent file: what follows it on the first line
/// that starts with it, or the empty text.
pub open spec fn uevent_entry(text: Seq<char>, key: Seq<char>) -> Seq<char> {
    match find_field(lines_of(text), key) {
        Some(v) => v,
        None => Seq::empty(),
    }
}

/// Whether a DRM card with this uevent file is monitored through sysfs, and
/// as which vendor. An `amdgpu` card that NVML already reports (same PCI bus
/// id) is skipped; `nvml_bus_ids` is `None` when NVML is unavailable.
pub open spec fn drm_vendor_spec(uevent: Seq<char>, nvml_bus_ids: Option<Seq<Seq<char>>>) -> Option<DrmVendor> {
    let driver = uevent_entry(uevent, "DRIVER="@);
    let slot = uevent_entry(uevent, "PCI_SLOT_NAME="@);
    if driver == "amdgpu"@ {
        if nvml_bus_ids matches Some(ids) && slot.len() > 0 && ids.contains(slot) {
            None
        } else {
            Some(DrmVendor::Amd)
        }
    } else if driver == "i915"@ || driver == "xe"@ {
        Some(DrmVendor::Intel)
    } else {
        None
    }
}

/// Whether a `/sys/class/drm` entry is a card.
pub fn is_card_entry(name: &str) -> (b: bool)
    ensures
        b == is_card_entry_spec(name@),
{
    let cs = chars_of(name);
    let card = chars_of("card");
    chars_have_prefix(&cs, &card) && !chars_contain(&cs, '-')
}

fn uevent_value(text: &Vec<char>, key: &str) -> (r: Vec<char>)
    ensures
        r@ == uevent_entry(text@, key@),
{
    let k = chars_of(key);
    match line_field(text, &k) {
        Some(v) => v,
        None => Vec::new(),
    }
}

fn bus_id_listed(ids: &Vec<String>, slot: &Vec<char>) -> (r: bool)
    ensures
        r == ids.deep_view().contains(slot@),
{
    let mut i: usize = 0;
    while i < ids.len()
        invariant
            i <= ids.len(),
            forall|j: int| 0 <= j < i ==> ids.deep_view()[j] != slot@,
        decreases ids.len() - i,
    {
        let c = chars_of(ids[i].as_str());
        assert(ids.deep_view()[i as int] == ids@[i as int]@);
        if chars_eq(&c, slot) {
            return true;
        }
        i = i + 1;
    }
    false
}

/// Decides whether a DRM card is monitored, and as which vendor, from its
/// uevent file and the PCI bus ids NVML reports (`None` without NVML).
pub fn drm_card_vendor(uevent: &str, nvml_bus_ids: &Option<Vec<String>>) -> (r: Option<DrmVendor>)
    ensures
        r == drm_vendor_spec(uevent@, nvml_bus_ids.deep_view()),
{
    let text = chars_of(uevent);
    let driver = uevent_value(&text, "DRIVER=");
    let slot = uevent_value(&text, "PCI_SLOT_NAME=");
    if chars_eq(&driver, &chars_of("amdgpu")) {
        let known = match nvml_bus_ids {
            Some(ids) => slot.len() > 0 && bus_id_listed(ids, &slot),
            None => false,
        };
        if known { None } else { Some(DrmVendor::Amd) }
    } else if chars_eq(&driver, &chars_of("i915")) || chars_eq(&driver, &chars_of("xe")) {
        Some(DrmVendor::Intel)
    } else {
        None
    }
}

/// Trims a name read from sysfs; an empty name counts as no name.
pub fn clean_name(raw: &str) -> (r: Option<String>)
    ensures
        r.deep_view() == clean_name_spec(raw@),
{
    let t = trim_chars(&chars_of(raw));
    if t.len() == 0 {
        None
    } else {
        Some(string_from_chars(t))
    }
}

/// Parses the content of a numeric sysfs file: trimmed, then as `u64`.
pub fn parse_sysfs_u64(text: &str) -> (r: Option<u64>)
    ensures
        r matches Some(v) ==> parse_unsigned(trim(text@), u64::MAX as nat) == Some(v as nat),
        r is None ==> parse_unsigned(trim(text@), u64::MAX as nat) is None,
{
    let t = trim_chars(&chars_of(text));
    parse_unsigned_chars(&t, u64::MAX)
}


/// A temperature as a GPU backend reports it.
#[derive(Clone, Copy, PartialEq, Eq, Structural, Debug)]
pub enum Temperature {
    /// Whole degrees Celsius (NVML).
    Celsius(u32),
    /// Thousandths of a degree Celsius (hwmon).
    MilliCelsius(u32),
}

/// A temperature in thousandths of a degree Celsius.
pub open spec fn millidegrees(t: Temperature) -> nat {
    match t {
        Temperature::Celsius(c) => c as nat * 1000,
        Temperature::MilliCelsius(m) => m as nat,
    }
}

/// What one refresh read from one GPU.
pub struct GpuSample {
    /// Utilization in percent, when the backend reported it.
    pub utilization: Option<u64>,
    /// VRAM in use, in bytes, when reported.
    pub vram_used: Option<u64>,
    /// VRAM capacity, in bytes, when reported.
    pub vram_total: Option<u64>,
    /// Temperature, when reported.
    pub temperature: Option<Temperature>,
}

/// Every GPU's readings combined into one panel line.
pub struct GpuSummary {
    /// Every reported utilization, in GPU order (the panel shows their mean).
    pub utilization_samples: Vec<u64>,
    /// VRAM in use across the GPUs that reported both figures.
    pub vram_used: Option<u64>,
    /// VRAM capacity across the GPUs that reported both figures.
    pub vram_total: Option<u64>,
    /// The hottest reported temperature.
    pub hottest: Option<Temperature>,
    /// Whether any GPU was detected at all.
    pub present: bool,
}

/// `a + b`, saturating at `u64::MAX`.
pub open spec fn saturating_sum(a: u64, b: u64) -> u64 {
    if a + b > u64::MAX { u64::MAX } else { (a + b) as u64 }
}

/// The reported utilizations, in order.
pub open spec fn utilization_samples(s: Seq<GpuSample>) -> Seq<u64>
    decreases s.len(),
{
    if s.len() == 0 {
        Seq::empty()
    } else {
        let rest = utilization_samples(s.drop_last());
        match s.last().utilization {
            Some(u) => rest.push(u),
            None => rest,
        }
    }
}

/// VRAM used and total (each summed with saturation) over the GPUs that
/// reported both, and whether any did.
pub open spec fn vram_totals(s: Seq<GpuSample>) -> (u64, u64, bool)
    decreases s.len(),
{
    if s.len() == 0 {
        (0, 0, false)
    } else {
        let (used, total, reported) = vram_totals(s.drop_last());
        match (s.last().vram_used, s.last().vram_total) {
            (Some(u), Some(t)) => (saturating_sum(used, u), saturating_sum(total, t), true),
            _ => (used, total, reported),
        }
    }
}

/// The hottest reported temperature; among equally hot ones, the last.
pub open spec fn hottest_temperature(s: Seq<GpuSample>) -> Option<Temperature>
    decreases s.len(),
{
    if s.len() == 0 {
        None
    } else {
        let rest = hottest_temperature(s.drop_last());
        match s.last().temperature {
            Some(t) => match rest {
                Some(h) => if millidegrees(t) >= millidegrees(h) { Some(t) } else { Some(h) },
                None => Some(t),
            },
            None => rest,
        }
    }
}

/// Combines one sample per detected GPU into the panel's GPU figures.
pub fn summarize_gpus(samples: &Vec<GpuSample>) -> (r: GpuSummary)
    ensures
        r.utilization_samples@ == utilization_samples(samples@),
        r.vram_used == (if vram_totals(samples@).2 { Some(vram_totals(samples@).0) } else { None }),
        r.vram_total == (if vram_totals(samples@).2 { Some(vram_totals(samples@).1) } else { None }),
        r.hottest == hottest_temperature(samples@),
        r.present == (samples@.len() > 0),
        r.vram_used is Some <==> r.vram_total is Some,
        !r.present ==> r.utilization_samples@.len() == 0 && r.vram_used is None && r.hottest is None,
{
    let mut utils: Vec<u64> = Vec::new();
    let mut used: u64 = 0;
    let mut total: u64 = 0;
    let mut reported = false;
    let mut hottest: Option<Temperature> = None;
    let mut i: usize = 0;
    while i < samples.len()
        invariant
            i <= samples.len(),
            utils@ == utilization_samples(samples@.take(i as int)),
            (used, total, reported) == vram_totals(samples@.take(i as int)),
            hottest == hottest_temperature(samples@.take(i as int)),
        decreases samples.len() - i,
    {
        let s = &samples[i];
        assert(samples@.take(i + 1).drop_last() =~= samples@.take(i as int));
        assert(samples@.take(i + 1).last() == samples@[i as int]);
        if let Some(u) = s.utilization {
            utils.push(u);
        }
        if let (Some(u), Some(t)) = (s.vram_used, s.vram_total) {
            used = used.saturating_add(u);
            total = total.saturating_add(t);
            reported = true;
        }
        if let Some(t) = s.temperature {
            hottest = match hottest {
                Some(h) => if temperature_at_least(t, h) { Some(t) } else { Some(h) },
                None => Some(t),
            };
        }
        i = i + 1;
    }
    assert(samples@.take(samples.len() as int) =~= samples@);
    GpuSummary {
        utilization_samples: utils,
        vram_used: if reported { Some(used) } else { None },
        vram_total: if reported { Some(total) } else { None },
        hottest,
        present: samples.len() > 0,
    }
}

fn temperature_at_least(a: Temperature, b: Temperature) -> (r: bool)
    ensures
        r == (millidegrees(a) >= millidegrees(b)),
{
    let ma: u64 = match a {
        Temperature::Celsius(c) => c as u64 * 1000,
        Temperature::MilliCelsius(m) => m as u64,
    };
    let mb: u64 = match b {
        Temperature::Celsius(c) => c as u64 * 1000,
        Temperature::MilliCelsius(m) => m as u64,
    };
    ma >= mb
}

/// The hottest temperature is at least as hot as every reported one, and is
/// one of them; there is none exactly when no GPU reported a temperature.
pub proof fn lemma_hottest_is_maximum(s: Seq<GpuSample>)
    ensures
        hottest_temperature(s) matches Some(h) ==> {
            &&& exists|i: int| 0 <= i < s.len() && s[i].temperature == Some(h)
            &&& forall|i: int| 0 <= i < s.len() && (#[trigger] s[i].temperature) is Some
                ==> millidegrees(s[i].temperature.unwrap()) <= millidegrees(h)
        },
        hottest_temperature(s) is None <==> forall|i: int| 0 <= i < s.len() ==> (#[trigger] s[i].temperature) is None,
    decreases s.len(),
{
    if s.len() > 0 {
        let n = s.len() - 1;
        let p = s.drop_last();
        lemma_hottest_is_maximum(p);
        assert forall|i: int| 0 <= i < p.len() implies #[trigger] p[i] == s[i] by {}
        let rest = hottest_temperature(p);
        let last = s[n].temperature;
        assert(s.last() == s[n]);
        if let Some(h) = hottest_temperature(s) {
            if last == Some(h) {
                assert(s[n].temperature == Some(h));
            } else {
                assert(rest == Some(h));
                let i = choose|i: int| 0 <= i < p.len() && p[i].temperature == Some(h);
                assert(s[i].temperature == Some(h));
            }
            assert forall|i: int| 0 <= i < s.len() && (#[trigger] s[i].temperature) is Some
                implies millidegrees(s[i].temperature.unwrap()) <= millidegrees(h) by {
                if i == n {
                } else {
                    assert(p[i].temperature is Some);
                    assert(rest is Some);
                }
            }
        } else {
            assert(last is None);
            assert(rest is None);
            assert forall|i: int| 0 <= i < s.len() implies (#[trigger] s[i].temperature) is None by {
                if i < n {
                    assert(p[i].temperature is None);
                }
            }
        }
        if forall|i: int| 0 <= i < s.len() ==> (#[trigger] s[i].temperature) is None {
            assert(last is None);
            assert forall|i: int| 0 <= i < p.len() implies (#[trigger] p[i].temperature) is None by {
                assert(s[i].temperature is None);
            }
        }
    }
}

/// Whether the GPU reported a utilization.
pub open spec fn reports_utilization(g: GpuSample) -> bool {
    g.utilization is Some
}

/// Every reported utilization is a sample, zero included, in GPU order:
/// the samples are the utilizations of the GPUs that reported one, so there
/// are as many samples as such GPUs.
pub proof fn lemma_utilization_samples_are_the_reports(s: Seq<GpuSample>)
    ensures
        utilization_samples(s) == s.filter(|g: GpuSample| reports_utilization(g)).map_values(
            |g: GpuSample| g.utilization.unwrap(),
        ),
        utilization_samples(s).len() == s.filter(|g: GpuSample| reports_utilization(g)).len(),
    decreases s.len(),
{
    reveal(Seq::filter);
    let pred = |g: GpuSample| reports_utilization(g);
    let f = |g: GpuSample| g.utilization.unwrap();
    if s.len() > 0 {
        lemma_utilization_samples_are_the_reports(s.drop_last());
        let rest = s.drop_last().filter(pred);
        assert(s.filter(pred) == (if pred(s.last()) { rest.push(s.last()) } else { rest }));
        if pred(s.last()) {
            assert(rest.push(s.last()).map_values(f) =~= rest.map_values(f).push(f(s.last())));
        }
    } else {
        assert(s.filter(pred).map_values(f) =~= Seq::<u64>::empty());
    }
}

/// The exact sums, in unbounded integers, of the VRAM used and of the VRAM
/// capacity of the GPUs that reported both figures.
pub open spec fn exact_vram_sums(s: Seq<GpuSample>) -> (int, int)
    decreases s.len(),
{
    if s.len() == 0 {
        (0, 0)
    } else {
        let (used, total) = exact_vram_sums(s.drop_last());
        match (s.last().vram_used, s.last().vram_total) {
            (Some(u), Some(t)) => (used + u, total + t),
            _ => (used, total),
        }
    }
}

/// `x`, capped at `u64::MAX`.
pub open spec fn capped(x: int) -> int {
    if x > u64::MAX { u64::MAX as int } else { x }
}

/// The reported VRAM figures are the totals over every GPU that reported
/// both figures: the exact sums, capped at `u64::MAX`.
pub proof fn lemma_vram_figures_are_sums(s: Seq<GpuSample>)
    ensures
        vram_totals(s).0 as int == capped(exact_vram_sums(s).0),
        vram_totals(s).1 as int == capped(exact_vram_sums(s).1),
        exact_vram_sums(s).0 >= 0 && exact_vram_sums(s).1 >= 0,
    decreases s.len(),
{
    if s.len() > 0 {
        lemma_vram_figures_are_sums(s.drop_last());
    }
}

/// VRAM figures are reported exactly when some GPU reported both of them, and
/// the summed figures never fall below any single GPU's figure.
pub proof fn lemma_vram_totals(s: Seq<GpuSample>)
    ensures
        vram_totals(s).2 <==> exists|i: int| 0 <= i < s.len() && (#[trigger] s[i].vram_used) is Some && s[i].vram_total is Some,
        forall|i: int| 0 <= i < s.len() && (#[trigger] s[i].vram_used) is Some && s[i].vram_total is Some
            ==> s[i].vram_used.unwrap() <= vram_totals(s).0 && s[i].vram_total.unwrap() <= vram_totals(s).1,
    decreases s.len(),
{
    if s.len() > 0 {
        let n = s.len() - 1;
        let p = s.drop_last();
        lemma_vram_totals(p);
        assert forall|i: int| 0 <= i < p.len() implies #[trigger] p[i] == s[i] by {}
        assert(s.last() == s[n]);
        let both = s[n].vram_used is Some && s[n].vram_total is Some;
        if vram_totals(s).2 {
            if both {
                assert(s[n].vram_used is Some);
            } else {
                assert(vram_totals(p).2);
                let i = choose|i: int| 0 <= i < p.len() && (#[trigger] p[i].vram_used) is Some && p[i].vram_total is Some;
                assert(s[i].vram_used is Some);
            }
        }
        if exists|i: int| 0 <= i < s.len() && (#[trigger] s[i].vram_used) is Some && s[i].vram_total is Some {
            let i = choose|i: int| 0 <= i < s.len() && (#[trigger] s[i].vram_used) is Some && s[i].vram_total is Some;
            if i < n {
                assert(p[i].vram_used is Some);
            }
        }
        assert forall|i: int| 0 <= i < s.len() && (#[trigger] s[i].vram_used) is Some && s[i].vram_total is Some
            implies s[i].vram_used.unwrap() <= vram_totals(s).0 && s[i].vram_total.unwrap() <= vram_totals(s).1 by {
            if i < n {
                assert(p[i].vram_used is Some);
            }
        }
    }
}

/// The label file of a hwmon temperature input (`temp1_input` has
/// `temp1_label`), or `None` for a file that is not a temperature input.
pub open spec fn hwmon_label_name(file_name: Seq<char>) -> Option<Seq<char>> {
    if has_prefix(file_name, "temp"@) && crate::text::has_suffix(file_name, "_input"@) {
        Some(crate::text::replace_all(file_name, "_input"@, "_label"@))
    } else {
        None
    }
}

/// Whether a hwmon file is a temperature input, and the name of its label
/// file if so.
pub fn hwmon_label_file(file_name: &str) -> (r: Option<String>)
    ensures
        r.deep_view() == hwmon_label_name(file_name@),
{
    let f = chars_of(file_name);
    if chars_have_prefix(&f, &chars_of("temp")) && crate::text::chars_have_suffix(&f, &chars_of("_input")) {
        let from = chars_of("_input");
        let to = chars_of("_label");
        proof {
            reveal_strlit("_input");
        }
        Some(string_from_chars(crate::text::replace_chars(&f, &from, &to)))
    } else {
        None
    }
}

/// What the hwmon scan does after reading one temperature input.
#[derive(PartialEq, Eq, Structural, Debug)]
pub enum HwmonStep {
    /// Stop and report this reading (an `edge` input).
    Done(u32),
    /// Go on, keeping this `temp1_input` fallback.
    Continue(Option<u32>),
}

/// One step of the hwmon scan over a temperature input `file_name`, given the
/// content of its label file and of the input itself (each `None` when
/// unreadable): an input whose trimmed label is `edge` ends the scan with its
/// reading; the first readable `temp1_input` reading becomes the fallback; an
/// unreadable or non-numeric input is skipped.
pub open spec fn hwmon_step_spec(
    fallback: Option<u32>,
    file_name: Seq<char>,
    label: Option<Seq<char>>,
    raw: Option<Seq<char>>,
) -> HwmonStep {
    match raw {
        None => HwmonStep::Continue(fallback),
        Some(text) => match parse_unsigned(trim(text), u32::MAX as nat) {
            None => HwmonStep::Continue(fallback),
            Some(v) => {
                if label matches Some(l) && trim(l) == "edge"@ {
                    HwmonStep::Done(v as u32)
                } else if file_name == "temp1_input"@ && fallback is None {
                    HwmonStep::Continue(Some(v as u32))
                } else {
                    HwmonStep::Continue(fallback)
                }
            },
        },
    }
}

/// Advances the hwmon temperature scan by one temperature input.
pub fn hwmon_step(fallback: Option<u32>, file_name: &str, label: Option<String>, raw: Option<String>) -> (r: HwmonStep)
    ensures
        r == hwmon_step_spec(fallback, file_name@, label.deep_view(), raw.deep_view()),
{
    let text = match &raw {
        None => return HwmonStep::Continue(fallback),
        Some(t) => t,
    };
    let value = match parse_unsigned_chars(&trim_chars(&chars_of(text.as_str())), u32::MAX as u64) {
        None => return HwmonStep::Continue(fallback),
        Some(v) => v as u32,
    };
    let is_edge = match &label {
        Some(l) => chars_eq(&trim_chars(&chars_of(l.as_str())), &chars_of("edge")),
        None => false,
    };
    if is_edge {
        return HwmonStep::Done(value);
    }
    if chars_eq(&chars_of(file_name), &chars_of("temp1_input")) && fallback.is_none() {
        HwmonStep::Continue(Some(value))
    } else {
        HwmonStep::Continue(fallback)
    }
}


/// One temperature input met by the hwmon walk.
pub struct HwmonInput {
    /// Its file name (`temp<N>_input`).
    pub file_name: String,
    /// The content of its label file, `None` when unreadable.
    pub label: Option<String>,
    /// Its own content, `None` when unreadable.
    pub raw: Option<String>,
}

/// The hwmon scan over `inputs` (in walk order) from the fallback `fallback`.
pub open spec fn hwmon_scan_from(inputs: Seq<HwmonInput>, fallback: Option<u32>) -> Option<u32>
    decreases inputs.len(),
{
    if inputs.len() == 0 {
        fallback
    } else {
        match hwmon_step_spec(fallback, inputs[0].file_name@, inputs[0].label.deep_view(), inputs[0].raw.deep_view()) {
            HwmonStep::Done(v) => Some(v),
            HwmonStep::Continue(f) => hwmon_scan_from(inputs.drop_first(), f),
        }
    }
}

/// The reading of an input, when its content is a number.
pub open spec fn hwmon_reading(input: HwmonInput) -> Option<u32> {
    match input.raw.deep_view() {
        Some(text) => match parse_unsigned(trim(text), u32::MAX as nat) {
            Some(v) => Some(v as u32),
            None => None,
        },
        None => None,
    }
}

/// The input is labelled `edge`.
pub open spec fn hwmon_is_edge(input: HwmonInput) -> bool {
    input.label.deep_view() matches Some(l) && trim(l) == "edge"@
}

/// The reading of the first readable input labelled `edge`.
pub open spec fn first_edge_reading(inputs: Seq<HwmonInput>) -> Option<u32>
    decreases inputs.len(),
{
    if inputs.len() == 0 {
        None
    } else if hwmon_is_edge(inputs[0]) && hwmon_reading(inputs[0]) is Some {
        hwmon_reading(inputs[0])
    } else {
        first_edge_reading(inputs.drop_first())
    }
}

/// The reading of the first readable `temp1_input`.
pub open spec fn first_temp1_reading(inputs: Seq<HwmonInput>) -> Option<u32>
    decreases inputs.len(),
{
    if inputs.len() == 0 {
        None
    } else if inputs[0].file_name@ == "temp1_input"@ && hwmon_reading(inputs[0]) is Some {
        hwmon_reading(inputs[0])
    } else {
        first_temp1_reading(inputs.drop_first())
    }
}

proof fn lemma_hwmon_scan_from(inputs: Seq<HwmonInput>, fallback: Option<u32>)
    ensures
        hwmon_scan_from(inputs, fallback) == match first_edge_reading(inputs) {
            Some(v) => Some(v),
            None => match fallback {
                Some(f) => Some(f),
                None => first_temp1_reading(inputs),
            },
        },
    decreases inputs.len(),
{
    if inputs.len() > 0 {
        let i = inputs[0];
        let next = match hwmon_step_spec(fallback, i.file_name@, i.label.deep_view(), i.raw.deep_view()) {
            HwmonStep::Done(v) => fallback,
            HwmonStep::Continue(f) => f,
        };
        lemma_hwmon_scan_from(inputs.drop_first(), next);
    }
}

/// The hwmon temperature: the reading of the first readable input labelled
/// `edge`; without one, the reading of the first readable `temp1_input`;
/// inputs that cannot be read or parsed are skipped.
pub proof fn lemma_hwmon_scan_prefers_edge(inputs: Seq<HwmonInput>)
    ensures
        hwmon_scan_from(inputs, None) == match first_edge_reading(inputs) {
            Some(v) => Some(v),
            None => first_temp1_reading(inputs),
        },
{
    lemma_hwmon_scan_from(inputs, None);
}

/// Scans the temperature inputs of a device's hwmon directories, in walk
/// order, for its temperature in millidegrees Celsius.
pub fn hwmon_scan(inputs: &Vec<HwmonInput>) -> (r: Option<u32>)
    ensures
        r == hwmon_scan_from(inputs@, None),
{
    let mut fallback: Option<u32> = None;
    let mut i: usize = 0;
    assert(inputs@.skip(0) =~= inputs@);
    while i < inputs.len()
        invariant
            i <= inputs.len(),
            hwmon_scan_from(inputs@, None) == hwmon_scan_from(inputs@.skip(i as int), fallback),
        decreases inputs.len() - i,
    {
        let input = &inputs[i];
        assert(inputs@.skip(i as int)[0] == inputs@[i as int]);
        let label = match &input.label {
            Some(l) => Some(l.clone()),
            None => None,
        };
        let raw = match &input.raw {
            Some(t) => Some(t.clone()),
            None => None,
        };
        match hwmon_step(fallback, input.file_name.as_str(), label, raw) {
            HwmonStep::Done(v) => {
                return Some(v);
            },
            HwmonStep::Continue(f) => {
                assert(inputs@.skip(i as int).drop_first() =~= inputs@.skip(i + 1));
                fallback = f;
            },
        }
        i = i + 1;
    }
    assert(inputs@.skip(i as int) =~= Seq::<HwmonInput>::empty());
    fallback
}


/// One entry of `/sys/class/drm` as the discovery walk read it.
pub struct DrmEntry {
    /// The entry's name (`card0`, `card0-DP-1`, `renderD128`, ...).
    pub name: String,
    /// Its `device` directory.
    pub device_dir: PathBuf,
    /// The content of `device/uevent`; `None` when `device` is not a
    /// directory or the file cannot be read.
    pub uevent: Option<String>,
    /// The content of `device/product_name`, else of `device/vendor`; `None`
    /// when neither can be read.
    pub raw_name: Option<String>,
}

/// A detected GPU as backend and name.
pub open spec fn gpu_entry(g: Gpu) -> (GpuBackend, Seq<char>) {
    (g.backend, g.name@)
}

/// The NVIDIA GPUs NVML lists, by index, with the names it reported.
pub open spec fn nvidia_entries(names: Seq<Option<String>>) -> Seq<(GpuBackend, Seq<char>)> {
    Seq::new(
        names.len(),
        |i: int| (GpuBackend::Nvidia { index: i as u32 }, nvidia_name(names[i].deep_view(), i as u32)),
    )
}

/// The DRM cards monitored through sysfs, in listing order: card entries
/// whose uevent file could be read and names a monitored driver.
pub open spec fn drm_entries(cards: Seq<DrmEntry>, nvml_bus_ids: Option<Seq<Seq<char>>>) -> Seq<(GpuBackend, Seq<char>)>
    decreases cards.len(),
{
    if cards.len() == 0 {
        Seq::empty()
    } else {
        let rest = drm_entries(cards.drop_last(), nvml_bus_ids);
        let c = cards.last();
        if is_card_entry_spec(c.name@) {
            match c.uevent.deep_view() {
                Some(u) => match drm_vendor_spec(u, nvml_bus_ids) {
                    Some(v) => rest.push((
                        match v {
                            DrmVendor::Amd => GpuBackend::Amd { device_dir: c.device_dir },
                            DrmVendor::Intel => GpuBackend::Intel { device_dir: c.device_dir },
                        },
                        drm_name(v, c.raw_name.deep_view()),
                    )),
                    None => rest,
                },
                None => rest,
            }
        } else {
            rest
        }
    }
}

/// NVIDIA GPUs come first, numbered by their NVML index, then the DRM cards
/// in listing order, none of which is an NVIDIA entry.
pub proof fn lemma_discovery_order(
    names: Seq<Option<String>>,
    cards: Seq<DrmEntry>,
    nvml_bus_ids: Option<Seq<Seq<char>>>,
)
    requires
        names.len() <= u32::MAX as nat + 1,
    ensures
        ({
            let all = nvidia_entries(names) + drm_entries(cards, nvml_bus_ids);
            &&& forall|i: int| 0 <= i < names.len() ==> all[i].0 == (GpuBackend::Nvidia { index: i as u32 })
            &&& forall|i: int| names.len() <= i < all.len() ==> !(all[i].0 is Nvidia)
            &&& drm_entries(cards, nvml_bus_ids).len() <= cards.len()
        }),
    decreases cards.len(),
{
    if cards.len() > 0 {
        lemma_discovery_order(names, cards.drop_last(), nvml_bus_ids);
    }
    let d = drm_entries(cards, nvml_bus_ids);
    assert forall|j: int| 0 <= j < d.len() implies !(d[j].0 is Nvidia) by {
        lemma_drm_entries_not_nvidia(cards, nvml_bus_ids, j);
    }
}

proof fn lemma_drm_entries_not_nvidia(cards: Seq<DrmEntry>, nvml_bus_ids: Option<Seq<Seq<char>>>, j: int)
    requires
        0 <= j < drm_entries(cards, nvml_bus_ids).len(),
    ensures
        !(drm_entries(cards, nvml_bus_ids)[j].0 is Nvidia),
        drm_entries(cards, nvml_bus_ids).len() <= cards.len(),
    decreases cards.len(),
{
    if cards.len() > 0 {
        let rest = drm_entries(cards.drop_last(), nvml_bus_ids);
        if j < rest.len() {
            lemma_drm_entries_not_nvidia(cards.drop_last(), nvml_bus_ids, j);
        } else if rest.len() > 0 {
            lemma_drm_entries_not_nvidia(cards.drop_last(), nvml_bus_ids, 0);
        }
    }
}

impl Gpus {
    /// No GPU detected yet.
    pub fn new() -> (r: Gpus)
        ensures
            r@ == Seq::<Gpu>::empty(),
    {
        Gpus { gpus: Vec::new() }
    }

    /// The detected GPUs from what discovery read: the names NVML reported
    /// for its devices (one entry per index, `None` when unreported), the PCI
    /// bus ids NVML lists (`None` without NVML), and the `/sys/class/drm`
    /// entries in listing order.
    pub fn from_probe(
        nvidia_names: Vec<Option<String>>,
        nvml_bus_ids: &Option<Vec<String>>,
        drm: Vec<DrmEntry>,
    ) -> (r: Gpus)
        requires
            nvidia_names@.len() <= u32::MAX as nat + 1,
        ensures
            r@.map_values(|g: Gpu| gpu_entry(g)) == nvidia_entries(nvidia_names@) + drm_entries(
                drm@,
                nvml_bus_ids.deep_view(),
            ),
    {
        let ghost names = nvidia_names@;
        let ghost cards = drm@;
        let ghost ids = nvml_bus_ids.deep_view();
        let mut gpus = Gpus::new();
        let mut nvidia_names = nvidia_names;
        let name_count: usize = nvidia_names.len();
        assert(name_count == names.len());
        let mut k: usize = 0;
        assert(gpus@.map_values(|g: Gpu| gpu_entry(g)) =~= nvidia_entries(names).take(0));
        while nvidia_names.len() > 0
            invariant
                k + nvidia_names@.len() == names.len(),
                names.len() <= u32::MAX as nat + 1,
                names.len() <= usize::MAX,
                nvidia_names@ == names.skip(k as int),
                gpus@.map_values(|g: Gpu| gpu_entry(g)) == nvidia_entries(names).take(k as int),
            decreases nvidia_names@.len(),
        {
            let name = nvidia_names.remove(0);
            assert(name == names[k as int]);
            let ghost before = gpus@;
            gpus.add_nvidia(k as u32, name);
            assert(gpus@ =~= before.push(gpus@.last()));
            assert(gpu_entry(gpus@.last()) == nvidia_entries(names)[k as int]);
            assert(nvidia_entries(names).take(k + 1) =~= nvidia_entries(names).take(k as int).push(nvidia_entries(names)[k as int]));
            assert(gpus@.map_values(|g: Gpu| gpu_entry(g)) =~= before.map_values(|g: Gpu| gpu_entry(g)).push(gpu_entry(gpus@.last())));
            assert(gpus@.map_values(|g: Gpu| gpu_entry(g)) =~= nvidia_entries(names).take(k + 1));
            assert(nvidia_names@ =~= names.skip(k + 1));
            k = k + 1;
        }
        assert(nvidia_entries(names).take(k as int) =~= nvidia_entries(names));
        let mut drm = drm;
        let entry_count: usize = drm.len();
        assert(entry_count == cards.len());
        let mut j: usize = 0;
        assert(cards.take(0) =~= Seq::<DrmEntry>::empty());
        assert(nvidia_entries(names) + drm_entries(cards.take(0), ids) =~= nvidia_entries(names));
        while drm.len() > 0
            invariant
                j + drm@.len() == cards.len(),
                cards.len() <= usize::MAX,
                drm@ == cards.skip(j as int),
                ids == nvml_bus_ids.deep_view(),
                gpus@.map_values(|g: Gpu| gpu_entry(g)) == nvidia_entries(names) + drm_entries(cards.take(j as int), ids),
            decreases drm@.len(),
        {
            let entry = drm.remove(0);
            assert(entry == cards[j as int]);
            assert(cards.take(j + 1).drop_last() =~= cards.take(j as int));
            assert(cards.take(j + 1).last() == entry);
            let ghost before = gpus@;
            let ghost prefix = nvidia_entries(names) + drm_entries(cards.take(j as int), ids);
            if is_card_entry(entry.name.as_str()) {
                if let Some(u) = &entry.uevent {
                    if let Some(vendor) = drm_card_vendor(u.as_str(), nvml_bus_ids) {
                        gpus.add_drm_card(vendor, entry.device_dir, entry.raw_name);
                        assert(gpus@ =~= before.push(gpus@.last()));
                        assert(gpus@.map_values(|g: Gpu| gpu_entry(g)) =~= prefix.push(gpu_entry(gpus@.last())));
                    }
                }
            }
            assert(drm@ =~= cards.skip(j + 1));
            j = j + 1;
        }
        assert(cards.take(j as int) =~= cards);
        gpus
    }

    /// The detected GPUs, in detection order.
    pub fn list(&self) -> (r: &Vec<Gpu>)
        ensures
            r@ == self@,
    {
        &self.gpus
    }

    /// Whether no GPU was detected.
    pub fn is_empty(&self) -> (r: bool)
        ensures
            r == (self@.len() == 0),
    {
        self.gpus.len() == 0
    }

    /// Records the NVIDIA GPU at `index`, with the name NVML reported for it.
    pub fn add_nvidia(&mut self, index: u32, reported_name: Option<String>)
        ensures
            final(self)@.len() == old(self)@.len() + 1,
            final(self)@.take(old(self)@.len() as int) == old(self)@,
            final(self)@.last().backend == (GpuBackend::Nvidia { index }),
            final(self)@.last().name@ == nvidia_name(reported_name.deep_view(), index),
    {
        let name = match reported_name {
            Some(n) => n,
            None => {
                let mut v: Vec<char> = Vec::new();
                push_str(&mut v, "NVIDIA GPU ");
                push_decimal(&mut v, index as u64);
                string_from_chars(v)
            },
        };
        self.gpus.push(Gpu { name, backend: GpuBackend::Nvidia { index } });
        assert(self.gpus@.take(old(self)@.len() as int) =~= old(self)@);
    }

    /// Records a DRM card monitored through sysfs, with the name read from
    /// its device directory (`None` when unreadable).
    pub fn add_drm_card(&mut self, vendor: DrmVendor, device_dir: PathBuf, raw_name: Option<String>)
        ensures
            final(self)@.len() == old(self)@.len() + 1,
            final(self)@.take(old(self)@.len() as int) == old(self)@,
            final(self)@.last().backend == (match vendor {
                DrmVendor::Amd => GpuBackend::Amd { device_dir },
                DrmVendor::Intel => GpuBackend::Intel { device_dir },
            }),
            final(self)@.last().name@ == drm_name(vendor, raw_name.deep_view()),
    {
        let cleaned = match &raw_name {
            Some(r) => clean_name(r.as_str()),
            None => None,
        };
        let name = match cleaned {
            Some(n) => n,
            None => match vendor {
                DrmVendor::Amd => string_from_chars(chars_of("AMD GPU")),
                DrmVendor::Intel => string_from_chars(chars_of("Intel GPU")),
            },
        };
        let backend = match vendor {
            DrmVendor::Amd => GpuBackend::Amd { device_dir },
            DrmVendor::Intel => GpuBackend::Intel { device_dir },
        };
        self.gpus.push(Gpu { name, backend });
        assert(self.gpus@.take(old(self)@.len() as int) =~= old(self)@);
    }
}

} // verus!
