//! The single line of text shown in the panel.

use vstd::prelude::*;
use crate::config::Settings;
use crate::format::{format_bytes_spec, push_format_bytes};
use crate::text::{chars_of, has_prefix, has_suffix, join_chars, join_parts, push_str, string_from_chars};

verus! {

/// One sensor reading as the panel line shows it. The percentages, the
/// temperature and the rates arrive already written out.
pub struct PanelReadings {
    /// The overall CPU usage, written as a percentage.
    pub cpu_percent: String,
    /// Used memory in bytes.
    pub memory_used: u64,
    /// Total memory in bytes.
    pub memory_total: u64,
    /// Whether any GPU was detected at all.
    pub gpu_present: bool,
    /// The GPU utilization, written as a percentage.
    pub gpu_percent: Option<String>,
    /// Total VRAM used across all detected GPUs, in bytes.
    pub gpu_vram_used: Option<u64>,
    /// Total VRAM capacity across all detected GPUs, in bytes.
    pub gpu_vram_total: Option<u64>,
    /// The hottest GPU temperature, written in degrees Celsius.
    pub gpu_temp: Option<String>,
    /// The download rate, written out.
    pub net_rx: String,
    /// The upload rate, written out.
    pub net_tx: String,
    /// The network interface being monitored.
    pub net_interface: Option<String>,
}

/// The GPU part of the line.
pub open spec fn gpu_part(r: PanelReadings) -> Seq<char> {
    let with_percent = match r.gpu_percent {
        Some(p) => "GPU"@ + " "@ + p@,
        None => "GPU"@,
    };
    let with_vram = match (r.gpu_vram_used, r.gpu_vram_total) {
        (Some(used), Some(total)) => with_percent + " | "@ + format_bytes_spec(used) + (if total > 0 {
            "/"@ + format_bytes_spec(total)
        } else {
            Seq::empty()
        }),
        _ => with_percent,
    };
    match r.gpu_temp {
        Some(t) => with_vram + " "@ + t@,
        None => with_vram,
    }
}

/// The name of the monitored interface, or `?`.
pub open spec fn net_label(r: PanelReadings) -> Seq<char> {
    match r.net_interface {
        Some(n) => n@,
        None => "?"@,
    }
}

/// The parts of the line, one per shown metric, in panel order.
pub open spec fn panel_parts(r: PanelReadings, cfg: Settings) -> Seq<Seq<char>> {
    let cpu = if cfg.show_cpu { seq!["CPU "@ + r.cpu_percent@] } else { Seq::empty() };
    let ram = if cfg.show_memory {
        seq!["RAM "@ + format_bytes_spec(r.memory_used) + "/"@ + format_bytes_spec(r.memory_total)]
    } else {
        Seq::empty()
    };
    let gpu = if cfg.show_gpu && r.gpu_present { seq![gpu_part(r)] } else { Seq::empty() };
    let iface = net_label(r);
    let net = if cfg.show_network {
        seq![iface + " ↓"@ + r.net_rx@ + " ↑"@ + r.net_tx@]
    } else {
        Seq::empty()
    };
    cpu + ram + gpu + net
}

/// The panel line: the shown metrics joined by `" | "`, or a placeholder
/// when none is shown.
pub open spec fn panel_line(r: PanelReadings, cfg: Settings) -> Seq<char> {
    let parts = panel_parts(r, cfg);
    if parts.len() == 0 {
        "Sysmon (no metrics)"@
    } else {
        join_parts(parts, " | "@)
    }
}


/// The line shows one part per shown metric (the GPU only when present), and
/// the placeholder exactly when no metric is shown.
pub proof fn lemma_panel_parts_count(r: PanelReadings, cfg: Settings)
    ensures
        panel_parts(r, cfg).len() == (if cfg.show_cpu { 1int } else { 0 }) + (if cfg.show_memory { 1int } else { 0 })
            + (if cfg.show_gpu && r.gpu_present { 1int } else { 0 }) + (if cfg.show_network { 1int } else { 0 }),
        (panel_line(r, cfg) == "Sysmon (no metrics)"@) <== (!cfg.show_cpu && !cfg.show_memory
            && !(cfg.show_gpu && r.gpu_present) && !cfg.show_network),
{
}

/// The GPU part starts with `GPU`, then the utilization when one is given.
/// VRAM, when both figures are given, follows as ` | used` (and `/total` when
/// the total is not zero). A given temperature always ends the part, after a
/// space, whatever else was reported; with nothing reported the part is `GPU`
/// alone.
pub proof fn lemma_gpu_part_pieces(r: PanelReadings)
    ensures
        has_prefix(gpu_part(r), "GPU"@),
        r.gpu_percent matches Some(p) ==> has_prefix(gpu_part(r), "GPU "@ + p@),
        r.gpu_temp matches Some(t) ==> has_suffix(gpu_part(r), " "@ + t@),
        forall|used: u64, total: u64| r.gpu_vram_used == Some(used) && r.gpu_vram_total == Some(total) ==> {
            let vram = " | "@ + format_bytes_spec(used) + (if total > 0 { "/"@ + format_bytes_spec(total) } else { Seq::empty() });
            match r.gpu_temp {
                Some(t) => has_suffix(gpu_part(r), vram + " "@ + t@),
                None => has_suffix(gpu_part(r), vram),
            }
        },
        (r.gpu_percent is None && r.gpu_temp is None && !(r.gpu_vram_used is Some && r.gpu_vram_total is Some))
            ==> gpu_part(r) == "GPU"@,
{
    reveal_strlit("GPU");
    reveal_strlit(" ");
    reveal_strlit("GPU ");
    let g = gpu_part(r);
    let with_percent = match r.gpu_percent {
        Some(p) => "GPU"@ + " "@ + p@,
        None => "GPU"@,
    };
    let vram_piece = match (r.gpu_vram_used, r.gpu_vram_total) {
        (Some(used), Some(total)) => " | "@ + format_bytes_spec(used) + (if total > 0 {
            "/"@ + format_bytes_spec(total)
        } else {
            Seq::empty()
        }),
        _ => Seq::empty(),
    };
    let temp_piece = match r.gpu_temp {
        Some(t) => " "@ + t@,
        None => Seq::<char>::empty(),
    };
    assert(g =~= with_percent + vram_piece + temp_piece);
    let head = "GPU"@;
    assert((with_percent + vram_piece + temp_piece).subrange(0, 3) =~= head);
    if let Some(p) = r.gpu_percent {
        assert((with_percent + vram_piece + temp_piece).subrange(0, 4 + p@.len() as int) =~= "GPU "@ + p@);
    }
    let n = g.len() as int;
    if let Some(t) = r.gpu_temp {
        assert(g.subrange(n - temp_piece.len(), n) =~= temp_piece);
        let both = vram_piece + temp_piece;
        assert(g.subrange(n - both.len(), n) =~= both);
        assert(both =~= vram_piece + " "@ + t@);
    } else {
        assert(g.subrange(n - vram_piece.len(), n) =~= vram_piece);
    }
}

/// When the GPU is present and the only metric shown, the line is the GPU
/// part.
pub proof fn lemma_only_gpu_line(r: PanelReadings, cfg: Settings)
    requires
        cfg.show_gpu && r.gpu_present && !cfg.show_cpu && !cfg.show_memory && !cfg.show_network,
    ensures
        panel_line(r, cfg) == gpu_part(r),
{
    assert(panel_parts(r, cfg) =~= seq![gpu_part(r)]);
}

fn gpu_text(r: &PanelReadings) -> (out: Vec<char>)
    ensures
        out@ == gpu_part(*r),
{
    let mut out: Vec<char> = Vec::new();
    push_str(&mut out, "GPU");
    if let Some(p) = &r.gpu_percent {
        push_str(&mut out, " ");
        push_str(&mut out, p.as_str());
    }
    let ghost with_percent = out@;
    if let (Some(used), Some(total)) = (r.gpu_vram_used, r.gpu_vram_total) {
        push_str(&mut out, " | ");
        push_format_bytes(&mut out, used);
        if total > 0 {
            push_str(&mut out, "/");
            push_format_bytes(&mut out, total);
        }
        assert(out@ =~= with_percent + " | "@ + format_bytes_spec(used) + (if total > 0 {
            "/"@ + format_bytes_spec(total)
        } else {
            Seq::empty()
        }));
    }
    let ghost with_vram = out@;
    if let Some(t) = &r.gpu_temp {
        push_str(&mut out, " ");
        push_str(&mut out, t.as_str());
        assert(out@ =~= with_vram + " "@ + t@);
    }
    out
}

/// Build the single-line text shown in the panel.
pub fn build_panel_line(r: &PanelReadings, cfg: &Settings) -> (line: String)
    ensures
        line@ == panel_line(*r, *cfg),
{
    let mut parts: Vec<Vec<char>> = Vec::new();
    let ghost spec_parts = panel_parts(*r, *cfg);
    assert(parts.deep_view() =~= Seq::<Seq<char>>::empty());
    let ghost iface = net_label(*r);
    let ghost cpu_s: Seq<Seq<char>> = if cfg.show_cpu { seq!["CPU "@ + r.cpu_percent@] } else { Seq::empty() };
    let ghost ram_s: Seq<Seq<char>> = if cfg.show_memory {
        seq!["RAM "@ + format_bytes_spec(r.memory_used) + "/"@ + format_bytes_spec(r.memory_total)]
    } else {
        Seq::empty()
    };
    let ghost gpu_s: Seq<Seq<char>> = if cfg.show_gpu && r.gpu_present { seq![gpu_part(*r)] } else { Seq::empty() };
    let ghost net_s: Seq<Seq<char>> = if cfg.show_network {
        seq![iface + " ↓"@ + r.net_rx@ + " ↑"@ + r.net_tx@]
    } else {
        Seq::empty()
    };
    if cfg.show_cpu {
        let mut p: Vec<char> = Vec::new();
        push_str(&mut p, "CPU ");
        push_str(&mut p, r.cpu_percent.as_str());
        assert(p@ =~= "CPU "@ + r.cpu_percent@);
        let ghost before = parts.deep_view();
        let ghost pv = p@;
        assert(p.deep_view() =~= pv);
        parts.push(p);
        assert(parts.deep_view() =~= before.push(pv));
    }
    assert(parts.deep_view() =~= cpu_s);
    if cfg.show_memory {
        let mut p: Vec<char> = Vec::new();
        push_str(&mut p, "RAM ");
        push_format_bytes(&mut p, r.memory_used);
        push_str(&mut p, "/");
        push_format_bytes(&mut p, r.memory_total);
        assert(p@ =~= "RAM "@ + format_bytes_spec(r.memory_used) + "/"@ + format_bytes_spec(r.memory_total));
        let ghost before = parts.deep_view();
        let ghost pv = p@;
        assert(p.deep_view() =~= pv);
        parts.push(p);
        assert(parts.deep_view() =~= before.push(pv));
    }
    assert(parts.deep_view() =~= cpu_s + ram_s);
    if cfg.show_gpu && r.gpu_present {
        let p = gpu_text(r);
        let ghost before = parts.deep_view();
        let ghost pv = p@;
        assert(p.deep_view() =~= pv);
        parts.push(p);
        assert(parts.deep_view() =~= before.push(pv));
    }
    assert(parts.deep_view() =~= cpu_s + ram_s + gpu_s);
    if cfg.show_network {
        let mut p: Vec<char> = Vec::new();
        match &r.net_interface {
            Some(n) => push_str(&mut p, n.as_str()),
            None => push_str(&mut p, "?"),
        }
        push_str(&mut p, " ↓");
        push_str(&mut p, r.net_rx.as_str());
        push_str(&mut p, " ↑");
        push_str(&mut p, r.net_tx.as_str());
        assert(p@ =~= iface + " ↓"@ + r.net_rx@ + " ↑"@ + r.net_tx@);
        let ghost before = parts.deep_view();
        let ghost pv = p@;
        assert(p.deep_view() =~= pv);
        parts.push(p);
        assert(parts.deep_view() =~= before.push(pv));
    }
    assert(parts.deep_view() =~= cpu_s + ram_s + gpu_s + net_s);
    assert(parts.deep_view() =~= spec_parts);
    if parts.len() == 0 {
        return string_from_chars(chars_of("Sysmon (no metrics)"));
    }
    let line = join_chars(&parts, " | ");
    string_from_chars(line)
}

} // verus!
