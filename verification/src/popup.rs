//! What the settings popup offers: which toggles, the interface dropdown and
//! the refresh-interval label.

use vstd::prelude::*;
use crate::config::Settings;
use crate::text::{decimal, push_decimal, push_str, string_from_chars};

verus! {

/// The network interface dropdown.
pub struct NicSelector {
    /// The entries: the auto label, then every available interface.
    pub options: Vec<String>,
    /// The index of the entry shown as selected.
    pub selected: usize,
}

/// The content of the settings popup.
pub struct PopupLayout {
    /// Whether the GPU toggle is offered (only when a GPU is present).
    pub gpu_toggle: bool,
    /// The interface dropdown, offered when the network metric is shown and
    /// some interface is available.
    pub nic_selector: Option<NicSelector>,
    /// The label of the refresh-interval slider.
    pub interval_label: String,
}

/// The dropdown entries.
pub open spec fn nic_options(auto_label: Seq<char>, available: Seq<Seq<char>>) -> Seq<Seq<char>> {
    seq![auto_label] + available
}

/// The index of the first entry equal to `x`.
pub open spec fn index_of(entries: Seq<Seq<char>>, x: Seq<char>) -> Option<nat>
    decreases entries.len(),
{
    if entries.len() == 0 {
        None
    } else if entries[0] == x {
        Some(0)
    } else {
        match index_of(entries.drop_first(), x) {
            Some(i) => Some(i + 1),
            None => None,
        }
    }
}

/// The entry shown as selected: the configured interface (the auto label
/// when none is configured), or the first entry when it is not listed.
pub open spec fn selected_index(entries: Seq<Seq<char>>, configured: Option<Seq<char>>, auto_label: Seq<char>) -> nat {
    let current = match configured {
        Some(n) => n,
        None => auto_label,
    };
    match index_of(entries, current) {
        Some(i) => i,
        None => 0,
    }
}

/// The selection made by picking entry `index`: `None` (auto-pick) for the
/// auto label, otherwise that interface.
pub open spec fn nic_choice_spec(entries: Seq<Seq<char>>, index: int, auto_label: Seq<char>) -> Option<Seq<char>> {
    if entries[index] == auto_label {
        None
    } else {
        Some(entries[index])
    }
}

/// The label of the refresh-interval slider.
pub open spec fn interval_label_spec(ms: u64) -> Seq<char> {
    decimal(ms as nat) + " ms"@
}

fn find_index(entries: &Vec<String>, x: &String) -> (r: usize)
    ensures
        r == match index_of(entries.deep_view(), x@) {
            Some(i) => i,
            None => 0,
        },
{
    let ghost dv = entries.deep_view();
    let mut i: usize = 0;
    assert(dv.skip(0) =~= dv);
    while i < entries.len()
        invariant
            i <= entries.len(),
            dv == entries.deep_view(),
            dv.len() == entries.len(),
            index_of(dv, x@) == match index_of(dv.skip(i as int), x@) {
                Some(j) => Some((j + i) as nat),
                None => None,
            },
        decreases entries.len() - i,
    {
        assert(dv[i as int] == entries@[i as int]@);
        assert(dv.skip(i as int)[0] == dv[i as int]);
        if entries[i] == *x {
            return i;
        }
        assert(dv.skip(i as int).drop_first() =~= dv.skip(i + 1));
        i = i + 1;
    }
    0
}

/// Lays out the settings popup for the given settings, GPU presence and
/// available interfaces; `auto_label` names the auto-pick entry.
pub fn popup_layout(config: &Settings, gpu_present: bool, available: &Vec<String>, auto_label: &String) -> (r: PopupLayout)
    ensures
        r.gpu_toggle == gpu_present,
        r.nic_selector is Some <==> config.show_network && available@.len() > 0,
        r.nic_selector matches Some(sel) ==> {
            &&& sel.options.deep_view() == nic_options(auto_label@, available.deep_view())
            &&& sel.selected == selected_index(sel.options.deep_view(), config.network_interface.deep_view(), auto_label@)
        },
        r.interval_label@ == interval_label_spec(config.refresh_interval_ms),
{
    let nic_selector = if config.show_network && available.len() > 0 {
        let mut options: Vec<String> = Vec::new();
        options.push(auto_label.clone());
        let mut i: usize = 0;
        assert(options.deep_view() =~= seq![auto_label@] + available.deep_view().take(0));
        while i < available.len()
            invariant
                i <= available.len(),
                options.deep_view() =~= seq![auto_label@] + available.deep_view().take(i as int),
            decreases available.len() - i,
        {
            let ghost before = options.deep_view();
            let a = available[i].clone();
            options.push(a);
            assert(options.deep_view() =~= before.push(available@[i as int]@));
            assert(seq![auto_label@] + available.deep_view().take(i + 1) =~= before.push(available@[i as int]@));
            i = i + 1;
        }
        assert(available.deep_view().take(available.len() as int) =~= available.deep_view());
        let current = match &config.network_interface {
            Some(n) => n.clone(),
            None => auto_label.clone(),
        };
        let selected = find_index(&options, &current);
        Some(NicSelector { options, selected })
    } else {
        None
    };
    let mut label: Vec<char> = Vec::new();
    push_decimal(&mut label, config.refresh_interval_ms);
    push_str(&mut label, " ms");
    let interval_label = string_from_chars(label);
    PopupLayout { gpu_toggle: gpu_present, nic_selector, interval_label }
}

/// The selection made by picking dropdown entry `index`.
pub fn nic_choice(options: &Vec<String>, index: usize, auto_label: &String) -> (r: Option<String>)
    requires
        index < options@.len(),
    ensures
        r.deep_view() == nic_choice_spec(options.deep_view(), index as int, auto_label@),
{
    let chosen = options[index].clone();
    if chosen == *auto_label {
        None
    } else {
        Some(chosen)
    }
}

proof fn lemma_index_of(entries: Seq<Seq<char>>, x: Seq<char>)
    ensures
        index_of(entries, x) matches Some(i) ==> i < entries.len() && entries[i as int] == x,
        index_of(entries, x) is None ==> !entries.contains(x),
    decreases entries.len(),
{
    if entries.len() > 0 {
        lemma_index_of(entries.drop_first(), x);
        if entries[0] != x && entries.contains(x) {
            let j = choose|j: int| 0 <= j < entries.len() && entries[j] == x;
            assert(entries.drop_first()[j - 1] == x);
        }
    }
}

/// Picking the entry the dropdown shows as selected gives back the
/// configured interface: `None` when auto-pick is configured, and the
/// interface itself when it is listed and differs from the auto label.
pub proof fn lemma_selected_entry_round_trip(
    auto_label: Seq<char>,
    available: Seq<Seq<char>>,
    configured: Option<Seq<char>>,
)
    requires
        configured matches Some(n) ==> available.contains(n) && n != auto_label,
    ensures
        ({
            let entries = nic_options(auto_label, available);
            let i = selected_index(entries, configured, auto_label);
            &&& i < entries.len()
            &&& nic_choice_spec(entries, i as int, auto_label) == configured
        }),
{
    let entries = nic_options(auto_label, available);
    lemma_index_of(entries, auto_label);
    assert(entries[0] == auto_label);
    if let Some(n) = configured {
        let j = choose|j: int| 0 <= j < available.len() && available[j] == n;
        assert(entries[j + 1] == n);
        lemma_index_of(entries, n);
    }
}

} // verus!
