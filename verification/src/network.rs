//! Network-interface bookkeeping: which interfaces are listed, which one is
//! monitored, and which byte counters are reported for it.

use vstd::prelude::*;
use vstd::relations::sorted_by;
use crate::text::{chars_have_prefix, chars_lex_le, chars_of, has_prefix, lemma_lex_total_ordering, lex_le, lex_order};

verus! {

/// Interface prefixes never surfaced by the auto-pick.
pub open spec fn virtual_prefixes() -> Seq<Seq<char>> {
    seq!["lo"@, "docker"@, "br-"@, "veth"@, "virbr"@, "tun"@, "tap"@]
}

/// Preferred physical interface prefixes, in priority order.
pub open spec fn physical_prefixes() -> Seq<Seq<char>> {
    seq!["eth"@, "enp"@, "eno"@, "wlp"@, "wlan"@, "wlx"@]
}

/// The name starts with one of the virtual prefixes (loopback included).
pub open spec fn is_virtual_name(name: Seq<char>) -> bool {
    exists|k: int| 0 <= k < virtual_prefixes().len() && has_prefix(name, #[trigger] virtual_prefixes()[k])
}

/// The first name that starts with `p`.
pub open spec fn first_with_prefix(names: Seq<Seq<char>>, p: Seq<char>) -> Option<Seq<char>>
    decreases names.len(),
{
    if names.len() == 0 {
        None
    } else if has_prefix(names[0], p) {
        Some(names[0])
    } else {
        first_with_prefix(names.drop_first(), p)
    }
}

/// The first name that is not virtual.
pub open spec fn first_not_virtual(names: Seq<Seq<char>>) -> Option<Seq<char>>
    decreases names.len(),
{
    if names.len() == 0 {
        None
    } else if !is_virtual_name(names[0]) {
        Some(names[0])
    } else {
        first_not_virtual(names.drop_first())
    }
}

/// The auto-pick from the `k`-th physical prefix on.
pub open spec fn auto_pick_from(names: Seq<Seq<char>>, k: nat) -> Option<Seq<char>>
    decreases physical_prefixes().len() - k,
{
    if k >= physical_prefixes().len() {
        first_not_virtual(names)
    } else {
        match first_with_prefix(names, physical_prefixes()[k as int]) {
            Some(n) => Some(n),
            None => auto_pick_from(names, k + 1),
        }
    }
}

/// The interface auto-picked among `names`: the first name with the first
/// physical prefix that any name has, else the first non-virtual name.
pub open spec fn auto_pick_spec(names: Seq<Seq<char>>) -> Option<Seq<char>> {
    auto_pick_from(names, 0)
}

fn virtual_prefix(k: usize) -> (p: &'static str)
    requires
        k < 7,
    ensures
        p@ == virtual_prefixes()[k as int],
{
    if k == 0 { "lo" }
    else if k == 1 { "docker" }
    else if k == 2 { "br-" }
    else if k == 3 { "veth" }
    else if k == 4 { "virbr" }
    else if k == 5 { "tun" }
    else { "tap" }
}

fn physical_prefix(k: usize) -> (p: &'static str)
    requires
        k < 6,
    ensures
        p@ == physical_prefixes()[k as int],
{
    if k == 0 { "eth" }
    else if k == 1 { "enp" }
    else if k == 2 { "eno" }
    else if k == 3 { "wlp" }
    else if k == 4 { "wlan" }
    else { "wlx" }
}

/// Whether the interface name starts with a virtual or loopback prefix.
pub fn is_virtual(name: &str) -> (b: bool)
    ensures
        b == is_virtual_name(name@),
{
    let chars = chars_of(name);
    let mut k: usize = 0;
    while k < 7
        invariant
            k <= 7,
            chars@ == name@,
            forall|j: int| 0 <= j < k ==> !has_prefix(name@, #[trigger] virtual_prefixes()[j]),
        decreases 7 - k,
    {
        let p = chars_of(virtual_prefix(k));
        if chars_have_prefix(&chars, &p) {
            return true;
        }
        k = k + 1;
    }
    false
}

fn find_with_prefix(names: &[String], p: &Vec<char>) -> (r: Option<String>)
    ensures
        r.deep_view() == first_with_prefix(names.deep_view(), p@),
{
    let ghost dv = names.deep_view();
    let mut i: usize = 0;
    assert(dv.skip(0) =~= dv);
    while i < names.len()
        invariant
            i <= names.len(),
            dv == names.deep_view(),
            dv.len() == names.len(),
            first_with_prefix(dv, p@) == first_with_prefix(dv.skip(i as int), p@),
        decreases names.len() - i,
    {
        let c = chars_of(names[i].as_str());
        assert(dv[i as int] == names@[i as int]@);
        assert(dv.skip(i as int)[0] == dv[i as int]);
        if chars_have_prefix(&c, p) {
            return Some(names[i].clone());
        }
        assert(dv.skip(i as int).drop_first() =~= dv.skip(i + 1));
        i = i + 1;
    }
    None
}

fn find_not_virtual(names: &[String]) -> (r: Option<String>)
    ensures
        r.deep_view() == first_not_virtual(names.deep_view()),
{
    let ghost dv = names.deep_view();
    let mut i: usize = 0;
    assert(dv.skip(0) =~= dv);
    while i < names.len()
        invariant
            i <= names.len(),
            dv == names.deep_view(),
            dv.len() == names.len(),
            first_not_virtual(dv) == first_not_virtual(dv.skip(i as int)),
        decreases names.len() - i,
    {
        assert(dv[i as int] == names@[i as int]@);
        assert(dv.skip(i as int)[0] == dv[i as int]);
        if !is_virtual(names[i].as_str()) {
            return Some(names[i].clone());
        }
        assert(dv.skip(i as int).drop_first() =~= dv.skip(i + 1));
        i = i + 1;
    }
    None
}

/// Pick a sensible default interface. Prefers known physical prefixes, then
/// falls back to the first non-loopback, non-virtual interface. Returns
/// `None` if no candidate is found.
pub fn auto_pick(names: &[String]) -> (r: Option<String>)
    ensures
        r.deep_view() == auto_pick_spec(names.deep_view()),
{
    let mut k: usize = 0;
    while k < 6
        invariant
            k <= 6,
            auto_pick_spec(names.deep_view()) == auto_pick_from(names.deep_view(), k as nat),
        decreases 6 - k,
    {
        let p = chars_of(physical_prefix(k));
        let found = find_with_prefix(names, &p);
        if found.is_some() {
            return found;
        }
        k = k + 1;
    }
    find_not_virtual(names)
}


proof fn lemma_insert_to_multiset<A>(s: Seq<A>, j: int, a: A)
    requires
        0 <= j <= s.len(),
    ensures
        s.insert(j, a).to_multiset() =~= s.to_multiset().insert(a),
{
    broadcast use vstd::seq_lib::group_to_multiset_ensures;
    broadcast use vstd::multiset::group_multiset_axioms;
    let t = s.insert(j, a);
    assert(t.remove(j) =~= s);
    assert(t[j] == a);
    assert(t.to_multiset().contains(a));
    assert(t.to_multiset() =~= t.to_multiset().remove(a).insert(a));
}

/// Sorts interface names in ascending lexicographic order.
pub fn sort_names(names: &Vec<String>) -> (sorted: Vec<String>)
    ensures
        sorted.deep_view() == names.deep_view().sort_by(lex_order()),
{
    broadcast use vstd::seq_lib::group_to_multiset_ensures;
    proof {
        lemma_lex_total_ordering();
    }
    let ghost dv = names.deep_view();
    let mut res: Vec<String> = Vec::new();
    let mut i: usize = 0;
    assert(res.deep_view() =~= Seq::<Seq<char>>::empty());
    assert(dv.take(0) =~= Seq::<Seq<char>>::empty());
    while i < names.len()
        invariant
            i <= names.len(),
            dv == names.deep_view(),
            dv.len() == names.len(),
            vstd::relations::total_ordering(lex_order()),
            sorted_by(res.deep_view(), lex_order()),
            res.deep_view().to_multiset() == dv.take(i as int).to_multiset(),
        decreases names.len() - i,
    {
        let x = names[i].clone();
        let xc = chars_of(x.as_str());
        let ghost r = res.deep_view();
        let mut j: usize = 0;
        while j < res.len()
            invariant
                j <= res.len(),
                r == res.deep_view(),
                r.len() == res.len(),
                xc@ == x@,
                forall|k: int| 0 <= k < j ==> lex_le(#[trigger] r[k], x@),
            ensures
                j <= res.len(),
                r == res.deep_view(),
                forall|k: int| 0 <= k < j ==> lex_le(#[trigger] r[k], x@),
                j < res.len() ==> !lex_le(r[j as int], x@),
            decreases res.len() - j,
        {
            let rc = chars_of(res[j].as_str());
            assert(r[j as int] == res@[j as int]@);
            if !chars_lex_le(&rc, &xc) {
                break;
            }
            j = j + 1;
        }
        proof {
            if j < res.len() {
                assert(!lex_order()(r[j as int], x@));
                assert(lex_order()(x@, r[j as int]));
            }
        }
        res.insert(j, x);
        proof {
            let r2 = res.deep_view();
            assert(r2 =~= r.insert(j as int, x@));
            lemma_insert_to_multiset(r, j as int, x@);
            assert(dv.take(i + 1) =~= dv.take(i as int).push(dv[i as int]));
            assert(dv[i as int] == names@[i as int]@);
            assert(x@ == dv[i as int]);
            vstd::seq_lib::to_multiset_build(dv.take(i as int), dv[i as int]);
            assert(r2.to_multiset() == dv.take(i + 1).to_multiset());
            assert forall|a: int, b: int| 0 <= a < b < r2.len() implies #[trigger] lex_order()(r2[a], r2[b]) by {
                if b < j {
                    assert(lex_order()(r[a], r[b]));
                } else if b == j {
                    assert(lex_le(r[a], x@));
                } else if a == j {
                    assert(lex_order()(x@, r[j as int]));
                    if b - 1 > j {
                        assert(lex_order()(r[j as int], r[b - 1]));
                    }
                } else if a < j {
                    assert(lex_le(r[a], x@));
                    assert(lex_order()(x@, r[j as int]));
                    if b - 1 > j {
                        assert(lex_order()(r[j as int], r[b - 1]));
                    }
                    assert(lex_order()(r[a], r[j as int]));
                } else {
                    assert(lex_order()(r[a - 1], r[b - 1]));
                }
            }
        }
        i = i + 1;
    }
    proof {
        assert(dv.take(dv.len() as int) =~= dv);
        dv.lemma_sort_by_ensures(lex_order());
        vstd::seq_lib::lemma_sorted_unique(res.deep_view(), dv.sort_by(lex_order()), lex_order());
    }
    res
}


/// The byte counters of one interface since the previous refresh.
pub struct InterfaceCounters {
    pub name: String,
    pub received: u64,
    pub transmitted: u64,
}

/// What one refresh reports about the network.
pub struct TrafficReading {
    /// The interface whose counters are reported, if any.
    pub interface: Option<String>,
    /// Bytes received by that interface since the previous refresh.
    pub received: u64,
    /// Bytes sent by that interface since the previous refresh.
    pub transmitted: u64,
    /// Every listed interface, sorted.
    pub available: Vec<String>,
}

/// The names of the listed interfaces, in listing order.
pub open spec fn counter_names(cs: Seq<InterfaceCounters>) -> Seq<Seq<char>> {
    cs.map_values(|c: InterfaceCounters| c.name@)
}

/// The counters of the first listed interface called `name`, or zeros.
pub open spec fn counters_for(cs: Seq<InterfaceCounters>, name: Seq<char>) -> (u64, u64)
    decreases cs.len(),
{
    if cs.len() == 0 {
        (0, 0)
    } else if cs[0].name@ == name {
        (cs[0].received, cs[0].transmitted)
    } else {
        counters_for(cs.drop_first(), name)
    }
}

/// The interface to monitor: the user's selection when there is one,
/// otherwise the auto-pick among the sorted names.
pub open spec fn chosen_interface(sorted: Seq<Seq<char>>, selection: Option<Seq<char>>) -> Option<Seq<char>> {
    match selection {
        Some(s) => Some(s),
        None => auto_pick_spec(sorted),
    }
}

fn lookup_counters(cs: &Vec<InterfaceCounters>, name: &String) -> (r: (u64, u64))
    ensures
        r == counters_for(cs@, name@),
{
    let mut i: usize = 0;
    assert(cs@.skip(0) =~= cs@);
    while i < cs.len()
        invariant
            i <= cs.len(),
            counters_for(cs@, name@) == counters_for(cs@.skip(i as int), name@),
        decreases cs.len() - i,
    {
        assert(cs@.skip(i as int)[0] == cs@[i as int]);
        if cs[i].name == *name {
            return (cs[i].received, cs[i].transmitted);
        }
        assert(cs@.skip(i as int).drop_first() =~= cs@.skip(i + 1));
        i = i + 1;
    }
    (0, 0)
}

/// Lists the interfaces (sorted), picks the one to monitor (the selection
/// when given, else the auto-pick) and reports its byte counters; an
/// interface that is not listed reports zeros.
pub fn select_traffic(counters: &Vec<InterfaceCounters>, selection: Option<String>) -> (r: TrafficReading)
    ensures
        r.available.deep_view() == counter_names(counters@).sort_by(lex_order()),
        r.interface.deep_view() == chosen_interface(r.available.deep_view(), selection.deep_view()),
        sorted_by(r.available.deep_view(), lex_order()),
        selection is Some ==> r.interface.deep_view() == selection.deep_view(),
        (r.received, r.transmitted) == match r.interface {
            Some(n) => counters_for(counters@, n@),
            None => (0u64, 0u64),
        },
{
    let mut names: Vec<String> = Vec::new();
    let mut i: usize = 0;
    while i < counters.len()
        invariant
            i <= counters.len(),
            names.deep_view() =~= counter_names(counters@).take(i as int),
        decreases counters.len() - i,
    {
        let ghost before = names.deep_view();
        let nm = counters[i].name.clone();
        names.push(nm);
        assert(names.deep_view() =~= before.push(counters@[i as int].name@));
        assert(names.deep_view() =~= counter_names(counters@).take(i + 1));
        i = i + 1;
    }
    assert(counter_names(counters@).take(counters.len() as int) =~= counter_names(counters@));
    let available = sort_names(&names);
    proof {
        lemma_lex_total_ordering();
        names.deep_view().lemma_sort_by_ensures(lex_order());
    }
    let interface = match selection {
        Some(s) => Some(s),
        None => auto_pick(available.as_slice()),
    };
    let (received, transmitted) = match &interface {
        Some(n) => lookup_counters(counters, n),
        None => (0, 0),
    };
    TrafficReading { interface, received, transmitted, available }
}

proof fn lemma_physical_prefix_not_virtual(name: Seq<char>, k: int)
    requires
        0 <= k < physical_prefixes().len(),
        has_prefix(name, physical_prefixes()[k]),
    ensures
        !is_virtual_name(name),
{
    reveal_strlit("lo");
    reveal_strlit("docker");
    reveal_strlit("br-");
    reveal_strlit("veth");
    reveal_strlit("virbr");
    reveal_strlit("tun");
    reveal_strlit("tap");
    reveal_strlit("eth");
    reveal_strlit("enp");
    reveal_strlit("eno");
    reveal_strlit("wlp");
    reveal_strlit("wlan");
    reveal_strlit("wlx");
    let p = physical_prefixes()[k];
    assert(name[0] == p.subrange(0, p.len() as int)[0]);
    assert(name[0] == 'e' || name[0] == 'w');
    assert forall|j: int| 0 <= j < virtual_prefixes().len() implies !has_prefix(name, #[trigger] virtual_prefixes()[j]) by {
        let v = virtual_prefixes()[j];
        if has_prefix(name, v) {
            assert(name.subrange(0, v.len() as int)[0] == v[0]);
        }
    }
}

proof fn lemma_first_with_prefix(names: Seq<Seq<char>>, p: Seq<char>)
    ensures
        first_with_prefix(names, p) matches Some(n) ==> names.contains(n) && has_prefix(n, p),
        first_with_prefix(names, p) is None ==> forall|i: int| 0 <= i < names.len() ==> !has_prefix(#[trigger] names[i], p),
    decreases names.len(),
{
    if names.len() > 0 {
        lemma_first_with_prefix(names.drop_first(), p);
        if let Some(n) = first_with_prefix(names, p) {
            if !has_prefix(names[0], p) {
                let i = choose|i: int| 0 <= i < names.drop_first().len() && names.drop_first()[i] == n;
                assert(names[i + 1] == n);
            } else {
                assert(names[0] == n);
            }
        } else {
            assert forall|i: int| 0 <= i < names.len() implies !has_prefix(#[trigger] names[i], p) by {
                if i > 0 {
                    assert(names[i] == names.drop_first()[i - 1]);
                }
            }
        }
    }
}

proof fn lemma_first_not_virtual(names: Seq<Seq<char>>)
    ensures
        first_not_virtual(names) matches Some(n) ==> names.contains(n) && !is_virtual_name(n),
        first_not_virtual(names) is None <==> forall|i: int| 0 <= i < names.len() ==> is_virtual_name(#[trigger] names[i]),
    decreases names.len(),
{
    if names.len() > 0 {
        lemma_first_not_virtual(names.drop_first());
        if let Some(n) = first_not_virtual(names) {
            if is_virtual_name(names[0]) {
                let i = choose|i: int| 0 <= i < names.drop_first().len() && names.drop_first()[i] == n;
                assert(names[i + 1] == n);
                let j = choose|j: int| 0 <= j < names.drop_first().len() && !is_virtual_name(#[trigger] names.drop_first()[j]);
                assert(!is_virtual_name(names[j + 1]));
            } else {
                assert(names[0] == n);
            }
        } else {
            assert forall|i: int| 0 <= i < names.len() implies is_virtual_name(#[trigger] names[i]) by {
                if i > 0 {
                    assert(names[i] == names.drop_first()[i - 1]);
                }
            }
        }
    }
}

proof fn lemma_auto_pick_from(names: Seq<Seq<char>>, k: nat)
    ensures
        auto_pick_from(names, k) matches Some(n) ==> names.contains(n) && !is_virtual_name(n),
        auto_pick_from(names, k) is None <==> forall|i: int| 0 <= i < names.len() ==> is_virtual_name(#[trigger] names[i]),
    decreases physical_prefixes().len() - k,
{
    lemma_first_not_virtual(names);
    if k < physical_prefixes().len() {
        let p = physical_prefixes()[k as int];
        lemma_first_with_prefix(names, p);
        lemma_auto_pick_from(names, k + 1);
        if let Some(n) = first_with_prefix(names, p) {
            lemma_physical_prefix_not_virtual(n, k as int);
            let i = choose|i: int| 0 <= i < names.len() && names[i] == n;
            assert(!is_virtual_name(names[i]));
        }
    }
}

proof fn lemma_first_with_prefix_at(names: Seq<Seq<char>>, p: Seq<char>) -> (a: int)
    requires
        first_with_prefix(names, p) is Some,
    ensures
        0 <= a < names.len(),
        first_with_prefix(names, p) == Some(names[a]),
        has_prefix(names[a], p),
        forall|b: int| 0 <= b < a ==> !has_prefix(#[trigger] names[b], p),
    decreases names.len(),
{
    if has_prefix(names[0], p) {
        0
    } else {
        let a = lemma_first_with_prefix_at(names.drop_first(), p);
        assert forall|b: int| 0 <= b < a + 1 implies !has_prefix(#[trigger] names[b], p) by {
            if b > 0 {
                assert(names[b] == names.drop_first()[b - 1]);
            }
        }
        a + 1
    }
}

proof fn lemma_first_not_virtual_at(names: Seq<Seq<char>>) -> (a: int)
    requires
        first_not_virtual(names) is Some,
    ensures
        0 <= a < names.len(),
        first_not_virtual(names) == Some(names[a]),
        !is_virtual_name(names[a]),
        forall|b: int| 0 <= b < a ==> is_virtual_name(#[trigger] names[b]),
    decreases names.len(),
{
    if !is_virtual_name(names[0]) {
        0
    } else {
        let a = lemma_first_not_virtual_at(names.drop_first());
        assert forall|b: int| 0 <= b < a + 1 implies is_virtual_name(#[trigger] names[b]) by {
            if b > 0 {
                assert(names[b] == names.drop_first()[b - 1]);
            }
        }
        a + 1
    }
}

proof fn lemma_auto_pick_from_priority(names: Seq<Seq<char>>, m: nat, i: int, k: int) -> (j: int)
    requires
        m <= k < physical_prefixes().len(),
        0 <= i < names.len(),
        has_prefix(names[i], physical_prefixes()[k]),
    ensures
        m <= j <= k,
        auto_pick_from(names, m) == first_with_prefix(names, physical_prefixes()[j]),
        first_with_prefix(names, physical_prefixes()[j]) is Some,
        forall|j2: int| m <= j2 < j ==> first_with_prefix(names, #[trigger] physical_prefixes()[j2]) is None,
    decreases k - m,
{
    let p = physical_prefixes()[m as int];
    if first_with_prefix(names, p) is Some {
        m as int
    } else if m as int == k {
        lemma_first_with_prefix(names, p);
        assert(!has_prefix(names[i], p));
        m as int
    } else {
        lemma_auto_pick_from_priority(names, m + 1, i, k)
    }
}

/// The auto-pick follows the priority of the physical prefixes: when a listed
/// name starts with the prefix of priority `k`, the pick is the first listed
/// name with the prefix of some priority `j <= k`, and no listed name has a
/// prefix of higher priority than `j`.
pub proof fn lemma_auto_pick_priority(names: Seq<Seq<char>>, i: int, k: int)
    requires
        0 <= k < physical_prefixes().len(),
        0 <= i < names.len(),
        has_prefix(names[i], physical_prefixes()[k]),
    ensures
        exists|a: int, j: int|
            0 <= j <= k && 0 <= a < names.len() && auto_pick_spec(names) == Some(#[trigger] names[a])
                && has_prefix(names[a], #[trigger] physical_prefixes()[j])
                && (forall|b: int| 0 <= b < a ==> !has_prefix(#[trigger] names[b], physical_prefixes()[j]))
                && (forall|j2: int, b: int| 0 <= j2 < j && 0 <= b < names.len()
                    ==> !has_prefix(#[trigger] names[b], #[trigger] physical_prefixes()[j2])),
{
    let j = lemma_auto_pick_from_priority(names, 0, i, k);
    let a = lemma_first_with_prefix_at(names, physical_prefixes()[j]);
    assert forall|j2: int, b: int| 0 <= j2 < j && 0 <= b < names.len()
        implies !has_prefix(#[trigger] names[b], #[trigger] physical_prefixes()[j2]) by {
        lemma_first_with_prefix(names, physical_prefixes()[j2]);
    }
    assert(auto_pick_spec(names) == Some(names[a]) && has_prefix(names[a], physical_prefixes()[j]));
}

/// Wired interfaces come first: when a listed name starts with `eth`, the
/// pick starts with `eth`; when one starts with `enp` and none with `eth`,
/// the pick starts with `enp`; and when any listed name starts with `eth`,
/// `enp` or `eno`, so does the pick, before any `wlp`, `wlan` or `wlx` one.
pub proof fn lemma_auto_pick_prefers_wired(names: Seq<Seq<char>>, i: int)
    requires
        0 <= i < names.len(),
    ensures
        has_prefix(names[i], "eth"@) ==> (auto_pick_spec(names) matches Some(n) && has_prefix(n, "eth"@)),
        (has_prefix(names[i], "enp"@) && forall|b: int| 0 <= b < names.len() ==> !has_prefix(#[trigger] names[b], "eth"@))
            ==> (auto_pick_spec(names) matches Some(n) && has_prefix(n, "enp"@)),
        (has_prefix(names[i], "eth"@) || has_prefix(names[i], "enp"@) || has_prefix(names[i], "eno"@))
            ==> (auto_pick_spec(names) matches Some(n) && (has_prefix(n, "eth"@) || has_prefix(n, "enp"@) || has_prefix(n, "eno"@))),
{
    let pp = physical_prefixes();
    assert(pp[0] == "eth"@ && pp[1] == "enp"@ && pp[2] == "eno"@);
    if has_prefix(names[i], "eth"@) {
        lemma_auto_pick_priority(names, i, 0);
    } else if has_prefix(names[i], "enp"@) {
        lemma_auto_pick_priority(names, i, 1);
    } else if has_prefix(names[i], "eno"@) {
        lemma_auto_pick_priority(names, i, 2);
    }
}

/// Without a name with a physical prefix, the pick is the first listed name
/// that is not virtual, or nothing when every name is virtual.
pub proof fn lemma_auto_pick_fallback(names: Seq<Seq<char>>)
    requires
        forall|k: int, b: int| 0 <= k < physical_prefixes().len() && 0 <= b < names.len()
            ==> !has_prefix(#[trigger] names[b], #[trigger] physical_prefixes()[k]),
    ensures
        auto_pick_spec(names) is None ==> forall|b: int| 0 <= b < names.len() ==> is_virtual_name(#[trigger] names[b]),
        auto_pick_spec(names) matches Some(n) ==> (exists|a: int| 0 <= a < names.len() && n == #[trigger] names[a]
            && !is_virtual_name(n) && forall|b: int| 0 <= b < a ==> is_virtual_name(#[trigger] names[b])),
{
    assert forall|m: nat| m <= physical_prefixes().len() implies #[trigger] auto_pick_from(names, m) == first_not_virtual(names) by {
        lemma_auto_pick_from_fallback(names, m);
    }
    lemma_first_not_virtual(names);
    if first_not_virtual(names) is Some {
        let a = lemma_first_not_virtual_at(names);
        assert(auto_pick_spec(names) == Some(names[a]));
    }
}

proof fn lemma_auto_pick_from_fallback(names: Seq<Seq<char>>, m: nat)
    requires
        m <= physical_prefixes().len(),
        forall|k: int, b: int| 0 <= k < physical_prefixes().len() && 0 <= b < names.len()
            ==> !has_prefix(#[trigger] names[b], #[trigger] physical_prefixes()[k]),
    ensures
        auto_pick_from(names, m) == first_not_virtual(names),
    decreases physical_prefixes().len() - m,
{
    if m < physical_prefixes().len() {
        let p = physical_prefixes()[m as int];
        if first_with_prefix(names, p) is Some {
            let a = lemma_first_with_prefix_at(names, p);
            assert(!has_prefix(names[a], physical_prefixes()[m as int]));
        }
        lemma_auto_pick_from_fallback(names, m + 1);
    }
}

/// The auto-picked interface is always one of the listed names and never a
/// virtual or loopback interface.
pub proof fn lemma_auto_pick_listed_and_not_virtual(names: Seq<Seq<char>>)
    ensures
        auto_pick_spec(names) matches Some(n) ==> names.contains(n) && !is_virtual_name(n),
{
    lemma_auto_pick_from(names, 0);
}

/// The auto-pick finds no interface exactly when every listed interface is
/// virtual or loopback.
pub proof fn lemma_auto_pick_none_iff_all_virtual(names: Seq<Seq<char>>)
    ensures
        auto_pick_spec(names) is None <==> forall|i: int| 0 <= i < names.len() ==> is_virtual_name(#[trigger] names[i]),
{
    lemma_auto_pick_from(names, 0);
}

/// Without a selection, the monitored interface is one of the listed
/// interfaces and never a virtual or loopback one.
pub proof fn lemma_auto_selection_is_listed(sorted: Seq<Seq<char>>)
    ensures
        chosen_interface(sorted, None) matches Some(n) ==> sorted.contains(n) && !is_virtual_name(n),
{
    lemma_auto_pick_listed_and_not_virtual(sorted);
}

} // verus!
