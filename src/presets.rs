//! Report presets: which groups of metrics a report shows.
use vstd::prelude::*;
use crate::keys::{ascending, insert_key};
use crate::metrics::MetricKind;

verus! {

/// A group of metrics that a report can show.
#[derive(Copy, Clone, Debug, PartialEq, Eq, PartialOrd, Ord, Hash, Structural)]
pub enum ReportPreset {
    Battery,
    Cpu,
    Gpu,
    Memory,
    Network,
    Temperature,
    Disk,
}

/// Position of a preset in declaration order, the order presets sort in.
pub open spec fn preset_rank(p: ReportPreset) -> int {
    match p {
        ReportPreset::Battery => 0,
        ReportPreset::Cpu => 1,
        ReportPreset::Gpu => 2,
        ReportPreset::Memory => 3,
        ReportPreset::Network => 4,
        ReportPreset::Temperature => 5,
        ReportPreset::Disk => 6,
    }
}

fn preset_of_rank(r: i64) -> (p: ReportPreset)
    requires
        0 <= r < 7,
    ensures
        preset_rank(p) == r,
{
    if r == 0 {
        ReportPreset::Battery
    } else if r == 1 {
        ReportPreset::Cpu
    } else if r == 2 {
        ReportPreset::Gpu
    } else if r == 3 {
        ReportPreset::Memory
    } else if r == 4 {
        ReportPreset::Network
    } else if r == 5 {
        ReportPreset::Temperature
    } else {
        ReportPreset::Disk
    }
}

fn rank(p: ReportPreset) -> (r: i64)
    ensures
        r as int == preset_rank(p),
{
    match p {
        ReportPreset::Battery => 0,
        ReportPreset::Cpu => 1,
        ReportPreset::Gpu => 2,
        ReportPreset::Memory => 3,
        ReportPreset::Network => 4,
        ReportPreset::Temperature => 5,
        ReportPreset::Disk => 6,
    }
}

/// Strictly ascending in declaration order, so without repeats.
pub open spec fn presets_ascending(s: Seq<ReportPreset>) -> bool {
    forall|i: int, j: int| 0 <= i < j < s.len() ==> preset_rank(s[i]) < preset_rank(s[j])
}

/// Some preset of `s` has rank `k`.
pub open spec fn has_preset_rank(s: Seq<ReportPreset>, k: int) -> bool {
    exists|i: int| 0 <= i < s.len() && preset_rank(s[i]) == k
}

/// The presets sorted and without repeats; the battery preset alone when
/// none is given. Ranks stand for presets one for one, so the result holds
/// exactly the presets given.
pub fn normalize_presets(presets: Vec<ReportPreset>) -> (r: Vec<ReportPreset>)
    ensures
        presets@.len() == 0 ==> r@ == seq![ReportPreset::Battery],
        presets@.len() > 0 ==> presets_ascending(r@) && forall|k: int|
            has_preset_rank(r@, k) <==> has_preset_rank(presets@, k),
{
    if presets.len() == 0 {
        return vec![ReportPreset::Battery];
    }
    let mut ranks: Vec<i64> = Vec::new();
    let mut i: usize = 0;
    while i < presets.len()
        invariant
            i <= presets.len(),
            ascending(ranks@),
            forall|u: i64|
                ranks@.contains(u) <==> has_preset_rank(presets@.subrange(0, i as int), u as int),
        decreases presets.len() - i,
    {
        let ghost pre = presets@.subrange(0, i as int);
        let ghost next = presets@.subrange(0, i as int + 1);
        let ghost before = ranks@;
        ranks = insert_key(ranks, rank(presets[i]));
        proof {
            assert forall|u: i64| ranks@.contains(u) <==> has_preset_rank(next, u as int) by {
                assert(next[i as int] == presets@[i as int]);
                if has_preset_rank(next, u as int) {
                    let a = choose|a: int| 0 <= a < next.len() && preset_rank(next[a]) == u;
                    if a < i {
                        assert(pre[a] == next[a]);
                    }
                }
                if has_preset_rank(pre, u as int) {
                    let a = choose|a: int| 0 <= a < pre.len() && preset_rank(pre[a]) == u;
                    assert(pre[a] == next[a]);
                }
            }
        }
        i = i + 1;
    }
    assert(presets@.subrange(0, presets.len() as int) =~= presets@);
    let mut out: Vec<ReportPreset> = Vec::new();
    let mut j: usize = 0;
    while j < ranks.len()
        invariant
            j <= ranks.len(),
            ascending(ranks@),
            forall|u: i64| ranks@.contains(u) <==> has_preset_rank(presets@, u as int),
            out@.len() == j,
            forall|a: int| 0 <= a < j ==> preset_rank(#[trigger] out@[a]) == ranks@[a],
        decreases ranks.len() - j,
    {
        let rk = ranks[j];
        assert(ranks@.contains(rk));
        out.push(preset_of_rank(rk));
        j = j + 1;
    }
    proof {
        assert forall|k: int| has_preset_rank(out@, k) <==> has_preset_rank(presets@, k) by {
            if has_preset_rank(out@, k) {
                let a = choose|a: int| 0 <= a < out@.len() && preset_rank(out@[a]) == k;
                assert(ranks@[a] == k);
                assert(ranks@.contains(ranks@[a]));
            }
            if has_preset_rank(presets@, k) {
                let b = choose|b: int| 0 <= b < presets@.len() && preset_rank(presets@[b]) == k;
                assert(ranks@.contains(k as i64));
                let a = choose|a: int| 0 <= a < ranks@.len() && ranks@[a] == k as i64;
                assert(preset_rank(out@[a]) == k);
            }
        }
        assert forall|a: int, b: int| 0 <= a < b < out@.len() implies preset_rank(out@[a])
            < preset_rank(out@[b]) by {
            assert(preset_rank(out@[a]) == ranks@[a]);
            assert(preset_rank(out@[b]) == ranks@[b]);
        }
    }
    out
}

/// The metric kinds a preset shows.
pub open spec fn preset_shows(p: ReportPreset, k: MetricKind) -> bool {
    match p {
        ReportPreset::Battery => k == MetricKind::PowerDraw,
        ReportPreset::Cpu => k == MetricKind::CpuUsage || k == MetricKind::CpuFrequency,
        ReportPreset::Gpu => k == MetricKind::GpuUsage || k == MetricKind::GpuFrequency,
        ReportPreset::Memory => k == MetricKind::MemoryUsage,
        ReportPreset::Network => k == MetricKind::NetworkBytes,
        ReportPreset::Temperature => k == MetricKind::Temperature,
        ReportPreset::Disk => k == MetricKind::DiskUsage,
    }
}

/// Position of a kind's storage label in alphabetical order.
pub open spec fn label_rank(k: MetricKind) -> int {
    match k {
        MetricKind::CpuFrequency => 0,
        MetricKind::CpuUsage => 1,
        MetricKind::DiskUsage => 2,
        MetricKind::GpuFrequency => 3,
        MetricKind::GpuUsage => 4,
        MetricKind::MemoryUsage => 5,
        MetricKind::NetworkBytes => 6,
        MetricKind::PowerDraw => 7,
        MetricKind::Temperature => 8,
    }
}

fn kind_rank(k: MetricKind) -> (r: i64)
    ensures
        r as int == label_rank(k),
{
    match k {
        MetricKind::CpuFrequency => 0,
        MetricKind::CpuUsage => 1,
        MetricKind::DiskUsage => 2,
        MetricKind::GpuFrequency => 3,
        MetricKind::GpuUsage => 4,
        MetricKind::MemoryUsage => 5,
        MetricKind::NetworkBytes => 6,
        MetricKind::PowerDraw => 7,
        MetricKind::Temperature => 8,
    }
}

fn kind_of_rank(r: i64) -> (k: MetricKind)
    requires
        0 <= r < 9,
    ensures
        label_rank(k) == r,
{
    if r == 0 {
        MetricKind::CpuFrequency
    } else if r == 1 {
        MetricKind::CpuUsage
    } else if r == 2 {
        MetricKind::DiskUsage
    } else if r == 3 {
        MetricKind::GpuFrequency
    } else if r == 4 {
        MetricKind::GpuUsage
    } else if r == 5 {
        MetricKind::MemoryUsage
    } else if r == 6 {
        MetricKind::NetworkBytes
    } else if r == 7 {
        MetricKind::PowerDraw
    } else {
        MetricKind::Temperature
    }
}

/// Strictly ascending by storage label, so without repeats.
pub open spec fn kinds_ascending(s: Seq<MetricKind>) -> bool {
    forall|i: int, j: int| 0 <= i < j < s.len() ==> label_rank(s[i]) < label_rank(s[j])
}

/// Some kind of `s` has label rank `k`.
pub open spec fn has_label_rank(s: Seq<MetricKind>, k: int) -> bool {
    exists|i: int| 0 <= i < s.len() && label_rank(s[i]) == k
}

/// Some preset of `presets` shows a kind of label rank `k`.
pub open spec fn shown_rank(presets: Seq<ReportPreset>, k: int) -> bool {
    exists|i: int, m: MetricKind|
        0 <= i < presets.len() && preset_shows(presets[i], m) && label_rank(m) == k
}

/// The preset shows a kind of label rank `k`.
pub open spec fn shows_rank(p: ReportPreset, k: int) -> bool {
    exists|m: MetricKind| preset_shows(p, m) && label_rank(m) == k
}

fn add_kind(ranks: Vec<i64>, p: ReportPreset, m: MetricKind) -> (r: Vec<i64>)
    requires
        ascending(ranks@),
        preset_shows(p, m),
    ensures
        ascending(r@),
        forall|u: i64| r@.contains(u) <==> (ranks@.contains(u) || u == label_rank(m)),
{
    insert_key(ranks, kind_rank(m))
}

/// Adds the label ranks of the kinds that `p` shows.
fn add_preset_kinds(ranks: Vec<i64>, p: ReportPreset) -> (r: Vec<i64>)
    requires
        ascending(ranks@),
    ensures
        ascending(r@),
        forall|u: i64| r@.contains(u) <==> (ranks@.contains(u) || shows_rank(p, u as int)),
{
    match p {
        ReportPreset::Cpu => {
            let r1 = add_kind(ranks, p, MetricKind::CpuUsage);
            let r2 = add_kind(r1, p, MetricKind::CpuFrequency);
            proof {
                assert forall|u: i64| r2@.contains(u) <==> (ranks@.contains(u) || shows_rank(p, u as int)) by {
                    if shows_rank(p, u as int) {
                        let m = choose|m: MetricKind| preset_shows(p, m) && label_rank(m) == u;
                    }
                    if u == label_rank(MetricKind::CpuUsage) {
                        assert(preset_shows(p, MetricKind::CpuUsage));
                    }
                    if u == label_rank(MetricKind::CpuFrequency) {
                        assert(preset_shows(p, MetricKind::CpuFrequency));
                    }
                }
            }
            r2
        },
        ReportPreset::Gpu => {
            let r1 = add_kind(ranks, p, MetricKind::GpuUsage);
            let r2 = add_kind(r1, p, MetricKind::GpuFrequency);
            proof {
                assert forall|u: i64| r2@.contains(u) <==> (ranks@.contains(u) || shows_rank(p, u as int)) by {
                    if shows_rank(p, u as int) {
                        let m = choose|m: MetricKind| preset_shows(p, m) && label_rank(m) == u;
                    }
                    if u == label_rank(MetricKind::GpuUsage) {
                        assert(preset_shows(p, MetricKind::GpuUsage));
                    }
                    if u == label_rank(MetricKind::GpuFrequency) {
                        assert(preset_shows(p, MetricKind::GpuFrequency));
                    }
                }
            }
            r2
        },
        _ => {
            let m = match p {
                ReportPreset::Battery => MetricKind::PowerDraw,
                ReportPreset::Memory => MetricKind::MemoryUsage,
                ReportPreset::Network => MetricKind::NetworkBytes,
                ReportPreset::Temperature => MetricKind::Temperature,
                _ => MetricKind::DiskUsage,
            };
            let r1 = add_kind(ranks, p, m);
            proof {
                assert forall|u: i64| r1@.contains(u) <==> (ranks@.contains(u) || shows_rank(p, u as int)) by {
                    if shows_rank(p, u as int) {
                        let m2 = choose|m2: MetricKind| preset_shows(p, m2) && label_rank(m2) == u;
                    }
                    if u == label_rank(m) {
                        assert(preset_shows(p, m));
                    }
                }
            }
            r1
        },
    }
}

/// The metric kinds that the presets show, sorted by storage label and
/// without repeats. Label ranks stand for kinds one for one.
pub fn metric_kinds_for_presets(presets: &Vec<ReportPreset>) -> (r: Vec<MetricKind>)
    ensures
        kinds_ascending(r@),
        forall|k: int| has_label_rank(r@, k) <==> shown_rank(presets@, k),
{
    let mut ranks: Vec<i64> = Vec::new();
    let mut i: usize = 0;
    while i < presets.len()
        invariant
            i <= presets.len(),
            ascending(ranks@),
            forall|u: i64|
                ranks@.contains(u) <==> shown_rank(presets@.subrange(0, i as int), u as int),
        decreases presets.len() - i,
    {
        let ghost pre = presets@.subrange(0, i as int);
        let ghost next = presets@.subrange(0, i as int + 1);
        let p = presets[i];
        let ghost before = ranks@;
        ranks = add_preset_kinds(ranks, p);
        proof {
            assert forall|u: i64| ranks@.contains(u) <==> shown_rank(next, u as int) by {
                assert(next[i as int] == p);
                if shown_rank(next, u as int) {
                    let (a, m) = choose|a: int, m: MetricKind|
                        0 <= a < next.len() && preset_shows(next[a], m) && label_rank(m) == u;
                    if a < i {
                        assert(pre[a] == next[a]);
                        assert(shown_rank(pre, u as int));
                    }
                }
                if shown_rank(pre, u as int) {
                    let (a, m) = choose|a: int, m: MetricKind|
                        0 <= a < pre.len() && preset_shows(pre[a], m) && label_rank(m) == u;
                    assert(pre[a] == next[a]);
                }
                if shows_rank(p, u as int) {
                    let m = choose|m: MetricKind| preset_shows(p, m) && label_rank(m) == u;
                    assert(preset_shows(next[i as int], m));
                }
            }
        }
        i = i + 1;
    }
    assert(presets@.subrange(0, presets.len() as int) =~= presets@);
    let mut out: Vec<MetricKind> = Vec::new();
    let mut j: usize = 0;
    while j < ranks.len()
        invariant
            j <= ranks.len(),
            ascending(ranks@),
            forall|u: i64| ranks@.contains(u) <==> shown_rank(presets@, u as int),
            out@.len() == j,
            forall|a: int| 0 <= a < j ==> label_rank(#[trigger] out@[a]) == ranks@[a],
        decreases ranks.len() - j,
    {
        let rk = ranks[j];
        assert(ranks@.contains(rk));
        out.push(kind_of_rank(rk));
        j = j + 1;
    }
    proof {
        assert forall|k: int| has_label_rank(out@, k) <==> shown_rank(presets@, k) by {
            if has_label_rank(out@, k) {
                let a = choose|a: int| 0 <= a < out@.len() && label_rank(out@[a]) == k;
                assert(ranks@[a] == k);
                assert(ranks@.contains(ranks@[a]));
            }
            if shown_rank(presets@, k) {
                assert(ranks@.contains(k as i64));
                let a = choose|a: int| 0 <= a < ranks@.len() && ranks@[a] == k as i64;
                assert(label_rank(out@[a]) == k);
            }
        }
        assert forall|a: int, b: int| 0 <= a < b < out@.len() implies label_rank(out@[a])
            < label_rank(out@[b]) by {
            assert(label_rank(out@[a]) == ranks@[a]);
            assert(label_rank(out@[b]) == ranks@[b]);
        }
    }
    out
}

} // verus!
