//! Merging of readings that share a timestamp into one reading per timestamp.
use vstd::prelude::*;
use vstd::string::StringExecFns;
use core::cmp::Ordering;
use crate::sort::{lemma_has_ts_group, stable_sort_by_ts};
use crate::sample::{
    Sample, ENERGY_TOTAL_MAX, opt_int, opt_str, total, sum_spec, mean_spec, ratio_spec,
    energy_now_of, energy_full_of, energy_design_of, percentage_of, capacity_of, health_of,
    sum_or_none, avg_or_none, percent, count_present, lemma_total_prefix, lemma_total_nonneg,
};
use crate::text::{lex_lt, basename, join_plus, compare_str, path_basename, join_with_plus,
    lemma_lex_lt_transitive};

verus! {

/// The readings of `s` taken at time `t`, in their original order.
pub open spec fn group_at(s: Seq<Sample>, t: i64) -> Seq<Sample> {
    s.filter(|x: Sample| x.ts == t)
}

/// Some reading of `s` is taken at time `t`.
pub open spec fn has_ts(s: Seq<Sample>, t: i64) -> bool {
    exists|k: int| 0 <= k < s.len() && s[k].ts == t
}

/// No reading of `g` carries a status.
pub open spec fn status_absent(g: Seq<Sample>) -> bool {
    forall|i: int| 0 <= i < g.len() ==> g[i].status is None
}

/// Some reading of `g` carries status `v`, and every status present is `v`.
pub open spec fn status_uniform(g: Seq<Sample>, v: Seq<char>) -> bool {
    &&& exists|i: int| 0 <= i < g.len() && opt_str(g[i].status) == Some(v)
    &&& forall|i: int| 0 <= i < g.len() && g[i].status is Some ==> opt_str(g[i].status) == Some(v)
}

/// The status of a merged reading: none when no reading has one, the common
/// one when all present statuses agree, and `mixed` otherwise.
pub open spec fn merged_status(g: Seq<Sample>) -> Option<Seq<char>> {
    if status_absent(g) {
        None
    } else if exists|v: Seq<char>| status_uniform(g, v) {
        Some(choose|v: Seq<char>| status_uniform(g, v))
    } else {
        Some("mixed"@)
    }
}

/// The source basenames that occur in `g`.
pub open spec fn source_names(g: Seq<Sample>) -> Set<Seq<char>> {
    Set::new(|n: Seq<char>| exists|i: int| 0 <= i < g.len() && n == basename(g[i].source_path@))
}

/// Strictly ascending in lexicographic order (so free of repeats).
pub open spec fn sorted_distinct(names: Seq<Seq<char>>) -> bool {
    forall|i: int, j: int| 0 <= i < j < names.len() ==> lex_lt(names[i], names[j])
}

/// `label` is the sorted, de-duplicated source basenames of `g` joined by `+`.
pub open spec fn source_label_of(g: Seq<Sample>, label: Seq<char>) -> bool {
    exists|names: Seq<Seq<char>>|
        sorted_distinct(names) && names.to_set() == source_names(g) && label == join_plus(names)
}

/// The first value when it is present, the second otherwise.
pub open spec fn or_else(a: Option<int>, b: Option<int>) -> Option<int> {
    if a is Some {
        a
    } else {
        b
    }
}

/// `m` holds the merge of the readings `g`, apart from its timestamp.
pub open spec fn is_merge_of(m: Sample, g: Seq<Sample>) -> bool {
    let now = sum_spec(energy_now_of(g));
    let full = sum_spec(energy_full_of(g));
    let design = sum_spec(energy_design_of(g));
    &&& opt_int(m.energy_now_mwh) == now
    &&& opt_int(m.energy_full_mwh) == full
    &&& opt_int(m.energy_full_design_mwh) == design
    &&& opt_int(m.percentage) == or_else(ratio_spec(now, full), mean_spec(percentage_of(g)))
    &&& opt_int(m.health_pct) == or_else(ratio_spec(full, design), mean_spec(health_of(g)))
    &&& opt_int(m.capacity_pct) == mean_spec(capacity_of(g))
    &&& opt_str(m.status) == merged_status(g)
    &&& source_label_of(g, m.source_path@)
}

/// The energy totals of `g` fit a merged reading.
pub open spec fn energy_totals_fit(g: Seq<Sample>) -> bool {
    &&& total(energy_now_of(g)) <= ENERGY_TOTAL_MAX
    &&& total(energy_full_of(g)) <= ENERGY_TOTAL_MAX
    &&& total(energy_design_of(g)) <= ENERGY_TOTAL_MAX
}

/// The energy totals of every timestamp's readings fit a merged reading.
pub open spec fn group_totals_fit(s: Seq<Sample>) -> bool {
    forall|t: i64| #[trigger] energy_totals_fit(group_at(s, t))
}

/// Merging was asked of an empty group of readings.
#[derive(Debug, PartialEq, Eq, Structural)]
pub enum MergeError {
    EmptyGroup,
}

pub open spec fn views(v: Seq<String>) -> Seq<Seq<char>> {
    v.map_values(|s: String| s@)
}

/// Inserts `x` into the strictly ascending `names`, unless it is there already.
fn insert_name(names: &mut Vec<String>, x: String)
    requires
        sorted_distinct(views(old(names)@)),
    ensures
        sorted_distinct(views(final(names)@)),
        views(final(names)@).to_set() == views(old(names)@).to_set().insert(x@),
{
    let ghost old_v = views(names@);
    let mut i: usize = 0;
    let mut stop = false;
    while i < names.len() && !stop
        invariant
            names@ == old(names)@,
            old_v == views(names@),
            sorted_distinct(old_v),
            i <= names.len(),
            forall|k: int| 0 <= k < i ==> lex_lt(#[trigger] old_v[k], x@),
            stop ==> i < names.len() && lex_lt(x@, old_v[i as int]),
        decreases names.len() - i + if stop { 0int } else { 1int },
    {
        match compare_str(names[i].as_str(), x.as_str()) {
            Ordering::Equal => {
                proof {
                    assert(old_v[i as int] == x@);
                    assert(old_v.to_set().insert(x@) =~= old_v.to_set());
                }
                return;
            },
            Ordering::Greater => {
                stop = true;
            },
            Ordering::Less => {
                i = i + 1;
            },
        }
    }
    let ghost at = i as int;
    proof {
        if at < old_v.len() {
            assert(lex_lt(x@, old_v[at]));
            assert forall|j: int| at <= j < old_v.len() implies lex_lt(x@, #[trigger] old_v[j]) by {
                if j > at {
                    lemma_lex_lt_transitive(x@, old_v[at], old_v[j]);
                }
            }
        }
    }
    names.insert(i, x);
    proof {
        let nv = views(names@);
        assert(nv =~= old_v.insert(at, x@));
        assert forall|a: int, b: int| 0 <= a < b < nv.len() implies lex_lt(nv[a], nv[b]) by {
            if b < at {
            } else if b == at {
            } else if a < at {
                lemma_lex_lt_transitive(old_v[a], x@, old_v[b - 1]);
            } else if a == at {
            } else {
            }
        }
        assert forall|n: Seq<char>| nv.to_set().contains(n) <==> old_v.to_set().insert(x@).contains(n) by {
            if nv.to_set().contains(n) {
                let k = choose|k: int| 0 <= k < nv.len() && nv[k] == n;
                if k < at {
                    assert(old_v[k] == n);
                } else if k > at {
                    assert(old_v[k - 1] == n);
                }
            }
            if old_v.to_set().contains(n) {
                let k = choose|k: int| 0 <= k < old_v.len() && old_v[k] == n;
                if k < at {
                    assert(nv[k] == n);
                } else {
                    assert(nv[k + 1] == n);
                }
            }
            if n == x@ {
                assert(nv[at] == n);
            }
        }
        assert(nv.to_set() =~= old_v.to_set().insert(x@));
    }
}

/// The sorted, de-duplicated source basenames of `g`, joined by `+`.
pub fn combined_source(g: &Vec<Sample>) -> (r: String)
    ensures
        source_label_of(g@, r@),
{
    let mut names: Vec<String> = Vec::new();
    let mut i: usize = 0;
    while i < g.len()
        invariant
            i <= g.len(),
            sorted_distinct(views(names@)),
            views(names@).to_set() == Set::new(
                |n: Seq<char>| exists|k: int| 0 <= k < i && n == basename(g@[k].source_path@),
            ),
        decreases g.len() - i,
    {
        let b = path_basename(g[i].source_path.as_str());
        let ghost before = views(names@).to_set();
        insert_name(&mut names, b);
        proof {
            assert(views(names@).to_set() =~= Set::new(
                |n: Seq<char>| exists|k: int| 0 <= k < i + 1 && n == basename(g@[k].source_path@),
            )) by {
                assert forall|n: Seq<char>|
                    (exists|k: int| 0 <= k < i + 1 && n == basename(g@[k].source_path@))
                        implies views(names@).to_set().contains(n) by {
                    let k = choose|k: int| 0 <= k < i + 1 && n == basename(g@[k].source_path@);
                    if k < i {
                        assert(before.contains(n));
                    }
                }
            }
        }
        i = i + 1;
    }
    let r = join_with_plus(&names);
    proof {
        assert(views(names@).to_set() =~= source_names(g@));
        assert(sorted_distinct(views(names@)) && views(names@).to_set() == source_names(g@) && r@
            == join_plus(views(names@)));
    }
    r
}

/// The merged status of `g`: see `merged_status`.
pub fn combined_status(g: &Vec<Sample>) -> (r: Option<String>)
    ensures
        opt_str(r) == merged_status(g@),
{
    let mut first: Option<String> = None;
    let mut mixed = false;
    let mut i: usize = 0;
    while i < g.len()
        invariant
            i <= g.len(),
            first is None <==> status_absent(g@.subrange(0, i as int)),
            first is Some ==> exists|j: int|
                0 <= j < i && opt_str(g@[j].status) == opt_str(first),
            !mixed ==> forall|j: int|
                0 <= j < i && g@[j].status is Some ==> opt_str(g@[j].status) == opt_str(first),
            mixed ==> first is Some && exists|j: int|
                0 <= j < i && g@[j].status is Some && opt_str(g@[j].status) != opt_str(first),
        decreases g.len() - i,
    {
        let ghost prefix = g@.subrange(0, i as int + 1);
        assert(prefix[i as int] == g@[i as int]);
        match &g[i].status {
            Some(st) => {
                match &first {
                    None => {
                        first = Some(st.clone());
                        proof {
                            assert(!status_absent(prefix));
                        }
                    },
                    Some(f) => {
                        let same = f.eq(st);
                        if !same {
                            mixed = true;
                            assert(opt_str(g@[i as int].status) != opt_str(first));
                        } else {
                            assert(opt_str(g@[i as int].status) == opt_str(first));
                        }
                        proof {
                            assert(!status_absent(prefix));
                        }
                    },
                }
            },
            None => {
                proof {
                    if status_absent(g@.subrange(0, i as int)) {
                        assert forall|j: int| 0 <= j < prefix.len() implies prefix[j].status is None by {
                            if j < i {
                                assert(prefix[j] == g@.subrange(0, i as int)[j]);
                            }
                        }
                    } else {
                        let j = choose|j: int| 0 <= j < i && !(g@.subrange(0, i as int)[j].status is None);
                        assert(prefix[j] == g@.subrange(0, i as int)[j]);
                    }
                }
            },
        }
        proof {
            if first is Some && !status_absent(g@.subrange(0, i as int)) {
                let j = choose|j: int| 0 <= j < i && !(g@.subrange(0, i as int)[j].status is None);
                assert(prefix[j] == g@.subrange(0, i as int)[j]);
            }
        }
        i = i + 1;
    }
    assert(g@.subrange(0, g.len() as int) =~= g@);
    match first {
        None => None,
        Some(f) => {
            if mixed {
                proof {
                    if exists|v: Seq<char>| status_uniform(g@, v) {
                        let v = choose|v: Seq<char>| status_uniform(g@, v);
                        let j = choose|j: int| 0 <= j < g.len() && opt_str(g@[j].status) == Some(f@);
                        assert(f@ == v);
                    }
                    reveal_strlit("mixed");
                }
                Some(String::from_str("mixed"))
            } else {
                proof {
                    assert(status_uniform(g@, f@));
                    let v = choose|v: Seq<char>| status_uniform(g@, v);
                    let j = choose|j: int| 0 <= j < g.len() && opt_str(g@[j].status) == Some(f@);
                    assert(v == f@);
                }
                Some(f)
            }
        },
    }
}

/// Merges the readings `g` (those taken at time `ts`) into one reading
/// stamped `ts`; fails only on an empty group.
pub fn merge_group(ts: i64, g: &Vec<Sample>) -> (r: Result<Sample, MergeError>)
    requires
        energy_totals_fit(g@),
    ensures
        g@.len() == 0 <==> r is Err,
        r matches Ok(m) ==> m.ts == ts && is_merge_of(m, g@),
{
    if g.len() == 0 {
        return Err(MergeError::EmptyGroup);
    }
    let mut nows: Vec<Option<u64>> = Vec::new();
    let mut fulls: Vec<Option<u64>> = Vec::new();
    let mut designs: Vec<Option<u64>> = Vec::new();
    let mut pcts: Vec<Option<u64>> = Vec::new();
    let mut caps: Vec<Option<u64>> = Vec::new();
    let mut healths: Vec<Option<u64>> = Vec::new();
    let mut i: usize = 0;
    while i < g.len()
        invariant
            i <= g.len(),
            nows@ == energy_now_of(g@.subrange(0, i as int)),
            fulls@ == energy_full_of(g@.subrange(0, i as int)),
            designs@ == energy_design_of(g@.subrange(0, i as int)),
            pcts@ == percentage_of(g@.subrange(0, i as int)),
            caps@ == capacity_of(g@.subrange(0, i as int)),
            healths@ == health_of(g@.subrange(0, i as int)),
        decreases g.len() - i,
    {
        let ghost pre = g@.subrange(0, i as int);
        let ghost next = g@.subrange(0, i as int + 1);
        assert(next =~= pre.push(g@[i as int]));
        nows.push(g[i].energy_now_mwh);
        fulls.push(g[i].energy_full_mwh);
        designs.push(g[i].energy_full_design_mwh);
        pcts.push(g[i].percentage);
        caps.push(g[i].capacity_pct);
        healths.push(g[i].health_pct);
        proof {
            assert(nows@ =~= energy_now_of(next));
            assert(fulls@ =~= energy_full_of(next));
            assert(designs@ =~= energy_design_of(next));
            assert(pcts@ =~= percentage_of(next));
            assert(caps@ =~= capacity_of(next));
            assert(healths@ =~= health_of(next));
        }
        i = i + 1;
    }
    assert(g@.subrange(0, g.len() as int) =~= g@);
    let energy_now = sum_or_none(&nows);
    let energy_full = sum_or_none(&fulls);
    let energy_design = sum_or_none(&designs);
    let mut percentage = percent(energy_now, energy_full);
    if percentage.is_none() {
        percentage = avg_or_none(&pcts);
    }
    let mut health = percent(energy_full, energy_design);
    if health.is_none() {
        health = avg_or_none(&healths);
    }
    let capacity = avg_or_none(&caps);
    let status = combined_status(g);
    let source = combined_source(g);
    Ok(
        Sample {
            ts,
            percentage,
            capacity_pct: capacity,
            health_pct: health,
            energy_now_mwh: energy_now,
            energy_full_mwh: energy_full,
            energy_full_design_mwh: energy_design,
            status,
            source_path: source,
        },
    )
}

/// `out` is the merge of `input`: one reading per distinct timestamp of
/// `input`, ascending, each the merge of that timestamp's readings.
pub open spec fn merge_output(input: Seq<Sample>, out: Seq<Sample>) -> bool {
    &&& forall|i: int, j: int| 0 <= i < j < out.len() ==> out[i].ts < out[j].ts
    &&& forall|t: i64| has_ts(input, t) <==> has_ts(out, t)
    &&& forall|i: int| 0 <= i < out.len() ==> is_merge_of(out[i], group_at(input, out[i].ts))
}

/// A group's total of a field is at most the total over all readings.
pub proof fn lemma_group_total_le(s: Seq<Sample>, t: i64)
    ensures
        total(energy_now_of(group_at(s, t))) <= total(energy_now_of(s)),
        total(energy_full_of(group_at(s, t))) <= total(energy_full_of(s)),
        total(energy_design_of(group_at(s, t))) <= total(energy_design_of(s)),
    decreases s.len(),
{
    reveal(Seq::filter);
    if s.len() > 0 {
        let rest = s.drop_last();
        lemma_group_total_le(rest, t);
        let g = group_at(s, t);
        let gr = group_at(rest, t);
        assert(energy_now_of(rest) =~= energy_now_of(s).drop_last());
        assert(energy_full_of(rest) =~= energy_full_of(s).drop_last());
        assert(energy_design_of(rest) =~= energy_design_of(s).drop_last());
        if s.last().ts == t {
            assert(g == gr.push(s.last()));
            assert(energy_now_of(gr) =~= energy_now_of(g).drop_last());
            assert(energy_full_of(gr) =~= energy_full_of(g).drop_last());
            assert(energy_design_of(gr) =~= energy_design_of(g).drop_last());
        } else {
            assert(g == gr);
            lemma_total_nonneg(energy_now_of(s));
        }
    }
}

/// Whether every energy field's total over all readings fits a merged
/// reading; when it does, `aggregate_battery_metrics` may be called.
pub fn within_energy_limits(samples: &Vec<Sample>) -> (r: bool)
    ensures
        r == (energy_totals_fit(samples@)),
        r ==> group_totals_fit(samples@),
{
    let mut now: u64 = 0;
    let mut full: u64 = 0;
    let mut design: u64 = 0;
    let mut i: usize = 0;
    while i < samples.len()
        invariant
            i <= samples.len(),
            now as int == total(energy_now_of(samples@.subrange(0, i as int))),
            full as int == total(energy_full_of(samples@.subrange(0, i as int))),
            design as int == total(energy_design_of(samples@.subrange(0, i as int))),
            now <= ENERGY_TOTAL_MAX,
            full <= ENERGY_TOTAL_MAX,
            design <= ENERGY_TOTAL_MAX,
        decreases samples.len() - i,
    {
        let ghost next = samples@.subrange(0, i as int + 1);
        proof {
            assert(energy_now_of(next).drop_last() =~= energy_now_of(samples@.subrange(0, i as int)));
            assert(energy_full_of(next).drop_last() =~= energy_full_of(samples@.subrange(0, i as int)));
            assert(energy_design_of(next).drop_last() =~= energy_design_of(samples@.subrange(0, i as int)));
            assert(energy_now_of(next).last() == samples@[i as int].energy_now_mwh);
            assert(energy_full_of(next).last() == samples@[i as int].energy_full_mwh);
            assert(energy_design_of(next).last() == samples@[i as int].energy_full_design_mwh);
        }
        let a = match samples[i].energy_now_mwh {
            Some(v) => v,
            None => 0,
        };
        let b = match samples[i].energy_full_mwh {
            Some(v) => v,
            None => 0,
        };
        let c = match samples[i].energy_full_design_mwh {
            Some(v) => v,
            None => 0,
        };
        if a > ENERGY_TOTAL_MAX - now || b > ENERGY_TOTAL_MAX - full || c > ENERGY_TOTAL_MAX - design {
            proof {
                lemma_total_prefix(energy_now_of(samples@), i as int + 1);
                lemma_total_prefix(energy_full_of(samples@), i as int + 1);
                lemma_total_prefix(energy_design_of(samples@), i as int + 1);
                assert(energy_now_of(samples@).subrange(0, i as int + 1) =~= energy_now_of(next));
                assert(energy_full_of(samples@).subrange(0, i as int + 1) =~= energy_full_of(next));
                assert(energy_design_of(samples@).subrange(0, i as int + 1) =~= energy_design_of(next));
            }
            return false;
        }
        now = now + a;
        full = full + b;
        design = design + c;
        i = i + 1;
    }
    proof {
        assert(samples@.subrange(0, samples.len() as int) =~= samples@);
        assert forall|t: i64| #[trigger] energy_totals_fit(group_at(samples@, t)) by {
            lemma_group_total_le(samples@, t);
        }
    }
    true
}

/// Timestamps never decrease along `s`.
pub open spec fn ts_nondecreasing(s: Seq<Sample>) -> bool {
    forall|a: int, b: int| 0 <= a <= b < s.len() ==> s[a].ts <= s[b].ts
}

/// Filtering keeps exactly the readings at positions `i..j` when those are
/// the ones that pass.
pub proof fn lemma_filter_exact(s: Seq<Sample>, p: spec_fn(Sample) -> bool, i: int, j: int)
    requires
        0 <= i <= j <= s.len(),
        forall|k: int| 0 <= k < s.len() ==> (p(s[k]) <==> i <= k < j),
    ensures
        s.filter(p) == s.subrange(i, j),
    decreases s.len(),
{
    reveal(Seq::filter);
    if s.len() == 0 {
        assert(s.filter(p) =~= s.subrange(i, j));
    } else {
        let rest = s.drop_last();
        let n = s.len() - 1;
        if j <= n {
            lemma_filter_exact(rest, p, i, j);
            assert(rest.subrange(i, j) =~= s.subrange(i, j));
        } else if i == j {
            lemma_filter_exact(rest, p, n, n);
            assert(s.filter(p) =~= s.subrange(i, j));
        } else {
            lemma_filter_exact(rest, p, i, n);
            assert(rest.subrange(i, n).push(s[n]) =~= s.subrange(i, j));
        }
    }
}

/// Merges readings whose timestamps never decrease, one run of equal
/// timestamps at a time.
fn merge_ordered(samples: &Vec<Sample>) -> (r: Vec<Sample>)
    requires
        group_totals_fit(samples@),
        ts_nondecreasing(samples@),
    ensures
        merge_output(samples@, r@),
{
    let n = samples.len();
    let mut out: Vec<Sample> = Vec::new();
    let mut i: usize = 0;
    while i < n
        invariant
            n == samples@.len(),
            i <= n,
            group_totals_fit(samples@),
            ts_nondecreasing(samples@),
            0 < i < n ==> samples@[i - 1].ts < samples@[i as int].ts,
            forall|a: int, b: int| 0 <= a < b < out@.len() ==> out@[a].ts < out@[b].ts,
            forall|a: int| 0 <= a < out@.len() ==> is_merge_of(out@[a], group_at(samples@, out@[a].ts)),
            forall|t: i64|
                (exists|k: int| 0 <= k < i && samples@[k].ts == t) <==> has_ts(out@, t),
            out@.len() > 0 ==> i > 0 && out@[out@.len() - 1].ts == samples@[i - 1].ts,
        decreases n - i,
    {
        let t = samples[i].ts;
        let mut g: Vec<Sample> = Vec::new();
        let mut j: usize = i;
        while j < n && samples[j].ts == t
            invariant
                n == samples@.len(),
                i < n,
                t == samples@[i as int].ts,
                i <= j <= n,
                g@ == samples@.subrange(i as int, j as int),
                forall|k: int| i <= k < j ==> samples@[k].ts == t,
            decreases n - j,
        {
            g.push(samples[j].duplicate());
            proof {
                assert(samples@.subrange(i as int, j as int + 1) =~= samples@.subrange(i as int, j as int).push(samples@[j as int]));
            }
            j = j + 1;
        }
        proof {
            assert forall|k: int| 0 <= k < samples@.len() implies (samples@[k].ts == t <==> i <= k < j) by {
                if k < i {
                    assert(samples@[k].ts <= samples@[i - 1].ts);
                }
                if k >= j {
                    assert(samples@[j as int].ts >= t);
                    assert(samples@[j as int].ts != t);
                    assert(samples@[k].ts >= samples@[j as int].ts);
                }
            }
            lemma_filter_exact(samples@, |x: Sample| x.ts == t, i as int, j as int);
            assert(group_at(samples@, t) == g@);
            assert(energy_totals_fit(group_at(samples@, t)));
        }
        let ghost before = out@;
        match merge_group(t, &g) {
            Ok(m) => {
                out.push(m);
            },
            Err(_) => {
                assert(false);
            },
        }
        proof {
            assert forall|u: i64|
                (exists|k: int| 0 <= k < j && samples@[k].ts == u) <==> has_ts(out@, u) by {
                if exists|k: int| 0 <= k < j && samples@[k].ts == u {
                    let k = choose|k: int| 0 <= k < j && samples@[k].ts == u;
                    if k < i {
                        assert(exists|k2: int| 0 <= k2 < i && samples@[k2].ts == u);
                        assert(has_ts(before, u));
                        let a = choose|a: int| 0 <= a < before.len() && before[a].ts == u;
                        assert(out@[a] == before[a]);
                    } else {
                        assert(out@[before.len() as int].ts == u);
                    }
                }
                if has_ts(out@, u) {
                    let a = choose|a: int| 0 <= a < out@.len() && out@[a].ts == u;
                    if a < before.len() {
                        assert(before[a] == out@[a]);
                        assert(has_ts(before, u));
                        let k2 = choose|k2: int| 0 <= k2 < i && samples@[k2].ts == u;
                        assert(0 <= k2 < j && samples@[k2].ts == u);
                    } else {
                        assert(samples@[i as int].ts == u);
                        assert(0 <= i < j && samples@[i as int].ts == u);
                    }
                }
            }
            if before.len() > 0 {
                assert(before[before.len() - 1].ts == samples@[i - 1].ts);
                assert(samples@[i - 1].ts < t);
            }
            assert forall|a: int, b: int| 0 <= a < b < out@.len() implies out@[a].ts < out@[b].ts by {
                if b == before.len() && a < b {
                    assert(out@[a] == before[a]);
                    if a < before.len() - 1 {
                        assert(before[a].ts < before[before.len() - 1].ts);
                    }
                }
            }
            if j < n {
                assert(samples@[j - 1].ts == t);
                assert(samples@[j as int].ts >= t);
            }
        }
        i = j;
    }
    proof {
        assert forall|t: i64| has_ts(samples@, t) <==> has_ts(out@, t) by {
            if has_ts(samples@, t) {
                let k = choose|k: int| 0 <= k < samples@.len() && samples@[k].ts == t;
                assert(0 <= k < i && samples@[k].ts == t);
            }
        }
    }
    out
}

/// Whether the timestamps never decrease along the readings.
fn is_time_ordered(samples: &Vec<Sample>) -> (r: bool)
    ensures
        r == ts_nondecreasing(samples@),
{
    let mut i: usize = 1;
    if samples.len() == 0 {
        return true;
    }
    while i < samples.len()
        invariant
            1 <= i <= samples.len(),
            forall|a: int, b: int| 0 <= a <= b < i ==> samples@[a].ts <= samples@[b].ts,
        decreases samples.len() - i,
    {
        if samples[i - 1].ts > samples[i].ts {
            return false;
        }
        i = i + 1;
    }
    true
}

/// Collapses the readings that share a timestamp into one merged reading per
/// timestamp, in ascending order of time. Input that is not in time order
/// is first sorted by time, stably.
pub fn aggregate_battery_metrics(samples: &Vec<Sample>) -> (r: Vec<Sample>)
    requires
        group_totals_fit(samples@),
    ensures
        merge_output(samples@, r@),
{
    if is_time_ordered(samples) {
        merge_ordered(samples)
    } else {
        let sorted = stable_sort_by_ts(samples);
        proof {
            assert forall|t: i64| #[trigger] energy_totals_fit(group_at(sorted@, t)) by {
                assert(group_at(sorted@, t) == group_at(samples@, t));
            }
        }
        let r = merge_ordered(&sorted);
        proof {
            assert forall|t: i64| has_ts(samples@, t) <==> has_ts(sorted@, t) by {
                lemma_has_ts_group(samples@, t);
                lemma_has_ts_group(sorted@, t);
                assert(group_at(sorted@, t) == group_at(samples@, t));
            }
            assert forall|i: int| 0 <= i < r@.len() implies is_merge_of(
                r@[i],
                group_at(samples@, r@[i].ts),
            ) by {
                assert(group_at(sorted@, r@[i].ts) == group_at(samples@, r@[i].ts));
            }
        }
        r
    }
}

} // verus!
