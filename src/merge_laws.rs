//! Laws of the merge: when a merged status is `mixed`, and that merging a
//! merge again changes no field.
use vstd::prelude::*;
use crate::aggregate::{
    group_at, group_totals_fit, energy_totals_fit, has_ts, is_merge_of, merge_output,
    merged_status, status_absent, status_uniform,
};
use crate::sample::{
    Sample, opt_int, opt_str, total, count_present, sum_spec, mean_spec, energy_now_of,
    energy_full_of, energy_design_of, percentage_of, capacity_of, health_of,
};

verus! {

/// Two readings of `g` carry different statuses: the set of distinct
/// statuses has more than one member.
pub open spec fn statuses_differ(g: Seq<Sample>) -> bool {
    exists|i: int, j: int|
        0 <= i < g.len() && 0 <= j < g.len() && g[i].status is Some && g[j].status is Some
            && opt_str(g[i].status) != opt_str(g[j].status)
}

/// A merged status is `mixed` exactly when two different statuses occur,
/// provided no reading itself already says `mixed`.
pub proof fn lemma_mixed_iff_statuses_differ(g: Seq<Sample>)
    requires
        forall|i: int| 0 <= i < g.len() ==> opt_str(g[i].status) != Some("mixed"@),
    ensures
        merged_status(g) == Some("mixed"@) <==> statuses_differ(g),
{
    if statuses_differ(g) {
        let (i, j) = choose|i: int, j: int|
            0 <= i < g.len() && 0 <= j < g.len() && g[i].status is Some && g[j].status is Some
                && opt_str(g[i].status) != opt_str(g[j].status);
        assert(!status_absent(g));
        if exists|v: Seq<char>| status_uniform(g, v) {
            let v = choose|v: Seq<char>| status_uniform(g, v);
            assert(opt_str(g[i].status) == Some(v));
            assert(opt_str(g[j].status) == Some(v));
        }
    } else {
        if merged_status(g) == Some("mixed"@) {
            assert(!status_absent(g));
            let i = choose|i: int| 0 <= i < g.len() && !(g[i].status is None);
            let v = opt_str(g[i].status)->0;
            assert(status_uniform(g, v));
            let w = choose|w: Seq<char>| status_uniform(g, w);
            let k = choose|k: int| 0 <= k < g.len() && opt_str(g[k].status) == Some(w);
            assert(opt_str(g[k].status) == opt_str(g[i].status));
        }
    }
}

/// The timestamps of `s` strictly ascend.
pub open spec fn ts_ascending(s: Seq<Sample>) -> bool {
    forall|i: int, j: int| 0 <= i < j < s.len() ==> s[i].ts < s[j].ts
}

/// In a sequence with strictly ascending timestamps, each timestamp's group
/// is the one reading taken then, and absent timestamps have no group.
pub proof fn lemma_group_of_ascending(s: Seq<Sample>, t: i64)
    requires
        ts_ascending(s),
    ensures
        forall|i: int| 0 <= i < s.len() && s[i].ts == t ==> group_at(s, t) == seq![s[i]],
        !has_ts(s, t) ==> group_at(s, t).len() == 0,
    decreases s.len(),
{
    reveal(Seq::filter);
    if s.len() > 0 {
        let rest = s.drop_last();
        assert(ts_ascending(rest));
        lemma_group_of_ascending(rest, t);
        if s.last().ts == t {
            assert(!has_ts(rest, t));
            assert(group_at(s, t) =~= seq![s.last()]);
        } else {
            assert forall|i: int| 0 <= i < s.len() && s[i].ts == t implies group_at(s, t)
                == seq![s[i]] by {
                assert(rest[i] == s[i]);
            }
            if !has_ts(s, t) {
                assert(!has_ts(rest, t));
            }
        }
    }
}

/// Two sequences with strictly ascending timestamps and the same timestamps
/// have equal timestamps position by position.
pub proof fn lemma_ascending_same_ts(a: Seq<Sample>, b: Seq<Sample>)
    requires
        ts_ascending(a),
        ts_ascending(b),
        forall|t: i64| has_ts(a, t) <==> has_ts(b, t),
    ensures
        a.len() == b.len(),
        forall|i: int| 0 <= i < a.len() ==> a[i].ts == b[i].ts,
    decreases a.len() + b.len(),
{
    if a.len() > 0 && b.len() > 0 {
        let la = a.last().ts;
        let lb = b.last().ts;
        assert(has_ts(a, la));
        assert(has_ts(b, lb));
        let kb = choose|k: int| 0 <= k < b.len() && b[k].ts == la;
        let ka = choose|k: int| 0 <= k < a.len() && a[k].ts == lb;
        assert(la == lb) by {
            if la < lb {
                assert(a[ka].ts <= la);
            } else if lb < la {
                assert(b[kb].ts <= lb);
            }
        }
        let ra = a.drop_last();
        let rb = b.drop_last();
        assert forall|t: i64| has_ts(ra, t) <==> has_ts(rb, t) by {
            if has_ts(ra, t) {
                let k = choose|k: int| 0 <= k < ra.len() && ra[k].ts == t;
                assert(t < la);
                assert(has_ts(b, t));
                let m = choose|m: int| 0 <= m < b.len() && b[m].ts == t;
                assert(m != b.len() - 1);
                assert(rb[m].ts == t);
            }
            if has_ts(rb, t) {
                let k = choose|k: int| 0 <= k < rb.len() && rb[k].ts == t;
                assert(t < lb);
                assert(has_ts(a, t));
                let m = choose|m: int| 0 <= m < a.len() && a[m].ts == t;
                assert(m != a.len() - 1);
                assert(ra[m].ts == t);
            }
        }
        lemma_ascending_same_ts(ra, rb);
        assert forall|i: int| 0 <= i < a.len() implies a[i].ts == b[i].ts by {
            if i < a.len() - 1 {
                assert(ra[i] == a[i]);
                assert(rb[i] == b[i]);
            }
        }
    } else if a.len() > 0 {
        assert(has_ts(a, a[0].ts));
    } else if b.len() > 0 {
        assert(has_ts(b, b[0].ts));
    }
}

/// The numeric fields and the status of two readings agree.
pub open spec fn same_fields(a: Sample, b: Sample) -> bool {
    &&& a.ts == b.ts
    &&& a.percentage == b.percentage
    &&& a.capacity_pct == b.capacity_pct
    &&& a.health_pct == b.health_pct
    &&& a.energy_now_mwh == b.energy_now_mwh
    &&& a.energy_full_mwh == b.energy_full_mwh
    &&& a.energy_full_design_mwh == b.energy_full_design_mwh
    &&& opt_str(a.status) == opt_str(b.status)
}

proof fn lemma_single_sums(m: Sample)
    ensures
        sum_spec(energy_now_of(seq![m])) == opt_int(m.energy_now_mwh),
        sum_spec(energy_full_of(seq![m])) == opt_int(m.energy_full_mwh),
        sum_spec(energy_design_of(seq![m])) == opt_int(m.energy_full_design_mwh),
        mean_spec(percentage_of(seq![m])) == opt_int(m.percentage),
        mean_spec(capacity_of(seq![m])) == opt_int(m.capacity_pct),
        mean_spec(health_of(seq![m])) == opt_int(m.health_pct),
        total(energy_now_of(seq![m])) == match m.energy_now_mwh { Some(v) => v as int, None => 0 },
        total(energy_full_of(seq![m])) == match m.energy_full_mwh { Some(v) => v as int, None => 0 },
        total(energy_design_of(seq![m])) == match m.energy_full_design_mwh { Some(v) => v as int, None => 0 },
{
    let g = seq![m];
    lemma_single_field(energy_now_of(g), m.energy_now_mwh);
    lemma_single_field(energy_full_of(g), m.energy_full_mwh);
    lemma_single_field(energy_design_of(g), m.energy_full_design_mwh);
    lemma_single_field(percentage_of(g), m.percentage);
    lemma_single_field(capacity_of(g), m.capacity_pct);
    lemma_single_field(health_of(g), m.health_pct);
}

proof fn lemma_single_field(s: Seq<Option<u64>>, v: Option<u64>)
    requires
        s.len() == 1,
        s[0] == v,
    ensures
        sum_spec(s) == opt_int(v),
        mean_spec(s) == opt_int(v),
        total(s) == match v { Some(x) => x as int, None => 0 },
{
    assert(s.drop_last() =~= Seq::<Option<u64>>::empty());
    assert(s.last() == v);
    assert(total(s.drop_last()) == 0);
    assert(count_present(s.drop_last()) == 0);
    vstd::arithmetic::div_mod::lemma_div_basics(total(s));
}

proof fn lemma_single_status(m: Sample)
    ensures
        merged_status(seq![m]) == opt_str(m.status),
{
    let g = seq![m];
    if m.status is Some {
        let v = m.status->0@;
        assert(g[0] == m);
        assert(status_uniform(g, v));
        let w = choose|w: Seq<char>| status_uniform(g, w);
        let k = choose|k: int| 0 <= k < g.len() && opt_str(g[k].status) == Some(w);
    } else {
        assert(g[0] == m);
    }
}

/// Merging the output of a merge again reproduces every reading's numeric
/// fields and status; only the source label may be rewritten. The first
/// output also meets the condition for merging it again.
pub proof fn lemma_merge_idempotent(raw: Seq<Sample>, once: Seq<Sample>, twice: Seq<Sample>)
    requires
        group_totals_fit(raw),
        merge_output(raw, once),
        merge_output(once, twice),
    ensures
        group_totals_fit(once),
        twice.len() == once.len(),
        forall|i: int| 0 <= i < once.len() ==> same_fields(#[trigger] twice[i], once[i]),
{
    assert(ts_ascending(once));
    assert forall|t: i64| #[trigger] energy_totals_fit(group_at(once, t)) by {
        lemma_group_of_ascending(once, t);
        if has_ts(once, t) {
            let i = choose|i: int| 0 <= i < once.len() && once[i].ts == t;
            let m = once[i];
            lemma_single_sums(m);
            assert(is_merge_of(m, group_at(raw, t)));
            assert(energy_totals_fit(group_at(raw, t)));
        } else {
            assert(group_at(once, t) =~= Seq::<Sample>::empty());
            assert(energy_now_of(group_at(once, t)) =~= Seq::<Option<u64>>::empty());
            assert(energy_full_of(group_at(once, t)) =~= Seq::<Option<u64>>::empty());
            assert(energy_design_of(group_at(once, t)) =~= Seq::<Option<u64>>::empty());
        }
    }
    lemma_ascending_same_ts(once, twice);
    assert forall|i: int| 0 <= i < once.len() implies same_fields(#[trigger] twice[i], once[i]) by {
        let m = once[i];
        lemma_group_of_ascending(once, m.ts);
        assert(group_at(once, twice[i].ts) == seq![m]);
        lemma_single_sums(m);
        lemma_single_status(m);
    }
}

/// The distinct statuses present in `g`.
pub open spec fn status_set(g: Seq<Sample>) -> Set<Seq<char>> {
    Set::new(|v: Seq<char>| exists|i: int| 0 <= i < g.len() && opt_str(g[i].status) == Some(v))
}

proof fn lemma_status_set_finite(g: Seq<Sample>)
    ensures
        status_set(g).finite(),
    decreases g.len(),
{
    if g.len() == 0 {
        assert(status_set(g) =~= Set::<Seq<char>>::empty());
    } else {
        let rest = g.drop_last();
        lemma_status_set_finite(rest);
        match opt_str(g.last().status) {
            Some(v) => {
                assert forall|w: Seq<char>| status_set(g).contains(w) <==> status_set(rest).insert(
                    v,
                ).contains(w) by {
                    if status_set(g).contains(w) {
                        let i = choose|i: int| 0 <= i < g.len() && opt_str(g[i].status) == Some(w);
                        if i < rest.len() {
                            assert(rest[i] == g[i]);
                        }
                    }
                    if status_set(rest).contains(w) {
                        let i = choose|i: int|
                            0 <= i < rest.len() && opt_str(rest[i].status) == Some(w);
                        assert(rest[i] == g[i]);
                    }
                    if w == v {
                        assert(opt_str(g[g.len() - 1].status) == Some(w));
                    }
                }
                assert(status_set(g) =~= status_set(rest).insert(v));
            },
            None => {
                assert forall|w: Seq<char>| status_set(g).contains(w) <==> status_set(
                    rest,
                ).contains(w) by {
                    if status_set(g).contains(w) {
                        let i = choose|i: int| 0 <= i < g.len() && opt_str(g[i].status) == Some(w);
                        if i < rest.len() {
                            assert(rest[i] == g[i]);
                        }
                    }
                    if status_set(rest).contains(w) {
                        let i = choose|i: int|
                            0 <= i < rest.len() && opt_str(rest[i].status) == Some(w);
                        assert(rest[i] == g[i]);
                    }
                }
                assert(status_set(g) =~= status_set(rest));
            },
        }
    }
}

proof fn lemma_more_than_one(s: Set<Seq<char>>)
    requires
        s.finite(),
    ensures
        s.len() > 1 <==> exists|a: Seq<char>, b: Seq<char>| s.contains(a) && s.contains(b) && a != b,
{
    if s.len() > 1 {
        let a = s.choose();
        vstd::set::axiom_set_choose_len(s);
        vstd::set::axiom_set_remove_len(s, a);
        let r = s.remove(a);
        vstd::set::axiom_set_choose_len(r);
        let b = r.choose();
        assert(s.contains(a) && s.contains(b) && a != b);
    }
    if exists|a: Seq<char>, b: Seq<char>| s.contains(a) && s.contains(b) && a != b {
        let (a, b) = choose|a: Seq<char>, b: Seq<char>| s.contains(a) && s.contains(b) && a != b;
        vstd::set::axiom_set_remove_len(s, a);
        vstd::set::axiom_set_remove_finite(s, a);
        vstd::set::axiom_set_contains_len(s.remove(a), b);
    }
}

/// A merged status is `mixed` exactly when the set of distinct statuses of
/// the readings has more than one member, provided no reading itself already
/// says `mixed`.
pub proof fn lemma_mixed_iff_several_statuses(g: Seq<Sample>)
    requires
        forall|i: int| 0 <= i < g.len() ==> opt_str(g[i].status) != Some("mixed"@),
    ensures
        merged_status(g) == Some("mixed"@) <==> status_set(g).len() > 1,
{
    lemma_mixed_iff_statuses_differ(g);
    lemma_status_set_finite(g);
    lemma_more_than_one(status_set(g));
    if statuses_differ(g) {
        let (i, j) = choose|i: int, j: int|
            0 <= i < g.len() && 0 <= j < g.len() && g[i].status is Some && g[j].status is Some
                && opt_str(g[i].status) != opt_str(g[j].status);
        let a = opt_str(g[i].status)->0;
        let b = opt_str(g[j].status)->0;
        assert(status_set(g).contains(a) && status_set(g).contains(b) && a != b);
    }
    if exists|a: Seq<char>, b: Seq<char>|
        status_set(g).contains(a) && status_set(g).contains(b) && a != b {
        let (a, b) = choose|a: Seq<char>, b: Seq<char>|
            status_set(g).contains(a) && status_set(g).contains(b) && a != b;
        let i = choose|i: int| 0 <= i < g.len() && opt_str(g[i].status) == Some(a);
        let j = choose|j: int| 0 <= j < g.len() && opt_str(g[j].status) == Some(b);
        assert(statuses_differ(g));
    }
}

} // verus!
