//! Stable sorting of readings by time.
use vstd::prelude::*;
use crate::aggregate::{group_at, has_ts, ts_nondecreasing};
use crate::sample::Sample;

verus! {

/// Appending a reading appends it to its own timestamp's group only.
pub proof fn lemma_group_push(s: Seq<Sample>, x: Sample, t: i64)
    ensures
        group_at(s.push(x), t) == if x.ts == t {
            group_at(s, t).push(x)
        } else {
            group_at(s, t)
        },
{
    reveal(Seq::filter);
    assert(s.push(x).drop_last() =~= s);
}

/// Some reading is taken at `t` exactly when `t`'s group is not empty.
pub proof fn lemma_has_ts_group(s: Seq<Sample>, t: i64)
    ensures
        has_ts(s, t) <==> group_at(s, t).len() > 0,
    decreases s.len(),
{
    if s.len() > 0 {
        let rest = s.drop_last();
        assert(rest.push(s.last()) =~= s);
        lemma_group_push(rest, s.last(), t);
        lemma_has_ts_group(rest, t);
        if has_ts(s, t) && s.last().ts != t {
            let k = choose|k: int| 0 <= k < s.len() && s[k].ts == t;
            assert(rest[k] == s[k]);
        }
        if has_ts(rest, t) {
            let k = choose|k: int| 0 <= k < rest.len() && rest[k].ts == t;
            assert(s[k] == rest[k]);
        }
    } else {
        reveal(Seq::filter);
    }
}

/// A group is empty when no reading is taken at its timestamp.
proof fn lemma_group_empty(s: Seq<Sample>, t: i64)
    requires
        forall|k: int| 0 <= k < s.len() ==> s[k].ts != t,
    ensures
        group_at(s, t) == Seq::<Sample>::empty(),
{
    lemma_has_ts_group(s, t);
}

fn copy_range(s: &Vec<Sample>, lo: usize, hi: usize) -> (r: Vec<Sample>)
    requires
        lo <= hi <= s@.len(),
    ensures
        r@ == s@.subrange(lo as int, hi as int),
{
    let mut r: Vec<Sample> = Vec::new();
    let mut k: usize = lo;
    while k < hi
        invariant
            lo <= k <= hi <= s@.len(),
            r@ == s@.subrange(lo as int, k as int),
        decreases hi - k,
    {
        r.push(s[k].duplicate());
        assert(s@.subrange(lo as int, k as int + 1) =~= s@.subrange(lo as int, k as int).push(
            s@[k as int],
        ));
        k = k + 1;
    }
    r
}

/// Merges two time-ordered sequences; on equal times the readings of `a`
/// come first.
fn merge_runs(a: &Vec<Sample>, b: &Vec<Sample>) -> (r: Vec<Sample>)
    requires
        ts_nondecreasing(a@),
        ts_nondecreasing(b@),
    ensures
        ts_nondecreasing(r@),
        forall|t: i64| #[trigger] group_at(r@, t) == group_at(a@, t) + group_at(b@, t),
{
    let mut r: Vec<Sample> = Vec::new();
    let mut i: usize = 0;
    let mut j: usize = 0;
    while i < a.len() || j < b.len()
        invariant
            ts_nondecreasing(a@),
            ts_nondecreasing(b@),
            i <= a@.len(),
            j <= b@.len(),
            ts_nondecreasing(r@),
            forall|t: i64|
                #[trigger] group_at(r@, t) == group_at(a@.subrange(0, i as int), t) + group_at(
                    b@.subrange(0, j as int),
                    t,
                ),
            i < a@.len() ==> forall|k: int| 0 <= k < j ==> b@[k].ts < a@[i as int].ts,
            r@.len() > 0 && i < a@.len() ==> r@.last().ts <= a@[i as int].ts,
            r@.len() > 0 && j < b@.len() ==> r@.last().ts <= b@[j as int].ts,
        decreases a@.len() + b@.len() - i - j,
    {
        let ghost before = r@;
        let ghost ai = a@.subrange(0, i as int);
        let ghost bj = b@.subrange(0, j as int);
        let take_a = j >= b.len() || (i < a.len() && a[i].ts <= b[j].ts);
        if take_a {
            let x = a[i].duplicate();
            r.push(x);
            i = i + 1;
            proof {
                assert(a@.subrange(0, i as int) =~= ai.push(a@[i - 1]));
                assert forall|t: i64| #[trigger] group_at(r@, t) == group_at(
                    a@.subrange(0, i as int),
                    t,
                ) + group_at(bj, t) by {
                    lemma_group_push(before, a@[i - 1], t);
                    lemma_group_push(ai, a@[i - 1], t);
                    if a@[i - 1].ts == t {
                        lemma_group_empty(bj, t);
                        assert(group_at(bj, t) == Seq::<Sample>::empty());
                        assert(group_at(r@, t) =~= group_at(a@.subrange(0, i as int), t)
                            + group_at(bj, t));
                    }
                }
                if i < a@.len() {
                    assert(a@[i - 1].ts <= a@[i as int].ts);
                }
                assert forall|a2: int, b2: int| 0 <= a2 <= b2 < r@.len() implies r@[a2].ts
                    <= r@[b2].ts by {
                    if b2 == r@.len() - 1 && a2 < b2 {
                        assert(before[a2].ts <= before.last().ts);
                    }
                }
            }
        } else {
            let x = b[j].duplicate();
            r.push(x);
            j = j + 1;
            proof {
                assert(b@.subrange(0, j as int) =~= bj.push(b@[j - 1]));
                assert forall|t: i64| #[trigger] group_at(r@, t) == group_at(ai, t) + group_at(
                    b@.subrange(0, j as int),
                    t,
                ) by {
                    lemma_group_push(before, b@[j - 1], t);
                    lemma_group_push(bj, b@[j - 1], t);
                    if b@[j - 1].ts == t {
                        assert(group_at(r@, t) =~= group_at(ai, t) + group_at(
                            b@.subrange(0, j as int),
                            t,
                        ));
                    }
                }
                if j < b@.len() {
                    assert(b@[j - 1].ts <= b@[j as int].ts);
                }
                assert forall|a2: int, b2: int| 0 <= a2 <= b2 < r@.len() implies r@[a2].ts
                    <= r@[b2].ts by {
                    if b2 == r@.len() - 1 && a2 < b2 {
                        assert(before[a2].ts <= before.last().ts);
                    }
                }
            }
        }
    }
    proof {
        assert(a@.subrange(0, a@.len() as int) =~= a@);
        assert(b@.subrange(0, b@.len() as int) =~= b@);
    }
    r
}

/// The readings ordered by time; readings with equal times keep their
/// order. Each timestamp's group is unchanged.
pub fn stable_sort_by_ts(s: &Vec<Sample>) -> (r: Vec<Sample>)
    ensures
        ts_nondecreasing(r@),
        forall|t: i64| #[trigger] group_at(r@, t) == group_at(s@, t),
    decreases s@.len(),
{
    let n = s.len();
    if n <= 1 {
        let r = copy_range(s, 0, n);
        assert(r@ =~= s@);
        return r;
    }
    let mid = n / 2;
    let left = copy_range(s, 0, mid);
    let right = copy_range(s, mid, n);
    let sl = stable_sort_by_ts(&left);
    let sr = stable_sort_by_ts(&right);
    let r = merge_runs(&sl, &sr);
    proof {
        assert(s@ =~= left@ + right@);
        assert forall|t: i64| #[trigger] group_at(r@, t) == group_at(s@, t) by {
            Seq::filter_distributes_over_add(left@, right@, |x: Sample| x.ts == t);
        }
    }
    r
}

} // verus!
