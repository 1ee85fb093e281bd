//! Strictly ascending sequences of integer keys, used as ordered sets.
use vstd::prelude::*;

verus! {

/// Strictly ascending.
pub open spec fn ascending(k: Seq<i64>) -> bool {
    forall|i: int, j: int| 0 <= i < j < k.len() ==> k[i] < k[j]
}

/// Inserts `t` into the strictly ascending `keys`, unless it is there already.
pub(crate) fn insert_key(sorted: Vec<i64>, t: i64) -> (r: Vec<i64>)
    requires
        ascending(sorted@),
    ensures
        ascending(r@),
        forall|u: i64| r@.contains(u) <==> (sorted@.contains(u) || u == t),
{
    let ghost old_k = sorted@;
    let mut keys = sorted;
    let mut i: usize = 0;
    while i < keys.len() && keys[i] < t
        invariant
            keys@ == old_k,
            ascending(old_k),
            i <= keys.len(),
            forall|k: int| 0 <= k < i ==> old_k[k] < t,
        decreases keys.len() - i,
    {
        i = i + 1;
    }
    if i < keys.len() && keys[i] == t {
        proof {
            assert(old_k[i as int] == t);
            assert(old_k.contains(t));
        }
    } else {
        keys.insert(i, t);
        proof {
            let at = i as int;
            assert(keys@ =~= old_k.insert(at, t));
            assert(at == old_k.len() || old_k[at] > t);
            assert forall|u: i64| keys@.contains(u) <==> (old_k.contains(u) || u == t) by {
                lemma_insert_contains(old_k, at, t, u);
            }
            assert forall|a: int, b: int| 0 <= a < b < keys@.len() implies keys@[a] < keys@[b] by {
                if b < at {
                } else if b == at {
                } else if a < at {
                    assert(old_k[a] < t);
                } else if a == at {
                    assert(old_k[at] <= old_k[b - 1]);
                } else {
                }
            }
        }
    }
    assert(old_k == sorted@);
    assert(forall|u: i64| keys@.contains(u) <==> (old_k.contains(u) || u == t));
    keys
}

/// What a sequence holds after an insertion.
pub proof fn lemma_insert_contains<A>(s: Seq<A>, at: int, x: A, u: A)
    requires
        0 <= at <= s.len(),
    ensures
        s.insert(at, x).contains(u) <==> (s.contains(u) || u == x),
{
    let n = s.insert(at, x);
    if n.contains(u) {
        let k = choose|k: int| 0 <= k < n.len() && n[k] == u;
        if k < at {
            assert(s[k] == u);
        } else if k > at {
            assert(s[k - 1] == u);
        }
    }
    if s.contains(u) {
        let k = choose|k: int| 0 <= k < s.len() && s[k] == u;
        if k < at {
            assert(n[k] == u);
        } else {
            assert(n[k + 1] == u);
        }
    }
    if u == x {
        assert(n[at] == u);
    }
}

} // verus!
