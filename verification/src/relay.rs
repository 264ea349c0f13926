//! The fan-out relay's bookkeeping: the set of downstream connections and
//! the eviction of those whose writes failed.
//!
//! The relay itself connects upstream once, accepts many downstream
//! connections, and duplicates each frame to all of them; the decisions
//! about membership live here, keyed by small monotonic ids.

use vstd::prelude::*;
use crate::textops::str_eq;

verus! {

/// Downstream ids in strictly increasing order.
pub open spec fn ids_sorted(s: Seq<u64>) -> bool {
    forall|i: int, j: int| 0 <= i < j < s.len() ==> s[i] < s[j]
}

/// The ids of `s` that are not listed in `bad`, in order.
pub open spec fn keep_ids(s: Seq<u64>, bad: Seq<u64>) -> Seq<u64>
    decreases s.len(),
{
    if s.len() == 0 {
        s
    } else {
        let rest = keep_ids(s.drop_first(), bad);
        if bad.contains(s[0]) {
            rest
        } else {
            seq![s[0]] + rest
        }
    }
}

/// What survives `keep_ids`: exactly the ids not listed in `bad`.
pub proof fn lemma_keep_ids_contains(s: Seq<u64>, bad: Seq<u64>)
    ensures
        forall|x: u64| keep_ids(s, bad).contains(x) == (s.contains(x) && !bad.contains(x)),
        keep_ids(s, bad).len() <= s.len(),
    decreases s.len(),
{
    if s.len() > 0 {
        lemma_keep_ids_contains(s.drop_first(), bad);
        assert(s.drop_first() =~= s.subrange(1, s.len() as int));
        assert forall|x: u64| #[trigger] keep_ids(s, bad).contains(x)
            == (s.contains(x) && !bad.contains(x)) by {
            let rest = keep_ids(s.drop_first(), bad);
            assert(forall|m: int| 0 <= m < s.len() - 1 ==> s.drop_first()[m] == s[m + 1]);
            if s.contains(x) && !bad.contains(x) {
                let w = choose|i: int| 0 <= i < s.len() && s[i] == x;
                if w == 0 {
                    assert(keep_ids(s, bad)[0] == x);
                } else {
                    assert(s.drop_first()[w - 1] == x);
                    assert(rest.contains(x));
                    if !bad.contains(s[0]) {
                        let v = choose|i: int| 0 <= i < rest.len() && rest[i] == x;
                        assert((seq![s[0]] + rest)[v + 1] == x);
                    }
                }
            }
            if keep_ids(s, bad).contains(x) {
                let w = choose|i: int| 0 <= i < keep_ids(s, bad).len()
                    && keep_ids(s, bad)[i] == x;
                if !bad.contains(s[0]) && w == 0 {
                    assert(s[0] == x);
                    assert(s.contains(x)) by {
                        assert(s[0] == x);
                    }
                } else {
                    let v: int = if bad.contains(s[0]) { w } else { w - 1 };
                    assert(rest[v] == x);
                    assert(rest.contains(x));
                    assert(s.drop_first().contains(x));
                    let u = choose|i: int| 0 <= i < s.drop_first().len()
                        && #[trigger] s.drop_first()[i] == x;
                    assert(s.drop_first()[u] == s[u + 1]);
                    assert(s[u + 1] == x);
                }
            }
        }
    }
}

/// Appending one id and then filtering.
proof fn lemma_keep_ids_snoc(s: Seq<u64>, x: u64, bad: Seq<u64>)
    ensures
        keep_ids(s.push(x), bad) == if bad.contains(x) {
            keep_ids(s, bad)
        } else {
            keep_ids(s, bad).push(x)
        },
    decreases s.len(),
{
    if s.len() == 0 {
        reveal_with_fuel(keep_ids, 3);
        assert(s.push(x).drop_first() =~= Seq::<u64>::empty());
        assert(s.push(x)[0] == x);
        if !bad.contains(x) {
            assert(seq![x] + Seq::<u64>::empty() =~= keep_ids(s, bad).push(x));
        }
    } else {
        assert(s.push(x).drop_first() =~= s.drop_first().push(x));
        assert(s.push(x)[0] == s[0]);
        lemma_keep_ids_snoc(s.drop_first(), x, bad);
        if !bad.contains(s[0]) && !bad.contains(x) {
            assert(seq![s[0]] + keep_ids(s.drop_first(), bad).push(x)
                =~= (seq![s[0]] + keep_ids(s.drop_first(), bad)).push(x));
        }
    }
}

/// Whether `v` holds `x`.
fn vec_contains_u64(v: &Vec<u64>, x: u64) -> (r: bool)
    ensures
        r == v@.contains(x),
{
    let mut i: usize = 0;
    while i < v.len()
        invariant
            i <= v@.len(),
            forall|j: int| 0 <= j < i ==> v@[j] != x,
        decreases v@.len() - i,
    {
        if v[i] == x {
            return true;
        }
        i = i + 1;
    }
    false
}

/// The relay's downstream bookkeeping: which downstream connections are
/// live, under which ids.
#[derive(Debug)]
pub struct ProxyState {
    /// Ids of the live downstream connections, oldest first.
    downstreams: Vec<u64>,
    /// The next downstream id to hand out.
    next_id: u64,
}

impl ProxyState {
    /// The ids of the live downstream connections, oldest first.
    pub closed spec fn spec_downstreams(&self) -> Seq<u64> {
        self.downstreams@
    }

    /// The next id to hand out.
    pub closed spec fn spec_next_id(&self) -> u64 {
        self.next_id
    }

    /// Well-formed: ids strictly increase and sit below the counter.
    pub closed spec fn inv(&self) -> bool {
        &&& ids_sorted(self.downstreams@)
        &&& forall|i: int| 0 <= i < self.downstreams@.len()
            ==> #[trigger] self.downstreams@[i] < self.next_id
    }

    /// A relay with no downstream connections yet; ids start at 1.
    pub fn new() -> (r: ProxyState)
        ensures
            r.inv(),
            r.spec_downstreams() == Seq::<u64>::empty(),
            r.spec_next_id() == 1,
    {
        ProxyState { downstreams: Vec::new(), next_id: 1 }
    }

    /// Register a newly accepted downstream connection under a fresh id.
    pub fn add_downstream(&mut self) -> (r: u64)
        requires
            old(self).inv(),
            old(self).spec_next_id() < u64::MAX,
        ensures
            final(self).inv(),
            r == old(self).spec_next_id(),
            !old(self).spec_downstreams().contains(r),
            final(self).spec_downstreams() == old(self).spec_downstreams().push(r),
            final(self).spec_next_id() == old(self).spec_next_id() + 1,
    {
        let id = self.next_id;
        self.downstreams.push(id);
        self.next_id = self.next_id + 1;
        proof {
            if old(self).spec_downstreams().contains(id) {
                let w = choose|i: int| 0 <= i < old(self).spec_downstreams().len()
                    && old(self).spec_downstreams()[i] == id;
            }
        }
        id
    }

    /// Drop one downstream connection by id.
    pub fn remove_downstream(&mut self, id: u64)
        requires
            old(self).inv(),
        ensures
            final(self).inv(),
            final(self).spec_next_id() == old(self).spec_next_id(),
            forall|x: u64| #[trigger] final(self).spec_downstreams().contains(x)
                == (old(self).spec_downstreams().contains(x) && x != id),
    {
        let mut bad: Vec<u64> = Vec::new();
        bad.push(id);
        proof {
            assert(bad@ =~= seq![id]);
            assert forall|x: u64| #[trigger] bad@.contains(x) == (x == id) by {
                if bad@.contains(x) {
                    let w = choose|i: int| 0 <= i < bad@.len() && bad@[i] == x;
                }
                if x == id {
                    assert(bad@[0] == x);
                }
            }
        }
        self.evict_failed(&bad);
    }

    /// How many downstream connections are live.
    pub fn downstream_count(&self) -> (r: usize)
        ensures
            r == self.spec_downstreams().len(),
    {
        self.downstreams.len()
    }

    /// After a broadcast, drop every downstream whose write or flush
    /// failed; the survivors keep their order.
    pub fn evict_failed(&mut self, failed: &Vec<u64>)
        requires
            old(self).inv(),
        ensures
            final(self).inv(),
            final(self).spec_next_id() == old(self).spec_next_id(),
            final(self).spec_downstreams() == keep_ids(old(self).spec_downstreams(), failed@),
            forall|x: u64| #[trigger] final(self).spec_downstreams().contains(x)
                == (old(self).spec_downstreams().contains(x) && !failed@.contains(x)),
    {
        let ghost pre = self.downstreams@;
        let mut kept: Vec<u64> = Vec::new();
        proof {
            assert(pre.subrange(0, 0) =~= Seq::<u64>::empty());
        }
        let mut i: usize = 0;
        while i < self.downstreams.len()
            invariant
                i <= pre.len(),
                self.downstreams@ == pre,
                kept@ == keep_ids(pre.subrange(0, i as int), failed@),
            decreases pre.len() - i,
        {
            proof {
                lemma_keep_ids_snoc(pre.subrange(0, i as int), pre[i as int], failed@);
                assert(pre.subrange(0, i as int).push(pre[i as int])
                    =~= pre.subrange(0, i + 1));
            }
            if !vec_contains_u64(failed, self.downstreams[i]) {
                kept.push(self.downstreams[i]);
            }
            i = i + 1;
        }
        proof {
            assert(pre.subrange(0, pre.len() as int) =~= pre);
        }
        self.downstreams = kept;
        proof {
            lemma_keep_ids_contains(pre, failed@);
            lemma_keep_ids_sorted(pre, failed@);
            let post = self.downstreams@;
            assert forall|k: int| 0 <= k < post.len()
                implies #[trigger] post[k] < self.next_id by {
                assert(pre.contains(post[k]));
                let w = choose|m: int| 0 <= m < pre.len() && pre[m] == post[k];
            }
        }
    }
}

/// Filtering keeps the strict order of the survivors.
proof fn lemma_keep_ids_sorted(s: Seq<u64>, bad: Seq<u64>)
    requires
        ids_sorted(s),
    ensures
        ids_sorted(keep_ids(s, bad)),
        forall|i: int| 0 <= i < keep_ids(s, bad).len()
            ==> s.contains(#[trigger] keep_ids(s, bad)[i]),
    decreases s.len(),
{
    if s.len() > 0 {
        assert(s.drop_first() =~= s.subrange(1, s.len() as int));
        assert(forall|m: int| 0 <= m < s.len() - 1 ==> s.drop_first()[m] == s[m + 1]);
        assert(ids_sorted(s.drop_first()));
        lemma_keep_ids_sorted(s.drop_first(), bad);
        let rest = keep_ids(s.drop_first(), bad);
        assert forall|i: int| 0 <= i < keep_ids(s, bad).len()
            implies s.contains(#[trigger] keep_ids(s, bad)[i]) by {
            if !bad.contains(s[0]) && i == 0 {
                assert(s[0] == keep_ids(s, bad)[0]);
            } else {
                let v: int = if bad.contains(s[0]) { i } else { i - 1 };
                assert(rest[v] == keep_ids(s, bad)[i]);
                assert(s.drop_first().contains(rest[v]));
                let u = choose|m: int| 0 <= m < s.drop_first().len()
                    && s.drop_first()[m] == rest[v];
                assert(s[u + 1] == rest[v]);
            }
        }
        if !bad.contains(s[0]) {
            assert forall|a: int, b: int| 0 <= a < b < keep_ids(s, bad).len()
                implies keep_ids(s, bad)[a] < keep_ids(s, bad)[b] by {
                if a == 0 {
                    assert(s.drop_first().contains(rest[b - 1]));
                    let u = choose|m: int| 0 <= m < s.drop_first().len()
                        && s.drop_first()[m] == rest[b - 1];
                    assert(s[u + 1] == rest[b - 1]);
                    assert(s[0] < s[u + 1]);
                } else {
                    assert(rest[a - 1] < rest[b - 1]);
                }
            }
        }
    }
}

/// Whether a relay mode token is one of the accepted values; only `framed`
/// has behavior, `raw` is reserved.
pub fn mode_is_supported(mode: &str) -> (r: bool)
    ensures
        r == (mode@ == "framed"@ || mode@ == "raw"@),
{
    let framed = str_eq(mode, "framed");
    let raw = str_eq(mode, "raw");
    framed || raw
}

} // verus!
