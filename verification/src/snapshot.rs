//! The snapshot writer's verified half: the deterministic final ordering.
//! A year's persisted order is re-derived from the record set by an
//! explicit sort — never insertion order — so that writing the same set
//! always produces the same sequence. The lemmas here state that the
//! sorted sequence is a pure function of the set (determinism) and that
//! sorting cannot introduce duplicate identities.

use vstd::prelude::*;
use vstd::relations::sorted_by;

use crate::record::{no_dup_ids, Record};
use crate::store::{YearPartition, YearStore};

verus! {

/// The snapshot order of `R`, as a binary relation value.
pub open spec fn placed_le_fn<R: Record>() -> spec_fn(R, R) -> bool {
    |a: R, b: R| a.placed_le(&b)
}

/// `s` is in snapshot order.
pub open spec fn sorted_out<R: Record>(s: Seq<R>) -> bool {
    sorted_by(s, placed_le_fn::<R>())
}

/// No two distinct records of `s` tie under the snapshot order. Under
/// this condition the sorted form of a record set is unique.
pub open spec fn no_order_ties<R: Record>(s: Seq<R>) -> bool {
    forall|a: R, b: R|
        s.contains(a) && s.contains(b) && #[trigger] a.placed_le(&b) && #[trigger] b.placed_le(&a)
            ==> a == b
}

fn insertion_point<R: Record>(out: &Vec<R>, x: &R, i: usize) -> (j: usize)
    requires
        i <= out@.len(),
    ensures
        j <= i,
        forall|k: int| 0 <= k < j ==> (#[trigger] out@[k]).placed_le(x),
        j < i ==> !out@[j as int].placed_le(x),
{
    let mut j: usize = 0;
    while j < i
        invariant
            j <= i,
            i <= out@.len(),
            forall|k: int| 0 <= k < j ==> (#[trigger] out@[k]).placed_le(x),
        decreases i - j,
    {
        if !out[j].placed_before(x) {
            return j;
        }
        j = j + 1;
    }
    j
}

/// Sorts records into snapshot order. The result is a permutation of the
/// input (same multiset) in snapshot order.
#[verifier::loop_isolation(false)]
pub fn sort_records<R: Record>(v: Vec<R>) -> (out: Vec<R>)
    ensures
        sorted_out(out@),
        out@.to_multiset() == v@.to_multiset(),
{
    broadcast use vstd::seq_lib::group_to_multiset_ensures;
    broadcast use vstd::multiset::group_multiset_axioms;

    let mut out = v;
    let n = out.len();
    if n == 0 {
        return out;
    }
    let mut i: usize = 1;
    while i < n
        invariant
            1 <= i <= n,
            n == out@.len(),
            out@.to_multiset() == v@.to_multiset(),
            sorted_out(out@.subrange(0, i as int)),
        decreases n - i,
    {
        let ghost pre = out@;
        let x = out.remove(i);
        proof {
            assert(out@.subrange(0, i as int) =~= pre.subrange(0, i as int));
        }
        let j = insertion_point(&out, &x, i);
        let ghost mid = out@;
        out.insert(j, x);
        proof {
            let ii = i as int;
            let jj = j as int;
            let old_prefix = pre.subrange(0, ii);
            let leq = placed_le_fn::<R>();
            // x goes at or after everything the scan passed, and at or
            // before everything from the scan's stop to the prefix's end
            if jj < ii {
                assert(!mid[jj].placed_le(&x));
                assert(mid[jj] == old_prefix[jj]);
                x.lemma_placed_le_total(&mid[jj]);
                assert(x.placed_le(&old_prefix[jj]));
            }
            assert forall|k: int| jj <= k < ii implies x.placed_le(&old_prefix[k]) by {
                if k > jj {
                    assert(leq(old_prefix[jj], old_prefix[k]));
                    Record::lemma_placed_le_trans(&x, &old_prefix[jj], &old_prefix[k]);
                }
            }
            // snapshot order holds on the grown prefix
            let snew = out@.subrange(0, ii + 1);
            assert forall|a: int, b: int|
                #![trigger snew[a], snew[b]]
                0 <= a < b < ii + 1 implies placed_le_fn::<R>()(snew[a], snew[b]) by {
                if a < jj {
                    assert(snew[a] == old_prefix[a]);
                    assert(mid[a] == old_prefix[a]);
                    assert(old_prefix[a].placed_le(&x));
                }
                if b < jj {
                    assert(snew[b] == old_prefix[b]);
                }
                if a > jj {
                    assert(snew[a] == old_prefix[a - 1]);
                }
                if b > jj {
                    assert(snew[b] == old_prefix[b - 1]);
                }
                if a == jj {
                    assert(snew[a] == x);
                }
                if b == jj {
                    assert(snew[b] == x);
                }
                if a < jj && b < jj {
                    assert(leq(old_prefix[a], old_prefix[b]));
                } else if a < jj && b > jj {
                    assert(leq(old_prefix[a], old_prefix[b - 1]));
                }
            }
            assert(sorted_out(out@.subrange(0, ii + 1)));
            // the removed element went straight back in: same multiset
            assert(pre.contains(x)) by {
                assert(pre[ii] == x);
            }
            assert(pre.to_multiset().count(x) > 0);
            assert(mid.to_multiset() == pre.to_multiset().remove(x)) by {
                assert(pre.remove(ii).to_multiset() == pre.to_multiset().remove(pre[ii]));
            }
            assert(out@.to_multiset() == mid.to_multiset().insert(x)) by {
                assert(mid.insert(jj, x).to_multiset() == mid.to_multiset().insert(x));
            }
            assert(out@.to_multiset() =~= pre.to_multiset());
        }
        i = i + 1;
    }
    proof {
        assert(out@.subrange(0, n as int) =~= out@);
    }
    out
}

impl<R: Record> YearStore<R> {
    /// Hands every touched partition out for persistence, each with its
    /// records re-sorted into snapshot order. One partition per touched
    /// year; each is a permutation of the store's partition for that year.
    #[verifier::loop_isolation(false)]
    pub fn into_snapshots(self) -> (out: Vec<YearPartition<R>>)
        ensures
            out@.len() == self.parts@.len(),
            forall|i: int|
                0 <= i < out@.len() ==> {
                    &&& (#[trigger] out@[i]).year == self.parts@[i].year
                    &&& sorted_out(out@[i].records@)
                    &&& out@[i].records@.to_multiset()
                        == self.parts@[i].records@.to_multiset()
                },
    {
        let ghost orig = self.parts@;
        let mut parts = self.parts;
        let mut out: Vec<YearPartition<R>> = Vec::new();
        while parts.len() > 0
            invariant
                out@.len() + parts@.len() == orig.len(),
                parts@ == orig.skip(out@.len() as int),
                forall|i: int|
                    0 <= i < out@.len() ==> {
                        &&& (#[trigger] out@[i]).year == orig[i].year
                        &&& sorted_out(out@[i].records@)
                        &&& out@[i].records@.to_multiset() == orig[i].records@.to_multiset()
                    },
            decreases parts@.len(),
        {
            let ghost k = out@.len() as int;
            let p = parts.remove(0);
            proof {
                assert(orig.skip(k)[0] == orig[k]);
                assert(parts@ =~= orig.skip(k + 1));
            }
            let records = sort_records(p.records);
            out.push(YearPartition { year: p.year, records });
        }
        out
    }
}

/// Determinism of the snapshot order: two sequences holding the same
/// record set, both in snapshot order, are the same sequence — provided
/// no two distinct records of the set tie under the order. The persisted
/// bytes are a function of the sorted sequence, so re-writing an
/// unchanged set reproduces the snapshot exactly.
pub proof fn lemma_sorted_unique_by_place<R: Record>(x: Seq<R>, y: Seq<R>)
    requires
        sorted_out(x),
        sorted_out(y),
        x.to_multiset() == y.to_multiset(),
        no_order_ties(x),
    ensures
        x == y,
    decreases x.len(),
{
    broadcast use vstd::multiset::group_multiset_axioms;
    broadcast use vstd::seq_lib::group_to_multiset_ensures;

    let leq = placed_le_fn::<R>();
    if x.len() == 0 || y.len() == 0 {
        vstd::seq_lib::to_multiset_len(x);
        vstd::seq_lib::to_multiset_len(y);
        assert(x.len() == 0 && y.len() == 0);
        assert(x =~= y);
    } else {
        assert(x.to_multiset().contains(x[0]));
        assert(y.to_multiset().contains(y[0]));
        assert(x.to_multiset().contains(y[0]));
        assert(y.to_multiset().contains(x[0]));
        assert(x.contains(y[0]));
        assert(y.contains(x[0]));
        let i = choose|i: int| 0 <= i < x.len() && x[i] == y[0];
        let j = choose|j: int| 0 <= j < y.len() && y[j] == x[0];
        assert(x[0].placed_le(&y[0])) by {
            if i > 0 {
                assert(leq(x[0], x[i]));
            } else {
                x[0].lemma_placed_le_total(&x[0]);
            }
        }
        assert(y[0].placed_le(&x[0])) by {
            if j > 0 {
                assert(leq(y[0], y[j]));
            } else {
                x[0].lemma_placed_le_total(&x[0]);
            }
        }
        assert(x.contains(x[0]));
        assert(x[0] == y[0]);
        let xr = x.drop_first();
        let yr = y.drop_first();
        assert(xr =~= x.remove(0));
        assert(yr =~= y.remove(0));
        assert(x.remove(0).to_multiset() == x.to_multiset().remove(x[0]));
        assert(y.remove(0).to_multiset() == y.to_multiset().remove(y[0]));
        assert(xr.to_multiset() == yr.to_multiset());
        assert(sorted_by(xr, leq)) by {
            assert forall|a: int, b: int| 0 <= a < b < xr.len() implies leq(xr[a], xr[b]) by {
                assert(xr[a] == x[a + 1] && xr[b] == x[b + 1]);
            }
        }
        assert(sorted_by(yr, leq)) by {
            assert forall|a: int, b: int| 0 <= a < b < yr.len() implies leq(yr[a], yr[b]) by {
                assert(yr[a] == y[a + 1] && yr[b] == y[b + 1]);
            }
        }
        assert(no_order_ties(xr)) by {
            assert forall|a: R, b: R|
                xr.contains(a) && xr.contains(b) && #[trigger] a.placed_le(&b)
                    && #[trigger] b.placed_le(&a) implies a == b by {
                let ka = choose|k: int| 0 <= k < xr.len() && xr[k] == a;
                let kb = choose|k: int| 0 <= k < xr.len() && xr[k] == b;
                assert(x[ka + 1] == a && x[kb + 1] == b);
                assert(x.contains(a) && x.contains(b));
            }
        }
        lemma_sorted_unique_by_place(xr, yr);
        assert(x =~= y) by {
            assert(xr =~= yr);
            assert forall|k: int| 0 <= k < x.len() implies x[k] == y[k] by {
                if k > 0 {
                    assert(x[k] == xr[k - 1] && y[k] == yr[k - 1]);
                }
            }
        }
    }
}

/// No duplicates are ever persisted: a snapshot handed out for one of a
/// well-formed store's partitions holds no two records with the same
/// identity.
pub proof fn lemma_snapshot_no_dup_ids<R: Record>(store: YearStore<R>, i: int, snap: Seq<R>)
    requires
        store.wf(),
        0 <= i < store.parts@.len(),
        snap.to_multiset() == store.parts@[i].records@.to_multiset(),
    ensures
        no_dup_ids(snap),
{
    assert(store.parts@[i].wf());
    lemma_no_dup_ids_permutation(store.parts@[i].records@, snap);
}

/// Sorting cannot create duplicate identities: any permutation of a
/// sequence without duplicate identities is itself without duplicate
/// identities.
pub proof fn lemma_no_dup_ids_permutation<R: Record>(a: Seq<R>, b: Seq<R>)
    requires
        no_dup_ids(a),
        a.to_multiset() == b.to_multiset(),
    ensures
        no_dup_ids(b),
{
    broadcast use vstd::multiset::group_multiset_axioms;
    broadcast use vstd::seq_lib::group_to_multiset_ensures;

    assert(a.no_duplicates()) by {
        assert forall|i: int, j: int|
            0 <= i < a.len() && 0 <= j < a.len() && i != j implies a[i] != a[j] by {
            if a[i] == a[j] {
                a[i].lemma_same_id_refl();
                assert(a[i].same_id(&a[j]));
            }
        }
    }
    assert forall|i: int, j: int|
        #![trigger b[i].same_id(&b[j])]
        0 <= i < b.len() && 0 <= j < b.len() && i != j implies !b[i].same_id(&b[j]) by {
        if b[i].same_id(&b[j]) {
            if b[i] == b[j] {
                let lo = if i < j {
                    i
                } else {
                    j
                };
                let hi = if i < j {
                    j
                } else {
                    i
                };
                let s0 = b.subrange(0, hi);
                let s1 = b.subrange(hi, b.len() as int);
                assert(b =~= s0 + s1);
                vstd::seq_lib::lemma_multiset_commutative(s0, s1);
                assert(s0.to_multiset().contains(b[lo])) by {
                    assert(s0[lo] == b[lo]);
                    assert(s0.contains(b[lo]));
                }
                assert(s1.to_multiset().contains(b[hi])) by {
                    assert(s1[0] == b[hi]);
                    assert(s1.contains(b[hi]));
                }
                assert(b.to_multiset().count(b[i]) >= 2);
                a.lemma_multiset_has_no_duplicates();
                assert(a.to_multiset().contains(b[i]));
            } else {
                assert(a.to_multiset().contains(b[i]));
                assert(a.to_multiset().contains(b[j]));
                assert(a.contains(b[i]));
                assert(a.contains(b[j]));
                let k = choose|k: int| 0 <= k < a.len() && a[k] == b[i];
                let l = choose|l: int| 0 <= l < a.len() && a[l] == b[j];
                assert(k != l);
                assert(a[k].same_id(&a[l]));
            }
        }
    }
}

} // verus!
