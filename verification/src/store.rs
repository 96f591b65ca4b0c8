//! The year partition store: an in-memory mapping from calendar year to the
//! ordered set of canonical records seen for that year. The store enforces
//! the two partition invariants — every record sits in the partition of its
//! own timestamp's year, and no partition holds two records with the same
//! identity. Its abstract view is a `Map<int, Seq<R>>` from year to the
//! records of that year in insertion order.

use vstd::prelude::*;

use crate::record::{no_dup_ids, seq_contains_id, Record};
use crate::time;

verus! {

/// The records of one calendar year, in insertion order.
pub struct YearPartition<R> {
    pub year: i32,
    pub records: Vec<R>,
}

impl<R: Record> YearPartition<R> {
    /// Every record belongs to this partition's year, and identities are
    /// unique within the partition.
    pub open spec fn wf(self) -> bool {
        &&& forall|k: int|
            0 <= k < self.records@.len() ==> time::ts_in_range((#[trigger] self.records@[k]).ts())
        &&& forall|k: int|
            0 <= k < self.records@.len() ==> time::year_of_ts((#[trigger] self.records@[k]).ts())
                == self.year as int
        &&& no_dup_ids(self.records@)
    }
}

/// All year partitions touched by a run.
pub struct YearStore<R> {
    pub parts: Vec<YearPartition<R>>,
}

/// The records a store model holds for year `y` (empty if the year was
/// never touched).
pub open spec fn map_records<R>(m: Map<int, Seq<R>>, y: int) -> Seq<R> {
    if m.dom().contains(y) {
        m[y]
    } else {
        Seq::empty()
    }
}

/// The calendar year that owns record `r`.
pub open spec fn record_year<R: Record>(r: R) -> int {
    time::year_of_ts(r.ts())
}

/// The store model already holds a record with `r`'s identity in `r`'s
/// own year.
pub open spec fn map_contains_id<R: Record>(m: Map<int, Seq<R>>, r: R) -> bool {
    seq_contains_id(map_records(m, record_year(r)), r)
}

/// Insertion on the store model: appends `r` to its year's partition
/// unless a record with the same identity is already there.
pub open spec fn map_insert<R: Record>(m: Map<int, Seq<R>>, r: R) -> Map<int, Seq<R>> {
    if map_contains_id(m, r) {
        m
    } else {
        m.insert(record_year(r), map_records(m, record_year(r)).push(r))
    }
}

/// The starting partition that seeding with `s` installs under year `y`:
/// the records of `s`, in order, that belong to year `y`, first occurrence
/// of each identity only.
pub open spec fn seed_records<R: Record>(s: Seq<R>, y: int) -> Seq<R>
    decreases s.len(),
{
    if s.len() == 0 {
        Seq::empty()
    } else {
        let rest = seed_records(s.drop_last(), y);
        let r = s.last();
        if time::ts_in_range(r.ts()) && time::year_of_ts(r.ts()) == y && !seq_contains_id(
            rest,
            r,
        ) {
            rest.push(r)
        } else {
            rest
        }
    }
}

impl<R: Record> YearStore<R> {
    /// Some partition is keyed by year `y`.
    pub open spec fn has_year(self, y: int) -> bool {
        exists|i: int| 0 <= i < self.parts@.len() && (#[trigger] self.parts@[i]).year as int == y
    }

    /// The index of the partition keyed by year `y` (unique when `wf`).
    pub open spec fn index_of_year(self, y: int) -> int {
        choose|i: int| 0 <= i < self.parts@.len() && (#[trigger] self.parts@[i]).year as int == y
    }

    /// Partition years are pairwise distinct and every partition is
    /// internally well formed.
    pub open spec fn wf(self) -> bool {
        &&& forall|i: int, j: int|
            0 <= i < j < self.parts@.len() ==> (#[trigger] self.parts@[i]).year != (
            #[trigger] self.parts@[j]).year
        &&& forall|i: int| 0 <= i < self.parts@.len() ==> (#[trigger] self.parts@[i]).wf()
    }

    proof fn lemma_index_of_year_is(self, i: int)
        requires
            self.wf(),
            0 <= i < self.parts@.len(),
        ensures
            self.has_year(self.parts@[i].year as int),
            self.index_of_year(self.parts@[i].year as int) == i,
    {
        let y = self.parts@[i].year as int;
        assert(self.has_year(y));
        let j = self.index_of_year(y);
        assert(0 <= j < self.parts@.len() && self.parts@[j].year as int == y);
        if i != j {
            if i < j {
                assert(self.parts@[i].year != self.parts@[j].year);
            } else {
                assert(self.parts@[j].year != self.parts@[i].year);
            }
        }
    }

    /// The view at a partition's year is that partition's record sequence.
    pub proof fn lemma_view_at(self, i: int)
        requires
            self.wf(),
            0 <= i < self.parts@.len(),
        ensures
            self@.dom().contains(self.parts@[i].year as int),
            self@[self.parts@[i].year as int] == self.parts@[i].records@,
    {
        self.lemma_index_of_year_is(i);
    }

    /// Appending a partition under a year the store does not yet hold.
    proof fn lemma_push_fresh_partition(pre: Self, post: Self, p: YearPartition<R>)
        requires
            pre.wf(),
            p.wf(),
            post.parts@ == pre.parts@.push(p),
            !pre.has_year(p.year as int),
        ensures
            post.wf(),
            post@ == pre@.insert(p.year as int, p.records@),
    {
        let n = pre.parts@.len() as int;
        assert forall|i: int, j: int| 0 <= i < j < post.parts@.len() implies (
        #[trigger] post.parts@[i]).year != (#[trigger] post.parts@[j]).year by {
            if j < n {
                assert(pre.parts@[i].year != pre.parts@[j].year);
            } else {
                assert(post.parts@[j] == p);
                assert(0 <= i < pre.parts@.len() && pre.parts@[i] == post.parts@[i]);
                if pre.parts@[i].year == p.year {
                    assert(pre.has_year(p.year as int));
                }
            }
        }
        assert(post.wf());
        let target = pre@.insert(p.year as int, p.records@);
        assert forall|y: int| post@.dom().contains(y) implies target.dom().contains(y) && post@[y]
            == target[y] by {
            let i = post.index_of_year(y);
            assert(0 <= i < post.parts@.len() && post.parts@[i].year as int == y);
            if i < n {
                pre.lemma_index_of_year_is(i);
                post.lemma_index_of_year_is(i);
                assert(post@[y] == pre.parts@[i].records@);
                assert(y != p.year as int);
                assert(pre@[y] == pre.parts@[i].records@);
            } else {
                assert(post.parts@[i] == p);
                post.lemma_index_of_year_is(i);
                assert(post@[y] == p.records@);
            }
        }
        assert forall|y: int| target.dom().contains(y) implies post@.dom().contains(y) by {
            if y == p.year as int {
                assert(post.parts@[n] == p);
                assert(post.parts@[n].year as int == y);
            } else {
                assert(pre.has_year(y));
                let i = pre.index_of_year(y);
                assert(0 <= i < pre.parts@.len() && pre.parts@[i].year as int == y);
                assert(post.parts@[i].year as int == y);
            }
        }
        assert(post@ =~= target);
    }

    /// Replacing a partition by one with the same year.
    proof fn lemma_update_partition(pre: Self, post: Self, i: int, p: YearPartition<R>)
        requires
            pre.wf(),
            p.wf(),
            0 <= i < pre.parts@.len(),
            p.year == pre.parts@[i].year,
            post.parts@ == pre.parts@.update(i, p),
        ensures
            post.wf(),
            post@ == pre@.insert(p.year as int, p.records@),
    {
        assert(post.parts@.len() == pre.parts@.len());
        assert forall|a: int, b: int| 0 <= a < b < post.parts@.len() implies (
        #[trigger] post.parts@[a]).year != (#[trigger] post.parts@[b]).year by {
            assert(post.parts@[a].year == pre.parts@[a].year);
            assert(post.parts@[b].year == pre.parts@[b].year);
        }
        assert forall|a: int| 0 <= a < post.parts@.len() implies (#[trigger] post.parts@[a]).wf()
            by {
            if a != i {
                assert(post.parts@[a] == pre.parts@[a]);
            }
        }
        assert(post.wf());
        let target = pre@.insert(p.year as int, p.records@);
        assert forall|y: int| post@.dom().contains(y) implies target.dom().contains(y) && post@[y]
            == target[y] by {
            let a = post.index_of_year(y);
            assert(0 <= a < post.parts@.len() && post.parts@[a].year as int == y);
            post.lemma_index_of_year_is(a);
            assert(pre.parts@[a].year as int == y);
            pre.lemma_index_of_year_is(a);
            if a == i {
                assert(post@[y] == p.records@);
                assert(y == p.year as int);
            } else {
                assert(post@[y] == pre.parts@[a].records@);
                assert(y != p.year as int);
                assert(pre@[y] == pre.parts@[a].records@);
            }
        }
        assert forall|y: int| target.dom().contains(y) implies post@.dom().contains(y) by {
            if y == p.year as int {
                assert(post.parts@[i].year as int == y);
            } else {
                assert(pre.has_year(y));
                let a = pre.index_of_year(y);
                assert(0 <= a < pre.parts@.len() && pre.parts@[a].year as int == y);
                assert(post.parts@[a].year as int == y);
            }
        }
        assert(post@ =~= target);
    }

    /// Reading a snapshot back changes nothing: seeding with a sequence
    /// that already satisfies the partition invariants for year `y`
    /// installs exactly that sequence.
    pub proof fn lemma_seed_round_trip(s: Seq<R>, y: int)
        requires
            forall|k: int| 0 <= k < s.len() ==> time::ts_in_range((#[trigger] s[k]).ts()),
            forall|k: int| 0 <= k < s.len() ==> time::year_of_ts((#[trigger] s[k]).ts()) == y,
            no_dup_ids(s),
        ensures
            seed_records(s, y) == s,
        decreases s.len(),
    {
        if s.len() > 0 {
            let rest = s.drop_last();
            assert(no_dup_ids(rest)) by {
                assert forall|i: int, j: int|
                    #![trigger rest[i].same_id(&rest[j])]
                    0 <= i < rest.len() && 0 <= j < rest.len() && i != j implies !rest[i].same_id(
                    &rest[j],
                ) by {
                    assert(rest[i] == s[i] && rest[j] == s[j]);
                }
            }
            Self::lemma_seed_round_trip(rest, y);
            assert(!seq_contains_id(rest, s.last())) by {
                if seq_contains_id(rest, s.last()) {
                    let k = choose|k: int|
                        0 <= k < rest.len() && (#[trigger] rest[k]).same_id(&s.last());
                    assert(s[k].same_id(&s[s.len() - 1]));
                }
            }
            assert(seed_records(s, y) =~= s);
        }
    }

    /// The partition invariants, stated over the view: every record of a
    /// well-formed store's year-`y` partition is timestamped inside year
    /// `y`, and no two of them share an identity.
    pub proof fn lemma_partition_invariants(self, y: int)
        requires
            self.wf(),
            self@.dom().contains(y),
        ensures
            no_dup_ids(self@[y]),
            forall|k: int|
                0 <= k < self@[y].len() ==> time::year_of_ts((#[trigger] self@[y][k]).ts()) == y,
            forall|k: int|
                0 <= k < self@[y].len() ==> time::ts_in_range((#[trigger] self@[y][k]).ts()),
    {
        let i = self.index_of_year(y);
        assert(0 <= i < self.parts@.len() && self.parts@[i].year as int == y);
        assert(self.parts@[i].wf());
        assert(self@[y] == self.parts@[i].records@);
    }

    /// An empty store: no partitions, nothing persisted yet.
    pub fn new() -> (s: Self)
        ensures
            s.wf(),
            s@ == Map::<int, Seq<R>>::empty(),
    {
        let s = YearStore { parts: Vec::new() };
        proof {
            assert(s@ =~= Map::<int, Seq<R>>::empty());
        }
        s
    }

    /// All partitions touched so far, in the order they were first touched.
    pub fn partitions(&self) -> (r: &Vec<YearPartition<R>>)
        ensures
            r == &self.parts,
    {
        &self.parts
    }

    fn find_year_index(&self, y: i32) -> (res: Option<usize>)
        ensures
            match res {
                Some(i) => 0 <= i < self.parts@.len() && self.parts@[i as int].year == y,
                None => forall|k: int|
                    0 <= k < self.parts@.len() ==> (#[trigger] self.parts@[k]).year != y,
            },
    {
        let n = self.parts.len();
        let mut i: usize = 0;
        while i < n
            invariant
                i <= n,
                n == self.parts@.len(),
                forall|k: int| 0 <= k < i ==> (#[trigger] self.parts@[k]).year != y,
            decreases n - i,
        {
            if self.parts[i].year == y {
                return Some(i);
            }
            i = i + 1;
        }
        None
    }

    fn contains_matching(records: &Vec<R>, r: &R) -> (found: bool)
        ensures
            found == seq_contains_id(records@, *r),
    {
        let n = records.len();
        let mut i: usize = 0;
        while i < n
            invariant
                i <= n,
                n == records@.len(),
                forall|k: int| 0 <= k < i ==> !(#[trigger] records@[k]).same_id(r),
            decreases n - i,
        {
            if records[i].eq_id(r) {
                return true;
            }
            i = i + 1;
        }
        false
    }

    /// Routes `r` to the partition of its own year, creating the partition
    /// if absent. Returns `true` iff the record was newly added; a record
    /// whose identity is already present leaves the store unchanged.
    pub fn insert(&mut self, r: R) -> (added: bool)
        requires
            old(self).wf(),
            time::ts_in_range(r.ts()),
        ensures
            final(self).wf(),
            added == !map_contains_id(old(self)@, r),
            final(self)@ == map_insert(old(self)@, r),
    {
        let y: i32 = time::year_of_unix(r.ts_secs());
        match self.find_year_index(y) {
            Some(i) => {
                proof {
                    self.lemma_view_at(i as int);
                }
                if Self::contains_matching(&self.parts[i].records, &r) {
                    return false;
                }
                let mut p = self.parts.remove(i);
                let ghost pre_records = p.records@;
                p.records.push(r);
                proof {
                    assert forall|a: int, b: int|
                        #![trigger p.records@[a].same_id(&p.records@[b])]
                        0 <= a < p.records@.len() && 0 <= b < p.records@.len() && a
                            != b implies !p.records@[a].same_id(&p.records@[b]) by {
                        let n = pre_records.len() as int;
                        if a == n {
                            assert(!pre_records[b].same_id(&r));
                            pre_records[b].lemma_same_id_sym(&r);
                        } else if b == n {
                            assert(!pre_records[a].same_id(&r));
                        }
                    }
                }
                self.parts.insert(i, p);
                proof {
                    assert(self.parts@ =~= old(self).parts@.update(i as int, p));
                    Self::lemma_update_partition(*old(self), *self, i as int, p);
                    assert(self@ =~= map_insert(old(self)@, r));
                }
                true
            },
            None => {
                let mut records = Vec::new();
                records.push(r);
                let p = YearPartition { year: y, records };
                self.parts.push(p);
                proof {
                    assert(!map_contains_id(old(self)@, r)) by {
                        if old(self).has_year(y as int) {
                            let i = old(self).index_of_year(y as int);
                            assert(0 <= i < old(self).parts@.len() && old(
                                self,
                            ).parts@[i].year as int == y as int);
                        }
                    }
                    assert(p.wf());
                    Self::lemma_push_fresh_partition(*old(self), *self, p);
                    assert(self@ =~= map_insert(old(self)@, r));
                }
                true
            },
        }
    }

    /// Installs the starting set for one year from a previously persisted
    /// snapshot: of `records`, keeps those that belong to `year`, dropping
    /// any later duplicate of an identity already kept.
    pub fn seed(&mut self, year: i32, records: Vec<R>)
        requires
            old(self).wf(),
            !old(self)@.dom().contains(year as int),
        ensures
            final(self).wf(),
            final(self)@ == old(self)@.insert(year as int, seed_records(records@, year as int)),
    {
        let ghost orig = records@;
        let mut records = records;
        let mut kept: Vec<R> = Vec::new();
        let mut i: usize = 0;
        let n = records.len();
        while i < n
            invariant
                i <= n,
                n == orig.len(),
                records@ == orig.skip(i as int),
                kept@ == seed_records(orig.take(i as int), year as int),
                forall|k: int|
                    0 <= k < kept@.len() ==> time::ts_in_range((#[trigger] kept@[k]).ts()),
                forall|k: int|
                    0 <= k < kept@.len() ==> time::year_of_ts((#[trigger] kept@[k]).ts())
                        == year as int,
                no_dup_ids(kept@),
            decreases n - i,
        {
            let r = records.remove(0);
            proof {
                assert(orig.skip(i as int)[0] == orig[i as int]);
                assert(records@ =~= orig.skip(i as int + 1));
                assert(orig.take(i as int + 1).drop_last() =~= orig.take(i as int));
                assert(orig.take(i as int + 1).last() == orig[i as int]);
            }
            let t = r.ts_secs();
            if 0 <= t && t < crate::time::MAX_TS_SECS {
                let ry = time::year_of_unix(t);
                if ry == year && !Self::contains_matching(&kept, &r) {
                    let ghost pre_kept = kept@;
                    kept.push(r);
                    proof {
                        assert forall|a: int, b: int|
                            #![trigger kept@[a].same_id(&kept@[b])]
                            0 <= a < kept@.len() && 0 <= b < kept@.len() && a
                                != b implies !kept@[a].same_id(&kept@[b]) by {
                            let m = pre_kept.len() as int;
                            if a == m {
                                assert(!pre_kept[b].same_id(&r));
                                pre_kept[b].lemma_same_id_sym(&r);
                            } else if b == m {
                                assert(!pre_kept[a].same_id(&r));
                            }
                        }
                    }
                }
            }
            i = i + 1;
        }
        proof {
            assert(orig.take(n as int) =~= orig);
        }
        let p = YearPartition { year, records: kept };
        self.parts.push(p);
        proof {
            assert(!old(self).has_year(year as int)) by {
                if old(self).has_year(year as int) {
                    let i2 = old(self).index_of_year(year as int);
                    assert(0 <= i2 < old(self).parts@.len() && old(self).parts@[i2].year as int
                        == year as int);
                }
            }
            Self::lemma_push_fresh_partition(*old(self), *self, p);
        }
    }
}

impl<R: Record> View for YearStore<R> {
    type V = Map<int, Seq<R>>;

    open spec fn view(&self) -> Map<int, Seq<R>> {
        Map::new(
            |y: int| self.has_year(y),
            |y: int| self.parts@[self.index_of_year(y)].records@,
        )
    }
}

} // verus!
