//! The canonical record abstraction. Every source (posts, listening
//! events, tweets) normalizes its items into a type implementing
//! [`Record`]: something with a stable identity, a UTC timestamp, and a
//! fixed order for persisted snapshots. The sync engine and the year
//! partition store are generic over this trait.

use vstd::prelude::*;

verus! {

/// One canonical activity item.
///
/// `same_id` is entity identity: the partition store keeps at most one
/// record per identity and year. `placed_le` is the snapshot output order;
/// it must be total and transitive, but ties between distinct records are
/// allowed (the per-source determinism lemmas state when ties are ruled
/// out).
pub trait Record: Sized {
    /// Seconds since the Unix epoch at which the activity happened.
    spec fn ts(&self) -> int;

    /// Whether two records describe the same entity.
    spec fn same_id(&self, other: &Self) -> bool;

    /// Snapshot order: `self` is placed at or before `other`.
    spec fn placed_le(&self, other: &Self) -> bool;

    proof fn lemma_same_id_refl(&self)
        ensures
            self.same_id(self),
    ;

    proof fn lemma_same_id_sym(&self, other: &Self)
        ensures
            self.same_id(other) == other.same_id(self),
    ;

    proof fn lemma_placed_le_total(&self, other: &Self)
        ensures
            self.placed_le(other) || other.placed_le(self),
    ;

    proof fn lemma_placed_le_trans(a: &Self, b: &Self, c: &Self)
        requires
            a.placed_le(b),
            b.placed_le(c),
        ensures
            a.placed_le(c),
    ;

    fn eq_id(&self, other: &Self) -> (r: bool)
        ensures
            r == self.same_id(other),
    ;

    fn ts_secs(&self) -> (t: i64)
        ensures
            t as int == self.ts(),
    ;

    fn placed_before(&self, other: &Self) -> (r: bool)
        ensures
            r == self.placed_le(other),
    ;
}

/// Some record in `s` has the same identity as `r`.
pub open spec fn seq_contains_id<R: Record>(s: Seq<R>, r: R) -> bool {
    exists|k: int| 0 <= k < s.len() && (#[trigger] s[k]).same_id(&r)
}

/// No two records in `s` share an identity.
pub open spec fn no_dup_ids<R: Record>(s: Seq<R>) -> bool {
    forall|i: int, j: int|
        #![trigger s[i].same_id(&s[j])]
        0 <= i < s.len() && 0 <= j < s.len() && i != j ==> !s[i].same_id(&s[j])
}

} // verus!
