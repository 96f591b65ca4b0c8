//! The sync engine: the fetch–convert–dedupe–partition loop that merges
//! newly fetched records into the year partition store and decides when a
//! run terminates. In incremental mode the first record whose identity is
//! already stored is the resume boundary: the rest of the page and all
//! later pages are already synced, so the run stops at once. In full-sync
//! mode a duplicate is merely dropped and the walk continues to the end of
//! history.

use vstd::prelude::*;

use crate::record::Record;
use crate::source::Source;
use crate::store::{map_contains_id, map_insert, map_records, record_year, YearStore};
use crate::time;

verus! {

/// How a run treats a record whose identity is already stored.
#[derive(Clone, Copy, Debug, PartialEq, Eq, Structural)]
pub enum SyncMode {
    /// Stop the whole run at the first duplicate: everything at or after
    /// it was persisted by an earlier run.
    Incremental,
    /// Walk the entire history; drop duplicates silently.
    FullSync,
}

/// What processing one page decided.
#[derive(Clone, Copy, Debug, PartialEq, Eq, Structural)]
pub enum PageOutcome {
    /// Every new record of the page was merged; fetch the next page.
    Continue,
    /// The resume boundary was reached inside this page; the run is over.
    Boundary,
}

/// Processing the items of one page, in delivery order, over the store
/// model: each new record is inserted; at a duplicate, an incremental run
/// stops (`true`) and a full sync drops the record and walks on.
pub open spec fn sync_items<R: Record>(
    m: Map<int, Seq<R>>,
    items: Seq<R>,
    mode: SyncMode,
) -> (Map<int, Seq<R>>, bool)
    decreases items.len(),
{
    if items.len() == 0 {
        (m, false)
    } else if map_contains_id(m, items[0]) {
        if mode == SyncMode::Incremental {
            (m, true)
        } else {
            sync_items(m, items.drop_first(), mode)
        }
    } else {
        sync_items(map_insert(m, items[0]), items.drop_first(), mode)
    }
}

/// Processing a whole run over a sequence of pages: pages are merged in
/// order until one of them reaches the resume boundary or history is
/// exhausted. Returns the final store model and how many pages were
/// consumed.
pub open spec fn sync_run<R: Record>(
    m: Map<int, Seq<R>>,
    pages: Seq<Seq<R>>,
    mode: SyncMode,
) -> (Map<int, Seq<R>>, int)
    decreases pages.len(),
{
    if pages.len() == 0 {
        (m, 0)
    } else {
        let (m1, stopped) = sync_items(m, pages[0], mode);
        if stopped {
            (m1, 1)
        } else {
            let (m2, k) = sync_run(m1, pages.drop_first(), mode);
            (m2, 1 + k)
        }
    }
}

/// Every record of every page carries a timestamp the library accepts.
pub open spec fn pages_in_range<R: Record>(pages: Seq<Seq<R>>) -> bool {
    forall|i: int, k: int|
        0 <= i < pages.len() && 0 <= k < pages[i].len() ==> time::ts_in_range(
            (#[trigger] pages[i][k]).ts(),
        )
}

/// The sync engine: a year partition store and a mode flag. The fetch
/// loop itself either runs through [`SyncEngine::run`] against a
/// [`crate::source::Source`], or sits with the caller, which hands each
/// fetched page to [`SyncEngine::process_page`] and stops when told to.
pub struct SyncEngine<R> {
    pub store: YearStore<R>,
    pub mode: SyncMode,
}

impl<R: Record> SyncEngine<R> {
    pub open spec fn wf(self) -> bool {
        self.store.wf()
    }

    /// An engine over an empty store.
    pub fn new(mode: SyncMode) -> (e: Self)
        ensures
            e.wf(),
            e.store@ == Map::<int, Seq<R>>::empty(),
            e.mode == mode,
    {
        SyncEngine { store: YearStore::new(), mode }
    }

    /// Merges one fetched page, in delivery order. Returns
    /// [`PageOutcome::Boundary`] exactly when an incremental run hit a
    /// record that was already stored; the remainder of the page is then
    /// skipped and the caller must not fetch further pages.
    #[verifier::loop_isolation(false)]
    pub fn process_page(&mut self, items: Vec<R>) -> (outcome: PageOutcome)
        requires
            old(self).wf(),
            forall|k: int|
                0 <= k < items@.len() ==> time::ts_in_range((#[trigger] items@[k]).ts()),
        ensures
            final(self).wf(),
            final(self).mode == old(self).mode,
            final(self).store@ == sync_items(old(self).store@, items@, old(self).mode).0,
            (outcome == PageOutcome::Boundary) == sync_items(
                old(self).store@,
                items@,
                old(self).mode,
            ).1,
    {
        let ghost m0 = self.store@;
        let ghost orig = items@;
        let ghost mode0 = self.mode;
        let ghost goal = sync_items(m0, orig, mode0);
        let mut pending = items;
        while pending.len() > 0
            invariant
                self.wf(),
                self.mode == mode0,
                forall|k: int|
                    0 <= k < pending@.len() ==> time::ts_in_range((#[trigger] pending@[k]).ts()),
                sync_items(self.store@, pending@, mode0) == goal,
            decreases pending@.len(),
        {
            let ghost pre_items = pending@;
            let ghost pre = self.store@;
            let r = pending.remove(0);
            proof {
                assert(pre_items.remove(0) =~= pre_items.drop_first());
            }
            let added = self.store.insert(r);
            if !added {
                if matches!(self.mode, SyncMode::Incremental) {
                    proof {
                        assert(sync_items(pre, pre_items, mode0) == (pre, true));
                    }
                    return PageOutcome::Boundary;
                }
            }
        }
        PageOutcome::Continue
    }

    /// Drives a whole run against a source: fetch a page, merge it, and
    /// repeat until the resume boundary is reached or history is
    /// exhausted. The final store is exactly what [`sync_run`] prescribes,
    /// and `source.served()` says how many pages were consumed — the
    /// source is never asked for a page past the one holding the boundary.
    #[verifier::loop_isolation(false)]
    pub fn run<S: Source<R>>(&mut self, source: &mut S)
        requires
            old(self).wf(),
            old(source).inv(),
            old(source).served() == 0,
            pages_in_range(old(source).pages()),
        ensures
            final(self).wf(),
            final(self).mode == old(self).mode,
            final(source).inv(),
            final(source).pages() == old(source).pages(),
            final(self).store@ == sync_run(
                old(self).store@,
                old(source).pages(),
                old(self).mode,
            ).0,
            final(source).served() == sync_run(
                old(self).store@,
                old(source).pages(),
                old(self).mode,
            ).1,
    {
        let ghost m0 = self.store@;
        let ghost mode0 = self.mode;
        let ghost pages = source.pages();
        let ghost goal = sync_run(m0, pages, mode0);
        proof {
            assert(pages.skip(0) =~= pages);
        }
        loop
            invariant
                self.wf(),
                self.mode == mode0,
                source.inv(),
                source.pages() == pages,
                0 <= source.served() <= pages.len(),
                sync_run(self.store@, pages.skip(source.served()), mode0) == (
                    goal.0,
                    goal.1 - source.served(),
                ),
            decreases pages.len() - source.served(),
        {
            let ghost served_pre = source.served();
            let page = source.fetch_page();
            proof {
                source.lemma_inv_served();
            }
            match page {
                None => {
                    proof {
                        assert(served_pre == pages.len());
                        assert(pages.skip(served_pre) =~= Seq::<Seq<R>>::empty());
                    }
                    return ;
                },
                Some(items) => {
                    let ghost pre = self.store@;
                    proof {
                        assert(items@ == pages[served_pre]);
                        assert forall|k: int| 0 <= k < items@.len() implies time::ts_in_range(
                            (#[trigger] items@[k]).ts(),
                        ) by {
                            assert(time::ts_in_range(pages[served_pre][k].ts()));
                        }
                    }
                    let outcome = self.process_page(items);
                    proof {
                        assert(pages.skip(served_pre).drop_first() =~= pages.skip(served_pre + 1));
                        assert(pages.skip(served_pre)[0] == pages[served_pre]);
                    }
                    if matches!(outcome, PageOutcome::Boundary) {
                        return ;
                    }
                },
            }
        }
    }
}

/// A record with `r`'s identity stays present through any later insertion.
proof fn lemma_map_insert_preserves_id<R: Record>(m: Map<int, Seq<R>>, x: R, r: R)
    requires
        map_contains_id(m, r),
    ensures
        map_contains_id(map_insert(m, x), r),
{
    if !map_contains_id(m, x) {
        let y = record_year(x);
        let yr = record_year(r);
        let m2 = m.insert(y, map_records(m, y).push(x));
        let s = map_records(m, yr);
        let k = choose|k: int| 0 <= k < s.len() && (#[trigger] s[k]).same_id(&r);
        if yr == y {
            assert(map_records(m2, yr) == s.push(x));
            assert(map_records(m2, yr)[k].same_id(&r));
        } else {
            assert(map_records(m2, yr) == s);
        }
    }
}

/// An inserted record is present afterwards.
proof fn lemma_map_insert_contains_self<R: Record>(m: Map<int, Seq<R>>, x: R)
    ensures
        map_contains_id(map_insert(m, x), x),
{
    if !map_contains_id(m, x) {
        let y = record_year(x);
        let s2 = map_records(m, y).push(x);
        x.lemma_same_id_refl();
        assert(map_records(map_insert(m, x), y) == s2);
        assert(s2[s2.len() - 1].same_id(&x));
    }
}

/// Identities present before a page is processed are present after.
proof fn lemma_sync_items_preserves_id<R: Record>(
    m: Map<int, Seq<R>>,
    items: Seq<R>,
    mode: SyncMode,
    r: R,
)
    requires
        map_contains_id(m, r),
    ensures
        map_contains_id(sync_items(m, items, mode).0, r),
    decreases items.len(),
{
    if items.len() > 0 {
        if map_contains_id(m, items[0]) {
            if mode != SyncMode::Incremental {
                lemma_sync_items_preserves_id(m, items.drop_first(), mode, r);
            }
        } else {
            lemma_map_insert_preserves_id(m, items[0], r);
            lemma_sync_items_preserves_id(map_insert(m, items[0]), items.drop_first(), mode, r);
        }
    }
}

/// After a page is processed, its first record's identity is stored.
proof fn lemma_sync_items_contains_first<R: Record>(
    m: Map<int, Seq<R>>,
    items: Seq<R>,
    mode: SyncMode,
)
    requires
        items.len() > 0,
    ensures
        map_contains_id(sync_items(m, items, mode).0, items[0]),
{
    if map_contains_id(m, items[0]) {
        if mode != SyncMode::Incremental {
            lemma_sync_items_preserves_id(m, items.drop_first(), mode, items[0]);
        }
    } else {
        lemma_map_insert_contains_self(m, items[0]);
        lemma_sync_items_preserves_id(
            map_insert(m, items[0]),
            items.drop_first(),
            mode,
            items[0],
        );
    }
}

/// Identities present before a run stay present after it.
proof fn lemma_sync_run_preserves_id<R: Record>(
    m: Map<int, Seq<R>>,
    pages: Seq<Seq<R>>,
    mode: SyncMode,
    r: R,
)
    requires
        map_contains_id(m, r),
    ensures
        map_contains_id(sync_run(m, pages, mode).0, r),
    decreases pages.len(),
{
    if pages.len() > 0 {
        let (m1, stopped) = sync_items(m, pages[0], mode);
        lemma_sync_items_preserves_id(m, pages[0], mode, r);
        if !stopped {
            lemma_sync_run_preserves_id(m1, pages.drop_first(), mode, r);
        }
    }
}

/// An incremental run whose first record is already stored stops at once
/// and changes nothing.
proof fn lemma_sync_items_stop_now<R: Record>(m: Map<int, Seq<R>>, items: Seq<R>)
    requires
        items.len() > 0,
        map_contains_id(m, items[0]),
    ensures
        sync_items(m, items, SyncMode::Incremental) == (m, true),
{
}

/// A full sync never reaches a boundary: duplicates are dropped, not
/// treated as a stopping point.
proof fn lemma_full_sync_never_stops<R: Record>(m: Map<int, Seq<R>>, items: Seq<R>)
    ensures
        !sync_items(m, items, SyncMode::FullSync).1,
    decreases items.len(),
{
    if items.len() > 0 {
        if map_contains_id(m, items[0]) {
            lemma_full_sync_never_stops(m, items.drop_first());
        } else {
            lemma_full_sync_never_stops(map_insert(m, items[0]), items.drop_first());
        }
    }
}

/// A full sync loses no record of a page: afterwards, every record of
/// the page is stored (by identity).
pub proof fn lemma_full_sync_page_complete<R: Record>(m: Map<int, Seq<R>>, items: Seq<R>, k: int)
    requires
        0 <= k < items.len(),
    ensures
        map_contains_id(sync_items(m, items, SyncMode::FullSync).0, items[k]),
    decreases items.len(),
{
    let mode = SyncMode::FullSync;
    if k == 0 {
        lemma_sync_items_contains_first(m, items, mode);
    } else {
        if map_contains_id(m, items[0]) {
            lemma_full_sync_page_complete(m, items.drop_first(), k - 1);
        } else {
            lemma_full_sync_page_complete(map_insert(m, items[0]), items.drop_first(), k - 1);
        }
        assert(items.drop_first()[k - 1] == items[k]);
    }
}

/// A full sync loses no record of the whole history: afterwards, every
/// record of every page is stored (by identity).
pub proof fn lemma_full_sync_run_complete<R: Record>(
    m: Map<int, Seq<R>>,
    pages: Seq<Seq<R>>,
    i: int,
    k: int,
)
    requires
        0 <= i < pages.len(),
        0 <= k < pages[i].len(),
    ensures
        map_contains_id(sync_run(m, pages, SyncMode::FullSync).0, pages[i][k]),
    decreases pages.len(),
{
    let mode = SyncMode::FullSync;
    let (m1, stopped) = sync_items(m, pages[0], mode);
    lemma_full_sync_never_stops(m, pages[0]);
    if i == 0 {
        lemma_full_sync_page_complete(m, pages[0], k);
        lemma_sync_run_preserves_id(m1, pages.drop_first(), mode, pages[0][k]);
    } else {
        lemma_full_sync_run_complete(m1, pages.drop_first(), i - 1, k);
        assert(pages.drop_first()[i - 1] == pages[i]);
    }
}

/// Idempotence of incremental sync: once a run over some history has
/// finished, running incrementally over the same history again leaves the
/// store exactly as it was.
pub proof fn lemma_incremental_idempotent<R: Record>(m0: Map<int, Seq<R>>, pages: Seq<Seq<R>>)
    ensures
        sync_run(
            sync_run(m0, pages, SyncMode::Incremental).0,
            pages,
            SyncMode::Incremental,
        ).0 == sync_run(m0, pages, SyncMode::Incremental).0,
    decreases pages.len(),
{
    let mode = SyncMode::Incremental;
    let m1 = sync_run(m0, pages, mode).0;
    if pages.len() > 0 {
        let (ma, stopped) = sync_items(m0, pages[0], mode);
        if pages[0].len() == 0 {
            assert(ma == m0 && !stopped);
            lemma_incremental_idempotent(m0, pages.drop_first());
        } else {
            lemma_sync_items_contains_first(m0, pages[0], mode);
            if stopped {
                assert(m1 == ma);
            } else {
                lemma_sync_run_preserves_id(ma, pages.drop_first(), mode, pages[0][0]);
            }
            lemma_sync_items_stop_now(m1, pages[0]);
            assert(sync_run(m1, pages, mode).0 == m1);
        }
    }
}

} // verus!

