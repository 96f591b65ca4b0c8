use activity_archive::bluesky::BlueskyPost;
use activity_archive::{PageOutcome, SyncEngine, SyncMode, VecSource};

// Timestamps inside 2024 and 2023.
const T_2024: i64 = 1710000000;
const T_2023: i64 = 1690000000;

fn post(uri: &str, ts: i64) -> BlueskyPost {
    BlueskyPost { uri: uri.to_string(), created_at: ts, text: String::new(), in_reply_to: None }
}

fn uris_of(records: &[BlueskyPost]) -> Vec<String> {
    records.iter().map(|p| p.uri.clone()).collect()
}

#[test]
fn resume_boundary_stops_run() {
    // Seeded with {a, b, c}; the source now returns newest-first
    // [d, c, b, a] and then another page that must never be fetched.
    let mut engine: SyncEngine<BlueskyPost> = SyncEngine::new(SyncMode::Incremental);
    engine.store.seed(2024, vec![post("c", T_2024), post("b", T_2024), post("a", T_2024)]);
    let mut source = VecSource::new(vec![
        vec![post("d", T_2024), post("c", T_2024), post("b", T_2024), post("a", T_2024)],
        vec![post("zz", T_2024)],
    ]);
    engine.run(&mut source);
    assert_eq!(source.pages_served(), 1);
    let snaps = engine.store.into_snapshots();
    assert_eq!(snaps.len(), 1);
    assert_eq!(snaps[0].year, 2024);
    assert_eq!(uris_of(&snaps[0].records), vec!["d", "c", "b", "a"]);
}

#[test]
fn incremental_scenario_stops_at_seeded_record() {
    // Seed {3} for 2024; pages [5, 4, 3, 2] then [1]. The duplicate 3 is
    // the resume boundary: the rest of its page is skipped and the page
    // holding 1 is never fetched.
    let mut engine: SyncEngine<BlueskyPost> = SyncEngine::new(SyncMode::Incremental);
    engine.store.seed(2024, vec![post("3", T_2024)]);
    let mut source = VecSource::new(vec![
        vec![post("5", T_2024), post("4", T_2024), post("3", T_2024), post("2", T_2024)],
        vec![post("1", T_2024)],
    ]);
    engine.run(&mut source);
    assert_eq!(source.pages_served(), 1);
    let snaps = engine.store.into_snapshots();
    assert_eq!(snaps.len(), 1);
    assert_eq!(uris_of(&snaps[0].records), vec!["5", "4", "3"]);
}

#[test]
fn full_sync_walks_all_pages() {
    let mut engine: SyncEngine<BlueskyPost> = SyncEngine::new(SyncMode::FullSync);
    let mut source = VecSource::new(vec![
        vec![post("5", T_2024), post("4", T_2024), post("3", T_2024), post("2", T_2024)],
        vec![post("1", T_2024)],
    ]);
    engine.run(&mut source);
    assert_eq!(source.pages_served(), 2);
    let snaps = engine.store.into_snapshots();
    assert_eq!(uris_of(&snaps[0].records), vec!["5", "4", "3", "2", "1"]);
}

#[test]
fn full_sync_drops_cross_page_duplicates() {
    // Unstable pagination can repeat a record across pages; a full sync
    // drops the duplicate and keeps walking.
    let mut engine: SyncEngine<BlueskyPost> = SyncEngine::new(SyncMode::FullSync);
    let mut source = VecSource::new(vec![
        vec![post("b", T_2024)],
        vec![post("b", T_2024), post("a", T_2024)],
    ]);
    engine.run(&mut source);
    assert_eq!(source.pages_served(), 2);
    let snaps = engine.store.into_snapshots();
    assert_eq!(uris_of(&snaps[0].records), vec!["b", "a"]);
}

#[test]
fn incremental_sync_twice_is_idempotent() {
    let pages = || {
        vec![vec![post("c", T_2024), post("b", T_2024), post("a", T_2024)]]
    };
    let mut first: SyncEngine<BlueskyPost> = SyncEngine::new(SyncMode::Incremental);
    let mut source = VecSource::new(pages());
    first.run(&mut source);
    let snaps1 = first.store.into_snapshots();

    // Re-seed a fresh engine from the persisted snapshot and sync again
    // with no new upstream data.
    let mut second: SyncEngine<BlueskyPost> = SyncEngine::new(SyncMode::Incremental);
    let seed: Vec<BlueskyPost> = snaps1[0]
        .records
        .iter()
        .map(|p| BlueskyPost {
            uri: p.uri.clone(),
            created_at: p.created_at,
            text: p.text.clone(),
            in_reply_to: None,
        })
        .collect();
    second.store.seed(2024, seed);
    let mut source2 = VecSource::new(pages());
    second.run(&mut source2);
    let snaps2 = second.store.into_snapshots();

    assert_eq!(snaps2.len(), snaps1.len());
    assert_eq!(uris_of(&snaps1[0].records), uris_of(&snaps2[0].records));
    // The second run inserted nothing: it stopped inside the first page.
    assert_eq!(source2.pages_served(), 1);
}

#[test]
fn year_partitioning_splits_at_new_year() {
    // One second before midnight lands in 2023; midnight lands in 2024.
    let mut engine: SyncEngine<BlueskyPost> = SyncEngine::new(SyncMode::FullSync);
    let mut source = VecSource::new(vec![vec![
        post("b", 1704067200), // 2024-01-01T00:00:00Z
        post("a", 1704067199), // 2023-12-31T23:59:59Z
    ]]);
    engine.run(&mut source);
    let snaps = engine.store.into_snapshots();
    assert_eq!(snaps.len(), 2);
    let mut years: Vec<i32> = snaps.iter().map(|p| p.year).collect();
    years.sort();
    assert_eq!(years, vec![2023, 2024]);
    for snap in &snaps {
        assert_eq!(snap.records.len(), 1);
        if snap.year == 2024 {
            assert_eq!(snap.records[0].uri, "b");
        } else {
            assert_eq!(snap.records[0].uri, "a");
        }
    }
}

#[test]
fn empty_first_page_ends_with_nothing() {
    let mut engine: SyncEngine<BlueskyPost> = SyncEngine::new(SyncMode::Incremental);
    let mut source = VecSource::new(vec![vec![]]);
    engine.run(&mut source);
    assert_eq!(source.pages_served(), 1);
    assert_eq!(engine.store.partitions().len(), 0);
}

#[test]
fn duplicate_insert_is_rejected() {
    // Two records with the same identity: only the first is kept.
    let mut engine: SyncEngine<BlueskyPost> = SyncEngine::new(SyncMode::FullSync);
    let outcome = engine.process_page(vec![post("a", T_2024), post("a", T_2024)]);
    assert_eq!(outcome, PageOutcome::Continue);
    let parts = engine.store.partitions();
    assert_eq!(parts.len(), 1);
    assert_eq!(parts[0].records.len(), 1);
}

#[test]
fn process_page_signals_boundary_in_incremental_mode() {
    let mut engine: SyncEngine<BlueskyPost> = SyncEngine::new(SyncMode::Incremental);
    engine.store.seed(2023, vec![post("old", T_2023)]);
    let outcome = engine.process_page(vec![post("new", T_2023), post("old", T_2023)]);
    assert_eq!(outcome, PageOutcome::Boundary);
    let parts = engine.store.partitions();
    assert_eq!(parts.len(), 1);
    assert_eq!(parts[0].records.len(), 2);
}

#[test]
fn seed_keeps_only_the_named_year_and_first_occurrences() {
    let mut engine: SyncEngine<BlueskyPost> = SyncEngine::new(SyncMode::Incremental);
    engine.store.seed(
        2024,
        vec![
            post("a", T_2024),
            post("a", T_2024),  // duplicate identity: dropped
            post("b", T_2023),  // wrong year: dropped
            post("c", T_2024),
        ],
    );
    let parts = engine.store.partitions();
    assert_eq!(parts.len(), 1);
    assert_eq!(parts[0].year, 2024);
    assert_eq!(uris_of(&parts[0].records), vec!["a", "c"]);
}
