use dcli::store::{ActivityDetail, ActivityStoreInterface, ActivityValues, PlayerEntry};
use dcli::sync::{
    batches, persist_batch, DeferReason, FetchResult, ItemOutcome, SyncAction, SyncPhase,
    SyncSession, BATCH_SIZE,
};

const MEMBER: u64 = 4611686018429783292;
const CHARACTER: u64 = 2305843009264966985;
const PLATFORM: u32 = 3;

fn values(kills: i64) -> ActivityValues {
    ActivityValues {
        assists: 0,
        score: kills * 100,
        kills,
        deaths: 1,
        completed: true,
        opponents_defeated: kills,
        activity_duration_seconds: 480,
        standing: 1,
        team: 18,
        completion_reason: 0,
        start_seconds: 0,
        time_played_seconds: 470,
        player_count: 6,
        team_score: 50,
        precision_kills: 0,
        weapon_kills_ability: 0,
        weapon_kills_grenade: 0,
        weapon_kills_melee: 0,
        weapon_kills_super: 0,
    }
}

fn found(activity_id: u64) -> FetchResult {
    FetchResult::Found(ActivityDetail {
        activity_id,
        period: 1_600_000_000,
        mode: 5,
        platform: PLATFORM,
        director_activity_hash: 42,
        entries: vec![PlayerEntry { character_id: CHARACTER, values: values(3) }],
    })
}

fn queued_ids(store: &ActivityStoreInterface) -> Vec<u64> {
    store.pending_ids(MEMBER, CHARACTER, PLATFORM)
}

fn persisted_ids(store: &ActivityStoreInterface) -> Vec<u64> {
    let mut ids = Vec::new();
    for s in store.stats() {
        ids.push(store.activities()[s.activity].activity_id);
    }
    ids.sort();
    ids
}

fn fetch_ids(action: &SyncAction) -> Vec<u64> {
    match action {
        SyncAction::FetchDetails(ids) => ids.clone(),
        _ => panic!("expected a fetch of details"),
    }
}

#[test]
fn thirty_ids_make_two_batches() {
    let ids: Vec<u64> = (1..=30).collect();
    let bs = batches(&ids);
    assert_eq!(bs.len(), 2);
    assert_eq!(bs[0].len(), 25);
    assert_eq!(bs[1].len(), 5);
    assert_eq!(bs[0], (1..=25).collect::<Vec<u64>>());
    assert_eq!(bs[1], (26..=30).collect::<Vec<u64>>());
}

#[test]
fn batch_sizes_at_the_edges() {
    assert_eq!(BATCH_SIZE, 25);
    assert!(batches(&Vec::new()).is_empty());
    let exact: Vec<u64> = (0..25).collect();
    assert_eq!(batches(&exact).len(), 1);
    let over: Vec<u64> = (0..26).collect();
    let bs = batches(&over);
    assert_eq!(bs.len(), 2);
    assert_eq!(bs[1], vec![25]);
    for b in batches(&(0..1000).collect()) {
        assert!(!b.is_empty() && b.len() <= BATCH_SIZE);
    }
}

#[test]
fn a_failed_fetch_stays_queued() {
    let mut store = ActivityStoreInterface::new();
    store.update_activity_queue(MEMBER, CHARACTER, PLATFORM, Some(vec![3, 2, 1]));
    let results = vec![found(1), FetchResult::Failed(2), found(3)];
    let outcomes = persist_batch(&mut store, MEMBER, CHARACTER, PLATFORM, &results);
    assert_eq!(
        outcomes,
        vec![ItemOutcome::Persisted, ItemOutcome::Deferred(DeferReason::FetchFailed), ItemOutcome::Persisted]
    );
    assert_eq!(queued_ids(&store), vec![2]);
    assert_eq!(persisted_ids(&store), vec![1, 3]);
}

#[test]
fn no_data_stays_queued() {
    let mut store = ActivityStoreInterface::new();
    store.update_activity_queue(MEMBER, CHARACTER, PLATFORM, Some(vec![9]));
    let outcomes = persist_batch(&mut store, MEMBER, CHARACTER, PLATFORM, &vec![FetchResult::NoData(9)]);
    assert_eq!(outcomes, vec![ItemOutcome::Deferred(DeferReason::NoData)]);
    assert_eq!(queued_ids(&store), vec![9]);
    assert!(store.stats().is_empty());
}

#[test]
fn a_duplicate_in_a_batch_is_reported() {
    let mut store = ActivityStoreInterface::new();
    store.update_activity_queue(MEMBER, CHARACTER, PLATFORM, Some(vec![4]));
    let outcomes = persist_batch(&mut store, MEMBER, CHARACTER, PLATFORM, &vec![found(4), found(4)]);
    assert_eq!(
        outcomes,
        vec![ItemOutcome::Persisted, ItemOutcome::Failed(dcli::store::PersistError::DuplicateStat)]
    );
    assert_eq!(store.stats().len(), 1);
}

#[test]
fn queue_and_stats_stay_disjoint() {
    let mut store = ActivityStoreInterface::new();
    store.update_activity_queue(MEMBER, CHARACTER, PLATFORM, Some(vec![5, 4, 3, 2, 1]));
    persist_batch(&mut store, MEMBER, CHARACTER, PLATFORM, &vec![found(1), FetchResult::Failed(2), found(4)]);
    store.update_activity_queue(MEMBER, CHARACTER, PLATFORM, Some(vec![6, 4, 1]));
    let queued = queued_ids(&store);
    for id in persisted_ids(&store) {
        assert!(!queued.contains(&id));
    }
    assert_eq!(queued, vec![2, 3, 5, 6]);
}

#[test]
fn end_to_end_sync() {
    let mut store = ActivityStoreInterface::new();
    let (mut session, action) = SyncSession::start(&store, MEMBER, CHARACTER, PLATFORM);
    assert_eq!(session.phase, SyncPhase::Discover);
    assert!(matches!(action, SyncAction::FetchSince(None)));
    let action = session.on_found(&mut store, Some(vec![105, 104, 103]));
    assert_eq!(queued_ids(&store), vec![103, 104, 105]);
    assert_eq!(store.get_max_activity_id(MEMBER, CHARACTER, PLATFORM), None);
    assert_eq!(session.phase, SyncPhase::SecondDrain);
    assert_eq!(fetch_ids(&action), vec![103, 104, 105]);
    let results = vec![found(103), found(104), found(105)];
    let (outcomes, action) = session.on_details(&mut store, &results);
    assert_eq!(outcomes, vec![ItemOutcome::Persisted; 3]);
    assert!(matches!(action, SyncAction::Done));
    assert_eq!(session.phase, SyncPhase::Done);
    assert!(queued_ids(&store).is_empty());
    assert_eq!(store.activities().len(), 3);
    assert_eq!(store.stats().len(), 3);
    assert_eq!(store.get_max_activity_id(MEMBER, CHARACTER, PLATFORM), Some(105));
}

#[test]
fn resumed_sync() {
    let mut store = ActivityStoreInterface::new();
    let (mut session, _) = SyncSession::start(&store, MEMBER, CHARACTER, PLATFORM);
    let action = session.on_found(&mut store, Some(vec![105, 104, 103]));
    assert_eq!(fetch_ids(&action), vec![103, 104, 105]);
    let results = vec![found(103), FetchResult::Failed(104), found(105)];
    session.on_details(&mut store, &results);
    assert_eq!(queued_ids(&store), vec![104]);
    assert_eq!(store.get_max_activity_id(MEMBER, CHARACTER, PLATFORM), Some(105));

    let (mut session, action) = SyncSession::start(&store, MEMBER, CHARACTER, PLATFORM);
    assert_eq!(session.phase, SyncPhase::FirstDrain);
    assert_eq!(fetch_ids(&action), vec![104]);
    let (outcomes, action) = session.on_details(&mut store, &vec![found(104)]);
    assert_eq!(outcomes, vec![ItemOutcome::Persisted]);
    assert!(matches!(action, SyncAction::FetchSince(Some(105))));
    assert!(queued_ids(&store).is_empty());
    assert_eq!(store.get_max_activity_id(MEMBER, CHARACTER, PLATFORM), Some(105));
    let action = session.on_found(&mut store, None);
    assert!(matches!(action, SyncAction::Done));
    assert_eq!(persisted_ids(&store), vec![103, 104, 105]);
}

#[test]
fn a_sync_of_thirty_pending_ids_fetches_two_batches() {
    let mut store = ActivityStoreInterface::new();
    let (mut session, _) = SyncSession::start(&store, MEMBER, CHARACTER, PLATFORM);
    let newest_first: Vec<u64> = (1..=30).rev().collect();
    let mut action = session.on_found(&mut store, Some(newest_first));
    let mut sizes = Vec::new();
    while let SyncAction::FetchDetails(ids) = &action {
        sizes.push(ids.len());
        let results: Vec<FetchResult> = ids.iter().map(|id| found(*id)).collect();
        action = session.on_details(&mut store, &results).1;
    }
    assert_eq!(sizes, vec![25, 5]);
    assert!(matches!(action, SyncAction::Done));
    assert_eq!(store.stats().len(), 30);
}

#[test]
fn high_water_mark_never_drops_across_syncs() {
    let mut store = ActivityStoreInterface::new();
    store.update_activity_queue(MEMBER, CHARACTER, PLATFORM, Some(vec![20, 10]));
    persist_batch(&mut store, MEMBER, CHARACTER, PLATFORM, &vec![found(20)]);
    let before = store.get_max_activity_id(MEMBER, CHARACTER, PLATFORM);
    persist_batch(&mut store, MEMBER, CHARACTER, PLATFORM, &vec![found(10)]);
    let after = store.get_max_activity_id(MEMBER, CHARACTER, PLATFORM);
    assert_eq!(before, Some(20));
    assert_eq!(after, Some(20));
}
