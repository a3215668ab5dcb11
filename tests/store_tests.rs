use dcli::store::{ActivityDetail, ActivityStoreInterface, ActivityValues, PersistError, PlayerEntry};
use dcli::steam_id::is_valid_steam_id;

const MEMBER: u64 = 4611686018429783292;
const CHARACTER: u64 = 2305843009264966985;
const OTHER_CHARACTER: u64 = 2305843009264966986;
const PLATFORM: u32 = 3;

fn values(kills: i64) -> ActivityValues {
    ActivityValues {
        assists: 2,
        score: 10 * kills,
        kills,
        deaths: 3,
        completed: true,
        opponents_defeated: kills + 2,
        activity_duration_seconds: 600,
        standing: 0,
        team: 17,
        completion_reason: 0,
        start_seconds: 0,
        time_played_seconds: 590,
        player_count: 12,
        team_score: 100,
        precision_kills: 1,
        weapon_kills_ability: 0,
        weapon_kills_grenade: 1,
        weapon_kills_melee: 0,
        weapon_kills_super: 2,
    }
}

fn detail(activity_id: u64, character_id: u64) -> ActivityDetail {
    ActivityDetail {
        activity_id,
        period: 1_600_000_000 + activity_id as i64,
        mode: 5,
        platform: PLATFORM,
        director_activity_hash: 2_000_000 + activity_id,
        entries: vec![
            PlayerEntry { character_id: 1, values: values(1) },
            PlayerEntry { character_id, values: values(activity_id as i64) },
        ],
    }
}

fn store_with_character() -> ActivityStoreInterface {
    let mut store = ActivityStoreInterface::new();
    let m = store.insert_member_id(MEMBER, PLATFORM);
    store.insert_character_id(CHARACTER, m);
    store
}

#[test]
fn steam_id_of_seventeen_digits_is_valid() {
    assert!(is_valid_steam_id("76561198000000000"));
}

#[test]
fn steam_id_of_wrong_length_is_invalid() {
    assert!(!is_valid_steam_id("7656119800000000"));
    assert!(!is_valid_steam_id("765611980000000001"));
    assert!(!is_valid_steam_id(""));
}

#[test]
fn steam_id_with_a_non_digit_is_invalid() {
    assert!(!is_valid_steam_id("7656119800000000a"));
    assert!(!is_valid_steam_id("-7656119800000000"));
}

#[test]
fn steam_id_with_a_plus_sign_parses() {
    assert!(is_valid_steam_id("+7656119800000000"));
}

#[test]
fn member_upsert_is_idempotent() {
    let mut store = ActivityStoreInterface::new();
    let a = store.insert_member_id(MEMBER, PLATFORM);
    let b = store.insert_member_id(MEMBER, PLATFORM);
    assert_eq!(a, b);
    assert_eq!(store.members().len(), 1);
    let c = store.insert_member_id(MEMBER, PLATFORM + 1);
    assert_ne!(a, c);
    assert_eq!(store.members().len(), 2);
}

#[test]
fn character_upsert_is_idempotent() {
    let mut store = ActivityStoreInterface::new();
    let m = store.insert_member_id(MEMBER, PLATFORM);
    let a = store.insert_character_id(CHARACTER, m);
    let b = store.insert_character_id(CHARACTER, m);
    assert_eq!(a, b);
    assert_eq!(store.characters().len(), 1);
    assert_eq!(store.find_owned_character_row(MEMBER, PLATFORM, CHARACTER), Some(a));
    assert_eq!(store.find_owned_character_row(MEMBER, PLATFORM + 1, CHARACTER), None);
}

#[test]
fn high_water_mark_is_absent_without_stats() {
    let store = store_with_character();
    assert_eq!(store.get_max_activity_id(MEMBER, CHARACTER, PLATFORM), None);
    let empty = ActivityStoreInterface::new();
    assert_eq!(empty.get_max_activity_id(MEMBER, CHARACTER, PLATFORM), None);
}

#[test]
fn high_water_mark_compares_numerically() {
    let mut store = store_with_character();
    assert_eq!(store.insert_character_activity_stats(&detail(99, CHARACTER), MEMBER, CHARACTER, PLATFORM), Ok(()));
    assert_eq!(store.insert_character_activity_stats(&detail(1000, CHARACTER), MEMBER, CHARACTER, PLATFORM), Ok(()));
    assert_eq!(store.insert_character_activity_stats(&detail(200, CHARACTER), MEMBER, CHARACTER, PLATFORM), Ok(()));
    assert_eq!(store.get_max_activity_id(MEMBER, CHARACTER, PLATFORM), Some(1000));
}

#[test]
fn persist_stores_activity_stat_and_dequeues() {
    let mut store = store_with_character();
    store.update_activity_queue(MEMBER, CHARACTER, PLATFORM, Some(vec![7]));
    assert_eq!(store.queue().len(), 1);
    let r = store.insert_character_activity_stats(&detail(7, CHARACTER), MEMBER, CHARACTER, PLATFORM);
    assert_eq!(r, Ok(()));
    assert_eq!(store.queue().len(), 0);
    assert_eq!(store.activities().len(), 1);
    assert_eq!(store.activities()[0].activity_id, 7);
    assert_eq!(store.activities()[0].director_activity_hash, 2_000_007);
    assert_eq!(store.stats().len(), 1);
    assert_eq!(store.stats()[0].values.kills, 7);
}

#[test]
fn persisting_twice_is_a_duplicate() {
    let mut store = store_with_character();
    let d = detail(7, CHARACTER);
    assert_eq!(store.insert_character_activity_stats(&d, MEMBER, CHARACTER, PLATFORM), Ok(()));
    assert_eq!(
        store.insert_character_activity_stats(&d, MEMBER, CHARACTER, PLATFORM),
        Err(PersistError::DuplicateStat)
    );
    assert_eq!(store.stats().len(), 1);
    assert_eq!(store.activities().len(), 1);
}

#[test]
fn persisting_for_an_unknown_character_fails() {
    let mut store = store_with_character();
    let r = store.insert_character_activity_stats(&detail(7, OTHER_CHARACTER), MEMBER, OTHER_CHARACTER, PLATFORM);
    assert_eq!(r, Err(PersistError::CharacterNotFound));
    assert_eq!(store.activities().len(), 0);
}

#[test]
fn persisting_a_report_without_the_character_fails() {
    let mut store = store_with_character();
    let r = store.insert_character_activity_stats(&detail(7, OTHER_CHARACTER), MEMBER, CHARACTER, PLATFORM);
    assert_eq!(r, Err(PersistError::EntryMissing));
    assert_eq!(store.stats().len(), 0);
    assert_eq!(store.activities().len(), 0);
}

#[test]
fn activity_is_shared_between_characters() {
    let mut store = store_with_character();
    let m = store.insert_member_id(MEMBER, PLATFORM);
    store.insert_character_id(OTHER_CHARACTER, m);
    let mut d = detail(7, CHARACTER);
    d.entries.push(PlayerEntry { character_id: OTHER_CHARACTER, values: values(4) });
    assert_eq!(store.insert_character_activity_stats(&d, MEMBER, CHARACTER, PLATFORM), Ok(()));
    assert_eq!(store.insert_character_activity_stats(&d, MEMBER, OTHER_CHARACTER, PLATFORM), Ok(()));
    assert_eq!(store.activities().len(), 1);
    assert_eq!(store.stats().len(), 2);
    assert_eq!(store.stats()[1].values.kills, 4);
}

#[test]
fn entry_lookup_takes_the_first_match() {
    let mut d = detail(7, CHARACTER);
    d.entries.push(PlayerEntry { character_id: CHARACTER, values: values(50) });
    assert_eq!(d.get_entry_for_character(CHARACTER).map(|v| v.kills), Some(7));
    assert_eq!(d.get_entry_for_character(OTHER_CHARACTER), None);
}

#[test]
fn discovery_queues_oldest_first() {
    let mut store = ActivityStoreInterface::new();
    store.update_activity_queue(MEMBER, CHARACTER, PLATFORM, Some(vec![105, 104, 103]));
    assert_eq!(store.members().len(), 1);
    assert_eq!(store.characters().len(), 1);
    assert_eq!(store.pending_ids(MEMBER, CHARACTER, PLATFORM), vec![103, 104, 105]);
    assert_eq!(store.get_max_activity_id(MEMBER, CHARACTER, PLATFORM), None);
}

#[test]
fn discovery_of_nothing_changes_nothing() {
    let mut store = ActivityStoreInterface::new();
    store.update_activity_queue(MEMBER, CHARACTER, PLATFORM, None);
    assert_eq!(store.members().len(), 0);
    assert_eq!(store.queue().len(), 0);
}

#[test]
fn discovery_skips_queued_and_persisted_ids() {
    let mut store = store_with_character();
    assert_eq!(store.insert_character_activity_stats(&detail(5, CHARACTER), MEMBER, CHARACTER, PLATFORM), Ok(()));
    store.update_activity_queue(MEMBER, CHARACTER, PLATFORM, Some(vec![6]));
    store.update_activity_queue(MEMBER, CHARACTER, PLATFORM, Some(vec![7, 6, 6, 5]));
    assert_eq!(store.pending_ids(MEMBER, CHARACTER, PLATFORM), vec![6, 7]);
}

#[test]
fn queues_are_kept_per_character() {
    let mut store = ActivityStoreInterface::new();
    store.update_activity_queue(MEMBER, CHARACTER, PLATFORM, Some(vec![2, 1]));
    store.update_activity_queue(MEMBER, OTHER_CHARACTER, PLATFORM, Some(vec![3, 1]));
    assert_eq!(store.pending_ids(MEMBER, CHARACTER, PLATFORM), vec![1, 2]);
    assert_eq!(store.pending_ids(MEMBER, OTHER_CHARACTER, PLATFORM), vec![1, 3]);
    assert_eq!(store.pending_ids(MEMBER, CHARACTER, PLATFORM + 1), Vec::<u64>::new());
}
