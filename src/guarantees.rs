//! What the store and the sync engine guarantee across operations, proved
//! over the models that the operations' contracts speak of.
use vstd::prelude::*;
use crate::store::{
    PersistError, StoreModel, discover, entry_for, enqueue_ids, lemma_enqueue_ids,
    lemma_high_water_is_max, lemma_persist_detail, lemma_same_rows, lemma_same_stats,
    persist_detail, upsert_character, upsert_member,
};
use crate::sync::{FetchResult, persist_all};

verus! {

/// Whether high-water mark `a` is at most `b`; an absent mark is below every
/// present one.
pub open spec fn mark_le(a: Option<u64>, b: Option<u64>) -> bool {
    match a {
        None => true,
        Some(x) => match b {
            Some(y) => x <= y,
            None => false,
        },
    }
}

/// Whether some result of `results` is a report for `activity_id`.
pub open spec fn reports(results: Seq<FetchResult>, activity_id: u64) -> bool {
    exists|i: int|
        0 <= i < results.len() && (#[trigger] results[i]) is Found && results[i]->Found_0.activity_id
            == activity_id
}

/// Upserting the same member twice leaves exactly one row for it: the
/// second upsert changes nothing and returns the same row.
pub proof fn upsert_member_twice(m: StoreModel, member_id: u64, platform: u32)
    requires
        m.wf(),
    ensures
        ({
            let (m1, r1) = upsert_member(m, member_id, platform);
            let (m2, r2) = upsert_member(m1, member_id, platform);
            &&& m2 == m1
            &&& r2 == r1
            &&& m1.is_member_row(r1, member_id, platform)
            &&& forall|i: int| m1.is_member_row(i, member_id, platform) ==> i == r1
        }),
{
    let (m1, r1) = upsert_member(m, member_id, platform);
    if m.member_row(member_id, platform) is Some {
        assert(m.is_member_row(r1, member_id, platform));
        assert forall|i: int| m1.is_member_row(i, member_id, platform) implies i == r1 by {
            assert(m.members[i] == m.members[r1]);
        }
    } else {
        assert(m1.is_member_row(r1, member_id, platform));
        assert forall|i: int| m1.is_member_row(i, member_id, platform) implies i == r1 by {
            if i < r1 {
                assert(m.is_member_row(i, member_id, platform));
            }
        }
    }
}

/// Upserting the same character twice leaves exactly one row for it: the
/// second upsert changes nothing and returns the same row.
pub proof fn upsert_character_twice(m: StoreModel, character_id: u64, member: int)
    requires
        m.wf(),
        0 <= member < m.members.len(),
        m.members.len() <= usize::MAX,
    ensures
        ({
            let (m1, r1) = upsert_character(m, character_id, member);
            let (m2, r2) = upsert_character(m1, character_id, member);
            &&& m2 == m1
            &&& r2 == r1
            &&& m1.is_character_row(r1, character_id, member)
            &&& forall|i: int| m1.is_character_row(i, character_id, member) ==> i == r1
        }),
{
    let (m1, r1) = upsert_character(m, character_id, member);
    if m.character_row(character_id, member) is Some {
        assert(m.is_character_row(r1, character_id, member));
        assert forall|i: int| m1.is_character_row(i, character_id, member) implies i == r1 by {
            assert(m.characters[i] == m.characters[r1]);
        }
    } else {
        assert(m1.is_character_row(r1, character_id, member));
        assert forall|i: int| m1.is_character_row(i, character_id, member) implies i == r1 by {
            if i < r1 {
                assert(m.is_character_row(i, character_id, member));
            }
        }
    }
}

/// In a well-formed store no activity is both pending and persisted for the
/// same character.
pub proof fn queue_and_stats_disjoint(m: StoreModel, c: int)
    requires
        m.wf(),
    ensures
        m.queued_ids(c).disjoint(m.persisted_ids(c)),
{
    assert forall|x: u64| m.queued_ids(c).contains(x) implies !m.persisted_ids(c).contains(x) by {
        let i = choose|i: int|
            0 <= i < m.queue.len() && #[trigger] m.queue[i].character as int == c
                && m.queue[i].activity_id == x;
        assert(m.queue[i].character as int == c);
    }
}

/// A store that keeps every persisted id of a character never lowers its
/// high-water mark.
pub proof fn high_water_monotone(before: StoreModel, after: StoreModel, c: int)
    requires
        forall|x: u64| before.has_stat(c, x) ==> after.has_stat(c, x),
    ensures
        mark_le(before.high_water(c), after.high_water(c)),
{
    lemma_high_water_is_max(before, c);
    lemma_high_water_is_max(after, c);
    if let Some(v) = before.high_water(c) {
        assert(after.has_stat(c, v));
    }
}

/// Persisting a batch of fetch results keeps the store well formed, keeps
/// every persisted id, persists only reported ids and only for the
/// character, takes an id off the queue exactly when it became persisted,
/// and persists every report that has an entry for a known character.
pub proof fn persist_all_effect(
    m: StoreModel,
    results: Seq<FetchResult>,
    member_id: u64,
    character_id: u64,
    platform: u32,
)
    requires
        m.wf(),
        m.characters.len() <= usize::MAX,
        m.activities.len() + results.len() <= usize::MAX,
    ensures
        ({
            let m2 = persist_all(m, results, member_id, character_id, platform).0;
            let row = m.owned_character_row(member_id, platform, character_id);
            &&& m2.wf()
            &&& m2.members == m.members
            &&& m2.characters == m.characters
            &&& m2.activities.len() <= m.activities.len() + results.len()
            &&& forall|c: int, x: u64| m.has_stat(c, x) ==> m2.has_stat(c, x)
            &&& forall|c: int, x: u64|
                m2.has_stat(c, x) ==> m.has_stat(c, x) || (row == Some(c) && reports(results, x))
            &&& forall|c: int, x: u64|
                m2.is_queued(c, x) <==> m.is_queued(c, x) && !m2.has_stat(c, x)
            &&& forall|i: int|
                0 <= i < results.len() && (#[trigger] results[i]) is Found && row is Some
                    && entry_for(results[i]->Found_0.entries@, character_id) is Some
                    ==> m2.has_stat(row->0, results[i]->Found_0.activity_id)
        }),
    decreases results.len(),
{
    let row = m.owned_character_row(member_id, platform, character_id);
    if results.len() > 0 {
        let n = results.len() - 1;
        let init = results.drop_last();
        persist_all_effect(m, init, member_id, character_id, platform);
        let m1 = persist_all(m, init, member_id, character_id, platform).0;
        let m2 = persist_all(m, results, member_id, character_id, platform).0;
        lemma_same_rows(m, m1, member_id, platform, character_id);
        assert forall|x: u64| reports(init, x) implies reports(results, x) by {
            let i = choose|i: int|
                0 <= i < init.len() && (#[trigger] init[i]) is Found && init[i]->Found_0.activity_id
                    == x;
            assert(results[i] == init[i]);
        }
        assert forall|i: int| 0 <= i < n implies #[trigger] results[i] == init[i] by {}
        if let FetchResult::Found(d) = results.last() {
            lemma_persist_detail(m1, d, member_id, character_id, platform);
            assert(results[n] is Found);
            assert(reports(results, d.activity_id));
            let r = persist_detail(m1, d, member_id, character_id, platform).1;
            assert forall|c: int, x: u64|
                m2.is_queued(c, x) <==> m.is_queued(c, x) && !m2.has_stat(c, x) by {
                if r is Ok {
                    assert(m2.has_stat(c, x) <==> m1.has_stat(c, x) || (row == Some(c) && x
                        == d.activity_id));
                }
            }
        }
    }
}

/// A fetch that fails, or finds no data, leaves its id queued, provided that
/// no other result of the batch reports that id.
pub proof fn failed_fetch_stays_queued(
    m: StoreModel,
    results: Seq<FetchResult>,
    member_id: u64,
    character_id: u64,
    platform: u32,
    c: int,
    x: u64,
)
    requires
        m.wf(),
        m.characters.len() <= usize::MAX,
        m.activities.len() + results.len() <= usize::MAX,
        m.is_queued(c, x),
        !reports(results, x),
    ensures
        persist_all(m, results, member_id, character_id, platform).0.is_queued(c, x),
{
    persist_all_effect(m, results, member_id, character_id, platform);
    let i = choose|i: int|
        0 <= i < m.queue.len() && #[trigger] m.queue[i].character as int == c
            && m.queue[i].activity_id == x;
    assert(m.queue[i].character as int == c);
}

/// A report with an entry for a known character ends persisted for it and off
/// its queue, whatever else in the batch fails.
pub proof fn found_report_is_persisted(
    m: StoreModel,
    results: Seq<FetchResult>,
    member_id: u64,
    character_id: u64,
    platform: u32,
    i: int,
)
    requires
        m.wf(),
        m.characters.len() <= usize::MAX,
        m.activities.len() + results.len() <= usize::MAX,
        0 <= i < results.len(),
        results[i] is Found,
        m.owned_character_row(member_id, platform, character_id) is Some,
        entry_for(results[i]->Found_0.entries@, character_id) is Some,
    ensures
        ({
            let m2 = persist_all(m, results, member_id, character_id, platform).0;
            let c = m.owned_character_row(member_id, platform, character_id)->0;
            let x = results[i]->Found_0.activity_id;
            m2.has_stat(c, x) && !m2.is_queued(c, x)
        }),
{
    persist_all_effect(m, results, member_id, character_id, platform);
}

/// Persisting the same report twice for the same character adds its
/// statistics once: the second attempt changes nothing and reports a
/// duplicate.
pub proof fn persist_twice_is_duplicate(
    m: StoreModel,
    d: crate::store::ActivityDetail,
    member_id: u64,
    character_id: u64,
    platform: u32,
)
    requires
        m.wf(),
        m.characters.len() <= usize::MAX,
        m.activities.len() < usize::MAX,
    ensures
        ({
            let (m1, r1) = persist_detail(m, d, member_id, character_id, platform);
            r1 is Ok ==> persist_detail(m1, d, member_id, character_id, platform) == (
                m1,
                Err::<(), PersistError>(PersistError::DuplicateStat),
            )
        }),
{
    lemma_persist_detail(m, d, member_id, character_id, platform);
    let m1 = persist_detail(m, d, member_id, character_id, platform).0;
    lemma_same_rows(m, m1, member_id, platform, character_id);
}

/// Neither persisting a batch nor discovery lowers the high-water mark of any
/// character.
pub proof fn high_water_never_regresses(
    m: StoreModel,
    results: Seq<FetchResult>,
    found: Option<Seq<u64>>,
    member_id: u64,
    character_id: u64,
    platform: u32,
)
    requires
        m.wf(),
        m.members.len() < usize::MAX,
        m.characters.len() < usize::MAX,
        m.activities.len() + results.len() <= usize::MAX,
    ensures
        ({
            let m1 = persist_all(m, results, member_id, character_id, platform).0;
            let m2 = discover(m, member_id, character_id, platform, found);
            &&& mark_le(
                m.high_water_of(member_id, platform, character_id),
                m1.high_water_of(member_id, platform, character_id),
            )
            &&& mark_le(
                m.high_water_of(member_id, platform, character_id),
                m2.high_water_of(member_id, platform, character_id),
            )
        }),
{
    let row = m.owned_character_row(member_id, platform, character_id);
    persist_all_effect(m, results, member_id, character_id, platform);
    let m1 = persist_all(m, results, member_id, character_id, platform).0;
    lemma_same_rows(m, m1, member_id, platform, character_id);
    if let Some(c) = row {
        high_water_monotone(m, m1, c);
    }
    if let Some(ids) = found {
        let (ma, mr) = upsert_member(m, member_id, platform);
        let (mb, cr) = upsert_character(ma, character_id, mr);
        if let Some(c) = row {
            let i = m.member_row(member_id, platform)->0;
            assert(m.is_member_row(i, member_id, platform));
            assert(ma == m);
            assert(m.is_character_row(c, character_id, i));
            assert(mb == m);
            lemma_enqueue_ids(m, cr, ids.reverse());
            let m2 = enqueue_ids(m, cr, ids.reverse());
            lemma_same_rows(m, m2, member_id, platform, character_id);
            lemma_same_stats(m, m2);
            high_water_monotone(m, m2, c);
        }
    }
}

} // verus!
