//! The sync engine's decisions: the batches in which queued ids are fetched,
//! and how each batch of fetch results is persisted. Fetching itself is done
//! by the caller, which hands the results in.
use vstd::prelude::*;
use crate::store::{
    ActivityDetail, ActivityStoreInterface, PersistError, StoreModel, discover, pending_of,
    persist_detail,
};

verus! {

/// The most fetches that are in flight together.
pub const BATCH_SIZE: usize = 25;

/// The end of batch `k` of a list of `n` ids.
pub open spec fn batch_end(k: int, n: int) -> int {
    if (k + 1) * (BATCH_SIZE as int) < n {
        (k + 1) * (BATCH_SIZE as int)
    } else {
        n
    }
}

/// Batch `k` of `ids`: the ids from `k * BATCH_SIZE` on, at most `BATCH_SIZE`
/// of them.
pub open spec fn batch_of(ids: Seq<u64>, k: int) -> Seq<u64> {
    ids.subrange(k * (BATCH_SIZE as int), batch_end(k, ids.len() as int))
}

/// Whether `bs` is `ids` split into consecutive batches of `BATCH_SIZE`, the
/// last one possibly shorter: just enough batches to hold every id, none
/// empty.
pub open spec fn is_batching(bs: Seq<Vec<u64>>, ids: Seq<u64>) -> bool {
    &&& bs.len() * (BATCH_SIZE as int) >= ids.len()
    &&& bs.len() == 0 || (bs.len() - 1) * (BATCH_SIZE as int) < ids.len()
    &&& forall|k: int| 0 <= k < bs.len() ==> (#[trigger] bs[k])@ == batch_of(ids, k)
    &&& forall|k: int| 0 <= k < bs.len() ==> 0 < (#[trigger] bs[k])@.len() <= BATCH_SIZE
}

/// Splits `ids` into consecutive batches of `BATCH_SIZE`, the last one
/// possibly shorter. There are just enough batches to hold every id, and
/// none is empty.
pub fn batches(ids: &Vec<u64>) -> (r: Vec<Vec<u64>>)
    ensures
        is_batching(r@, ids@),
{
    let n = ids.len();
    let mut r: Vec<Vec<u64>> = Vec::new();
    let mut start: usize = 0;
    while start < n
        invariant
            n == ids@.len(),
            start <= n,
            start as int == r@.len() * (BATCH_SIZE as int) || (start == n && r@.len() > 0
                && (r@.len() - 1) * (BATCH_SIZE as int) < n),
            start < n ==> start as int == r@.len() * (BATCH_SIZE as int),
            start as int <= r@.len() * (BATCH_SIZE as int),
            forall|k: int| 0 <= k < r@.len() ==> (#[trigger] r@[k])@ == batch_of(ids@, k),
            forall|k: int| 0 <= k < r@.len() ==> 0 < (#[trigger] r@[k])@.len() <= BATCH_SIZE,
        decreases n - start,
    {
        let end: usize = if n - start > BATCH_SIZE {
            start + BATCH_SIZE
        } else {
            n
        };
        let mut chunk: Vec<u64> = Vec::new();
        let mut i: usize = start;
        while i < end
            invariant
                start <= i <= end <= n == ids@.len(),
                chunk@ == ids@.subrange(start as int, i as int),
            decreases end - i,
        {
            chunk.push(ids[i]);
            i += 1;
            assert(chunk@ =~= ids@.subrange(start as int, i as int));
        }
        let ghost k = r@.len() as int;
        assert(end as int == batch_end(k, n as int));
        r.push(chunk);
        assert(r@[k]@ == batch_of(ids@, k));
        start = end;
    }
    r
}

/// Why a fetched id was left in the queue.
#[derive(Clone, Copy, Debug, PartialEq, Eq, Structural)]
pub enum DeferReason {
    /// The remote service had no data for the activity.
    NoData,
    /// The fetch failed.
    FetchFailed,
}

/// What became of one fetched id.
#[derive(Clone, Copy, Debug, PartialEq, Eq, Structural)]
pub enum ItemOutcome {
    /// Its statistics were persisted and it left the queue.
    Persisted,
    /// It stays queued, to be fetched again on a later run.
    Deferred(DeferReason),
    /// Its report could not be persisted; it stays queued.
    Failed(PersistError),
}

/// The result of fetching the detail of one queued activity id.
#[derive(Clone, Debug)]
pub enum FetchResult {
    Found(ActivityDetail),
    NoData(u64),
    Failed(u64),
}

/// The store after persisting the results of a batch in order, and the
/// outcome of each result.
pub open spec fn persist_all(
    m: StoreModel,
    results: Seq<FetchResult>,
    member_id: u64,
    character_id: u64,
    platform: u32,
) -> (StoreModel, Seq<ItemOutcome>)
    decreases results.len(),
{
    if results.len() == 0 {
        (m, Seq::empty())
    } else {
        let (m1, o1) = persist_all(m, results.drop_last(), member_id, character_id, platform);
        match results.last() {
            FetchResult::Found(d) => {
                let (m2, r) = persist_detail(m1, d, member_id, character_id, platform);
                (
                    m2,
                    o1.push(
                        match r {
                            Ok(_) => ItemOutcome::Persisted,
                            Err(e) => ItemOutcome::Failed(e),
                        },
                    ),
                )
            },
            FetchResult::NoData(_) => (m1, o1.push(ItemOutcome::Deferred(DeferReason::NoData))),
            FetchResult::Failed(_) => (
                m1,
                o1.push(ItemOutcome::Deferred(DeferReason::FetchFailed)),
            ),
        }
    }
}

/// Persists the fetch results of one batch for character `character_id` of
/// the member `(member_id, platform)`, in order, and reports what became of
/// each. A result that failed, had no data or could not be persisted leaves
/// its id queued and does not stop the others.
pub fn persist_batch(
    store: &mut ActivityStoreInterface,
    member_id: u64,
    character_id: u64,
    platform: u32,
    results: &Vec<FetchResult>,
) -> (r: Vec<ItemOutcome>)
    requires
        old(store)@.wf(),
    ensures
        final(store)@.wf(),
        (final(store)@, r@) == persist_all(
            old(store)@,
            results@,
            member_id,
            character_id,
            platform,
        ),
{
    let ghost m0 = store@;
    let mut out: Vec<ItemOutcome> = Vec::new();
    let mut i: usize = 0;
    while i < results.len()
        invariant
            i <= results@.len(),
            store@.wf(),
            (store@, out@) == persist_all(
                m0,
                results@.subrange(0, i as int),
                member_id,
                character_id,
                platform,
            ),
        decreases results@.len() - i,
    {
        proof {
            assert(results@.subrange(0, i + 1).drop_last() =~= results@.subrange(0, i as int));
            assert(results@.subrange(0, i + 1).last() == results@[i as int]);
        }
        match &results[i] {
            FetchResult::Found(d) => {
                match store.insert_character_activity_stats(d, member_id, character_id, platform) {
                    Ok(()) => out.push(ItemOutcome::Persisted),
                    Err(e) => out.push(ItemOutcome::Failed(e)),
                }
            },
            FetchResult::NoData(_) => out.push(ItemOutcome::Deferred(DeferReason::NoData)),
            FetchResult::Failed(_) => out.push(ItemOutcome::Deferred(DeferReason::FetchFailed)),
        }
        i += 1;
    }
    assert(results@.subrange(0, results@.len() as int) =~= results@);
    out
}

/// Where a sync stands: draining the queue before discovery, waiting for
/// discovery, draining it again, or done.
#[derive(Clone, Copy, Debug, PartialEq, Eq, Structural)]
pub enum SyncPhase {
    FirstDrain,
    Discover,
    SecondDrain,
    Done,
}

/// What the caller is to do next for a sync.
#[derive(Clone, Debug)]
pub enum SyncAction {
    /// Fetch the detail of each of these ids, all together, and hand the
    /// results back in the same order.
    FetchDetails(Vec<u64>),
    /// Ask the remote service for the activities newer than this high-water
    /// mark (all of them where it is `None`), and hand the ids back.
    FetchSince(Option<u64>),
    /// The sync is complete.
    Done,
}

/// The pending ids of character `character_id` of the member
/// `(member_id, platform)` in store `m`, oldest first.
pub open spec fn pending_in(m: StoreModel, member_id: u64, character_id: u64, platform: u32) -> Seq<u64> {
    match m.owned_character_row(member_id, platform, character_id) {
        Some(c) => pending_of(m.queue, c),
        None => Seq::empty(),
    }
}

/// One sync of one character: drain the queue, discover newer activities,
/// drain again. The session decides; the caller fetches. A drain covers the
/// ids queued for this character only: those of other characters wait for
/// their own sync, since a report is persisted on behalf of the character
/// being synced.
pub struct SyncSession {
    pub member_id: u64,
    pub character_id: u64,
    pub platform: u32,
    pub phase: SyncPhase,
    /// The batches of the drain under way.
    pub batches: Vec<Vec<u64>>,
    /// The batch whose results are awaited.
    pub next: usize,
}

impl SyncSession {
    /// The action that the session asks for in its present state.
    pub open spec fn action_matches(self, m: StoreModel, a: SyncAction) -> bool {
        match self.phase {
            SyncPhase::FirstDrain | SyncPhase::SecondDrain => {
                &&& self.next < self.batches@.len()
                &&& a is FetchDetails
                &&& a->FetchDetails_0@ == self.batches@[self.next as int]@
            },
            SyncPhase::Discover => a == SyncAction::FetchSince(
                m.high_water_of(self.member_id, self.platform, self.character_id),
            ),
            SyncPhase::Done => a is Done,
        }
    }

    /// Starts a drain of the character's pending ids in `phase`, or, where
    /// nothing is pending, moves on.
    fn begin_drain(
        store: &ActivityStoreInterface,
        member_id: u64,
        character_id: u64,
        platform: u32,
        phase: SyncPhase,
    ) -> (r: (SyncSession, SyncAction))
        requires
            store@.wf(),
            phase == SyncPhase::FirstDrain || phase == SyncPhase::SecondDrain,
        ensures
            r.0.member_id == member_id,
            r.0.character_id == character_id,
            r.0.platform == platform,
            r.0.next == 0,
            is_batching(r.0.batches@, pending_in(store@, member_id, character_id, platform)),
            r.0.batches@.len() > 0 ==> r.0.phase == phase,
            r.0.batches@.len() == 0 ==> r.0.phase == (if phase == SyncPhase::FirstDrain {
                SyncPhase::Discover
            } else {
                SyncPhase::Done
            }),
            r.0.action_matches(store@, r.1),
    {
        let ids = store.pending_ids(member_id, character_id, platform);
        let bs = batches(&ids);
        if bs.len() > 0 {
            let first = bs[0].clone();
            let s = SyncSession { member_id, character_id, platform, phase, batches: bs, next: 0 };
            (s, SyncAction::FetchDetails(first))
        } else if phase == SyncPhase::FirstDrain {
            let mark = store.get_max_activity_id(member_id, character_id, platform);
            let s = SyncSession {
                member_id,
                character_id,
                platform,
                phase: SyncPhase::Discover,
                batches: bs,
                next: 0,
            };
            (s, SyncAction::FetchSince(mark))
        } else {
            let s = SyncSession {
                member_id,
                character_id,
                platform,
                phase: SyncPhase::Done,
                batches: bs,
                next: 0,
            };
            (s, SyncAction::Done)
        }
    }

    /// Starts the sync of character `character_id` of the member
    /// `(member_id, platform)` with a drain of what is already queued.
    pub fn start(store: &ActivityStoreInterface, member_id: u64, character_id: u64, platform: u32) -> (r: (
        SyncSession,
        SyncAction,
    ))
        requires
            store@.wf(),
        ensures
            r.0.member_id == member_id,
            r.0.character_id == character_id,
            r.0.platform == platform,
            r.0.next == 0,
            is_batching(r.0.batches@, pending_in(store@, member_id, character_id, platform)),
            r.0.phase == (if r.0.batches@.len() > 0 {
                SyncPhase::FirstDrain
            } else {
                SyncPhase::Discover
            }),
            r.0.action_matches(store@, r.1),
    {
        SyncSession::begin_drain(store, member_id, character_id, platform, SyncPhase::FirstDrain)
    }

    /// Takes the fetch results of the awaited batch: persists them, then asks
    /// for the next batch, for discovery after the first drain, or ends after
    /// the second.
    pub fn on_details(&mut self, store: &mut ActivityStoreInterface, results: &Vec<FetchResult>) -> (r: (
        Vec<ItemOutcome>,
        SyncAction,
    ))
        requires
            old(store)@.wf(),
            old(self).phase == SyncPhase::FirstDrain || old(self).phase == SyncPhase::SecondDrain,
            old(self).next < old(self).batches@.len(),
        ensures
            final(store)@.wf(),
            (final(store)@, r.0@) == persist_all(
                old(store)@,
                results@,
                old(self).member_id,
                old(self).character_id,
                old(self).platform,
            ),
            final(self).member_id == old(self).member_id,
            final(self).character_id == old(self).character_id,
            final(self).platform == old(self).platform,
            final(self).batches == old(self).batches,
            old(self).next + 1 < old(self).batches@.len() ==> final(self).phase == old(self).phase
                && final(self).next == old(self).next + 1,
            old(self).next + 1 == old(self).batches@.len() ==> final(self).phase == (if old(
                self,
            ).phase == SyncPhase::FirstDrain {
                SyncPhase::Discover
            } else {
                SyncPhase::Done
            }),
            final(self).action_matches(final(store)@, r.1),
    {
        let outcomes = persist_batch(store, self.member_id, self.character_id, self.platform, results);
        let count = self.batches.len();
        let k = self.next + 1;
        if k < count {
            self.next = k;
            (outcomes, SyncAction::FetchDetails(self.batches[k].clone()))
        } else if self.phase == SyncPhase::FirstDrain {
            self.phase = SyncPhase::Discover;
            let mark = store.get_max_activity_id(self.member_id, self.character_id, self.platform);
            (outcomes, SyncAction::FetchSince(mark))
        } else {
            self.phase = SyncPhase::Done;
            (outcomes, SyncAction::Done)
        }
    }

    /// Takes what discovery found (newest first; `None` when nothing is
    /// newer): queues it, then drains the queue again.
    pub fn on_found(&mut self, store: &mut ActivityStoreInterface, found: Option<Vec<u64>>) -> (r: SyncAction)
        requires
            old(store)@.wf(),
            old(self).phase == SyncPhase::Discover,
        ensures
            final(store)@.wf(),
            final(store)@ == discover(
                old(store)@,
                old(self).member_id,
                old(self).character_id,
                old(self).platform,
                match found {
                    Some(v) => Some(v@),
                    None => None,
                },
            ),
            final(self).member_id == old(self).member_id,
            final(self).character_id == old(self).character_id,
            final(self).platform == old(self).platform,
            final(self).next == 0,
            is_batching(
                final(self).batches@,
                pending_in(final(store)@, old(self).member_id, old(self).character_id, old(self).platform),
            ),
            final(self).phase == (if final(self).batches@.len() > 0 {
                SyncPhase::SecondDrain
            } else {
                SyncPhase::Done
            }),
            final(self).action_matches(final(store)@, r),
    {
        store.update_activity_queue(self.member_id, self.character_id, self.platform, found);
        let (s, a) = SyncSession::begin_drain(
            store,
            self.member_id,
            self.character_id,
            self.platform,
            SyncPhase::SecondDrain,
        );
        *self = s;
        a
    }
}

} // verus!
