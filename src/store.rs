//! The durable activity store, as a verified relational model: members,
//! characters, activities, per-character activity statistics and the queue of
//! activity ids whose detail is still to be fetched. Rows are identified by
//! their position; natural keys are unique.
use vstd::prelude::*;

verus! {

/// A player account on one platform.
#[derive(Clone, Copy, Debug, PartialEq, Eq)]
pub struct Member {
    pub member_id: u64,
    pub platform: u32,
}

/// A character, owned by the member at row `member`.
#[derive(Clone, Copy, Debug, PartialEq, Eq)]
pub struct Character {
    pub character_id: u64,
    pub member: usize,
}

/// One completed activity instance, shared by every character that took part.
#[derive(Clone, Copy, Debug, PartialEq, Eq)]
pub struct Activity {
    pub activity_id: u64,
    /// Start of the activity, in seconds since the Unix epoch.
    pub period: i64,
    pub mode: u32,
    pub platform: u32,
    pub director_activity_hash: u64,
}

/// The performance metrics of one character in one activity.
#[derive(Clone, Copy, Debug, PartialEq, Eq)]
pub struct ActivityValues {
    pub assists: i64,
    pub score: i64,
    pub kills: i64,
    pub deaths: i64,
    pub completed: bool,
    pub opponents_defeated: i64,
    pub activity_duration_seconds: i64,
    pub standing: i64,
    pub team: i64,
    pub completion_reason: i64,
    pub start_seconds: i64,
    pub time_played_seconds: i64,
    pub player_count: i64,
    pub team_score: i64,
    pub precision_kills: i64,
    pub weapon_kills_ability: i64,
    pub weapon_kills_grenade: i64,
    pub weapon_kills_melee: i64,
    pub weapon_kills_super: i64,
}

/// The statistics of the character at row `character` in the activity at row
/// `activity`.
#[derive(Clone, Copy, Debug, PartialEq, Eq)]
pub struct StatRow {
    pub character: usize,
    pub activity: usize,
    pub values: ActivityValues,
}

/// A pending activity id for the character at row `character`.
#[derive(Clone, Copy, Debug, PartialEq, Eq)]
pub struct QueueEntry {
    pub character: usize,
    pub activity_id: u64,
}

/// One participant's entry in a fetched activity report.
#[derive(Clone, Copy, Debug, PartialEq, Eq)]
pub struct PlayerEntry {
    pub character_id: u64,
    pub values: ActivityValues,
}

/// The full report of one activity, as fetched from the remote service: the
/// activity's own attributes and one entry per participating character.
#[derive(Clone, Debug)]
pub struct ActivityDetail {
    pub activity_id: u64,
    pub period: i64,
    pub mode: u32,
    pub platform: u32,
    pub director_activity_hash: u64,
    pub entries: Vec<PlayerEntry>,
}

/// Why a fetched report could not be persisted.
#[derive(Clone, Copy, Debug, PartialEq, Eq, Structural)]
pub enum PersistError {
    /// The character is not in the store: it was fetched for nobody known.
    CharacterNotFound,
    /// The report holds no entry for the character.
    EntryMissing,
    /// The character already has statistics for this activity.
    DuplicateStat,
}

/// The values of the first entry of `entries` that belongs to `character_id`.
pub open spec fn entry_for(entries: Seq<PlayerEntry>, character_id: u64) -> Option<ActivityValues>
    decreases entries.len(),
{
    if entries.len() == 0 {
        None
    } else if entries[0].character_id == character_id {
        Some(entries[0].values)
    } else {
        entry_for(entries.drop_first(), character_id)
    }
}

/// The activity row that a report describes.
pub open spec fn activity_of(d: ActivityDetail) -> Activity {
    Activity {
        activity_id: d.activity_id,
        period: d.period,
        mode: d.mode,
        platform: d.platform,
        director_activity_hash: d.director_activity_hash,
    }
}

/// Keeps the queue entries other than `(c, activity_id)`.
pub open spec fn keep_other(c: usize, activity_id: u64) -> spec_fn(QueueEntry) -> bool {
    |e: QueueEntry| !(e.character == c && e.activity_id == activity_id)
}

/// The tables of the store, as sequences of rows.
pub struct StoreModel {
    pub members: Seq<Member>,
    pub characters: Seq<Character>,
    pub activities: Seq<Activity>,
    pub stats: Seq<StatRow>,
    pub queue: Seq<QueueEntry>,
}

/// An `Option<usize>` row id read as an `Option<int>`.
pub open spec fn row_of(r: Option<usize>) -> Option<int> {
    match r {
        Some(i) => Some(i as int),
        None => None,
    }
}

impl StoreModel {
    pub open spec fn is_member_row(self, i: int, member_id: u64, platform: u32) -> bool {
        &&& 0 <= i < self.members.len()
        &&& self.members[i].member_id == member_id
        &&& self.members[i].platform == platform
    }

    pub open spec fn is_character_row(self, i: int, character_id: u64, member: int) -> bool {
        &&& 0 <= i < self.characters.len()
        &&& self.characters[i].character_id == character_id
        &&& self.characters[i].member as int == member
    }

    pub open spec fn is_activity_row(self, i: int, activity_id: u64) -> bool {
        0 <= i < self.activities.len() && self.activities[i].activity_id == activity_id
    }

    /// The row of the member `(member_id, platform)`, if it exists.
    pub open spec fn member_row(self, member_id: u64, platform: u32) -> Option<int> {
        if exists|i: int| self.is_member_row(i, member_id, platform) {
            Some(choose|i: int| self.is_member_row(i, member_id, platform))
        } else {
            None
        }
    }

    /// The row of the character `character_id` owned by member row `member`.
    pub open spec fn character_row(self, character_id: u64, member: int) -> Option<int> {
        if exists|i: int| self.is_character_row(i, character_id, member) {
            Some(choose|i: int| self.is_character_row(i, character_id, member))
        } else {
            None
        }
    }

    /// The row of the activity `activity_id`, if it exists.
    pub open spec fn activity_row(self, activity_id: u64) -> Option<int> {
        if exists|i: int| self.is_activity_row(i, activity_id) {
            Some(choose|i: int| self.is_activity_row(i, activity_id))
        } else {
            None
        }
    }

    /// The row of character `character_id` of member `(member_id, platform)`.
    pub open spec fn owned_character_row(self, member_id: u64, platform: u32, character_id: u64) -> Option<int> {
        match self.member_row(member_id, platform) {
            Some(m) => self.character_row(character_id, m),
            None => None,
        }
    }

    /// The activity id of stat row `i`.
    pub open spec fn stat_activity_id(self, i: int) -> u64 {
        self.activities[self.stats[i].activity as int].activity_id
    }

    /// Whether character row `c` has persisted statistics for `activity_id`.
    pub open spec fn has_stat(self, c: int, activity_id: u64) -> bool {
        exists|i: int|
            0 <= i < self.stats.len() && self.stats[i].character as int == c
                && #[trigger] self.stat_activity_id(i) == activity_id
    }

    /// Whether `activity_id` is pending for character row `c`.
    pub open spec fn is_queued(self, c: int, activity_id: u64) -> bool {
        exists|i: int|
            0 <= i < self.queue.len() && #[trigger] self.queue[i].character as int == c
                && self.queue[i].activity_id == activity_id
    }

    /// The activity ids with persisted statistics for character row `c`.
    pub open spec fn persisted_ids(self, c: int) -> Set<u64> {
        Set::new(|a: u64| self.has_stat(c, a))
    }

    /// The activity ids pending for character row `c`.
    pub open spec fn queued_ids(self, c: int) -> Set<u64> {
        Set::new(|a: u64| self.is_queued(c, a))
    }

    /// The largest activity id persisted for character row `c` among the
    /// first `n` statistics rows.
    pub open spec fn high_water_upto(self, c: int, n: int) -> Option<u64>
        decreases n,
    {
        if n <= 0 {
            None
        } else {
            let prev = self.high_water_upto(c, n - 1);
            if self.stats[n - 1].character as int == c {
                let a = self.stat_activity_id(n - 1);
                match prev {
                    Some(p) => Some(if a > p { a } else { p }),
                    None => Some(a),
                }
            } else {
                prev
            }
        }
    }

    /// The high-water mark of character row `c`: the largest activity id with
    /// persisted statistics for it, compared as numbers, or `None` when it has
    /// none.
    pub open spec fn high_water(self, c: int) -> Option<u64> {
        self.high_water_upto(c, self.stats.len() as int)
    }

    /// The high-water mark of character `character_id` of the member
    /// `(member_id, platform)`; `None` where that character is unknown.
    pub open spec fn high_water_of(self, member_id: u64, platform: u32, character_id: u64) -> Option<u64> {
        match self.owned_character_row(member_id, platform, character_id) {
            Some(c) => self.high_water(c),
            None => None,
        }
    }

    /// Every reference between rows points at an existing row, natural keys
    /// are unique, and no activity is both pending and persisted for the same
    /// character.
    pub open spec fn wf(self) -> bool {
        &&& forall|i: int, j: int|
            0 <= i < self.members.len() && 0 <= j < self.members.len()
                && #[trigger] self.members[i] == #[trigger] self.members[j] ==> i == j
        &&& forall|i: int|
            0 <= i < self.characters.len() ==> (#[trigger] self.characters[i]).member
                < self.members.len()
        &&& forall|i: int, j: int|
            0 <= i < self.characters.len() && 0 <= j < self.characters.len()
                && #[trigger] self.characters[i] == #[trigger] self.characters[j] ==> i == j
        &&& forall|i: int, j: int|
            0 <= i < self.activities.len() && 0 <= j < self.activities.len()
                && (#[trigger] self.activities[i]).activity_id
                == (#[trigger] self.activities[j]).activity_id ==> i == j
        &&& forall|i: int|
            0 <= i < self.stats.len() ==> (#[trigger] self.stats[i]).character
                < self.characters.len() && self.stats[i].activity < self.activities.len()
        &&& forall|i: int, j: int|
            0 <= i < self.stats.len() && 0 <= j < self.stats.len()
                && (#[trigger] self.stats[i]).character == (#[trigger] self.stats[j]).character
                && self.stats[i].activity == self.stats[j].activity ==> i == j
        &&& forall|i: int|
            0 <= i < self.queue.len() ==> (#[trigger] self.queue[i]).character
                < self.characters.len()
        &&& forall|i: int|
            0 <= i < self.queue.len() ==> !self.has_stat(
                (#[trigger] self.queue[i]).character as int,
                self.queue[i].activity_id,
            )
    }
}


/// The store after making sure the member `(member_id, platform)` exists, and
/// its row: an existing row is kept, a missing one is appended.
pub open spec fn upsert_member(m: StoreModel, member_id: u64, platform: u32) -> (StoreModel, int) {
    match m.member_row(member_id, platform) {
        Some(i) => (m, i),
        None => (
            StoreModel { members: m.members.push(Member { member_id, platform }), ..m },
            m.members.len() as int,
        ),
    }
}

/// The store after making sure the character `character_id` of member row
/// `member` exists, and its row.
pub open spec fn upsert_character(m: StoreModel, character_id: u64, member: int) -> (StoreModel, int) {
    match m.character_row(character_id, member) {
        Some(i) => (m, i),
        None => (
            StoreModel {
                characters: m.characters.push(Character { character_id, member: member as usize }),
                ..m
            },
            m.characters.len() as int,
        ),
    }
}

/// The store after making sure the activity of report `d` exists, and its
/// row. An existing row is kept as it is.
pub open spec fn upsert_activity(m: StoreModel, d: ActivityDetail) -> (StoreModel, int) {
    match m.activity_row(d.activity_id) {
        Some(i) => (m, i),
        None => (
            StoreModel { activities: m.activities.push(activity_of(d)), ..m },
            m.activities.len() as int,
        ),
    }
}

/// The store after persisting report `d` for character `character_id` of
/// the member `(member_id, platform)`, and the outcome. Nothing changes on an
/// error. On success the activity is upserted, one statistics row is added
/// and the character's queue entry for the activity is removed.
pub open spec fn persist_detail(
    m: StoreModel,
    d: ActivityDetail,
    member_id: u64,
    character_id: u64,
    platform: u32,
) -> (StoreModel, Result<(), PersistError>) {
    match m.owned_character_row(member_id, platform, character_id) {
        None => (m, Err(PersistError::CharacterNotFound)),
        Some(c) => match entry_for(d.entries@, character_id) {
            None => (m, Err(PersistError::EntryMissing)),
            Some(v) => if m.has_stat(c, d.activity_id) {
                (m, Err(PersistError::DuplicateStat))
            } else {
                let (m1, a) = upsert_activity(m, d);
                (
                    StoreModel {
                        stats: m1.stats.push(
                            StatRow { character: c as usize, activity: a as usize, values: v },
                        ),
                        queue: m1.queue.filter(keep_other(c as usize, d.activity_id)),
                        ..m1
                    },
                    Ok(()),
                )
            },
        },
    }
}

/// The store after queueing `ids` in order for character row `c`, skipping
/// each id that is already persisted or queued for it.
pub open spec fn enqueue_ids(m: StoreModel, c: int, ids: Seq<u64>) -> StoreModel
    decreases ids.len(),
{
    if ids.len() == 0 {
        m
    } else {
        let m1 = enqueue_ids(m, c, ids.drop_last());
        let a = ids.last();
        if m1.has_stat(c, a) || m1.is_queued(c, a) {
            m1
        } else {
            StoreModel {
                queue: m1.queue.push(QueueEntry { character: c as usize, activity_id: a }),
                ..m1
            }
        }
    }
}

/// The store after discovery for character `character_id` of the member
/// `(member_id, platform)`. `found` is what the remote service reported as
/// newer than the high-water mark, newest first; `None` when it found
/// nothing. Member and character are upserted and the ids are queued oldest
/// first.
pub open spec fn discover(
    m: StoreModel,
    member_id: u64,
    character_id: u64,
    platform: u32,
    found: Option<Seq<u64>>,
) -> StoreModel {
    match found {
        None => m,
        Some(ids) => {
            let (m1, mr) = upsert_member(m, member_id, platform);
            let (m2, cr) = upsert_character(m1, character_id, mr);
            enqueue_ids(m2, cr, ids.reverse())
        },
    }
}

/// The activity ids pending for character row `c`, in queue order.
pub open spec fn pending_of(q: Seq<QueueEntry>, c: int) -> Seq<u64>
    decreases q.len(),
{
    if q.len() == 0 {
        Seq::empty()
    } else {
        let r = pending_of(q.drop_last(), c);
        if q.last().character as int == c {
            r.push(q.last().activity_id)
        } else {
            r
        }
    }
}

/// Queueing ids keeps the store well formed, persists nothing, and queues
/// exactly the given ids that were not persisted.
pub proof fn lemma_enqueue_ids(m: StoreModel, c: int, ids: Seq<u64>)
    requires
        m.wf(),
        0 <= c < m.characters.len(),
        m.characters.len() <= usize::MAX,
    ensures
        ({
            let m1 = enqueue_ids(m, c, ids);
            &&& m1.wf()
            &&& m1.members == m.members
            &&& m1.characters == m.characters
            &&& m1.activities == m.activities
            &&& m1.stats == m.stats
            &&& forall|c1: int, x: u64|
                m1.is_queued(c1, x) <==> m.is_queued(c1, x) || (c1 == c && ids.contains(x)
                    && !m.has_stat(c, x))
        }),
    decreases ids.len(),
{
    if ids.len() > 0 {
        let m0 = enqueue_ids(m, c, ids.drop_last());
        lemma_enqueue_ids(m, c, ids.drop_last());
        lemma_same_stats(m0, m);
        let a = ids.last();
        let m1 = enqueue_ids(m, c, ids);
        assert forall|c1: int, x: u64|
            m1.is_queued(c1, x) <==> m.is_queued(c1, x) || (c1 == c && ids.contains(x)
                && !m.has_stat(c, x)) by {
            if ids.contains(x) && x != a {
                let k = choose|k: int| 0 <= k < ids.len() && ids[k] == x;
                assert(ids.drop_last()[k] == x);
            }
            if ids.drop_last().contains(x) {
                let k = choose|k: int| 0 <= k < ids.drop_last().len() && ids.drop_last()[k] == x;
                assert(ids[k] == x);
            }
            assert(ids[ids.len() - 1] == a);
            if !(m0.has_stat(c, a) || m0.is_queued(c, a)) {
                let n = m0.queue.len() as int;
                if m1.is_queued(c1, x) {
                    let i = choose|i: int|
                        0 <= i < m1.queue.len() && #[trigger] m1.queue[i].character as int == c1
                            && m1.queue[i].activity_id == x;
                    if i < n {
                        assert(m0.queue[i] == m1.queue[i]);
                    }
                }
                if m0.is_queued(c1, x) {
                    let i = choose|i: int|
                        0 <= i < m0.queue.len() && #[trigger] m0.queue[i].character as int == c1
                            && m0.queue[i].activity_id == x;
                    assert(m1.queue[i] == m0.queue[i]);
                }
                if c1 == c && x == a {
                    assert(m1.queue[n].character as int == c1);
                }
            }
        }
        if !(m0.has_stat(c, a) || m0.is_queued(c, a)) {
            let n = m0.queue.len() as int;
            lemma_same_stats(m1, m0);
            assert forall|i: int|
                0 <= i < m1.queue.len() implies (#[trigger] m1.queue[i]).character
                < m1.characters.len() && !m1.has_stat(
                    m1.queue[i].character as int,
                    m1.queue[i].activity_id,
                ) by {
                if i < n {
                    assert(m0.queue[i] == m1.queue[i]);
                }
            }
        }
    }
}

/// Two stores with the same statistics and activities persist the same ids.
pub proof fn lemma_same_stats(a: StoreModel, b: StoreModel)
    requires
        a.stats == b.stats,
        a.activities == b.activities,
    ensures
        forall|c: int, x: u64| a.has_stat(c, x) == b.has_stat(c, x),
{
    assert forall|c: int, x: u64| a.has_stat(c, x) == b.has_stat(c, x) by {
        if a.has_stat(c, x) {
            let i = choose|i: int|
                0 <= i < a.stats.len() && a.stats[i].character as int == c
                    && #[trigger] a.stat_activity_id(i) == x;
            assert(b.stat_activity_id(i) == x);
        }
        if b.has_stat(c, x) {
            let i = choose|i: int|
                0 <= i < b.stats.len() && b.stats[i].character as int == c
                    && #[trigger] b.stat_activity_id(i) == x;
            assert(a.stat_activity_id(i) == x);
        }
    }
}

/// Upserting an activity keeps the store well formed and changes no
/// persisted id.
pub proof fn lemma_upsert_activity(m: StoreModel, d: ActivityDetail)
    requires
        m.wf(),
    ensures
        ({
            let (m1, a) = upsert_activity(m, d);
            &&& m1.wf()
            &&& 0 <= a < m1.activities.len()
            &&& m1.activities[a].activity_id == d.activity_id
            &&& m1.activities.len() >= m.activities.len()
            &&& forall|i: int| 0 <= i < m.activities.len() ==> m1.activities[i] == m.activities[i]
            &&& forall|c: int, x: u64| m1.has_stat(c, x) == m.has_stat(c, x)
        }),
{
    let (m1, a) = upsert_activity(m, d);
    if m.activity_row(d.activity_id) is None {
        assert forall|i: int| 0 <= i < m.stats.len() implies #[trigger] m1.stat_activity_id(i)
            == m.stat_activity_id(i) by {
            assert(m.stats[i].activity < m.activities.len());
        }
        assert forall|c: int, x: u64| m1.has_stat(c, x) == m.has_stat(c, x) by {
            if m1.has_stat(c, x) {
                let i = choose|i: int|
                    0 <= i < m1.stats.len() && m1.stats[i].character as int == c
                        && #[trigger] m1.stat_activity_id(i) == x;
                assert(m.stat_activity_id(i) == x);
            }
            if m.has_stat(c, x) {
                let i = choose|i: int|
                    0 <= i < m.stats.len() && m.stats[i].character as int == c
                        && #[trigger] m.stat_activity_id(i) == x;
                assert(m1.stat_activity_id(i) == x);
            }
        }
        assert forall|i: int, j: int|
            0 <= i < m1.activities.len() && 0 <= j < m1.activities.len()
                && (#[trigger] m1.activities[i]).activity_id
                == (#[trigger] m1.activities[j]).activity_id implies i == j by {
            if i < a && j == a {
                assert(m.is_activity_row(i, d.activity_id));
            }
            if j < a && i == a {
                assert(m.is_activity_row(j, d.activity_id));
            }
        }
        assert forall|i: int|
            0 <= i < m1.stats.len() implies (#[trigger] m1.stats[i]).character
            < m1.characters.len() && m1.stats[i].activity < m1.activities.len() by {
            assert(m.stats[i] == m1.stats[i]);
        }
    } else {
        let i = choose|i: int| m.is_activity_row(i, d.activity_id);
    }
}

/// Persisting a report keeps the store well formed; on success the
/// activity becomes persisted for the character and leaves its queue, and
/// nothing else is persisted or dequeued.
pub proof fn lemma_persist_detail(
    m: StoreModel,
    d: ActivityDetail,
    member_id: u64,
    character_id: u64,
    platform: u32,
)
    requires
        m.wf(),
        m.characters.len() <= usize::MAX,
        m.activities.len() <= usize::MAX,
    ensures
        ({
            let (m2, r) = persist_detail(m, d, member_id, character_id, platform);
            &&& m2.wf()
            &&& m2.members == m.members
            &&& m2.characters == m.characters
            &&& m2.activities.len() <= m.activities.len() + 1
            &&& forall|c: int, x: u64| m.has_stat(c, x) ==> m2.has_stat(c, x)
            &&& r is Ok ==> {
                let c = m.owned_character_row(member_id, platform, character_id)->0;
                &&& m2.has_stat(c, d.activity_id)
                &&& forall|c1: int, x: u64|
                    m2.has_stat(c1, x) ==> m.has_stat(c1, x) || (c1 == c && x == d.activity_id)
                &&& forall|c1: int, x: u64|
                    m2.is_queued(c1, x) <==> m.is_queued(c1, x) && !(c1 == c && x
                        == d.activity_id)
            }
            &&& r is Err ==> m2 == m
        }),
{
    let (m2, r) = persist_detail(m, d, member_id, character_id, platform);
    if r is Ok {
        let c = m.owned_character_row(member_id, platform, character_id)->0;
        let mr = m.member_row(member_id, platform)->0;
        assert(m.is_member_row(mr, member_id, platform));
        assert(m.is_character_row(c, character_id, mr));
        let aid = d.activity_id;
        lemma_upsert_activity(m, d);
        let (m1, a) = upsert_activity(m, d);
        let n = m1.stats.len() as int;
        let pred = keep_other(c as usize, aid);
        assert(m2.stat_activity_id(n) == aid);
        assert forall|i: int| 0 <= i < n implies #[trigger] m2.stat_activity_id(i)
            == m1.stat_activity_id(i) by {
            assert(m1.stats[i].activity < m1.activities.len());
        }
        assert forall|c1: int, x: u64| m1.has_stat(c1, x) implies m2.has_stat(c1, x) by {
            let i = choose|i: int|
                0 <= i < m1.stats.len() && m1.stats[i].character as int == c1
                    && #[trigger] m1.stat_activity_id(i) == x;
            assert(m2.stat_activity_id(i) == x);
        }
        assert forall|c1: int, x: u64|
            m2.has_stat(c1, x) implies m.has_stat(c1, x) || (c1 == c && x == aid) by {
            let i = choose|i: int|
                0 <= i < m2.stats.len() && m2.stats[i].character as int == c1
                    && #[trigger] m2.stat_activity_id(i) == x;
            if i < n {
                assert(m1.stat_activity_id(i) == x);
            }
        }
        assert(m2.has_stat(c, aid));
        assert forall|c1: int, x: u64|
            m2.is_queued(c1, x) <==> m.is_queued(c1, x) && !(c1 == c && x == aid) by {
            if m2.is_queued(c1, x) {
                let i = choose|i: int|
                    0 <= i < m2.queue.len() && #[trigger] m2.queue[i].character as int == c1
                        && m2.queue[i].activity_id == x;
                m1.queue.lemma_filter_pred(pred, i);
                m1.queue.lemma_filter_contains_rev(pred, m2.queue[i]);
                let j = choose|j: int| 0 <= j < m1.queue.len() && m1.queue[j] == m2.queue[i];
                assert(m.queue[j].character as int == c1);
            }
            if m.is_queued(c1, x) && !(c1 == c && x == aid) {
                let j = choose|j: int|
                    0 <= j < m.queue.len() && #[trigger] m.queue[j].character as int == c1
                        && m.queue[j].activity_id == x;
                m1.queue.lemma_filter_contains(pred, j);
                let i = choose|i: int| 0 <= i < m2.queue.len() && m2.queue[i] == m1.queue[j];
                assert(m2.queue[i].character as int == c1);
            }
        }
        // well-formedness
        assert forall|i: int, j: int|
            0 <= i < m2.stats.len() && 0 <= j < m2.stats.len()
                && (#[trigger] m2.stats[i]).character == (#[trigger] m2.stats[j]).character
                && m2.stats[i].activity == m2.stats[j].activity implies i == j by {
            if i < n && j == n {
                assert(m2.stat_activity_id(i) == aid);
                assert(m1.stat_activity_id(i) == aid);
                assert(m1.has_stat(c, aid));
            }
            if j < n && i == n {
                assert(m2.stat_activity_id(j) == aid);
                assert(m1.stat_activity_id(j) == aid);
                assert(m1.has_stat(c, aid));
            }
            if i < n && j < n {
                assert(m1.stats[i] == m2.stats[i] && m1.stats[j] == m2.stats[j]);
            }
        }
        assert forall|i: int|
            0 <= i < m2.stats.len() implies (#[trigger] m2.stats[i]).character
            < m2.characters.len() && m2.stats[i].activity < m2.activities.len() by {
            if i < n {
                assert(m1.stats[i] == m2.stats[i]);
            }
        }
        assert forall|i: int|
            0 <= i < m2.queue.len() implies (#[trigger] m2.queue[i]).character
            < m2.characters.len() && !m2.has_stat(
                m2.queue[i].character as int,
                m2.queue[i].activity_id,
            ) by {
            m1.queue.lemma_filter_pred(pred, i);
            m1.queue.lemma_filter_contains_rev(pred, m2.queue[i]);
            let j = choose|j: int| 0 <= j < m1.queue.len() && m1.queue[j] == m2.queue[i];
            assert(m.queue[j] == m2.queue[i]);
        }
    }
}

proof fn lemma_high_water_upto(m: StoreModel, c: int, n: int)
    requires
        0 <= n <= m.stats.len(),
    ensures
        match m.high_water_upto(c, n) {
            None => forall|i: int| 0 <= i < n ==> m.stats[i].character as int != c,
            Some(v) => {
                &&& exists|i: int|
                    0 <= i < n && m.stats[i].character as int == c && m.stat_activity_id(i) == v
                &&& forall|i: int|
                    0 <= i < n && m.stats[i].character as int == c ==> m.stat_activity_id(i) <= v
            },
        },
    decreases n,
{
    if n > 0 {
        lemma_high_water_upto(m, c, n - 1);
        if m.stats[n - 1].character as int == c {
            assert(m.stat_activity_id(n - 1) == m.stat_activity_id(n - 1));
        }
    }
}

/// The high-water mark is the largest persisted activity id of the
/// character, and is absent exactly when nothing is persisted for it.
pub proof fn lemma_high_water_is_max(m: StoreModel, c: int)
    ensures
        match m.high_water(c) {
            None => forall|x: u64| !m.has_stat(c, x),
            Some(v) => m.has_stat(c, v) && forall|x: u64| m.has_stat(c, x) ==> x <= v,
        },
{
    lemma_high_water_upto(m, c, m.stats.len() as int);
    match m.high_water(c) {
        None => {
            assert forall|x: u64| !m.has_stat(c, x) by {
                if m.has_stat(c, x) {
                    let i = choose|i: int|
                        0 <= i < m.stats.len() && m.stats[i].character as int == c
                            && #[trigger] m.stat_activity_id(i) == x;
                    assert(m.stats[i].character as int != c);
                }
            }
        },
        Some(v) => {
            let i = choose|i: int|
                0 <= i < m.stats.len() && m.stats[i].character as int == c
                    && m.stat_activity_id(i) == v;
            assert(m.stat_activity_id(i) == v);
            assert forall|x: u64| m.has_stat(c, x) implies x <= v by {
                let j = choose|j: int|
                    0 <= j < m.stats.len() && m.stats[j].character as int == c
                        && #[trigger] m.stat_activity_id(j) == x;
            }
        },
    }
}

impl ActivityDetail {
    /// The values of the first entry that belongs to `character_id`.
    pub fn get_entry_for_character(&self, character_id: u64) -> (r: Option<ActivityValues>)
        ensures
            r == entry_for(self.entries@, character_id),
    {
        let mut i: usize = 0;
        assert(self.entries@.subrange(0, self.entries@.len() as int) =~= self.entries@);
        while i < self.entries.len()
            invariant
                i <= self.entries@.len(),
                entry_for(self.entries@, character_id) == entry_for(
                    self.entries@.subrange(i as int, self.entries@.len() as int),
                    character_id,
                ),
            decreases self.entries@.len() - i,
        {
            let rest = Ghost(self.entries@.subrange(i as int, self.entries@.len() as int));
            assert(rest@[0] == self.entries@[i as int]);
            if self.entries[i].character_id == character_id {
                return Some(self.entries[i].values);
            }
            assert(rest@.drop_first() =~= self.entries@.subrange(
                i + 1,
                self.entries@.len() as int,
            ));
            i += 1;
        }
        assert(self.entries@.subrange(i as int, self.entries@.len() as int).len() == 0);
        None
    }
}

/// Two well-formed stores with the same members and characters find the same
/// character rows.
pub proof fn lemma_same_rows(a: StoreModel, b: StoreModel, member_id: u64, platform: u32, character_id: u64)
    requires
        a.wf(),
        a.members == b.members,
        a.characters == b.characters,
    ensures
        a.owned_character_row(member_id, platform, character_id) == b.owned_character_row(
            member_id,
            platform,
            character_id,
        ),
{
    if a.member_row(member_id, platform) is Some {
        let i = a.member_row(member_id, platform)->0;
        assert(b.is_member_row(i, member_id, platform));
        let j = b.member_row(member_id, platform)->0;
        assert(a.members[i] == a.members[j]);
        if a.character_row(character_id, i) is Some {
            let k = a.character_row(character_id, i)->0;
            assert(b.is_character_row(k, character_id, i));
            let l = b.character_row(character_id, i)->0;
            assert(a.characters[k] == a.characters[l]);
        } else if b.character_row(character_id, i) is Some {
            let l = b.character_row(character_id, i)->0;
            assert(a.is_character_row(l, character_id, i));
        }
    } else if b.member_row(member_id, platform) is Some {
        let j = b.member_row(member_id, platform)->0;
        assert(a.is_member_row(j, member_id, platform));
    }
}

/// The activity store. Every value of this type is well formed.
pub struct ActivityStoreInterface {
    members: Vec<Member>,
    characters: Vec<Character>,
    activities: Vec<Activity>,
    stats: Vec<StatRow>,
    queue: Vec<QueueEntry>,
}

impl View for ActivityStoreInterface {
    type V = StoreModel;

    closed spec fn view(&self) -> StoreModel {
        StoreModel {
            members: self.members@,
            characters: self.characters@,
            activities: self.activities@,
            stats: self.stats@,
            queue: self.queue@,
        }
    }
}

impl ActivityStoreInterface {
    /// An empty store.
    pub fn new() -> (r: ActivityStoreInterface)
        ensures
            r@.wf(),
            r@.members.len() == 0,
            r@.characters.len() == 0,
            r@.activities.len() == 0,
            r@.stats.len() == 0,
            r@.queue.len() == 0,
    {
        ActivityStoreInterface {
            members: Vec::new(),
            characters: Vec::new(),
            activities: Vec::new(),
            stats: Vec::new(),
            queue: Vec::new(),
        }
    }

    /// The member rows.
    pub fn members(&self) -> (r: &Vec<Member>)
        ensures
            r@ == self@.members,
    {
        &self.members
    }

    /// The character rows.
    pub fn characters(&self) -> (r: &Vec<Character>)
        ensures
            r@ == self@.characters,
    {
        &self.characters
    }

    /// The activity rows.
    pub fn activities(&self) -> (r: &Vec<Activity>)
        ensures
            r@ == self@.activities,
    {
        &self.activities
    }

    /// The statistics rows.
    pub fn stats(&self) -> (r: &Vec<StatRow>)
        ensures
            r@ == self@.stats,
    {
        &self.stats
    }

    /// The queue, oldest entry first.
    pub fn queue(&self) -> (r: &Vec<QueueEntry>)
        ensures
            r@ == self@.queue,
    {
        &self.queue
    }

    /// The row of the member `(member_id, platform)`, if it exists.
    pub fn find_member_row(&self, member_id: u64, platform: u32) -> (r: Option<usize>)
        requires
            self@.wf(),
        ensures
            row_of(r) == self@.member_row(member_id, platform),
    {
        let mut i: usize = 0;
        while i < self.members.len()
            invariant
                self@.wf(),
                i <= self.members@.len(),
                forall|j: int| 0 <= j < i ==> !self@.is_member_row(j, member_id, platform),
            decreases self.members@.len() - i,
        {
            let row = self.members[i];
            if row.member_id == member_id && row.platform == platform {
                proof {
                    assert(self@.is_member_row(i as int, member_id, platform));
                    let k = choose|k: int| self@.is_member_row(k, member_id, platform);
                    assert(self@.members[k] == self@.members[i as int]);
                }
                return Some(i);
            }
            i += 1;
        }
        None
    }

    /// The row of the character `character_id` of member row `member`.
    pub fn find_character_row(&self, character_id: u64, member: usize) -> (r: Option<usize>)
        requires
            self@.wf(),
        ensures
            row_of(r) == self@.character_row(character_id, member as int),
    {
        let mut i: usize = 0;
        while i < self.characters.len()
            invariant
                self@.wf(),
                i <= self.characters@.len(),
                forall|j: int|
                    0 <= j < i ==> !self@.is_character_row(j, character_id, member as int),
            decreases self.characters@.len() - i,
        {
            let row = self.characters[i];
            if row.character_id == character_id && row.member == member {
                proof {
                    assert(self@.is_character_row(i as int, character_id, member as int));
                    let k = choose|k: int| self@.is_character_row(k, character_id, member as int);
                    assert(self@.characters[k] == self@.characters[i as int]);
                }
                return Some(i);
            }
            i += 1;
        }
        None
    }

    /// The row of character `character_id` of the member `(member_id, platform)`.
    pub fn find_owned_character_row(&self, member_id: u64, platform: u32, character_id: u64) -> (r:
        Option<usize>)
        requires
            self@.wf(),
        ensures
            row_of(r) == self@.owned_character_row(member_id, platform, character_id),
    {
        match self.find_member_row(member_id, platform) {
            Some(m) => self.find_character_row(character_id, m),
            None => None,
        }
    }

    /// The high-water mark of character `character_id` of the member
    /// `(member_id, platform)`: the largest activity id, compared as a number,
    /// with persisted statistics for that character. Queued ids do not count.
    pub fn get_max_activity_id(&self, member_id: u64, character_id: u64, platform: u32) -> (r:
        Option<u64>)
        requires
            self@.wf(),
        ensures
            r == self@.high_water_of(member_id, platform, character_id),
    {
        let c = match self.find_owned_character_row(member_id, platform, character_id) {
            Some(c) => c,
            None => {
                return None;
            },
        };
        let mut best: Option<u64> = None;
        let mut i: usize = 0;
        while i < self.stats.len()
            invariant
                self@.wf(),
                i <= self.stats@.len(),
                best == self@.high_water_upto(c as int, i as int),
            decreases self.stats@.len() - i,
        {
            let row = self.stats[i];
            if row.character == c {
                let a = self.activities[row.activity].activity_id;
                best = match best {
                    Some(p) => Some(if a > p { a } else { p }),
                    None => Some(a),
                };
            }
            i += 1;
        }
        best
    }

    /// Whether character row `c` has persisted statistics for `activity_id`.
    pub fn has_stat_row(&self, c: usize, activity_id: u64) -> (r: bool)
        requires
            self@.wf(),
        ensures
            r == self@.has_stat(c as int, activity_id),
    {
        let mut i: usize = 0;
        while i < self.stats.len()
            invariant
                self@.wf(),
                i <= self.stats@.len(),
                forall|j: int|
                    0 <= j < i ==> !(self@.stats[j].character == c && #[trigger] self@.stat_activity_id(j)
                        == activity_id),
            decreases self.stats@.len() - i,
        {
            let row = self.stats[i];
            assert(self@.stats[i as int].activity < self@.activities.len());
            if row.character == c && self.activities[row.activity].activity_id == activity_id {
                assert(self@.stat_activity_id(i as int) == activity_id);
                return true;
            }
            i += 1;
        }
        proof {
            if self@.has_stat(c as int, activity_id) {
                let j = choose|j: int|
                    0 <= j < self@.stats.len() && self@.stats[j].character as int == c
                        && #[trigger] self@.stat_activity_id(j) == activity_id;
            }
        }
        false
    }

    /// The row of the activity `activity_id`, if it exists.
    fn find_activity_row(&self, activity_id: u64) -> (r: Option<usize>)
        requires
            self@.wf(),
        ensures
            row_of(r) == self@.activity_row(activity_id),
    {
        let mut i: usize = 0;
        while i < self.activities.len()
            invariant
                self@.wf(),
                i <= self.activities@.len(),
                forall|j: int| 0 <= j < i ==> !self@.is_activity_row(j, activity_id),
            decreases self.activities@.len() - i,
        {
            if self.activities[i].activity_id == activity_id {
                proof {
                    assert(self@.is_activity_row(i as int, activity_id));
                    let k = choose|k: int| self@.is_activity_row(k, activity_id);
                    assert(self@.activities[k].activity_id == self@.activities[i as int].activity_id);
                }
                return Some(i);
            }
            i += 1;
        }
        None
    }

    /// Makes sure the activity of report `d` exists and returns its row.
    fn insert_activity(&mut self, d: &ActivityDetail) -> (r: usize)
        requires
            old(self)@.wf(),
        ensures
            final(self)@.wf(),
            (final(self)@, r as int) == upsert_activity(old(self)@, *d),
    {
        proof {
            lemma_upsert_activity(self@, *d);
        }
        match self.find_activity_row(d.activity_id) {
            Some(i) => i,
            None => {
                let r = self.activities.len();
                self.activities.push(
                    Activity {
                        activity_id: d.activity_id,
                        period: d.period,
                        mode: d.mode,
                        platform: d.platform,
                        director_activity_hash: d.director_activity_hash,
                    },
                );
                assert(self@ =~= upsert_activity(old(self)@, *d).0);
                r
            },
        }
    }

    /// Removes the queue entries `(c, activity_id)`, keeping the order of the
    /// others.
    fn remove_from_queue(&mut self, c: usize, activity_id: u64)
        ensures
            final(self)@ == (StoreModel {
                queue: old(self)@.queue.filter(keep_other(c, activity_id)),
                ..old(self)@
            }),
    {
        let ghost q = self.queue@;
        let mut kept: Vec<QueueEntry> = Vec::new();
        let mut i: usize = 0;
        while i < self.queue.len()
            invariant
                self.queue@ == q,
                i <= q.len(),
                kept@ == q.subrange(0, i as int).filter(keep_other(c, activity_id)),
            decreases q.len() - i,
        {
            let e = self.queue[i];
            proof {
                reveal(Seq::filter);
                assert(q.subrange(0, i + 1).drop_last() =~= q.subrange(0, i as int));
                assert(q.subrange(0, i + 1).last() == e);
                assert(keep_other(c, activity_id)(e) == !(e.character == c && e.activity_id
                    == activity_id));
            }
            if !(e.character == c && e.activity_id == activity_id) {
                kept.push(e);
            }
            i += 1;
        }
        assert(q.subrange(0, q.len() as int) =~= q);
        self.queue = kept;
        assert(self@ =~= (StoreModel {
            queue: q.filter(keep_other(c, activity_id)),
            ..old(self)@
        }));
    }

    /// Persists report `data` for character `character_id` of the member
    /// `(member_id, platform)` as one unit of work: the activity is upserted,
    /// the character's statistics are added and its queue entry for the
    /// activity is removed. On an error nothing changes: the character is
    /// unknown, the report has no entry for it, or its statistics for this
    /// activity were already persisted.
    pub fn insert_character_activity_stats(
        &mut self,
        data: &ActivityDetail,
        member_id: u64,
        character_id: u64,
        platform: u32,
    ) -> (r: Result<(), PersistError>)
        requires
            old(self)@.wf(),
        ensures
            final(self)@.wf(),
            (final(self)@, r) == persist_detail(
                old(self)@,
                *data,
                member_id,
                character_id,
                platform,
            ),
    {
        // Reading the lengths records that the tables fit in a usize.
        let _ = self.characters.len();
        let _ = self.activities.len();
        proof {
            lemma_persist_detail(self@, *data, member_id, character_id, platform);
        }
        let c = match self.find_owned_character_row(member_id, platform, character_id) {
            Some(c) => c,
            None => {
                return Err(PersistError::CharacterNotFound);
            },
        };
        let values = match data.get_entry_for_character(character_id) {
            Some(v) => v,
            None => {
                return Err(PersistError::EntryMissing);
            },
        };
        if self.has_stat_row(c, data.activity_id) {
            return Err(PersistError::DuplicateStat);
        }
        let a = self.insert_activity(data);
        self.stats.push(StatRow { character: c, activity: a, values });
        self.remove_from_queue(c, data.activity_id);
        assert(self@ =~= persist_detail(old(self)@, *data, member_id, character_id, platform).0);
        Ok(())
    }

    /// Whether `activity_id` is queued for character row `c`.
    pub fn is_queued_row(&self, c: usize, activity_id: u64) -> (r: bool)
        ensures
            r == self@.is_queued(c as int, activity_id),
    {
        let mut i: usize = 0;
        while i < self.queue.len()
            invariant
                i <= self.queue@.len(),
                forall|j: int|
                    0 <= j < i ==> !(#[trigger] self@.queue[j].character == c && self@.queue[j].activity_id
                        == activity_id),
            decreases self.queue@.len() - i,
        {
            if self.queue[i].character == c && self.queue[i].activity_id == activity_id {
                assert(self@.queue[i as int].character as int == c as int);
                return true;
            }
            i += 1;
        }
        false
    }

    /// The activity ids queued for character `character_id` of the member
    /// `(member_id, platform)`, oldest first; empty where that character is
    /// unknown.
    pub fn pending_ids(&self, member_id: u64, character_id: u64, platform: u32) -> (r: Vec<u64>)
        requires
            self@.wf(),
        ensures
            r@ == match self@.owned_character_row(member_id, platform, character_id) {
                Some(c) => pending_of(self@.queue, c),
                None => Seq::empty(),
            },
    {
        let mut r: Vec<u64> = Vec::new();
        let c = match self.find_owned_character_row(member_id, platform, character_id) {
            Some(c) => c,
            None => {
                return r;
            },
        };
        let ghost q = self@.queue;
        let mut i: usize = 0;
        while i < self.queue.len()
            invariant
                q == self@.queue,
                i <= q.len(),
                r@ == pending_of(q.subrange(0, i as int), c as int),
            decreases q.len() - i,
        {
            assert(q.subrange(0, i + 1).drop_last() =~= q.subrange(0, i as int));
            assert(q.subrange(0, i + 1).last() == q[i as int]);
            let e = self.queue[i];
            if e.character == c {
                r.push(e.activity_id);
            }
            i += 1;
        }
        assert(q.subrange(0, q.len() as int) =~= q);
        r
    }

    /// Records what discovery found for character `character_id` of the
    /// member `(member_id, platform)`. `found` holds the ids of the activities
    /// newer than the high-water mark, newest first, or is `None` when the
    /// remote service found none; then nothing changes. Otherwise member and
    /// character are upserted and the ids are queued oldest first, each once
    /// and none that is already persisted.
    pub fn update_activity_queue(
        &mut self,
        member_id: u64,
        character_id: u64,
        platform: u32,
        found: Option<Vec<u64>>,
    )
        requires
            old(self)@.wf(),
        ensures
            final(self)@.wf(),
            final(self)@ == discover(
                old(self)@,
                member_id,
                character_id,
                platform,
                match found {
                    Some(v) => Some(v@),
                    None => None,
                },
            ),
    {
        let ids = match found {
            Some(v) => v,
            None => {
                return ;
            },
        };
        let member_row = self.insert_member_id(member_id, platform);
        let c = self.insert_character_id(character_id, member_row);
        // Reading the length records that the table fits in a usize.
        let _ = self.characters.len();
        let ghost m2 = self@;
        let ghost rev = ids@.reverse();
        let n = ids.len();
        let mut k: usize = 0;
        while k < n
            invariant
                n == ids@.len(),
                rev == ids@.reverse(),
                m2.wf(),
                0 <= c < m2.characters.len() <= usize::MAX,
                k <= n,
                self@ == enqueue_ids(m2, c as int, rev.subrange(0, k as int)),
            decreases n - k,
        {
            proof {
                lemma_enqueue_ids(m2, c as int, rev.subrange(0, k as int));
                lemma_same_stats(self@, m2);
                assert(rev.subrange(0, k + 1).drop_last() =~= rev.subrange(0, k as int));
                assert(rev.subrange(0, k + 1).last() == ids@[n - 1 - k]);
            }
            let a = ids[n - 1 - k];
            if !self.has_stat_row(c, a) && !self.is_queued_row(c, a) {
                self.queue.push(QueueEntry { character: c, activity_id: a });
            }
            k += 1;
            proof {
                assert(self@ =~= enqueue_ids(m2, c as int, rev.subrange(0, k as int)));
            }
        }
        proof {
            lemma_enqueue_ids(m2, c as int, rev);
            assert(rev.subrange(0, n as int) =~= rev);
        }
    }

    /// Makes sure the member `(member_id, platform)` exists and returns its
    /// row. Inserting an existing member changes nothing.
    pub fn insert_member_id(&mut self, member_id: u64, platform: u32) -> (r: usize)
        requires
            old(self)@.wf(),
        ensures
            final(self)@.wf(),
            (final(self)@, r as int) == upsert_member(old(self)@, member_id, platform),
    {
        match self.find_member_row(member_id, platform) {
            Some(i) => i,
            None => {
                let r = self.members.len();
                self.members.push(Member { member_id, platform });
                proof {
                    let m = self@;
                    assert forall|i: int, j: int|
                        0 <= i < m.members.len() && 0 <= j < m.members.len()
                            && #[trigger] m.members[i] == #[trigger] m.members[j] implies i == j by {
                        let o = old(self)@;
                        if i < r as int && j < r as int {
                            assert(o.members[i] == m.members[i] && o.members[j] == m.members[j]);
                        }
                        if i < r as int && j == r as int {
                            assert(o.members[i] == m.members[i]);
                            assert(o.is_member_row(i, member_id, platform));
                        }
                        if j < r as int && i == r as int {
                            assert(o.members[j] == m.members[j]);
                            assert(o.is_member_row(j, member_id, platform));
                        }
                    }
                    lemma_same_stats(m, old(self)@);
                    assert(m =~= upsert_member(old(self)@, member_id, platform).0);
                }
                r
            },
        }
    }

    /// Makes sure the character `character_id` of member row `member_row`
    /// exists and returns its row. Inserting an existing character changes
    /// nothing.
    pub fn insert_character_id(&mut self, character_id: u64, member_row: usize) -> (r: usize)
        requires
            old(self)@.wf(),
            member_row < old(self)@.members.len(),
        ensures
            final(self)@.wf(),
            (final(self)@, r as int) == upsert_character(old(self)@, character_id, member_row as int),
    {
        match self.find_character_row(character_id, member_row) {
            Some(i) => i,
            None => {
                let r = self.characters.len();
                self.characters.push(Character { character_id, member: member_row });
                proof {
                    let m = self@;
                    assert forall|i: int, j: int|
                        0 <= i < m.characters.len() && 0 <= j < m.characters.len()
                            && #[trigger] m.characters[i] == #[trigger] m.characters[j] implies i
                        == j by {
                        let o = old(self)@;
                        if i < r as int && j < r as int {
                            assert(o.characters[i] == m.characters[i] && o.characters[j]
                                == m.characters[j]);
                        }
                        if i < r as int && j == r as int {
                            assert(o.characters[i] == m.characters[i]);
                            assert(o.is_character_row(i, character_id, member_row as int));
                        }
                        if j < r as int && i == r as int {
                            assert(o.characters[j] == m.characters[j]);
                            assert(o.is_character_row(j, character_id, member_row as int));
                        }
                    }
                    assert forall|i: int|
                        0 <= i < m.stats.len() implies (#[trigger] m.stats[i]).character
                        < m.characters.len() by {
                        assert(old(self)@.stats[i] == m.stats[i]);
                    }
                    assert forall|i: int|
                        0 <= i < m.queue.len() implies (#[trigger] m.queue[i]).character
                        < m.characters.len() by {
                        assert(old(self)@.queue[i] == m.queue[i]);
                    }
                    lemma_same_stats(m, old(self)@);
                    assert(m =~= upsert_character(old(self)@, character_id, member_row as int).0);
                }
                r
            },
        }
    }
}

} // verus!
