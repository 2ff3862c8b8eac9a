//! The server's position store: the last known position of every player that
//! ever reported one, in the order in which the players were first seen.
//!
//! A position is kept as it was reported, fraction and all. Only a snapshot
//! rounds it to whole units.

use vstd::prelude::*;
use crate::decimal::{Coordinate, whole_of};

verus! {

/// What the server keeps for one player.
pub struct PlayerData {
    pub player_id: String,
    pub client_ip: String,
    pub client_position_x: Coordinate,
    pub client_position_y: Coordinate,
}

/// A player's record as a ghost value; the coordinates as they were
/// reported.
pub ghost struct PlayerDataView {
    pub player_id: Seq<char>,
    pub client_ip: Seq<char>,
    pub x: Seq<char>,
    pub y: Seq<char>,
}

impl View for PlayerData {
    type V = PlayerDataView;

    open spec fn view(&self) -> PlayerDataView {
        PlayerDataView {
            player_id: self.player_id@,
            client_ip: self.client_ip@,
            x: self.client_position_x@,
            y: self.client_position_y@,
        }
    }
}

/// One line of a snapshot: a player and its position in whole units.
pub struct SnapshotRecord {
    pub player_id: String,
    pub x: i32,
    pub y: i32,
}

/// A snapshot record as a ghost value.
pub ghost struct SnapshotRecordView {
    pub player_id: Seq<char>,
    pub x: int,
    pub y: int,
}

impl View for SnapshotRecord {
    type V = SnapshotRecordView;

    open spec fn view(&self) -> SnapshotRecordView {
        SnapshotRecordView { player_id: self.player_id@, x: self.x as int, y: self.y as int }
    }
}

/// The records of a snapshot as ghost values.
pub open spec fn snapshot_view(records: Seq<SnapshotRecord>) -> Seq<SnapshotRecordView> {
    Seq::new(records.len(), |i: int| records[i]@)
}

/// Whether some record is kept for `id`.
pub open spec fn holds(records: Seq<PlayerDataView>, id: Seq<char>) -> bool {
    exists|i: int| 0 <= i < records.len() && (#[trigger] records[i]).player_id == id
}

/// How many records are kept for `id`.
pub open spec fn occurrences(records: Seq<PlayerDataView>, id: Seq<char>) -> nat
    decreases records.len(),
{
    if records.len() == 0 {
        0
    } else {
        occurrences(records.drop_last(), id) + if records.last().player_id == id { 1nat } else { 0nat }
    }
}

/// No two records share an id.
pub open spec fn distinct_ids(records: Seq<PlayerDataView>) -> bool {
    forall|i: int, j: int|
        0 <= i < j < records.len() ==> (#[trigger] records[i]).player_id != (#[trigger] records[j]).player_id
}

/// The record `r` moved to `(x, y)`; who reported it first stays on file.
pub open spec fn moved(r: PlayerDataView, x: Seq<char>, y: Seq<char>) -> PlayerDataView {
    PlayerDataView { player_id: r.player_id, client_ip: r.client_ip, x: x, y: y }
}

/// The records after player `id`, connected from `ip`, reports `(x, y)`: a
/// player already on file is moved, a new one is added at the end.
pub open spec fn upserted(records: Seq<PlayerDataView>, id: Seq<char>, x: Seq<char>, y: Seq<char>, ip: Seq<char>) -> Seq<
    PlayerDataView,
> {
    if holds(records, id) {
        Seq::new(
            records.len(),
            |i: int| if records[i].player_id == id { moved(records[i], x, y) } else { records[i] },
        )
    } else {
        records.push(PlayerDataView { player_id: id, client_ip: ip, x: x, y: y })
    }
}

/// What a snapshot of the records holds: every player with its position
/// rounded to whole units, in the order of the records.
pub open spec fn snapshot_of(records: Seq<PlayerDataView>) -> Seq<SnapshotRecordView> {
    Seq::new(
        records.len(),
        |i: int|
            SnapshotRecordView {
                player_id: records[i].player_id,
                x: whole_of(records[i].x),
                y: whole_of(records[i].y),
            },
    )
}

/// The position store. It never holds two records for one player and never
/// forgets a player.
pub struct PositionStore {
    records: Vec<PlayerData>,
}

impl View for PositionStore {
    type V = Seq<PlayerDataView>;

    closed spec fn view(&self) -> Seq<PlayerDataView> {
        Seq::new(self.records@.len(), |i: int| self.records@[i]@)
    }
}

impl PositionStore {
    #[verifier::type_invariant]
    spec fn well_formed(self) -> bool {
        distinct_ids(self@)
    }

    /// An empty store.
    pub fn new() -> (store: PositionStore)
        ensures
            store@ == Seq::<PlayerDataView>::empty(),
    {
        PositionStore { records: Vec::new() }
    }

    /// The number of players on file.
    pub fn len(&self) -> (n: usize)
        ensures
            n == self@.len(),
    {
        self.records.len()
    }

    /// Where the record of `id` stands, if there is one.
    fn find(&self, id: &String) -> (r: Option<usize>)
        ensures
            match r {
                Some(i) => i < self@.len() && self@[i as int].player_id == id@,
                None => !holds(self@, id@),
            },
    {
        let mut i: usize = 0;
        while i < self.records.len()
            invariant
                i <= self.records.len(),
                forall|k: int| 0 <= k < i ==> (#[trigger] self@[k]).player_id != id@,
            decreases self.records.len() - i,
        {
            if self.records[i].player_id == *id {
                return Some(i);
            }
            i += 1;
        }
        None
    }

    /// What is on file for `id`, if anything.
    pub fn get(&self, id: &String) -> (r: Option<&PlayerData>)
        ensures
            match r {
                Some(record) => record@.player_id == id@ && exists|i: int|
                    0 <= i < self@.len() && #[trigger] self@[i] == record@,
                None => !holds(self@, id@),
            },
    {
        match self.find(id) {
            Some(i) => {
                assert(self@[i as int] == self.records@[i as int]@);
                Some(&self.records[i])
            },
            None => None,
        }
    }

    /// Records that player `id`, connected from `client_ip`, is at `(x, y)`,
    /// and keeps the two coordinates as they are, unrounded. A player seen
    /// before keeps its place and its first address; only the position
    /// changes.
    pub fn upsert(&mut self, id: String, x: Coordinate, y: Coordinate, client_ip: String)
        ensures
            final(self)@ == upserted(old(self)@, id@, x@, y@, client_ip@),
            distinct_ids(old(self)@),
            distinct_ids(final(self)@),
    {
        proof {
            use_type_invariant(&*self);
        }
        let found = self.find(&id);
        let ghost before = self@;
        let ghost reported = (x@, y@);
        let mut taken = PositionStore { records: Vec::new() };
        std::mem::swap(self, &mut taken);
        let mut records = taken.records;
        match found {
            Some(i) => {
                let mut record = records.remove(i);
                record.client_position_x = x;
                record.client_position_y = y;
                records.insert(i, record);
            },
            None => {
                records.push(
                    PlayerData { player_id: id, client_ip: client_ip, client_position_x: x, client_position_y: y },
                );
            },
        }
        let ghost after = Seq::new(records@.len(), |i: int| records@[i]@);
        assert(after =~= upserted(before, id@, reported.0, reported.1, client_ip@));
        *self = PositionStore { records };
    }

    /// Every player on file with its position rounded to whole units, in the
    /// order in which the players were first seen.
    pub fn snapshot(&self) -> (records: Vec<SnapshotRecord>)
        ensures
            snapshot_view(records@) == snapshot_of(self@),
            distinct_ids(self@),
    {
        proof {
            use_type_invariant(self);
        }
        let mut out: Vec<SnapshotRecord> = Vec::new();
        let mut i: usize = 0;
        while i < self.records.len()
            invariant
                i <= self.records.len(),
                out@.len() == i,
                forall|k: int| 0 <= k < i ==> (#[trigger] out@[k])@ == snapshot_of(self@)[k],
            decreases self.records.len() - i,
        {
            let record = &self.records[i];
            out.push(
                SnapshotRecord {
                    player_id: record.player_id.clone(),
                    x: record.client_position_x.rounded(),
                    y: record.client_position_y.rounded(),
                },
            );
            i += 1;
        }
        assert(snapshot_view(out@) =~= snapshot_of(self@));
        out
    }
}

/// The records after the same report was made `n` times in a row.
pub open spec fn upserted_times(
    records: Seq<PlayerDataView>,
    n: nat,
    id: Seq<char>,
    x: Seq<char>,
    y: Seq<char>,
    ip: Seq<char>,
) -> Seq<PlayerDataView>
    decreases n,
{
    if n == 0 {
        records
    } else {
        upserted(upserted_times(records, (n - 1) as nat, id, x, y, ip), id, x, y, ip)
    }
}

/// A player is on file exactly when it is counted, and among distinct ids
/// nobody is counted twice.
pub proof fn lemma_occurrences(records: Seq<PlayerDataView>, id: Seq<char>)
    ensures
        holds(records, id) <==> occurrences(records, id) > 0,
        distinct_ids(records) ==> occurrences(records, id) <= 1,
    decreases records.len(),
{
    if records.len() > 0 {
        let front = records.drop_last();
        lemma_occurrences(front, id);
        if holds(front, id) {
            let i = choose|i: int| 0 <= i < front.len() && (#[trigger] front[i]).player_id == id;
            assert(records[i].player_id == id);
        }
        if holds(records, id) && records.last().player_id != id {
            let i = choose|i: int| 0 <= i < records.len() && (#[trigger] records[i]).player_id == id;
            assert(front[i].player_id == id);
        }
        if records.last().player_id == id {
            assert(records[records.len() - 1].player_id == id);
        }
        if distinct_ids(records) {
            assert forall|i: int, j: int| 0 <= i < j < front.len() implies (#[trigger] front[i]).player_id != (
            #[trigger] front[j]).player_id by {
                assert(records[i].player_id != records[j].player_id);
            }
            if records.last().player_id == id && holds(front, id) {
                let i = choose|i: int| 0 <= i < front.len() && (#[trigger] front[i]).player_id == id;
                assert(records[i].player_id != records[records.len() - 1].player_id);
            }
        }
    }
}

/// A report leaves the player on file, removes nobody, and keeps the ids
/// distinct.
pub proof fn lemma_upsert_keeps(records: Seq<PlayerDataView>, id: Seq<char>, x: Seq<char>, y: Seq<char>, ip: Seq<char>)
    ensures
        holds(upserted(records, id, x, y, ip), id),
        upserted(records, id, x, y, ip).len() >= records.len(),
        forall|other: Seq<char>| holds(records, other) ==> holds(upserted(records, id, x, y, ip), other),
        distinct_ids(records) ==> distinct_ids(upserted(records, id, x, y, ip)),
{
    let after = upserted(records, id, x, y, ip);
    if holds(records, id) {
        let i = choose|i: int| 0 <= i < records.len() && (#[trigger] records[i]).player_id == id;
        assert(after[i].player_id == id);
    } else {
        assert(after[after.len() - 1].player_id == id);
    }
    assert forall|other: Seq<char>| holds(records, other) implies holds(after, other) by {
        let i = choose|i: int| 0 <= i < records.len() && (#[trigger] records[i]).player_id == other;
        assert(after[i].player_id == other);
    }
    if distinct_ids(records) {
        assert forall|i: int, j: int| 0 <= i < j < after.len() implies (#[trigger] after[i]).player_id != (
        #[trigger] after[j]).player_id by {
            if j < records.len() {
                assert(records[i].player_id != records[j].player_id);
            } else {
                assert(records[i].player_id != id);
            }
        }
    }
}

/// Making the same report twice is the same as making it once.
pub proof fn lemma_upsert_idempotent(records: Seq<PlayerDataView>, id: Seq<char>, x: Seq<char>, y: Seq<char>, ip: Seq<char>)
    ensures
        upserted(upserted(records, id, x, y, ip), id, x, y, ip) == upserted(records, id, x, y, ip),
{
    let once = upserted(records, id, x, y, ip);
    lemma_upsert_keeps(records, id, x, y, ip);
    assert(upserted(once, id, x, y, ip) =~= once);
}

/// Making the same report any number of times, at least once, is the same as
/// making it once, and the store then holds exactly one record for that
/// player.
pub proof fn lemma_upsert_repeated(
    records: Seq<PlayerDataView>,
    n: nat,
    id: Seq<char>,
    x: Seq<char>,
    y: Seq<char>,
    ip: Seq<char>,
)
    requires
        distinct_ids(records),
        n >= 1,
    ensures
        upserted_times(records, n, id, x, y, ip) == upserted(records, id, x, y, ip),
        occurrences(upserted_times(records, n, id, x, y, ip), id) == 1,
    decreases n,
{
    let once = upserted(records, id, x, y, ip);
    if n == 1 {
        assert(upserted_times(records, 0, id, x, y, ip) == records);
    } else {
        lemma_upsert_repeated(records, (n - 1) as nat, id, x, y, ip);
        lemma_upsert_idempotent(records, id, x, y, ip);
    }
    lemma_upsert_keeps(records, id, x, y, ip);
    lemma_occurrences(once, id);
}

} // verus!
