//! The client's picture of the other players: for every player that ever
//! appeared in a snapshot, the position it was last seen at.

use vstd::prelude::*;
use crate::store::{SnapshotRecord, SnapshotRecordView, snapshot_view};

verus! {

/// Another player as this client last saw it, in whole units.
#[derive(Clone, Copy, PartialEq, Eq, Structural, Debug)]
pub struct OtherPlayer {
    pub position_x: i32,
    pub position_y: i32,
}

impl OtherPlayer {
    /// A player that has not been placed yet stands at the origin.
    pub fn new() -> (player: OtherPlayer)
        ensures
            player.position_x == 0,
            player.position_y == 0,
    {
        OtherPlayer { position_x: 0, position_y: 0 }
    }

    /// Moves the player to where the server says it is.
    pub fn update_position(&mut self, x: i32, y: i32)
        ensures
            final(self).position_x == x,
            final(self).position_y == y,
    {
        self.position_x = x;
        self.position_y = y;
    }
}

/// One entry of the cache.
pub struct RemoteCacheEntry {
    pub id: String,
    pub player: OtherPlayer,
}

/// A cache entry as a ghost value.
pub ghost struct RemoteEntryView {
    pub id: Seq<char>,
    pub x: int,
    pub y: int,
}

impl View for RemoteCacheEntry {
    type V = RemoteEntryView;

    open spec fn view(&self) -> RemoteEntryView {
        RemoteEntryView { id: self.id@, x: self.player.position_x as int, y: self.player.position_y as int }
    }
}

/// Whether the cache has an entry for `id`.
pub open spec fn cached(entries: Seq<RemoteEntryView>, id: Seq<char>) -> bool {
    exists|i: int| 0 <= i < entries.len() && (#[trigger] entries[i]).id == id
}

/// No two entries share an id.
pub open spec fn distinct_entries(entries: Seq<RemoteEntryView>) -> bool {
    forall|i: int, j: int| 0 <= i < j < entries.len() ==> (#[trigger] entries[i]).id != (#[trigger] entries[j]).id
}

/// The entries after player `id` was seen at `(x, y)`: an entry for that
/// player is moved, and one is added at the end if there was none.
pub open spec fn placed(entries: Seq<RemoteEntryView>, id: Seq<char>, x: int, y: int) -> Seq<RemoteEntryView> {
    if cached(entries, id) {
        Seq::new(
            entries.len(),
            |i: int| if entries[i].id == id { RemoteEntryView { id: id, x: x, y: y } } else { entries[i] },
        )
    } else {
        entries.push(RemoteEntryView { id: id, x: x, y: y })
    }
}

/// The entries after a snapshot was taken in by the client `local_id`: the
/// records are applied in order, the client's own record is passed over, and
/// players that the snapshot does not mention stay as they were.
pub open spec fn reconciled(entries: Seq<RemoteEntryView>, snapshot: Seq<SnapshotRecordView>, local_id: Seq<char>) -> Seq<
    RemoteEntryView,
>
    decreases snapshot.len(),
{
    if snapshot.len() == 0 {
        entries
    } else {
        let before = reconciled(entries, snapshot.drop_last(), local_id);
        let record = snapshot.last();
        if record.player_id == local_id {
            before
        } else {
            placed(before, record.player_id, record.x, record.y)
        }
    }
}

/// The cache of remote players. It holds one entry per player and never drops
/// one.
pub struct RemoteCache {
    entries: Vec<RemoteCacheEntry>,
}

impl View for RemoteCache {
    type V = Seq<RemoteEntryView>;

    closed spec fn view(&self) -> Seq<RemoteEntryView> {
        Seq::new(self.entries@.len(), |i: int| self.entries@[i]@)
    }
}

impl RemoteCache {
    #[verifier::type_invariant]
    spec fn well_formed(self) -> bool {
        distinct_entries(self@)
    }

    /// An empty cache.
    pub fn new() -> (cache: RemoteCache)
        ensures
            cache@ == Seq::<RemoteEntryView>::empty(),
    {
        RemoteCache { entries: Vec::new() }
    }

    /// The number of players in the cache.
    pub fn len(&self) -> (n: usize)
        ensures
            n == self@.len(),
            distinct_entries(self@),
    {
        proof {
            use_type_invariant(self);
        }
        self.entries.len()
    }

    /// The entry at `index`, in the order in which the players were first
    /// seen.
    pub fn entry(&self, index: usize) -> (e: &RemoteCacheEntry)
        requires
            index < self@.len(),
        ensures
            e@ == self@[index as int],
    {
        &self.entries[index]
    }

    /// Where the entry of `id` stands, if there is one.
    fn find(&self, id: &String) -> (r: Option<usize>)
        ensures
            match r {
                Some(i) => i < self@.len() && self@[i as int].id == id@,
                None => !cached(self@, id@),
            },
    {
        let mut i: usize = 0;
        while i < self.entries.len()
            invariant
                i <= self.entries.len(),
                forall|k: int| 0 <= k < i ==> (#[trigger] self@[k]).id != id@,
            decreases self.entries.len() - i,
        {
            if self.entries[i].id == *id {
                return Some(i);
            }
            i += 1;
        }
        None
    }

    /// The position that `id` was last seen at, if it ever was.
    pub fn position_of(&self, id: &String) -> (r: Option<(i32, i32)>)
        ensures
            match r {
                Some((x, y)) => exists|i: int|
                    0 <= i < self@.len() && #[trigger] self@[i] == (RemoteEntryView {
                        id: id@,
                        x: x as int,
                        y: y as int,
                    }),
                None => !cached(self@, id@),
            },
    {
        match self.find(id) {
            Some(i) => {
                assert(self@[i as int] == self.entries@[i as int]@);
                Some((self.entries[i].player.position_x, self.entries[i].player.position_y))
            },
            None => None,
        }
    }

    /// Notes that player `id` was seen at `(x, y)`.
    pub fn place(&mut self, id: String, x: i32, y: i32)
        ensures
            final(self)@ == placed(old(self)@, id@, x as int, y as int),
    {
        proof {
            use_type_invariant(&*self);
        }
        let found = self.find(&id);
        let ghost before = self@;
        let mut taken = RemoteCache { entries: Vec::new() };
        std::mem::swap(self, &mut taken);
        let mut entries = taken.entries;
        match found {
            Some(i) => {
                let mut entry = entries.remove(i);
                entry.player.update_position(x, y);
                entries.insert(i, entry);
            },
            None => {
                let mut player = OtherPlayer::new();
                player.update_position(x, y);
                entries.push(RemoteCacheEntry { id: id, player: player });
            },
        }
        let ghost after = Seq::new(entries@.len(), |i: int| entries@[i]@);
        assert(after =~= placed(before, id@, x as int, y as int));
        *self = RemoteCache { entries };
    }

    /// Takes a snapshot in on behalf of the client `local_id`: every record
    /// but the client's own moves or adds its player; nobody is removed.
    pub fn reconcile(&mut self, snapshot: &Vec<SnapshotRecord>, local_id: &String)
        ensures
            final(self)@ == reconciled(old(self)@, snapshot_view(snapshot@), local_id@),
    {
        let ghost all = snapshot_view(snapshot@);
        assert(all.take(0) == Seq::<SnapshotRecordView>::empty());
        let mut i: usize = 0;
        while i < snapshot.len()
            invariant
                i <= snapshot.len(),
                all == snapshot_view(snapshot@),
                self@ == reconciled(old(self)@, all.take(i as int), local_id@),
            decreases snapshot.len() - i,
        {
            let record = &snapshot[i];
            proof {
                let upto = all.take(i + 1);
                assert(upto.drop_last() == all.take(i as int));
                assert(upto.last() == record@);
            }
            if record.player_id != *local_id {
                self.place(record.player_id.clone(), record.x, record.y);
            }
            i += 1;
        }
        assert(all.take(snapshot.len() as int) == all);
    }
}

/// Placing one player neither adds nor removes an entry for another, and
/// removes nobody.
pub proof fn lemma_place_keeps(entries: Seq<RemoteEntryView>, id: Seq<char>, x: int, y: int)
    ensures
        cached(placed(entries, id, x, y), id),
        placed(entries, id, x, y).len() >= entries.len(),
        forall|other: Seq<char>| other != id ==> (cached(placed(entries, id, x, y), other) <==> cached(entries, other)),
        forall|i: int|
            0 <= i < entries.len() ==> (#[trigger] placed(entries, id, x, y)[i]).id == entries[i].id && (entries[i].id
                != id ==> placed(entries, id, x, y)[i] == entries[i]),
{
    let after = placed(entries, id, x, y);
    if cached(entries, id) {
        let i = choose|i: int| 0 <= i < entries.len() && (#[trigger] entries[i]).id == id;
        assert(after[i].id == id);
    } else {
        assert(after[after.len() - 1].id == id);
    }
    assert forall|other: Seq<char>| other != id implies (cached(after, other) <==> cached(entries, other)) by {
        if cached(entries, other) {
            let i = choose|i: int| 0 <= i < entries.len() && (#[trigger] entries[i]).id == other;
            assert(after[i].id == other);
        }
        if cached(after, other) {
            let i = choose|i: int| 0 <= i < after.len() && (#[trigger] after[i]).id == other;
            assert(entries[i].id == other);
        }
    }
}

/// An entry under the local id, if the cache has one, is not touched by a
/// snapshot.
proof fn lemma_self_entry_kept(
    entries: Seq<RemoteEntryView>,
    snapshot: Seq<SnapshotRecordView>,
    local_id: Seq<char>,
    i: int,
)
    requires
        0 <= i < entries.len(),
        entries[i].id == local_id,
    ensures
        i < reconciled(entries, snapshot, local_id).len(),
        reconciled(entries, snapshot, local_id)[i] == entries[i],
    decreases snapshot.len(),
{
    if snapshot.len() > 0 {
        lemma_self_entry_kept(entries, snapshot.drop_last(), local_id, i);
        let before = reconciled(entries, snapshot.drop_last(), local_id);
        let record = snapshot.last();
        if record.player_id != local_id {
            lemma_place_keeps(before, record.player_id, record.x, record.y);
            let after = placed(before, record.player_id, record.x, record.y);
            assert(after[i].id == before[i].id);
        }
    }
}

/// Reconciliation leaves this client out: taking a snapshot in, whatever it
/// holds, neither adds nor removes an entry for the local id, and an entry
/// that is there under the local id is not changed.
pub proof fn lemma_reconcile_excludes_self(
    entries: Seq<RemoteEntryView>,
    snapshot: Seq<SnapshotRecordView>,
    local_id: Seq<char>,
)
    ensures
        cached(reconciled(entries, snapshot, local_id), local_id) <==> cached(entries, local_id),
        forall|i: int|
            0 <= i < entries.len() && (#[trigger] entries[i]).id == local_id ==> i < reconciled(
                entries,
                snapshot,
                local_id,
            ).len() && reconciled(entries, snapshot, local_id)[i] == entries[i],
    decreases snapshot.len(),
{
    if snapshot.len() > 0 {
        lemma_reconcile_excludes_self(entries, snapshot.drop_last(), local_id);
        let before = reconciled(entries, snapshot.drop_last(), local_id);
        let record = snapshot.last();
        if record.player_id != local_id {
            lemma_place_keeps(before, record.player_id, record.x, record.y);
        }
    }
    assert forall|i: int| 0 <= i < entries.len() && (#[trigger] entries[i]).id == local_id implies i < reconciled(
        entries,
        snapshot,
        local_id,
    ).len() && reconciled(entries, snapshot, local_id)[i] == entries[i] by {
        lemma_self_entry_kept(entries, snapshot, local_id, i);
    }
}

/// Reconciliation never drops a player: every entry keeps its place and its
/// id, and the cache does not shrink.
pub proof fn lemma_reconcile_never_forgets(
    entries: Seq<RemoteEntryView>,
    snapshot: Seq<SnapshotRecordView>,
    local_id: Seq<char>,
)
    ensures
        reconciled(entries, snapshot, local_id).len() >= entries.len(),
        forall|i: int|
            0 <= i < entries.len() ==> (#[trigger] reconciled(entries, snapshot, local_id)[i]).id == entries[i].id,
        forall|id: Seq<char>| cached(entries, id) ==> cached(reconciled(entries, snapshot, local_id), id),
    decreases snapshot.len(),
{
    let after = reconciled(entries, snapshot, local_id);
    if snapshot.len() > 0 {
        lemma_reconcile_never_forgets(entries, snapshot.drop_last(), local_id);
        let before = reconciled(entries, snapshot.drop_last(), local_id);
        let record = snapshot.last();
        if record.player_id != local_id {
            lemma_place_keeps(before, record.player_id, record.x, record.y);
            assert forall|i: int| 0 <= i < entries.len() implies (#[trigger] after[i]).id == entries[i].id by {
                assert(after[i].id == before[i].id);
            }
        }
    }
    assert forall|id: Seq<char>| cached(entries, id) implies cached(after, id) by {
        let i = choose|i: int| 0 <= i < entries.len() && (#[trigger] entries[i]).id == id;
        assert(after[i].id == id);
    }
}

} // verus!
