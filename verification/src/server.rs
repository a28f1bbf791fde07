//! The room registry: the process-wide mapping from room identifier to room,
//! the connection-id generator, and the operations every session goes
//! through — the atomic join reservation, membership snapshots, and
//! idempotent removal and cleanup.
//!
//! The registry is modelled as a map from room identifier to the sequence of
//! `(connection id, marker)` pairs of its members. The invariant `inv` keeps
//! every room at one or two members with distinct ids: a room is created on
//! its first join and deleted the instant it becomes empty, so an identifier
//! is present exactly while its room has at least one member.
//!
//! The caller owns the lock: each method here is one critical section, and
//! channel sends happen outside it, on a snapshot.

use vstd::prelude::*;
use tokio::sync::mpsc::UnboundedSender;
use crate::channel::clone_sender;
use crate::response::PlayerMark;
use crate::text::str_eq;
use vstd::string::StringExecFns;

verus! {

/// A unique handle for one active connection, assigned from the registry's
/// monotonically increasing generator.
pub type ConnectionId = u64;

/// The registry as a mathematical value: room identifier to members.
pub type RoomsModel = Map<Seq<char>, Seq<(ConnectionId, PlayerMark)>>;

/// One member of a room: its id, the sending half of its delivery channel,
/// and its marker.
pub struct Connection {
    pub id: ConnectionId,
    pub tx: UnboundedSender<String>,
    pub mark: PlayerMark,
}

impl Connection {
    /// The part of a member the model keeps: the channel itself is opaque.
    pub open spec fn entry(self) -> (ConnectionId, PlayerMark) {
        (self.id, self.mark)
    }
}

/// A capacity-two set of connections sharing one room identifier.
pub struct Room {
    pub connections: Vec<Connection>,
}

impl Room {
    /// The members of this room, in insertion order.
    pub open spec fn model(self) -> Seq<(ConnectionId, PlayerMark)> {
        self.connections@.map_values(|c: Connection| c.entry())
    }

    /// An empty room, as created on the first join to a fresh identifier.
    pub fn new() -> (r: Room)
        ensures
            r.model() == Seq::<(ConnectionId, PlayerMark)>::empty(),
    {
        let r = Room { connections: Vec::new() };
        proof {
            assert(r.model() =~= Seq::<(ConnectionId, PlayerMark)>::empty());
        }
        r
    }
}

/// One registry entry: a room under its caller-chosen identifier.
pub struct RoomEntry {
    pub room_id: String,
    pub room: Room,
}

/// The process-wide state: all rooms, plus the connection-id generator.
/// It is exclusively owned and lock-guarded by the embedding server; every
/// method below is a single critical section.
pub struct AppState {
    pub rooms: Vec<RoomEntry>,
    pub next_connection_id: ConnectionId,
}

/// The error returned when a join finds its room already full;
/// `num_connections` is the membership count that caused the rejection.
#[derive(Clone, Copy, Debug, PartialEq, Eq, Structural)]
pub struct RoomFull {
    pub num_connections: usize,
}

/// No two entries share a room identifier.
pub open spec fn distinct_keys(entries: Seq<RoomEntry>) -> bool {
    forall|i: int, j: int|
        0 <= i < j < entries.len() ==> #[trigger] entries[i].room_id@ != #[trigger] entries[j].room_id@
}

/// No two members share a connection id.
pub open spec fn distinct_ids(conns: Seq<(ConnectionId, PlayerMark)>) -> bool {
    forall|i: int, j: int| 0 <= i < j < conns.len() ==> (#[trigger] conns[i]).0 != (#[trigger] conns[j]).0
}

/// What holds of every room that is present in the registry: one or two
/// members, with distinct ids.
pub open spec fn room_ok(conns: Seq<(ConnectionId, PlayerMark)>) -> bool {
    &&& 1 <= conns.len() <= 2
    &&& distinct_ids(conns)
}

/// The registry model built from the entries, later entries overriding
/// earlier ones (the invariant keeps identifiers distinct, so none does).
pub open spec fn rooms_map_of(entries: Seq<RoomEntry>) -> RoomsModel
    decreases entries.len(),
{
    if entries.len() == 0 {
        Map::empty()
    } else {
        rooms_map_of(entries.drop_last()).insert(
            entries.last().room_id@,
            entries.last().room.model(),
        )
    }
}

/// The members of `rid` under model `m`; an absent room has none.
pub open spec fn room_conns(m: RoomsModel, rid: Seq<char>) -> Seq<(ConnectionId, PlayerMark)> {
    if m.contains_key(rid) {
        m[rid]
    } else {
        Seq::empty()
    }
}

/// How many members `rid` has under model `m` (0 if absent).
pub open spec fn room_count(m: RoomsModel, rid: Seq<char>) -> nat {
    room_conns(m, rid).len()
}

/// The marker assigned to a joiner who finds `count` members already in the
/// room: the first joiner is `X`, the second `O`.
pub open spec fn mark_for(count: nat) -> PlayerMark {
    if count == 0 {
        PlayerMark::X
    } else {
        PlayerMark::O
    }
}

/// The members of a room with every id listed in `dead` taken out.
pub open spec fn without_ids(conns: Seq<(ConnectionId, PlayerMark)>, dead: Seq<ConnectionId>) -> Seq<
    (ConnectionId, PlayerMark),
> {
    conns.filter(|c: (ConnectionId, PlayerMark)| !dead.contains(c.0))
}

/// The registry model after `id` joins `rid`: the room is created if absent,
/// any stale member with the same id (possible only once the generator has
/// wrapped) is dropped, and the joiner is appended with the marker its
/// pre-join count dictates.
pub open spec fn spec_join(m: RoomsModel, rid: Seq<char>, id: ConnectionId) -> RoomsModel {
    let prior = room_conns(m, rid);
    m.insert(rid, without_ids(prior, seq![id]).push((id, mark_for(prior.len()))))
}

/// The registry model after the ids in `dead` are removed from `rid`: a
/// no-op on an absent room, and the room itself is deleted the moment it
/// becomes empty.
pub open spec fn spec_cleanup(m: RoomsModel, rid: Seq<char>, dead: Seq<ConnectionId>) -> RoomsModel {
    if !m.contains_key(rid) {
        m
    } else {
        let kept = without_ids(m[rid], dead);
        if kept.len() == 0 {
            m.remove(rid)
        } else {
            m.insert(rid, kept)
        }
    }
}

/// The id the generator hands out after `id`: it wraps at the top, and
/// uniqueness is relied on only until it wraps.
pub open spec fn next_id_after(id: ConnectionId) -> ConnectionId {
    if id == ConnectionId::MAX {
        0
    } else {
        (id + 1) as ConnectionId
    }
}

impl AppState {
    /// The registry as its model.
    pub open spec fn rooms_map(self) -> RoomsModel {
        rooms_map_of(self.rooms@)
    }

    /// Well-formedness: identifiers distinct, every room one or two members
    /// with distinct ids — so no empty room is ever present.
    pub open spec fn inv(self) -> bool {
        &&& distinct_keys(self.rooms@)
        &&& forall|i: int| 0 <= i < self.rooms@.len() ==> room_ok(#[trigger] self.rooms@[i].room.model())
    }

    /// A fresh registry: no rooms, generator at zero.
    pub fn new() -> (r: AppState)
        ensures
            r.inv(),
            r.rooms_map() == RoomsModel::empty(),
            r.next_connection_id == 0,
    {
        AppState { rooms: Vec::new(), next_connection_id: 0 }
    }
}

/// Each entry's identifier reaches its own room in the model.
proof fn lemma_map_of_index(entries: Seq<RoomEntry>, i: int)
    requires
        distinct_keys(entries),
        0 <= i < entries.len(),
    ensures
        rooms_map_of(entries).contains_key(entries[i].room_id@),
        rooms_map_of(entries)[entries[i].room_id@] == entries[i].room.model(),
    decreases entries.len(),
{
    if i < entries.len() - 1 {
        lemma_map_of_index(entries.drop_last(), i);
    }
}

/// An identifier under none of the entries is absent from the model.
proof fn lemma_map_of_absent(entries: Seq<RoomEntry>, k: Seq<char>)
    requires
        forall|i: int| 0 <= i < entries.len() ==> (#[trigger] entries[i]).room_id@ != k,
    ensures
        !rooms_map_of(entries).contains_key(k),
    decreases entries.len(),
{
    if entries.len() > 0 {
        lemma_map_of_absent(entries.drop_last(), k);
    }
}

/// Every identifier in the model comes from some entry.
proof fn lemma_map_of_contains(entries: Seq<RoomEntry>, k: Seq<char>)
    requires
        rooms_map_of(entries).contains_key(k),
    ensures
        exists|i: int| 0 <= i < entries.len() && (#[trigger] entries[i]).room_id@ == k,
    decreases entries.len(),
{
    if entries.len() > 0 && entries.last().room_id@ != k {
        lemma_map_of_contains(entries.drop_last(), k);
        let i = choose|i: int|
            0 <= i < entries.drop_last().len() && (#[trigger] entries.drop_last()[i]).room_id@ == k;
        assert(entries[i].room_id@ == k);
    }
}

/// Replacing one entry by another under the same identifier updates just
/// that identifier in the model.
proof fn lemma_map_of_update(entries: Seq<RoomEntry>, i: int, e: RoomEntry)
    requires
        distinct_keys(entries),
        0 <= i < entries.len(),
        e.room_id@ == entries[i].room_id@,
    ensures
        rooms_map_of(entries.update(i, e)) == rooms_map_of(entries).insert(
            e.room_id@,
            e.room.model(),
        ),
    decreases entries.len(),
{
    let s2 = entries.update(i, e);
    if i == entries.len() - 1 {
        assert(s2.drop_last() =~= entries.drop_last());
        assert(rooms_map_of(s2) =~= rooms_map_of(entries).insert(e.room_id@, e.room.model()));
    } else {
        assert(s2.drop_last() =~= entries.drop_last().update(i, e));
        lemma_map_of_update(entries.drop_last(), i, e);
        assert(rooms_map_of(s2) =~= rooms_map_of(entries).insert(e.room_id@, e.room.model()));
    }
}

/// Dropping one entry removes just its identifier from the model.
proof fn lemma_map_of_remove(entries: Seq<RoomEntry>, i: int)
    requires
        distinct_keys(entries),
        0 <= i < entries.len(),
    ensures
        rooms_map_of(entries.remove(i)) == rooms_map_of(entries).remove(entries[i].room_id@),
    decreases entries.len(),
{
    let k = entries[i].room_id@;
    if i == entries.len() - 1 {
        assert(entries.remove(i) =~= entries.drop_last());
        lemma_map_of_absent(entries.drop_last(), k);
        assert(rooms_map_of(entries.drop_last()) =~= rooms_map_of(entries).remove(k));
    } else {
        assert(entries.remove(i).drop_last() =~= entries.drop_last().remove(i));
        assert(entries.remove(i).last() == entries.last());
        lemma_map_of_remove(entries.drop_last(), i);
        assert(rooms_map_of(entries.remove(i)) =~= rooms_map_of(entries).remove(k));
    }
}

/// Appending an entry under a fresh identifier inserts just it.
proof fn lemma_map_of_push(entries: Seq<RoomEntry>, e: RoomEntry)
    ensures
        rooms_map_of(entries.push(e)) == rooms_map_of(entries).insert(e.room_id@, e.room.model()),
{
    assert(entries.push(e).drop_last() =~= entries);
    assert(entries.push(e).last() == e);
}

/// Filtering keeps ids distinct and every kept pair comes from the source.
proof fn lemma_filter_distinct(
    conns: Seq<(ConnectionId, PlayerMark)>,
    pred: spec_fn((ConnectionId, PlayerMark)) -> bool,
)
    requires
        distinct_ids(conns),
    ensures
        distinct_ids(conns.filter(pred)),
        forall|x: (ConnectionId, PlayerMark)| #[trigger]
            conns.filter(pred).contains(x) ==> conns.contains(x),
    decreases conns.len(),
{
    reveal(Seq::filter);
    if conns.len() > 0 {
        let dl = conns.drop_last();
        assert(forall|i: int| 0 <= i < dl.len() ==> dl[i] == conns[i]);
        assert(distinct_ids(dl));
        lemma_filter_distinct(dl, pred);
        let f = conns.filter(pred);
        assert forall|x: (ConnectionId, PlayerMark)| #[trigger] f.contains(x) implies
            conns.contains(x) by {
            let k = choose|k: int| 0 <= k < f.len() && f[k] == x;
            if pred(conns.last()) && k == f.len() - 1 {
                assert(conns[conns.len() - 1] == x);
            } else {
                assert(dl.filter(pred)[k] == x);
                assert(dl.filter(pred).contains(x));
                assert(dl.contains(x));
                let j = choose|j: int| 0 <= j < dl.len() && dl[j] == x;
                assert(conns[j] == x);
            }
        }
        if pred(conns.last()) {
            assert(f == dl.filter(pred).push(conns.last()));
            assert forall|i: int, j: int| 0 <= i < j < f.len() implies (#[trigger] f[i]).0 != (
            #[trigger] f[j]).0 by {
                if j == f.len() - 1 {
                    assert(dl.filter(pred).contains(f[i]));
                    let k = choose|k: int| 0 <= k < dl.len() && dl[k] == f[i];
                    assert(conns[k] == f[i]);
                    assert(conns[k].0 != conns.last().0);
                }
            }
        }
    }
}

/// Filtering with a predicate that holds nowhere leaves nothing.
proof fn lemma_filter_none(
    conns: Seq<(ConnectionId, PlayerMark)>,
    pred: spec_fn((ConnectionId, PlayerMark)) -> bool,
)
    requires
        forall|i: int| 0 <= i < conns.len() ==> !pred(#[trigger] conns[i]),
    ensures
        conns.filter(pred) == Seq::<(ConnectionId, PlayerMark)>::empty(),
    decreases conns.len(),
{
    reveal(Seq::filter);
    if conns.len() > 0 {
        let dl = conns.drop_last();
        assert(forall|i: int| 0 <= i < dl.len() ==> dl[i] == conns[i]);
        lemma_filter_none(dl, pred);
    }
}

/// Keep only the connections whose id is not listed in `dead`.
fn retain_without(conns: Vec<Connection>, dead: &Vec<ConnectionId>) -> (r: Vec<Connection>)
    ensures
        r@.map_values(|c: Connection| c.entry()) == without_ids(
            conns@.map_values(|c: Connection| c.entry()),
            dead@,
        ),
{
    let ghost model = conns@.map_values(|c: Connection| c.entry());
    let ghost pred = |c: (ConnectionId, PlayerMark)| !dead@.contains(c.0);
    let mut kept: Vec<Connection> = Vec::new();
    let mut taken: usize = 0;
    proof {
        assert(model.subrange(0, 0) =~= Seq::<(ConnectionId, PlayerMark)>::empty());
        reveal(Seq::filter);
        assert(kept@.map_values(|c: Connection| c.entry()) =~= model.subrange(0, 0).filter(pred));
    }
    while taken < conns.len()
        invariant
            taken <= conns.len(),
            model == conns@.map_values(|c: Connection| c.entry()),
            pred == (|c: (ConnectionId, PlayerMark)| !dead@.contains(c.0)),
            kept@.map_values(|c: Connection| c.entry()) == model.subrange(0, taken as int).filter(
                pred,
            ),
        decreases conns.len() - taken,
    {
        let alive = !vec_contains(dead, conns[taken].id);
        if alive {
            let c = Connection {
                id: conns[taken].id,
                tx: clone_sender(&conns[taken].tx),
                mark: conns[taken].mark,
            };
            kept.push(c);
        }
        proof {
            reveal(Seq::filter);
            let pre = model.subrange(0, taken as int);
            let cur = model.subrange(0, taken + 1 as int);
            assert(cur.drop_last() =~= pre);
            assert(cur.last() == model[taken as int]);
            if alive {
                assert(kept@.map_values(|c: Connection| c.entry()) =~= pre.filter(pred).push(
                    model[taken as int],
                ));
            } else {
                assert(kept@.map_values(|c: Connection| c.entry()) =~= pre.filter(pred));
            }
        }
        taken = taken + 1;
    }
    proof {
        assert(model.subrange(0, conns@.len() as int) =~= model);
    }
    kept
}

/// Whether `x` occurs in `ids`.
fn vec_contains(ids: &Vec<ConnectionId>, x: ConnectionId) -> (r: bool)
    ensures
        r == ids@.contains(x),
{
    let mut i: usize = 0;
    while i < ids.len()
        invariant
            i <= ids@.len(),
            forall|j: int| 0 <= j < i ==> ids@[j] != x,
        decreases ids@.len() - i,
    {
        if ids[i] == x {
            return true;
        }
        i = i + 1;
    }
    false
}

impl AppState {
    /// The index of the entry for `room_id`, if one is present.
    fn find_room(&self, room_id: &str) -> (r: Option<usize>)
        ensures
            match r {
                Some(i) => i < self.rooms@.len() && self.rooms@[i as int].room_id@ == room_id@,
                None => forall|i: int|
                    0 <= i < self.rooms@.len() ==> (#[trigger] self.rooms@[i]).room_id@ != room_id@,
            },
    {
        let mut i: usize = 0;
        while i < self.rooms.len()
            invariant
                i <= self.rooms@.len(),
                forall|j: int| 0 <= j < i ==> (#[trigger] self.rooms@[j]).room_id@ != room_id@,
            decreases self.rooms@.len() - i,
        {
            if str_eq(self.rooms[i].room_id.as_str(), room_id) {
                return Some(i);
            }
            i = i + 1;
        }
        None
    }

    /// The atomic join reservation, one critical section: read the current
    /// count (0 for an absent room), and only if it is below two, allocate a
    /// connection id, assign the marker the count dictates, create the room
    /// if absent and insert the member. A full room rejects the joiner and
    /// changes nothing.
    pub fn reserve(&mut self, room_id: &str, tx: UnboundedSender<String>) -> (r: Result<
        (ConnectionId, PlayerMark),
        RoomFull,
    >)
        requires
            old(self).inv(),
        ensures
            final(self).inv(),
            ({
                let m = old(self).rooms_map();
                let count = room_count(m, room_id@);
                if count >= 2 {
                    &&& r == Err::<(ConnectionId, PlayerMark), RoomFull>(
                        (RoomFull { num_connections: count as usize }),
                    )
                    &&& final(self).rooms_map() == m
                    &&& final(self).next_connection_id == old(self).next_connection_id
                } else {
                    &&& r == Ok::<(ConnectionId, PlayerMark), RoomFull>(
                        ((old(self).next_connection_id, mark_for(count))),
                    )
                    &&& final(self).rooms_map() == spec_join(m, room_id@, old(self).next_connection_id)
                    &&& final(self).next_connection_id == next_id_after(old(self).next_connection_id)
                }
            }),
    {
        let ghost m = self.rooms_map();
        match self.find_room(room_id) {
            Some(i) => {
                proof {
                    lemma_map_of_index(self.rooms@, i as int);
                }
                let count = self.rooms[i].room.connections.len();
                if count >= 2 {
                    return Err(RoomFull { num_connections: count });
                }
                let id = self.next_connection_id;
                self.next_connection_id = if id == ConnectionId::MAX {
                    0
                } else {
                    id + 1
                };
                let mark = if count == 0 {
                    PlayerMark::X
                } else {
                    PlayerMark::O
                };
                let entry = self.rooms.remove(i);
                let ghost prior = entry.room.model();
                let mut ids: Vec<ConnectionId> = Vec::new();
                ids.push(id);
                let mut kept = retain_without(entry.room.connections, &ids);
                proof {
                    assert(ids@ =~= seq![id]);
                    lemma_filter_distinct(
                        prior,
                        |c: (ConnectionId, PlayerMark)| !seq![id].contains(c.0),
                    );
                    assert(without_ids(prior, seq![id]).len() <= prior.len()) by {
                        prior.lemma_filter_len(
                            |c: (ConnectionId, PlayerMark)| !seq![id].contains(c.0),
                        );
                    }
                }
                kept.push(Connection { id, tx, mark });
                let new_entry = RoomEntry { room_id: entry.room_id, room: Room { connections: kept } };
                let ghost new_model = new_entry.room.model();
                proof {
                    assert(new_model =~= without_ids(prior, seq![id]).push((id, mark)));
                }
                self.rooms.insert(i, new_entry);
                proof {
                    assert(self.rooms@ =~= old(self).rooms@.update(i as int, new_entry));
                    lemma_map_of_update(old(self).rooms@, i as int, new_entry);
                    assert(self.rooms_map() == m.insert(room_id@, new_model));
                    assert(new_model == without_ids(room_conns(m, room_id@), seq![id]).push(
                        (id, mark_for(room_count(m, room_id@))),
                    ));
                    assert(self.rooms_map() =~= spec_join(m, room_id@, id));
                    let pred = |c: (ConnectionId, PlayerMark)| !seq![id].contains(c.0);
                    let filtered = without_ids(prior, seq![id]);
                    assert forall|k: int| 0 <= k < filtered.len() implies (#[trigger] filtered[k]).0
                        != id by {
                        prior.lemma_filter_pred(pred, k);
                        assert(seq![id][0] == id);
                        assert(seq![id].contains(id));
                    }
                    assert(distinct_ids(new_model));
                    assert(room_ok(new_model));
                    lemma_inv_update(old(self).rooms@, i as int, new_entry, new_model);
                }
                Ok((id, mark))
            },
            None => {
                proof {
                    lemma_map_of_absent(self.rooms@, room_id@);
                }
                let id = self.next_connection_id;
                self.next_connection_id = if id == ConnectionId::MAX {
                    0
                } else {
                    id + 1
                };
                let mut conns: Vec<Connection> = Vec::new();
                conns.push(Connection { id, tx, mark: PlayerMark::X });
                let new_entry = RoomEntry {
                    room_id: String::from_str(room_id),
                    room: Room { connections: conns },
                };
                proof {
                    assert(new_entry.room.model() =~= seq![(id, PlayerMark::X)]);
                }
                self.rooms.push(new_entry);
                proof {
                    lemma_map_of_push(old(self).rooms@, new_entry);
                    assert(without_ids(Seq::empty(), seq![id]) == Seq::<(
                        ConnectionId,
                        PlayerMark,
                    )>::empty()) by {
                        reveal(Seq::filter);
                    }
                    assert(Seq::<(ConnectionId, PlayerMark)>::empty().push((id, PlayerMark::X))
                        =~= seq![(id, PlayerMark::X)]);
                    assert(self.rooms_map() =~= spec_join(m, room_id@, id));
                    assert(forall|j: int|
                        0 <= j < old(self).rooms@.len() ==> self.rooms@[j] == old(self).rooms@[j]);
                }
                Ok((id, PlayerMark::X))
            },
        }
    }

    /// Remove every connection whose id is listed in `dead` from `room_id`,
    /// and delete the room the instant it has no members left. Removing an
    /// absent connection, or cleaning an absent room, is a no-op.
    pub fn cleanup_dead_connections(&mut self, room_id: &str, dead: &Vec<ConnectionId>)
        requires
            old(self).inv(),
        ensures
            final(self).inv(),
            final(self).rooms_map() == spec_cleanup(old(self).rooms_map(), room_id@, dead@),
            final(self).next_connection_id == old(self).next_connection_id,
    {
        let ghost m = self.rooms_map();
        match self.find_room(room_id) {
            Some(i) => {
                proof {
                    lemma_map_of_index(self.rooms@, i as int);
                }
                let entry = self.rooms.remove(i);
                let ghost prior = entry.room.model();
                proof {
                    assert(self.rooms@ =~= old(self).rooms@.remove(i as int));
                    lemma_map_of_remove(old(self).rooms@, i as int);
                    assert(forall|a: int, b: int|
                        0 <= a < b < self.rooms@.len() ==> #[trigger] self.rooms@[a].room_id@
                            != #[trigger] self.rooms@[b].room_id@) by {
                        assert(forall|a: int|
                            0 <= a < self.rooms@.len() ==> #[trigger] self.rooms@[a] == if a < i as int {
                                old(self).rooms@[a]
                            } else {
                                old(self).rooms@[a + 1]
                            });
                    }
                    lemma_filter_distinct(
                        prior,
                        |c: (ConnectionId, PlayerMark)| !dead@.contains(c.0),
                    );
                    prior.lemma_filter_len(|c: (ConnectionId, PlayerMark)| !dead@.contains(c.0));
                }
                let kept = retain_without(entry.room.connections, dead);
                if kept.len() == 0 {
                    proof {
                        assert(self.rooms_map() =~= spec_cleanup(m, room_id@, dead@));
                    }
                } else {
                    let new_entry = RoomEntry {
                        room_id: entry.room_id,
                        room: Room { connections: kept },
                    };
                    let ghost new_model = new_entry.room.model();
                    self.rooms.insert(i, new_entry);
                    proof {
                        assert(self.rooms@ =~= old(self).rooms@.update(i as int, new_entry));
                        lemma_map_of_update(old(self).rooms@, i as int, new_entry);
                        assert(new_model == without_ids(m[room_id@], dead@));
                        assert(self.rooms_map() =~= spec_cleanup(m, room_id@, dead@));
                        lemma_inv_update(old(self).rooms@, i as int, new_entry, new_model);
                    }
                }
            },
            None => {
                proof {
                    lemma_map_of_absent(self.rooms@, room_id@);
                    assert(self.rooms_map() =~= spec_cleanup(m, room_id@, dead@));
                }
            },
        }
    }

    /// Remove one connection from `room_id` (a no-op if it is already gone),
    /// deleting the room if it thereby becomes empty.
    pub fn remove(&mut self, room_id: &str, connection_id: ConnectionId)
        requires
            old(self).inv(),
        ensures
            final(self).inv(),
            final(self).rooms_map() == spec_cleanup(
                old(self).rooms_map(),
                room_id@,
                seq![connection_id],
            ),
            final(self).next_connection_id == old(self).next_connection_id,
    {
        let mut ids: Vec<ConnectionId> = Vec::new();
        ids.push(connection_id);
        proof {
            assert(ids@ =~= seq![connection_id]);
        }
        self.cleanup_dead_connections(room_id, &ids);
    }
}

/// One line of a membership snapshot: a member's id, a clone of the sending
/// half of its delivery channel, and its marker. Taken under the lock, used
/// for sending after the lock is released.
pub struct Recipient {
    pub connection_id: ConnectionId,
    pub tx: UnboundedSender<String>,
    pub mark: PlayerMark,
}

impl Recipient {
    /// The part of a snapshot line the model sees.
    pub open spec fn entry(self) -> (ConnectionId, PlayerMark) {
        (self.connection_id, self.mark)
    }
}

/// The model a snapshot denotes: its `(id, marker)` pairs in order.
pub open spec fn snapshot_model(snap: Seq<Recipient>) -> Seq<(ConnectionId, PlayerMark)> {
    snap.map_values(|r: Recipient| r.entry())
}

impl AppState {
    /// A copy of the current membership of `room_id` (empty if the room is
    /// absent), taken in one critical section so that sending can happen
    /// outside the lock.
    pub fn snapshot(&self, room_id: &str) -> (r: Vec<Recipient>)
        requires
            self.inv(),
        ensures
            snapshot_model(r@) == room_conns(self.rooms_map(), room_id@),
    {
        match self.find_room(room_id) {
            Some(i) => {
                proof {
                    lemma_map_of_index(self.rooms@, i as int);
                }
                let conns = &self.rooms[i].room.connections;
                let ghost model = conns@.map_values(|c: Connection| c.entry());
                let mut out: Vec<Recipient> = Vec::new();
                let mut j: usize = 0;
                proof {
                    assert(snapshot_model(out@) =~= model.subrange(0, 0));
                }
                while j < conns.len()
                    invariant
                        j <= conns@.len(),
                        model == conns@.map_values(|c: Connection| c.entry()),
                        snapshot_model(out@) == model.subrange(0, j as int),
                    decreases conns@.len() - j,
                {
                    let rec = Recipient {
                        connection_id: conns[j].id,
                        tx: clone_sender(&conns[j].tx),
                        mark: conns[j].mark,
                    };
                    proof {
                        assert(rec.entry() == model[j as int]);
                    }
                    let ghost pre = out@;
                    out.push(rec);
                    proof {
                        assert(snapshot_model(pre).len() == pre.len());
                        assert(pre.len() == j);
                        assert forall|k: int| 0 <= k < j implies (#[trigger] out@[k]).entry()
                            == model[k] by {
                            assert(out@[k] == pre[k]);
                            assert(snapshot_model(pre)[k] == model.subrange(0, j as int)[k]);
                        }
                        assert(snapshot_model(out@) =~= model.subrange(0, j + 1 as int));
                    }
                    j = j + 1;
                }
                proof {
                    assert(model.subrange(0, conns@.len() as int) =~= model);
                }
                out
            },
            None => {
                proof {
                    lemma_map_of_absent(self.rooms@, room_id@);
                    assert(snapshot_model(Seq::<Recipient>::empty()) =~= Seq::<(
                        ConnectionId,
                        PlayerMark,
                    )>::empty());
                }
                Vec::new()
            },
        }
    }

    /// A snapshot of `room_id` with the connection `excluded` left out, for
    /// the leave announcement that skips the departing member.
    pub fn snapshot_excluding(&self, room_id: &str, excluded: ConnectionId) -> (r: Vec<Recipient>)
        requires
            self.inv(),
        ensures
            snapshot_model(r@) == without_ids(
                room_conns(self.rooms_map(), room_id@),
                seq![excluded],
            ),
    {
        let all = self.snapshot(room_id);
        let ghost model = snapshot_model(all@);
        let ghost pred = |c: (ConnectionId, PlayerMark)| !seq![excluded].contains(c.0);
        let mut out: Vec<Recipient> = Vec::new();
        let mut j: usize = 0;
        proof {
            reveal(Seq::filter);
            assert(snapshot_model(out@) =~= model.subrange(0, 0).filter(pred));
            assert(model.subrange(0, 0) =~= Seq::<(ConnectionId, PlayerMark)>::empty());
        }
        let mut all = all;
        while j < all.len()
            invariant
                j <= all@.len(),
                model == snapshot_model(all@),
                pred == (|c: (ConnectionId, PlayerMark)| !seq![excluded].contains(c.0)),
                snapshot_model(out@) == model.subrange(0, j as int).filter(pred),
            decreases all@.len() - j,
        {
            let keep = all[j].connection_id != excluded;
            if keep {
                out.push(
                    Recipient {
                        connection_id: all[j].connection_id,
                        tx: clone_sender(&all[j].tx),
                        mark: all[j].mark,
                    },
                );
            }
            proof {
                reveal(Seq::filter);
                let pre = model.subrange(0, j as int);
                let cur = model.subrange(0, j + 1 as int);
                assert(cur.drop_last() =~= pre);
                assert(cur.last() == model[j as int]);
                assert(seq![excluded][0] == excluded);
                assert(keep <==> pred(model[j as int]));
                if keep {
                    assert(snapshot_model(out@) =~= pre.filter(pred).push(model[j as int]));
                } else {
                    assert(snapshot_model(out@) =~= pre.filter(pred));
                }
            }
            j = j + 1;
        }
        proof {
            assert(model.subrange(0, all@.len() as int) =~= model);
        }
        out
    }

    /// Whether a room under `room_id` is currently present.
    pub fn contains_room(&self, room_id: &str) -> (r: bool)
        requires
            self.inv(),
        ensures
            r == self.rooms_map().contains_key(room_id@),
    {
        match self.find_room(room_id) {
            Some(i) => {
                proof {
                    lemma_map_of_index(self.rooms@, i as int);
                }
                true
            },
            None => {
                proof {
                    lemma_map_of_absent(self.rooms@, room_id@);
                }
                false
            },
        }
    }

    /// How many connections `room_id` currently holds (0 if absent).
    pub fn num_connections(&self, room_id: &str) -> (n: usize)
        requires
            self.inv(),
        ensures
            n as nat == room_count(self.rooms_map(), room_id@),
    {
        match self.find_room(room_id) {
            Some(i) => {
                proof {
                    lemma_map_of_index(self.rooms@, i as int);
                }
                self.rooms[i].room.connections.len()
            },
            None => {
                proof {
                    lemma_map_of_absent(self.rooms@, room_id@);
                }
                0
            },
        }
    }
}

/// Every room present in a well-formed registry holds at least one and at
/// most two connections, with pairwise distinct ids — and therefore an
/// identifier is present exactly while its room has members: no empty room
/// persists.
pub proof fn lemma_registry_room_bounds(st: AppState, rid: Seq<char>)
    requires
        st.inv(),
        st.rooms_map().contains_key(rid),
    ensures
        1 <= st.rooms_map()[rid].len() <= 2,
        distinct_ids(st.rooms_map()[rid]),
{
    lemma_map_of_contains(st.rooms@, rid);
    let i = choose|i: int| 0 <= i < st.rooms@.len() && (#[trigger] st.rooms@[i]).room_id@ == rid;
    lemma_map_of_index(st.rooms@, i);
}

/// A room identifier is present in a well-formed registry exactly while its
/// room holds at least one connection.
pub proof fn lemma_registry_presence(st: AppState, rid: Seq<char>)
    requires
        st.inv(),
    ensures
        st.rooms_map().contains_key(rid) <==> room_count(st.rooms_map(), rid) >= 1,
{
    if st.rooms_map().contains_key(rid) {
        lemma_registry_room_bounds(st, rid);
    }
}

/// The join protocol's marker discipline on a fresh room: the first joiner
/// is marked `x`, the second `o`, and the room then stands at two members,
/// so any third join attempt is rejected as full.
pub proof fn lemma_first_second_third(m: RoomsModel, rid: Seq<char>, id1: ConnectionId, id2: ConnectionId)
    requires
        !m.contains_key(rid),
        id1 != id2,
    ensures
        mark_for(room_count(m, rid)) == PlayerMark::X,
        room_count(spec_join(m, rid, id1), rid) == 1,
        mark_for(room_count(spec_join(m, rid, id1), rid)) == PlayerMark::O,
        spec_join(spec_join(m, rid, id1), rid, id2)[rid] == seq![
            (id1, PlayerMark::X),
            (id2, PlayerMark::O),
        ],
        room_count(spec_join(spec_join(m, rid, id1), rid, id2), rid) >= 2,
{
    reveal(Seq::filter);
    let m1 = spec_join(m, rid, id1);
    assert(room_conns(m, rid) == Seq::<(ConnectionId, PlayerMark)>::empty());
    assert(without_ids(Seq::empty(), seq![id1]) =~= Seq::<(ConnectionId, PlayerMark)>::empty());
    assert(m1[rid] =~= seq![(id1, PlayerMark::X)]);
    let one = m1[rid];
    let pred = |c: (ConnectionId, PlayerMark)| !seq![id2].contains(c.0);
    assert(one.drop_last() =~= Seq::<(ConnectionId, PlayerMark)>::empty());
    assert(seq![id2][0] == id2);
    assert(pred(one.last()));
    assert(without_ids(one, seq![id2]) =~= one);
    let m2 = spec_join(m1, rid, id2);
    assert(m2[rid] =~= seq![(id1, PlayerMark::X), (id2, PlayerMark::O)]);
}

/// Cleaning up a room whose snapshot shows no reachable member deletes the
/// room, and running the same cleanup again afterwards is a no-op: removal
/// and deletion are idempotent.
pub proof fn lemma_cleanup_idempotent(m: RoomsModel, rid: Seq<char>, dead: Seq<ConnectionId>)
    requires
        forall|k: int|
            0 <= k < room_conns(m, rid).len() ==> dead.contains((#[trigger] room_conns(m, rid)[k]).0),
    ensures
        spec_cleanup(m, rid, dead) == if m.contains_key(rid) {
            m.remove(rid)
        } else {
            m
        },
        spec_cleanup(spec_cleanup(m, rid, dead), rid, dead) == spec_cleanup(m, rid, dead),
{
    if m.contains_key(rid) {
        let pred = |c: (ConnectionId, PlayerMark)| !dead.contains(c.0);
        assert forall|k: int| 0 <= k < m[rid].len() implies !pred(#[trigger] m[rid][k]) by {
            assert(room_conns(m, rid) == m[rid]);
            assert(dead.contains(room_conns(m, rid)[k].0));
        }
        lemma_filter_none(m[rid], pred);
        assert(spec_cleanup(m, rid, dead) == m.remove(rid));
        assert(!m.remove(rid).contains_key(rid));
    }
}

/// What `reserve` and cleanup need of an update in place: the invariant
/// carries over when the replaced entry keeps its identifier and the new
/// room is well formed.
proof fn lemma_inv_update(
    entries: Seq<RoomEntry>,
    i: int,
    e: RoomEntry,
    new_model: Seq<(ConnectionId, PlayerMark)>,
)
    requires
        distinct_keys(entries),
        forall|j: int| 0 <= j < entries.len() ==> room_ok(#[trigger] entries[j].room.model()),
        0 <= i < entries.len(),
        e.room_id@ == entries[i].room_id@,
        e.room.model() == new_model,
        room_ok(new_model),
    ensures
        distinct_keys(entries.update(i, e)),
        forall|j: int|
            0 <= j < entries.update(i, e).len() ==> room_ok(
                #[trigger] entries.update(i, e)[j].room.model(),
            ),
{
    let s2 = entries.update(i, e);
    assert(forall|j: int| 0 <= j < s2.len() && j != i ==> s2[j] == entries[j]);
}

} // verus!
