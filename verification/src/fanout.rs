//! The broadcast fan-out shared by every outward message: walk a snapshot
//! taken under the registry lock, offer each member its payload, and report
//! the members whose channel is gone so the caller can reap them with
//! `AppState::cleanup_dead_connections` in one further critical section.
//!
//! A failed enqueue never aborts the remaining sends: a dead peer is
//! detected lazily, as a side effect of the next broadcast that targets it.

use vstd::prelude::*;
use vstd::string::StringExecFns;
use crate::channel::try_send;
use crate::response::{join_response, leave_response, PlayerMark};
use crate::server::{ConnectionId, Recipient};

verus! {

/// Every id in `dead` names some member of the snapshot.
pub open spec fn dead_from(dead: Seq<ConnectionId>, snap: Seq<Recipient>) -> bool {
    forall|k: int|
        0 <= k < dead.len() ==> exists|j: int|
            0 <= j < snap.len() && (#[trigger] snap[j]).connection_id == #[trigger] dead[k]
}

/// The join announcement: every member of the snapshot — the joiner
/// included — is offered one envelope with `success`, the post-join
/// membership count, and that member's own marker. Members whose channel
/// is gone are returned for reaping.
pub fn send_join_announcements(room_id: &str, snapshot: &Vec<Recipient>) -> (dead: Vec<
    ConnectionId,
>)
    ensures
        dead_from(dead@, snapshot@),
{
    let mut dead: Vec<ConnectionId> = Vec::new();
    let n = snapshot.len();
    let mut i: usize = 0;
    while i < n
        invariant
            i <= n,
            n == snapshot@.len(),
            dead_from(dead@, snapshot@),
        decreases n - i,
    {
        let envelope = join_response(room_id, n, snapshot[i].mark);
        let payload = envelope.to_json();
        if !try_send(&snapshot[i].tx, payload) {
            dead.push(snapshot[i].connection_id);
        }
        i = i + 1;
    }
    dead
}

/// The relay: a text frame received from one member is offered verbatim,
/// with no envelope and no inspection, to every member of the snapshot,
/// the sender included. Members whose channel is gone are returned.
pub fn send_relay(text: &str, snapshot: &Vec<Recipient>) -> (dead: Vec<ConnectionId>)
    ensures
        dead_from(dead@, snapshot@),
{
    let mut dead: Vec<ConnectionId> = Vec::new();
    let n = snapshot.len();
    let mut i: usize = 0;
    while i < n
        invariant
            i <= n,
            n == snapshot@.len(),
            dead_from(dead@, snapshot@),
        decreases n - i,
    {
        let payload = String::from_str(text);
        if !try_send(&snapshot[i].tx, payload) {
            dead.push(snapshot[i].connection_id);
        }
        i = i + 1;
    }
    dead
}

/// The leave announcement: every member of the snapshot — which the caller
/// takes with the departing connection excluded — is offered one envelope
/// whose message names the departing marker, whose count is the membership
/// without the departing member, and whose marker is the recipient's own.
/// Members whose channel is gone are returned.
pub fn send_leave_announcements(
    room_id: &str,
    snapshot: &Vec<Recipient>,
    departing: PlayerMark,
) -> (dead: Vec<ConnectionId>)
    ensures
        dead_from(dead@, snapshot@),
{
    let mut dead: Vec<ConnectionId> = Vec::new();
    let n = snapshot.len();
    let mut i: usize = 0;
    while i < n
        invariant
            i <= n,
            n == snapshot@.len(),
            dead_from(dead@, snapshot@),
        decreases n - i,
    {
        let envelope = leave_response(room_id, n, departing, snapshot[i].mark);
        let payload = envelope.to_json();
        if !try_send(&snapshot[i].tx, payload) {
            dead.push(snapshot[i].connection_id);
        }
        i = i + 1;
    }
    dead
}

} // verus!
