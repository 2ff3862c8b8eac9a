//! The client's schedule: what to send on each tick of the game, and what to
//! do with the server's answer.
//!
//! Every tick reports the local position. A snapshot is asked for only when
//! more than the pull interval has passed since the last time one was asked
//! for. Whatever goes wrong with a snapshot leaves the picture of the other
//! players as it was.

use vstd::prelude::*;
use vstd::utf8::encode_utf8;
use crate::frame::{ProtocolError, ProtocolErrorView, WireFrame, decode_bulk, get_frame, set_frame};
use crate::network_client::{NetworkClient, server_update_of};
use crate::other_player::{RemoteCache, reconciled};
use crate::snapshot::{parse_snapshot, push_text};
use crate::store::SnapshotRecordView;

verus! {

/// The time between two pulls, in milliseconds.
pub const GET_INTERVAL_MS: u64 = 50;

/// The key under which the snapshot is asked for.
pub open spec fn snapshot_key() -> Seq<char> {
    "PUD"@
}

/// What a tick does about the snapshot.
pub enum PullPlan {
    /// Too early: nothing is asked for.
    NotDue,
    /// Send this request and hand the answer to `apply_server_update`.
    Request(WireFrame),
    /// A pull is due but there is no connection to send it on.
    NotConnected,
}

/// What one tick sends: a report if there is a connection, and perhaps a
/// pull.
pub struct TickPlan {
    pub push: Option<WireFrame>,
    pub pull: PullPlan,
}

/// Whether a pull is due at `now_ms` when the last one was due at
/// `last_get_time`: more than the interval must have passed.
pub open spec fn pull_due(last_get_time: u64, get_interval: u64, now_ms: u64) -> bool {
    now_ms - last_get_time > get_interval
}

/// What a client keeps from tick to tick. The picture of the other players
/// is kept apart from it, so that drawing and reconciling can share that
/// picture without holding up the tick.
pub struct MainState {
    pub network_client: NetworkClient,
    pub last_get_time: u64,
    pub get_interval: u64,
}

impl MainState {
    /// The state at start-up, `now_ms` milliseconds on the client's clock:
    /// the first pull is due one interval from now.
    pub fn new(network_client: NetworkClient, now_ms: u64) -> (state: MainState)
        ensures
            state.network_client == network_client,
            state.last_get_time == now_ms,
            state.get_interval == GET_INTERVAL_MS,
    {
        MainState { network_client: network_client, last_get_time: now_ms, get_interval: GET_INTERVAL_MS }
    }

    /// One tick at `now_ms`, with the local position as two coordinate texts.
    /// With a connection the plan reports the position under the client's
    /// id; without one it reports nothing. A pull is due when more than the
    /// interval has passed since the last one was due; the time of the last
    /// pull moves to `now_ms` then and only then, connection or not.
    pub fn update(&mut self, now_ms: u64, x_text: &str, y_text: &str) -> (plan: TickPlan)
        ensures
            plan.push is Some <==> old(self).network_client.connected,
            plan.push matches Some(report) ==> report@ == set_frame(
                old(self).network_client.client_id@,
                encode_utf8(push_text(x_text@, y_text@)),
            ),
            plan.pull is NotDue <==> !pull_due(old(self).last_get_time, old(self).get_interval, now_ms),
            plan.pull is Request <==> {
                &&& pull_due(old(self).last_get_time, old(self).get_interval, now_ms)
                &&& old(self).network_client.connected
            },
            plan.pull matches PullPlan::Request(request) ==> request@ == get_frame(snapshot_key()),
            final(self).last_get_time == if plan.pull is NotDue { old(self).last_get_time } else { now_ms },
            final(self).get_interval == old(self).get_interval,
            final(self).network_client == old(self).network_client,
    {
        let push = self.network_client.set_player_position(x_text, y_text);
        let due = now_ms > self.last_get_time && now_ms - self.last_get_time > self.get_interval;
        let pull = if due {
            self.last_get_time = now_ms;
            match self.network_client.request_server_update("PUD") {
                Some(request) => PullPlan::Request(request),
                None => PullPlan::NotConnected,
            }
        } else {
            PullPlan::NotDue
        };
        TickPlan { push: push, pull: pull }
    }
}

/// Takes in the server's answer to a pull, on behalf of the client
/// `client_id`. A snapshot that reads well is reconciled into the picture of
/// the other players, without the client's own record. Any failure is handed
/// back and the picture stays as it was.
pub fn apply_server_update(other_players: &mut RemoteCache, client_id: &String, response: &WireFrame) -> (r:
    Result<(), ProtocolError>)
    ensures
        match r {
            Ok(()) => server_update_of(response@) matches Ok(records) && final(other_players)@ == reconciled(
                old(other_players)@,
                records,
                client_id@,
            ),
            Err(e) => server_update_of(response@) == Err::<Seq<SnapshotRecordView>, ProtocolErrorView>(e@)
                && final(other_players)@ == old(other_players)@,
        },
{
    match decode_bulk(response) {
        Ok(text) => match parse_snapshot(text.as_str()) {
            Ok(records) => {
                other_players.reconcile(&records, client_id);
                Ok(())
            },
            Err(e) => Err(e),
        },
        Err(e) => Err(e),
    }
}

} // verus!
