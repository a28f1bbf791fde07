//! The envelopes the broker sends outward, and their exact JSON renderings.
//!
//! The only structured message the broker emits is a tagged room-state
//! envelope: `{"response_type":"room_state","response":{...}}`. Clients'
//! own messages are relayed verbatim and never pass through these types.

use vstd::prelude::*;
use vstd::string::StringExecFns;
use crate::json::{bool_text, dec_rep, json_quoted};
use crate::json::{push_bool, push_decimal, push_quoted};
use crate::text::{chars_to_string, push_str};

verus! {

/// The role marker a connection is assigned when it joins a room: the first
/// member of a room is `X`, the second `O`. It never changes afterwards.
#[derive(Clone, Copy, Debug, PartialEq, Eq, Structural)]
pub enum PlayerMark {
    X,
    O,
}

/// The characters a marker is rendered as.
pub open spec fn mark_text(m: PlayerMark) -> Seq<char> {
    match m {
        PlayerMark::X => "x"@,
        PlayerMark::O => "o"@,
    }
}

impl PlayerMark {
    /// The marker as a string: `"x"` or `"o"`.
    pub fn to_string(&self) -> (r: String)
        ensures
            r@ == mark_text(*self),
    {
        match self {
            PlayerMark::X => String::from_str("x"),
            PlayerMark::O => String::from_str("o"),
        }
    }
}

/// The inner object of an envelope: the state of one room as presented to
/// one particular recipient (`my_mark` is that recipient's own marker).
pub struct RoomStateResponse {
    pub room_id: String,
    pub num_connections: usize,
    pub message: String,
    pub success: bool,
    pub my_mark: String,
}

/// The JSON object text for a room-state response with the given fields.
pub open spec fn room_state_json(
    room_id: Seq<char>,
    num_connections: nat,
    message: Seq<char>,
    success: bool,
    my_mark: Seq<char>,
) -> Seq<char> {
    "{\"room_id\":"@ + json_quoted(room_id) + ",\"num_connections\":"@ + dec_rep(num_connections)
        + ",\"message\":"@ + json_quoted(message) + ",\"success\":"@ + bool_text(success)
        + ",\"my_mark\":"@ + json_quoted(my_mark) + "}"@
}

impl RoomStateResponse {
    /// The JSON object text for this response.
    pub open spec fn json(self) -> Seq<char> {
        room_state_json(
            self.room_id@,
            self.num_connections as nat,
            self.message@,
            self.success,
            self.my_mark@,
        )
    }

    /// Render this response as its JSON object text.
    pub fn to_json_value(&self) -> (r: String)
        ensures
            r@ == self.json(),
    {
        let mut out: Vec<char> = Vec::new();
        push_str(&mut out, "{\"room_id\":");
        push_quoted(&mut out, self.room_id.as_str());
        push_str(&mut out, ",\"num_connections\":");
        push_decimal(&mut out, self.num_connections);
        push_str(&mut out, ",\"message\":");
        push_quoted(&mut out, self.message.as_str());
        push_str(&mut out, ",\"success\":");
        push_bool(&mut out, self.success);
        push_str(&mut out, ",\"my_mark\":");
        push_quoted(&mut out, self.my_mark.as_str());
        push_str(&mut out, "}");
        proof {
            assert(out@ =~= self.json());
        }
        chars_to_string(out)
    }
}

/// The tag naming what an envelope carries. Room state is the only message
/// the broker emits; the schema is extended by adding variants.
#[derive(Clone, Copy, Debug, PartialEq, Eq, Structural)]
pub enum ResponseType {
    RoomState,
}

/// The characters a response tag is rendered as.
pub open spec fn response_type_text(t: ResponseType) -> Seq<char> {
    match t {
        ResponseType::RoomState => "room_state"@,
    }
}

/// The outward envelope: a tag and the room state it carries.
pub struct RoomResponse {
    pub response_type: ResponseType,
    pub response: RoomStateResponse,
}

impl RoomResponse {
    /// The complete JSON text of this envelope.
    pub open spec fn json(self) -> Seq<char> {
        "{\"response_type\":"@ + json_quoted(response_type_text(self.response_type))
            + ",\"response\":"@ + self.response.json() + "}"@
    }

    /// Render this envelope as its JSON text.
    pub fn to_json(&self) -> (r: String)
        ensures
            r@ == self.json(),
    {
        let mut out: Vec<char> = Vec::new();
        push_str(&mut out, "{\"response_type\":");
        match self.response_type {
            ResponseType::RoomState => push_quoted(&mut out, "room_state"),
        }
        push_str(&mut out, ",\"response\":");
        let inner = self.response.to_json_value();
        push_str(&mut out, inner.as_str());
        push_str(&mut out, "}");
        proof {
            assert(out@ =~= self.json());
        }
        chars_to_string(out)
    }
}

/// The envelope announcing to one room member that someone joined:
/// `num_connections` is the membership after the join and `my_mark` the
/// recipient's own marker.
pub fn join_response(room_id: &str, num_connections: usize, my_mark: PlayerMark) -> (r:
    RoomResponse)
    ensures
        r.response_type is RoomState,
        r.response.room_id@ == room_id@,
        r.response.num_connections == num_connections,
        r.response.message@ == "Someone joined the room"@,
        r.response.success == true,
        r.response.my_mark@ == mark_text(my_mark),
{
    RoomResponse {
        response_type: ResponseType::RoomState,
        response: RoomStateResponse {
            room_id: String::from_str(room_id),
            num_connections,
            message: String::from_str("Someone joined the room"),
            success: true,
            my_mark: my_mark.to_string(),
        },
    }
}

/// The envelope sent to a rejected connection when its room is already
/// full: `num_connections` is the count that caused the rejection, and the
/// marker is the `"x"` placeholder, since none was assigned.
pub fn rejection_response(room_id: &str, num_connections: usize) -> (r: RoomResponse)
    ensures
        r.response_type is RoomState,
        r.response.room_id@ == room_id@,
        r.response.num_connections == num_connections,
        r.response.message@ == "Room is full"@,
        r.response.success == false,
        r.response.my_mark@ == mark_text(PlayerMark::X),
{
    RoomResponse {
        response_type: ResponseType::RoomState,
        response: RoomStateResponse {
            room_id: String::from_str(room_id),
            num_connections,
            message: String::from_str("Room is full"),
            success: false,
            my_mark: PlayerMark::X.to_string(),
        },
    }
}

/// The envelope announcing to one remaining room member that a player left:
/// the message names the departing player's marker, `num_connections` is the
/// membership without the departing player, and `my_mark` the recipient's
/// own marker.
pub fn leave_response(
    room_id: &str,
    num_connections: usize,
    departing: PlayerMark,
    my_mark: PlayerMark,
) -> (r: RoomResponse)
    ensures
        r.response_type is RoomState,
        r.response.room_id@ == room_id@,
        r.response.num_connections == num_connections,
        r.response.message@ == "Player "@ + mark_text(departing) + " left the room"@,
        r.response.success == true,
        r.response.my_mark@ == mark_text(my_mark),
{
    let mut message = String::from_str("Player ");
    let departing_text = departing.to_string();
    message.append(departing_text.as_str());
    message.append(" left the room");
    RoomResponse {
        response_type: ResponseType::RoomState,
        response: RoomStateResponse {
            room_id: String::from_str(room_id),
            num_connections,
            message,
            success: true,
            my_mark: my_mark.to_string(),
        },
    }
}

} // verus!
