//! What a client knows of itself and how it words its two requests.

use vstd::prelude::*;
use vstd::string::{StrSliceExecFns, StringExecFns};
use vstd::utf8::encode_utf8;
use crate::frame::{
    FrameView,
    ProtocolError,
    ProtocolErrorView,
    WireFrame,
    decode_bulk,
    encode_get,
    encode_set,
    get_frame,
    payload_of,
    set_frame,
};
use crate::snapshot::{
    format_push_value,
    is_plain_id,
    parse_snapshot,
    parsed_snapshot,
    push_text,
    snapshot_result_view,
};
use crate::store::{SnapshotRecord, SnapshotRecordView, snapshot_view};

verus! {

/// A hexadecimal digit as it is written in an id: `0` to `9`, `a` to `f`.
pub open spec fn is_lower_hex(c: char) -> bool {
    ('0' <= c <= '9') || ('a' <= c <= 'f')
}

/// What stands at place `i` of a client id: a hyphen at the four joints, a
/// lower-case hexadecimal digit elsewhere.
pub open spec fn fits_client_id(i: int, c: char) -> bool {
    if i == 8 || i == 13 || i == 18 || i == 23 {
        c == '-'
    } else {
        is_lower_hex(c)
    }
}

/// The shape of a client id: 36 characters, five groups of lower-case
/// hexadecimal digits joined by hyphens.
pub open spec fn is_client_id(s: Seq<char>) -> bool {
    &&& s.len() == 36
    &&& forall|i: int| 0 <= i < 36 ==> fits_client_id(i, #[trigger] s[i])
}

/// A new random id from `uuid::Uuid::new_v4`, written in the hyphenated
/// lower-case form. Which id comes out is not determined; its shape is.
#[verifier::external_body]
fn fresh_client_id() -> (id: String)
    ensures
        is_client_id(id@),
{
    uuid::Uuid::new_v4().to_string()
}

/// A client id can stand in a snapshot: it holds neither the sign that
/// separates records nor the one that ends the id.
pub proof fn lemma_client_id_is_plain(id: Seq<char>)
    requires
        is_client_id(id),
    ensures
        is_plain_id(id),
{
    assert forall|i: int| 0 <= i < id.len() implies id[i] != '|' && id[i] != ':' by {
        assert(fits_client_id(i, id[i]));
    }
}

/// What a snapshot response reads as for the client: the payload of the
/// frame, read as a snapshot.
pub open spec fn server_update_of(response: FrameView) -> Result<
    Seq<SnapshotRecordView>,
    ProtocolErrorView,
> {
    match payload_of(response) {
        Ok(text) => parsed_snapshot(text),
        Err(e) => Err(e),
    }
}

/// Why a client has no update to show.
pub enum UpdateError {
    /// The client has no connection, so nothing was asked.
    NotConnected,
    /// The request went out and no response came back.
    NoResponse,
    /// A response came and could not be used.
    Protocol(ProtocolError),
}

/// An update error as a ghost value.
pub ghost enum UpdateErrorView {
    NotConnected,
    NoResponse,
    Protocol(ProtocolErrorView),
}

impl View for UpdateError {
    type V = UpdateErrorView;

    open spec fn view(&self) -> UpdateErrorView {
        match *self {
            UpdateError::NotConnected => UpdateErrorView::NotConnected,
            UpdateError::NoResponse => UpdateErrorView::NoResponse,
            UpdateError::Protocol(e) => UpdateErrorView::Protocol(e@),
        }
    }
}

/// What a client gets from a pull, given whether it is connected and the
/// response, if one came. Without a connection it gets an error whatever
/// else it is given; with one, a missing response is an error, and a
/// response is read as a snapshot.
pub open spec fn client_update_of(connected: bool, response: Option<FrameView>) -> Result<
    Seq<SnapshotRecordView>,
    UpdateErrorView,
> {
    if !connected {
        Err(UpdateErrorView::NotConnected)
    } else {
        match response {
            None => Err(UpdateErrorView::NoResponse),
            Some(frame) => match server_update_of(frame) {
                Ok(records) => Ok(records),
                Err(e) => Err(UpdateErrorView::Protocol(e)),
            },
        }
    }
}

/// An update result as a ghost value.
pub open spec fn update_result_view(r: Result<Vec<SnapshotRecord>, UpdateError>) -> Result<
    Seq<SnapshotRecordView>,
    UpdateErrorView,
> {
    match r {
        Ok(records) => Ok(snapshot_view(records@)),
        Err(e) => Err(e@),
    }
}

/// A response, if there is one, as a ghost value.
pub open spec fn response_view(response: Option<&WireFrame>) -> Option<FrameView> {
    match response {
        Some(frame) => Some(frame@),
        None => None,
    }
}

/// Reads the response to a snapshot request: the records in the order of the
/// payload, or the first reason why the payload cannot be used.
pub fn read_server_update(response: &WireFrame) -> (r: Result<Vec<SnapshotRecord>, ProtocolError>)
    ensures
        snapshot_result_view(r) == server_update_of(response@),
{
    match decode_bulk(response) {
        Ok(text) => parse_snapshot(text.as_str()),
        Err(e) => Err(e),
    }
}

/// What goes in front of the transport's words when connecting fails.
pub open spec fn connection_error_prefix() -> Seq<char> {
    "Connection error: "@
}

/// A client of the position server: where the server is, the id under which
/// this client reports, and whether a connection stands. A client without a
/// connection keeps running and sends nothing.
pub struct NetworkClient {
    pub server_address: String,
    pub client_id: String,
    pub connected: bool,
}

impl NetworkClient {
    /// A client for the server at `server_address`, under the id `client_id`
    /// and not yet connected.
    pub fn with_id(server_address: &str, client_id: String) -> (client: NetworkClient)
        ensures
            client.server_address@ == server_address@,
            client.client_id == client_id,
            !client.connected,
    {
        NetworkClient { server_address: server_address.to_owned(), client_id: client_id, connected: false }
    }

    /// A client for the server at `server_address`, under a new random id and
    /// not yet connected.
    pub fn initialize(server_address: &str) -> (client: NetworkClient)
        ensures
            client.server_address@ == server_address@,
            is_client_id(client.client_id@),
            !client.connected,
    {
        NetworkClient::with_id(server_address, fresh_client_id())
    }

    /// A client for the server at `server_address`, given how the attempt to
    /// reach that server ended. A failed attempt is not fatal: the client
    /// comes back all the same, without a connection.
    pub fn initialize_and_connect(server_address: &str, attempt: Result<(), String>) -> (client: NetworkClient)
        ensures
            client.server_address@ == server_address@,
            is_client_id(client.client_id@),
            client.connected == (attempt is Ok),
    {
        let mut client = NetworkClient::initialize(server_address);
        let _ = client.connect(attempt);
        client
    }

    /// Whether a connection to the server stands.
    pub fn is_connected(&self) -> (r: bool)
        ensures
            r == self.connected,
    {
        self.connected
    }

    /// Takes note of how an attempt to reach the server ended. After a
    /// success the client is connected. A failure leaves the client as it
    /// was and is handed back with a few words in front of the transport's.
    pub fn connect(&mut self, attempt: Result<(), String>) -> (r: Result<(), String>)
        ensures
            final(self).server_address == old(self).server_address,
            final(self).client_id == old(self).client_id,
            match attempt {
                Ok(()) => r is Ok && final(self).connected,
                Err(e) => {
                    &&& r matches Err(message) && message@ == connection_error_prefix() + e@
                    &&& final(self).connected == old(self).connected
                },
            },
    {
        match attempt {
            Ok(()) => {
                self.connected = true;
                Ok(())
            },
            Err(e) => Err("Connection error: ".to_owned().concat(e.as_str())),
        }
    }

    /// The request that reports this client's position, given the two
    /// coordinates as text: the value `<x>,<y>` under the client's id.
    /// Nothing without a connection.
    pub fn set_player_position(&self, x_text: &str, y_text: &str) -> (request: Option<WireFrame>)
        ensures
            request is Some <==> self.connected,
            request matches Some(frame) ==> frame@ == set_frame(
                self.client_id@,
                encode_utf8(push_text(x_text@, y_text@)),
            ),
    {
        if !self.connected {
            return None;
        }
        let value = format_push_value(x_text, y_text);
        let bytes = value.as_str().as_bytes_vec();
        Some(encode_set(self.client_id.as_str(), bytes.as_slice()))
    }

    /// The request that asks for the snapshot under the key `command`.
    /// Nothing without a connection.
    pub fn request_server_update(&self, command: &str) -> (request: Option<WireFrame>)
        ensures
            request is Some <==> self.connected,
            request matches Some(frame) ==> frame@ == get_frame(command@),
    {
        if !self.connected {
            return None;
        }
        Some(encode_get(command))
    }

    /// What this client gets from a pull, given the response if one came.
    /// A client without a connection gets `NotConnected`, whatever it is
    /// handed; a connected one gets `NoResponse` when none came, and else the
    /// records in the order of the payload or the reason why the payload
    /// cannot be used. The client itself is not changed.
    pub fn get_server_update(&self, response: Option<&WireFrame>) -> (r: Result<Vec<SnapshotRecord>, UpdateError>)
        ensures
            update_result_view(r) == client_update_of(self.connected, response_view(response)),
    {
        if !self.connected {
            return Err(UpdateError::NotConnected);
        }
        match response {
            None => Err(UpdateError::NoResponse),
            Some(frame) => match read_server_update(frame) {
                Ok(records) => Ok(records),
                Err(e) => Err(UpdateError::Protocol(e)),
            },
        }
    }
}

} // verus!
