//! The server's side of a connection: one frame in, the store updated, one
//! frame out.
//!
//! Each connection is served on its own; the store is the only thing that
//! connections share. A frame that is no command, or a command that this
//! server does not serve, ends the connection. A report whose value cannot
//! be read, whatever is wrong with it, is answered with an error frame and
//! the connection goes on.

use vstd::prelude::*;
use vstd::string::StrSliceExecFns;
use vstd::utf8::{decode_utf8, encode_utf8, valid_utf8};
use crate::frame::{
    Command,
    CommandView,
    FrameView,
    ProtocolErrorView,
    WireFrame,
    get_frame,
    set_frame,
    string_from_utf8,
};
use crate::decimal::{is_number, lemma_whole_in_range};
use crate::network_client::server_update_of;
use crate::snapshot::{
    PushError,
    format_snapshot,
    is_plain_id,
    is_plain_record,
    lemma_push_round_trip,
    lemma_snapshot_round_trip,
    parse_push_value,
    push_text,
    push_value_of,
    snapshot_text,
};
use crate::store::{
    PlayerDataView,
    PositionStore,
    SnapshotRecordView,
    holds,
    lemma_upsert_keeps,
    snapshot_of,
    upserted,
};

verus! {

/// `mini_redis::Frame`, known here by name only: a value of it is made from
/// a frame of this library and handed on, never looked into.
#[verifier::external_type_specification]
#[verifier::external_body]
pub struct ExRedisFrame(mini_redis::Frame);

/// The command that `mini_redis::Command::from_frame` reads from a frame, if
/// it reads one.
pub uninterp spec fn wire_command(frame: FrameView) -> Option<CommandView>;

/// A decoded command as a ghost value.
pub open spec fn decoded_view(r: Option<Command>) -> Option<CommandView> {
    match r {
        Some(command) => Some(command@),
        None => None,
    }
}

/// The same frame as a value of `mini_redis::Frame`, variant by variant.
#[verifier::external_body]
fn to_wire(frame: &WireFrame) -> mini_redis::Frame {
    match frame {
        WireFrame::Simple(s) => mini_redis::Frame::Simple(s.clone()),
        WireFrame::Error(s) => mini_redis::Frame::Error(s.clone()),
        WireFrame::Integer(n) => mini_redis::Frame::Integer(*n),
        WireFrame::Bulk(b) => mini_redis::Frame::Bulk(bytes::Bytes::from(b.clone())),
        WireFrame::Null => mini_redis::Frame::Null,
        WireFrame::Array(entries) => mini_redis::Frame::Array(entries.iter().map(to_wire).collect()),
    }
}

/// Reads a command from a frame with `mini_redis::Command::from_frame`.
///
/// Not proved, taken from that function: the result depends on the frame
/// alone; an array of the bulk entries `set`, a key in UTF-8 and a value is
/// the command to store the value under the key; an array of the bulk entries
/// `get` and a key in UTF-8 is the command to look the key up. `None` stands
/// for a frame that it refuses, `Unsupported` for its other commands.
#[verifier::external_body]
fn command_from_frame(frame: &WireFrame) -> (r: Option<Command>)
    ensures
        decoded_view(r) == wire_command(frame@),
        forall|key: Seq<char>, value: Seq<u8>|
            frame@ == #[trigger] set_frame(key, value) ==> decoded_view(r) == Some(
                CommandView::SetValue { key: key, value: value },
            ),
        forall|key: Seq<char>|
            frame@ == #[trigger] get_frame(key) ==> decoded_view(r) == Some(CommandView::GetValue { key: key }),
{
    match mini_redis::Command::from_frame(to_wire(frame)) {
        Ok(mini_redis::Command::Set(set)) => Some(
            Command::SetValue { key: set.key().to_string(), value: set.value().to_vec() },
        ),
        Ok(mini_redis::Command::Get(get)) => Some(Command::GetValue { key: get.key().to_string() }),
        Ok(_) => Some(Command::Unsupported),
        Err(_) => None,
    }
}

/// What the server does with a connection after an event.
pub enum Outcome {
    /// Send this frame, then wait for the next one.
    Reply(WireFrame),
    /// Stop serving the connection.
    Close,
}

/// An outcome as a ghost value.
pub ghost enum OutcomeView {
    Reply(FrameView),
    Close,
}

impl View for Outcome {
    type V = OutcomeView;

    open spec fn view(&self) -> OutcomeView {
        match *self {
            Outcome::Reply(frame) => OutcomeView::Reply(frame@),
            Outcome::Close => OutcomeView::Close,
        }
    }
}

/// What happens on a connection.
pub enum ConnectionEvent {
    /// A frame arrived.
    Received(WireFrame),
    /// The peer closed the connection.
    Ended,
    /// Reading or writing failed.
    Failed,
}

/// Whether the event is the arrival of this frame.
pub open spec fn received(event: ConnectionEvent, frame: FrameView) -> bool {
    event matches ConnectionEvent::Received(arrived) && arrived@ == frame
}

/// The answer to a report that was taken.
pub open spec fn accepted() -> FrameView {
    FrameView::Simple("OK"@)
}

/// The answer to a report with a text that is no number.
pub open spec fn invalid_coordinates() -> FrameView {
    FrameView::Error("Invalid coordinates"@)
}

/// The answer to a report that is not two texts around one comma, or not
/// text at all.
pub open spec fn incorrect_format() -> FrameView {
    FrameView::Error("Incorrect coordinate format"@)
}

/// A report: the key names the player, the value is `<x>,<y>`. A value that
/// cannot be read, be it no text at all, of another shape, or with a text
/// that is no number, is answered with an error and changes nothing; the
/// connection goes on. Otherwise the player is moved or added, and the two
/// coordinates go on file as they were reported, unrounded.
pub open spec fn set_effect(records: Seq<PlayerDataView>, key: Seq<char>, value: Seq<u8>, ip: Seq<char>) -> (
    Seq<PlayerDataView>,
    OutcomeView,
) {
    if !valid_utf8(value) {
        (records, OutcomeView::Reply(incorrect_format()))
    } else {
        match push_value_of(decode_utf8(value)) {
            Ok((x, y)) => (upserted(records, key, x, y, ip), OutcomeView::Reply(accepted())),
            Err(PushError::InvalidCoordinates) => (records, OutcomeView::Reply(invalid_coordinates())),
            Err(PushError::IncorrectFormat) => (records, OutcomeView::Reply(incorrect_format())),
        }
    }
}

/// A pull, whatever its key: the snapshot of all players, their positions
/// rounded to whole units, as a bulk frame.
pub open spec fn get_effect(records: Seq<PlayerDataView>) -> OutcomeView {
    OutcomeView::Reply(FrameView::Bulk(encode_utf8(snapshot_text(snapshot_of(records)))))
}

/// The records after a command from `ip`, and what is done with the
/// connection.
pub open spec fn command_effect(records: Seq<PlayerDataView>, command: CommandView, ip: Seq<char>) -> (
    Seq<PlayerDataView>,
    OutcomeView,
) {
    match command {
        CommandView::SetValue { key, value } => set_effect(records, key, value, ip),
        CommandView::GetValue { key } => (records, get_effect(records)),
        CommandView::Unsupported => (records, OutcomeView::Close),
    }
}

/// The records after a frame from `ip`, and what is done with the connection.
pub open spec fn frame_effect(records: Seq<PlayerDataView>, frame: FrameView, ip: Seq<char>) -> (
    Seq<PlayerDataView>,
    OutcomeView,
) {
    match wire_command(frame) {
        Some(command) => command_effect(records, command, ip),
        None => (records, OutcomeView::Close),
    }
}

/// Carries out one command that came from `client_ip`.
pub fn apply_command(store: &mut PositionStore, command: Command, client_ip: &str) -> (out: Outcome)
    ensures
        (final(store)@, out@) == command_effect(old(store)@, command@, client_ip@),
{
    match command {
        Command::SetValue { key, value } => {
            match string_from_utf8(value) {
                None => Outcome::Reply(WireFrame::Error("Incorrect coordinate format".to_owned())),
                Some(text) => match parse_push_value(text.as_str()) {
                    Ok((x, y)) => {
                        store.upsert(key, x, y, client_ip.to_owned());
                        Outcome::Reply(WireFrame::Simple("OK".to_owned()))
                    },
                    Err(PushError::InvalidCoordinates) => Outcome::Reply(
                        WireFrame::Error("Invalid coordinates".to_owned()),
                    ),
                    Err(PushError::IncorrectFormat) => Outcome::Reply(
                        WireFrame::Error("Incorrect coordinate format".to_owned()),
                    ),
                },
            }
        },
        Command::GetValue { key } => {
            let payload = format_snapshot(&store.snapshot());
            Outcome::Reply(WireFrame::Bulk(payload.as_str().as_bytes_vec()))
        },
        Command::Unsupported => Outcome::Close,
    }
}

/// Serves one frame that came from `client_ip`: reads the command in it and
/// carries it out. A frame that holds no command ends the connection. The
/// two frames that clients send are served as a report and as a pull.
pub fn serve_frame(store: &mut PositionStore, frame: &WireFrame, client_ip: &str) -> (out: Outcome)
    ensures
        (final(store)@, out@) == frame_effect(old(store)@, frame@, client_ip@),
        forall|key: Seq<char>, value: Seq<u8>|
            frame@ == #[trigger] set_frame(key, value) ==> (final(store)@, out@) == set_effect(
                old(store)@,
                key,
                value,
                client_ip@,
            ),
        forall|key: Seq<char>|
            frame@ == #[trigger] get_frame(key) ==> final(store)@ == old(store)@ && out@ == get_effect(old(store)@),
{
    match command_from_frame(frame) {
        Some(command) => apply_command(store, command, client_ip),
        None => Outcome::Close,
    }
}

/// One step of a connection from `client_ip`: a frame is served, the end of
/// the stream or a failure stops the connection and leaves the store alone.
/// The two frames that clients send are served as a report and as a pull.
pub fn process(store: &mut PositionStore, event: &ConnectionEvent, client_ip: &str) -> (out: Outcome)
    ensures
        match *event {
            ConnectionEvent::Received(frame) => (final(store)@, out@) == frame_effect(
                old(store)@,
                frame@,
                client_ip@,
            ),
            _ => final(store)@ == old(store)@ && out@ == OutcomeView::Close,
        },
        forall|key: Seq<char>, value: Seq<u8>|
            received(*event, #[trigger] set_frame(key, value)) ==> {
                &&& final(store)@ == set_effect(old(store)@, key, value, client_ip@).0
                &&& out@ == set_effect(old(store)@, key, value, client_ip@).1
            },
        forall|key: Seq<char>|
            received(*event, #[trigger] get_frame(key)) ==> {
                &&& final(store)@ == old(store)@
                &&& out@ == get_effect(old(store)@)
            },
{
    match event {
        ConnectionEvent::Received(frame) => serve_frame(store, frame, client_ip),
        ConnectionEvent::Ended => Outcome::Close,
        ConnectionEvent::Failed => Outcome::Close,
    }
}

/// The store only grows: whatever frame is served, no player leaves the
/// store and the store does not shrink.
pub proof fn lemma_store_never_forgets(records: Seq<PlayerDataView>, frame: FrameView, ip: Seq<char>)
    ensures
        frame_effect(records, frame, ip).0.len() >= records.len(),
        forall|id: Seq<char>| holds(records, id) ==> holds(frame_effect(records, frame, ip).0, id),
{
    match wire_command(frame) {
        Some(command) => {
            lemma_command_never_forgets(records, command, ip);
        },
        None => {},
    }
}

/// The store only grows: whatever command is carried out, no player leaves
/// the store and the store does not shrink.
pub proof fn lemma_command_never_forgets(records: Seq<PlayerDataView>, command: CommandView, ip: Seq<char>)
    ensures
        command_effect(records, command, ip).0.len() >= records.len(),
        forall|id: Seq<char>| holds(records, id) ==> holds(command_effect(records, command, ip).0, id),
{
    match command {
        CommandView::SetValue { key, value } => {
            if valid_utf8(value) {
                match push_value_of(decode_utf8(value)) {
                    Ok((x, y)) => {
                        lemma_upsert_keeps(records, key, x, y, ip);
                    },
                    _ => {},
                }
            }
        },
        _ => {},
    }
}

/// A report that the server refuses changes nothing: when the answer to a
/// command is an error frame, the store is as it was.
pub proof fn lemma_error_leaves_store(records: Seq<PlayerDataView>, command: CommandView, ip: Seq<char>)
    requires
        command_effect(records, command, ip).1 matches OutcomeView::Reply(FrameView::Error(_)),
    ensures
        command_effect(records, command, ip).0 == records,
{
    reveal_strlit("OK");
}

/// What a client reads from the answer to a pull is the snapshot of the
/// store, as long as the ids on file are plain.
pub proof fn lemma_pull_reads_store(records: Seq<PlayerDataView>)
    requires
        forall|i: int| 0 <= i < records.len() ==> is_plain_id((#[trigger] records[i]).player_id),
    ensures
        get_effect(records) matches OutcomeView::Reply(reply) && server_update_of(reply) == Ok::<
            Seq<SnapshotRecordView>,
            ProtocolErrorView,
        >(snapshot_of(records)),
{
    let snapshot = snapshot_of(records);
    let text = snapshot_text(snapshot);
    assert forall|i: int| 0 <= i < snapshot.len() implies is_plain_record(#[trigger] snapshot[i]) by {
        assert(is_plain_id(records[i].player_id));
        lemma_whole_in_range(records[i].x);
        lemma_whole_in_range(records[i].y);
    }
    lemma_snapshot_round_trip(snapshot);
    vstd::utf8::encode_utf8_valid_utf8(text);
    vstd::utf8::encode_utf8_decode_utf8(text);
}

/// A report written from two numbers is taken: the player is moved to, or
/// added at, the two numbers as they were written.
pub proof fn lemma_report_is_taken(
    records: Seq<PlayerDataView>,
    key: Seq<char>,
    x_text: Seq<char>,
    y_text: Seq<char>,
    ip: Seq<char>,
)
    requires
        !x_text.contains(','),
        !y_text.contains(','),
        is_number(x_text),
        is_number(y_text),
    ensures
        set_effect(records, key, encode_utf8(push_text(x_text, y_text)), ip) == (
            upserted(records, key, x_text, y_text, ip),
            OutcomeView::Reply(accepted()),
        ),
{
    let text = push_text(x_text, y_text);
    vstd::utf8::encode_utf8_valid_utf8(text);
    vstd::utf8::encode_utf8_decode_utf8(text);
    lemma_push_round_trip(x_text, y_text);
}

} // verus!
