//! Frames: the units that travel over a connection, and the two commands that
//! the game sends in them.

use vstd::prelude::*;
use vstd::string::StrSliceExecFns;
use vstd::utf8::{decode_utf8, encode_utf8, valid_utf8};

verus! {

/// One frame of the protocol.
pub enum WireFrame {
    Simple(String),
    Error(String),
    Integer(u64),
    Bulk(Vec<u8>),
    Null,
    Array(Vec<WireFrame>),
}

/// A frame as a ghost value: texts and bytes as sequences.
pub ghost enum FrameView {
    Simple(Seq<char>),
    Error(Seq<char>),
    Integer(u64),
    Bulk(Seq<u8>),
    Null,
    Array(Seq<FrameView>),
}

/// The frame as a ghost value.
pub open spec fn frame_view(frame: WireFrame) -> FrameView
    decreases frame,
{
    match frame {
        WireFrame::Simple(s) => FrameView::Simple(s@),
        WireFrame::Error(s) => FrameView::Error(s@),
        WireFrame::Integer(n) => FrameView::Integer(n),
        WireFrame::Bulk(b) => FrameView::Bulk(b@),
        WireFrame::Null => FrameView::Null,
        WireFrame::Array(entries) => FrameView::Array(
            Seq::new(
                entries@.len(),
                |i: int| if 0 <= i < entries@.len() { frame_view(entries@[i]) } else { FrameView::Null },
            ),
        ),
    }
}

impl View for WireFrame {
    type V = FrameView;

    open spec fn view(&self) -> FrameView {
        frame_view(*self)
    }
}

/// A command as the server sees it: store a value under a key, ask for what
/// is known, or one of the commands that this server does not serve.
pub enum Command {
    SetValue { key: String, value: Vec<u8> },
    GetValue { key: String },
    Unsupported,
}

/// A command as a ghost value.
pub ghost enum CommandView {
    SetValue { key: Seq<char>, value: Seq<u8> },
    GetValue { key: Seq<char> },
    Unsupported,
}

impl View for Command {
    type V = CommandView;

    open spec fn view(&self) -> CommandView {
        match *self {
            Command::SetValue { key, value } => CommandView::SetValue { key: key@, value: value@ },
            Command::GetValue { key } => CommandView::GetValue { key: key@ },
            Command::Unsupported => CommandView::Unsupported,
        }
    }
}

/// Why a response could not be used.
pub enum ProtocolError {
    /// The frame carries no text: it is not a payload, or its bytes are not
    /// UTF-8.
    Malformed,
    /// A record of the snapshot could not be read; the player it names.
    BadRecord(String),
}

/// A protocol error as a ghost value.
pub ghost enum ProtocolErrorView {
    Malformed,
    BadRecord(Seq<char>),
}

impl View for ProtocolError {
    type V = ProtocolErrorView;

    open spec fn view(&self) -> ProtocolErrorView {
        match *self {
            ProtocolError::Malformed => ProtocolErrorView::Malformed,
            ProtocolError::BadRecord(id) => ProtocolErrorView::BadRecord(id@),
        }
    }
}

/// The bytes of the word `set`.
pub open spec fn set_word() -> Seq<u8> {
    seq![115u8, 101u8, 116u8]
}

/// The bytes of the word `get`.
pub open spec fn get_word() -> Seq<u8> {
    seq![103u8, 101u8, 116u8]
}

/// The frame that asks the server to store `value` under `key`: an array of
/// the word `set`, the key and the value, each as a bulk entry.
pub open spec fn set_frame(key: Seq<char>, value: Seq<u8>) -> FrameView {
    FrameView::Array(
        seq![FrameView::Bulk(set_word()), FrameView::Bulk(encode_utf8(key)), FrameView::Bulk(value)],
    )
}

/// The frame that asks the server for what it has under `key`: an array of
/// the word `get` and the key, each as a bulk entry.
pub open spec fn get_frame(key: Seq<char>) -> FrameView {
    FrameView::Array(seq![FrameView::Bulk(get_word()), FrameView::Bulk(encode_utf8(key))])
}

/// The text that a response frame carries: a simple frame's text, a bulk
/// frame's bytes read as UTF-8.
pub open spec fn payload_of(frame: FrameView) -> Result<Seq<char>, ProtocolErrorView> {
    match frame {
        FrameView::Simple(s) => Ok(s),
        FrameView::Bulk(b) => if valid_utf8(b) {
            Ok(decode_utf8(b))
        } else {
            Err(ProtocolErrorView::Malformed)
        },
        _ => Err(ProtocolErrorView::Malformed),
    }
}

/// A text result as a ghost value.
pub open spec fn text_result_view(r: Result<String, ProtocolError>) -> Result<Seq<char>, ProtocolErrorView> {
    match r {
        Ok(s) => Ok(s@),
        Err(e) => Err(e@),
    }
}

/// Reads bytes as UTF-8 text, as `String::from_utf8` does: the text that the
/// bytes encode, or nothing when they are not valid UTF-8.
#[verifier::external_body]
pub(crate) fn string_from_utf8(bytes: Vec<u8>) -> (r: Option<String>)
    ensures
        r is Some <==> valid_utf8(bytes@),
        r matches Some(s) ==> s@ == decode_utf8(bytes@),
{
    String::from_utf8(bytes).ok()
}

/// A copy of the bytes.
pub fn copy_bytes(bytes: &[u8]) -> (r: Vec<u8>)
    ensures
        r@ == bytes@,
{
    let mut out: Vec<u8> = Vec::new();
    let mut i: usize = 0;
    while i < bytes.len()
        invariant
            i <= bytes.len(),
            out@ == bytes@.take(i as int),
        decreases bytes.len() - i,
    {
        out.push(bytes[i]);
        assert(bytes@.take(i + 1) == bytes@.take(i as int).push(bytes@[i as int]));
        i += 1;
    }
    out
}

/// The frame that asks the server to store `value` under `key`.
pub fn encode_set(key: &str, value: &[u8]) -> (frame: WireFrame)
    ensures
        frame@ == set_frame(key@, value@),
{
    let mut entries: Vec<WireFrame> = Vec::new();
    entries.push(WireFrame::Bulk("set".as_bytes_vec()));
    entries.push(WireFrame::Bulk(key.as_bytes_vec()));
    entries.push(WireFrame::Bulk(copy_bytes(value)));
    proof {
        lemma_words();
    }
    let frame = WireFrame::Array(entries);
    proof {
        reveal_with_fuel(frame_view, 2);
    }
    assert(frame@->Array_0 =~= set_frame(key@, value@)->Array_0);
    frame
}

/// The frame that asks the server for what it has under `key`.
pub fn encode_get(key: &str) -> (frame: WireFrame)
    ensures
        frame@ == get_frame(key@),
{
    let mut entries: Vec<WireFrame> = Vec::new();
    entries.push(WireFrame::Bulk("get".as_bytes_vec()));
    entries.push(WireFrame::Bulk(key.as_bytes_vec()));
    proof {
        lemma_words();
    }
    let frame = WireFrame::Array(entries);
    proof {
        reveal_with_fuel(frame_view, 2);
    }
    assert(frame@->Array_0 =~= get_frame(key@)->Array_0);
    frame
}

/// The two command words are what their letters encode to.
proof fn lemma_words()
    ensures
        encode_utf8("set"@) == set_word(),
        encode_utf8("get"@) == get_word(),
{
    reveal_strlit("set");
    reveal_strlit("get");
    vstd::utf8::is_ascii_chars_encode_utf8("set"@);
    vstd::utf8::is_ascii_chars_encode_utf8("get"@);
    assert(encode_utf8("set"@) =~= set_word());
    assert(encode_utf8("get"@) =~= get_word());
}

/// The text that a response frame carries. A simple frame carries its text, a
/// bulk frame the text that its bytes encode; anything else, and bytes that
/// are not UTF-8, are malformed.
pub fn decode_bulk(frame: &WireFrame) -> (r: Result<String, ProtocolError>)
    ensures
        text_result_view(r) == payload_of(frame@),
{
    match frame {
        WireFrame::Simple(s) => Ok(s.clone()),
        WireFrame::Bulk(bytes) => match string_from_utf8(bytes.clone()) {
            Some(s) => Ok(s),
            None => Err(ProtocolError::Malformed),
        },
        _ => Err(ProtocolError::Malformed),
    }
}

} // verus!
