//! Per-connection session logic: identifiers and colours for new players,
//! the commands a session understands, the disconnect outcomes, and the
//! interpretation of inbound wire frames. The transport loop itself — the
//! socket, the queue, the select — lives outside; the session's decisions
//! live here.
use vstd::prelude::*;

use crate::game::OutboundMessage;
use crate::schemas::{Color, PlayerID, Position};

verus! {

/// An instruction from the actor to a player's session queue.
pub enum PlayerCommand {
    /// Shut the session down.
    Close,
    /// Forward this message to the client.
    SendMessage(OutboundMessage),
}

/// Why a session ended. A protocol violation stays local to the session:
/// it becomes a disconnect, and the actor is asked to remove the player.
#[derive(Clone, Copy, PartialEq, Eq, Structural, Debug)]
pub enum PlayerDisconnectReason {
    /// The peer went away, or the actor asked the session to close.
    Disconnected,
    /// The transport failed while sending.
    WarpError,
    /// A malformed or unrecognised frame arrived.
    InvalidData,
    /// The actor's command queue refused the forwarded click.
    ServerError,
}

/// What the decoder reads out of one inbound text frame: whether the frame
/// was a JSON object, its `type` field (when that field is a string), the
/// presence of its `data` field, and the click position its `data` field
/// decodes to (when it does).
pub struct FrameShape {
    pub is_object: bool,
    pub msg_type: Option<String>,
    pub has_data: bool,
    pub click: Option<Position>,
}

/// The envelope a text frame decodes to. Decoding is a function of the
/// text alone: `serde_json` reads nothing but its input.
pub uninterp spec fn frame_shape_of(s: Seq<char>) -> FrameShape;

/// Relies on `serde_json::Value::get`: the value under this key when `v` is
/// an object holding it.
#[verifier::external_body]
fn json_get<'a>(v: &'a serde_json::Value, key: &str) -> (r: Option<&'a serde_json::Value>) {
    v.get(key)
}

/// Relies on `serde_json::Value::as_u64`: the value when `v` is a JSON
/// number representable as a `u64` (never for floats or negatives).
#[verifier::external_body]
fn json_as_u64(v: &serde_json::Value) -> (r: Option<u64>) {
    v.as_u64()
}

/// The declared shape of `serde_json`'s document type; opaque here, read
/// only through the calls above.
#[verifier::external_type_specification]
#[verifier::external_body]
pub struct ExValue(serde_json::Value);

/// Decodes a click payload `{"position":{"x":u32,"y":u32}}`: both
/// coordinates must be JSON numbers representable as `u32`. Anything else —
/// a missing field, a string, a float, a negative or oversized number — is
/// rejected.
fn read_click_payload(data: &serde_json::Value) -> (r: Option<Position>) {
    let posv = match json_get(data, "position") {
        Some(p) => p,
        None => {
            return None;
        },
    };
    let x = match json_get(posv, "x") {
        Some(xv) => match json_as_u64(xv) {
            Some(x) => x,
            None => {
                return None;
            },
        },
        None => {
            return None;
        },
    };
    let y = match json_get(posv, "y") {
        Some(yv) => match json_as_u64(yv) {
            Some(y) => y,
            None => {
                return None;
            },
        },
        None => {
            return None;
        },
    };
    if x > 0xFFFF_FFFFu64 || y > 0xFFFF_FFFFu64 {
        return None;
    }
    Some(Position { x: x as u32, y: y as u32 })
}

/// Relies on `serde_json::from_str::<Value>` and `Value::{is_object, get,
/// as_str}` to read the envelope `{type, data}` out of one text frame; the
/// click payload goes through `read_click_payload` above. The result is a
/// function of the text alone, named `frame_shape_of`: a text that is not a
/// JSON object yields the all-absent shape.
#[verifier::external_body]
pub fn read_frame(text: &str) -> (r: FrameShape)
    ensures
        r == frame_shape_of(text@),
{
    match serde_json::from_str::<serde_json::Value>(text) {
        Ok(v) if v.is_object() => FrameShape {
            is_object: true,
            msg_type: v.get("type").and_then(|t| t.as_str()).map(String::from),
            has_data: v.get("data").is_some(),
            click: v.get("data").and_then(read_click_payload),
        },
        _ => FrameShape { is_object: false, msg_type: None, has_data: false, click: None },
    }
}

/// The shape of a well-formed click frame: a JSON object whose `type` field
/// is the string `click`, with a `data` field decoding to a position.
pub open spec fn is_click_shape(shape: FrameShape) -> bool {
    &&& shape.is_object
    &&& shape.msg_type is Some
    &&& shape.msg_type.unwrap()@ == "click"@
    &&& shape.has_data
    &&& shape.click is Some
}

/// Applies the envelope rules to what the decoder read: the frame must be a
/// JSON object carrying a string `type` and a `data` field; the only
/// recognised type is `click`, whose data must decode to a position. The
/// position is forwarded exactly when the shape is a well-formed click
/// frame; every violation terminates the session with `InvalidData`.
pub fn interpret_frame(shape: &FrameShape) -> (r: Result<Position, PlayerDisconnectReason>)
    ensures
        r is Ok <==> is_click_shape(*shape),
        r is Ok ==> r.unwrap() == shape.click.unwrap(),
        r is Err ==> r.unwrap_err() is InvalidData,
{
    if !shape.is_object {
        return Err(PlayerDisconnectReason::InvalidData);
    }
    let t = match &shape.msg_type {
        Some(t) => t,
        None => {
            return Err(PlayerDisconnectReason::InvalidData);
        },
    };
    if !shape.has_data {
        return Err(PlayerDisconnectReason::InvalidData);
    }
    let click_kw = String::from_str("click");
    if !t.eq(&click_kw) {
        return Err(PlayerDisconnectReason::InvalidData);
    }
    match shape.click {
        Some(p) => Ok(p),
        None => Err(PlayerDisconnectReason::InvalidData),
    }
}

/// Handles one inbound text frame end to end: decodes the envelope and
/// applies the rules. The clicked position is forwarded, as `Ok`, exactly
/// when the text decodes to a well-formed click frame; anything else is the
/// `InvalidData` disconnect.
pub fn parse_click_frame(text: &str) -> (r: Result<Position, PlayerDisconnectReason>)
    ensures
        r is Ok <==> is_click_shape(frame_shape_of(text@)),
        r is Ok ==> r.unwrap() == frame_shape_of(text@).click.unwrap(),
        r is Err ==> r.unwrap_err() is InvalidData,
{
    let shape = read_frame(text);
    interpret_frame(&shape)
}

/// Relies on `rand::random::<u16>`: a player id drawn from the thread-local
/// generator. Nothing is promised of the value — ids may collide, and the
/// registry's insert simply replaces an existing entry.
#[verifier::external_body]
pub(crate) fn generate_id() -> (r: PlayerID) {
    rand::random::<PlayerID>()
}

/// Relies on `rand::random::<u8>` (three draws): a rendering colour for a
/// new player. Nothing is promised of the value.
#[verifier::external_body]
pub fn generate_random_color() -> (r: Color) {
    (rand::random(), rand::random(), rand::random())
}

} // verus!
