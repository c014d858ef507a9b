//! Binary encoding of node messages, to be carried in frames.

use vstd::prelude::*;
use vstd::string::*;

use crate::encoding::{
    put_text, put_u32, put_u64, read_text, read_text_back, read_u32, read_u32_back, read_u64,
    read_u64_back, text_bytes, u32_bytes, u64_bytes, Reader,
};
use crate::model::node::{
    Heartbeat, HeartbeatView, NodeId, NodeMessage, NodeMessageView, NodeStatus, Timestamp,
};
use crate::model::resources::ResourceSpec;
use crate::net::error::NetError;
use crate::net::frame::{
    encode_frame, frame_bytes, frame_outcome, frame_round_trip, FrameOutcome,
};
use crate::text::{decimal, owned, push_decimal};

verus! {

/// The number of a status.
pub open spec fn status_tag(status: NodeStatus) -> u32 {
    match status {
        NodeStatus::Ready => 0,
        NodeStatus::NotReady => 1,
        NodeStatus::Unknown => 2,
    }
}

/// The encoding of resources.
pub open spec fn resources_bytes(r: ResourceSpec) -> Seq<u8> {
    u64_bytes(r.cpu_millicores) + u64_bytes(r.memory_mib)
}

/// The encoding of a message. A point in time is encoded as text.
pub open spec fn message_bytes(m: NodeMessageView) -> Seq<u8> {
    match m {
        NodeMessageView::Register { id, addr, resources } => u32_bytes(0) + text_bytes(id)
            + text_bytes(addr) + resources_bytes(resources),
        NodeMessageView::Heartbeat(hb) => u32_bytes(1) + text_bytes(hb.node_id) + u32_bytes(
            status_tag(hb.status),
        ) + resources_bytes(hb.resources) + text_bytes(hb.timestamp.rfc3339()->Some_0),
        NodeMessageView::Deregister { id } => u32_bytes(2) + text_bytes(id),
    }
}

/// A message can be encoded: the time of a heartbeat has a text.
pub open spec fn encodable(m: NodeMessageView) -> bool {
    m matches NodeMessageView::Heartbeat(hb) ==> hb.timestamp.rfc3339() is Some
}

/// The text of a heartbeat's time is read back as that time.
pub open spec fn time_survives(m: NodeMessageView) -> bool {
    m matches NodeMessageView::Heartbeat(hb) ==> Timestamp::from_rfc3339(
        hb.timestamp.rfc3339()->Some_0,
    ) == Some(hb.timestamp)
}

/// The status that an input begins with, and what follows it.
pub open spec fn read_status(input: Seq<u8>) -> Option<(NodeStatus, Seq<u8>)> {
    match read_u32(input) {
        Some((0, rest)) => Some((NodeStatus::Ready, rest)),
        Some((1, rest)) => Some((NodeStatus::NotReady, rest)),
        Some((2, rest)) => Some((NodeStatus::Unknown, rest)),
        _ => None,
    }
}

/// The resources that an input begins with, and what follows them.
pub open spec fn read_resources(input: Seq<u8>) -> Option<(ResourceSpec, Seq<u8>)> {
    match read_u64(input) {
        Some((cpu_millicores, rest)) => match read_u64(rest) {
            Some((memory_mib, rest)) => Some((ResourceSpec { cpu_millicores, memory_mib }, rest)),
            None => None,
        },
        None => None,
    }
}

/// The point in time that an input begins with, and what follows it.
pub open spec fn read_timestamp(input: Seq<u8>) -> Option<(Timestamp, Seq<u8>)> {
    match read_text(input) {
        Some((text, rest)) => match Timestamp::from_rfc3339(text) {
            Some(t) => Some((t, rest)),
            None => None,
        },
        None => None,
    }
}

/// The body of a registration.
pub open spec fn read_register(input: Seq<u8>) -> Option<(NodeMessageView, Seq<u8>)> {
    match read_text(input) {
        Some((id, rest)) => match read_text(rest) {
            Some((addr, rest)) => match read_resources(rest) {
                Some((resources, rest)) => Some(
                    (NodeMessageView::Register { id, addr, resources }, rest),
                ),
                None => None,
            },
            None => None,
        },
        None => None,
    }
}

/// The body of a heartbeat.
pub open spec fn read_heartbeat(input: Seq<u8>) -> Option<(NodeMessageView, Seq<u8>)> {
    match read_text(input) {
        Some((node_id, rest)) => match read_status(rest) {
            Some((status, rest)) => match read_resources(rest) {
                Some((resources, rest)) => match read_timestamp(rest) {
                    Some((timestamp, rest)) => Some(
                        (
                            NodeMessageView::Heartbeat(
                                HeartbeatView { node_id, status, resources, timestamp },
                            ),
                            rest,
                        ),
                    ),
                    None => None,
                },
                None => None,
            },
            None => None,
        },
        None => None,
    }
}

/// The body of a deregistration.
pub open spec fn read_deregister(input: Seq<u8>) -> Option<(NodeMessageView, Seq<u8>)> {
    match read_text(input) {
        Some((id, rest)) => Some((NodeMessageView::Deregister { id }, rest)),
        None => None,
    }
}

/// The message that an input begins with, and what follows it.
pub open spec fn read_message(input: Seq<u8>) -> Option<(NodeMessageView, Seq<u8>)> {
    match read_u32(input) {
        Some((0, rest)) => read_register(rest),
        Some((1, rest)) => read_heartbeat(rest),
        Some((2, rest)) => read_deregister(rest),
        _ => None,
    }
}

/// The number of an unknown status that an input begins with.
pub open spec fn unknown_status(input: Seq<u8>) -> Option<u32> {
    match read_u32(input) {
        Some((tag, _)) => if tag > 2 {
            Some(tag)
        } else {
            None
        },
        None => None,
    }
}

/// The number of an unknown status in the body of a heartbeat.
pub open spec fn unknown_in_heartbeat(input: Seq<u8>) -> Option<u32> {
    match read_text(input) {
        Some((_, rest)) => unknown_status(rest),
        None => None,
    }
}

/// The number of an unknown variant, of the message or of its status, at which
/// reading an input stops.
pub open spec fn unknown_in_message(input: Seq<u8>) -> Option<u32> {
    match read_u32(input) {
        Some((tag, rest)) => if tag > 2 {
            Some(tag)
        } else if tag == 1 {
            unknown_in_heartbeat(rest)
        } else {
            None
        },
        None => None,
    }
}

/// What is said of the number of an unknown variant.
pub open spec fn unknown_variant_text(tag: u32) -> Seq<char> {
    "invalid value: integer `"@ + decimal(tag as nat) + "`, expected variant index 0 <= i < 3"@
}

proof fn resources_read_back(r: ResourceSpec, tail: Seq<u8>)
    ensures
        read_resources(resources_bytes(r) + tail) == Some((r, tail)),
{
    read_u64_back(r.cpu_millicores, u64_bytes(r.memory_mib) + tail);
    read_u64_back(r.memory_mib, tail);
    assert(resources_bytes(r) + tail =~= u64_bytes(r.cpu_millicores) + (u64_bytes(r.memory_mib)
        + tail));
}

/// A message that was encoded is read back from the front of any input, if the
/// text of its time is read back as that time.
pub proof fn message_round_trip(m: NodeMessageView, tail: Seq<u8>)
    requires
        encodable(m),
        time_survives(m),
        (message_bytes(m) + tail).len() <= u64::MAX,
    ensures
        read_message(message_bytes(m) + tail) == Some((m, tail)),
{
    let input = message_bytes(m) + tail;
    match m {
        NodeMessageView::Register { id, addr, resources } => {
            let c = resources_bytes(resources) + tail;
            let b = text_bytes(addr) + c;
            let a = text_bytes(id) + b;
            assert(input =~= u32_bytes(0) + a);
            read_u32_back(0, a);
            read_text_back(id, b);
            read_text_back(addr, c);
            resources_read_back(resources, tail);
        },
        NodeMessageView::Heartbeat(hb) => {
            let text = hb.timestamp.rfc3339()->Some_0;
            let d = text_bytes(text) + tail;
            let c = resources_bytes(hb.resources) + d;
            let b = u32_bytes(status_tag(hb.status)) + c;
            let a = text_bytes(hb.node_id) + b;
            assert(input =~= u32_bytes(1) + a);
            read_u32_back(1, a);
            read_text_back(hb.node_id, b);
            read_u32_back(status_tag(hb.status), c);
            resources_read_back(hb.resources, d);
            read_text_back(text, tail);
        },
        NodeMessageView::Deregister { id } => {
            let a = text_bytes(id) + tail;
            assert(input =~= u32_bytes(2) + a);
            read_u32_back(2, a);
            read_text_back(id, tail);
        },
    }
}

fn put_resources(out: &mut Vec<u8>, r: &ResourceSpec)
    ensures
        final(out)@ == old(out)@ + resources_bytes(*r),
{
    put_u64(out, r.cpu_millicores);
    put_u64(out, r.memory_mib);
    assert(out@ =~= old(out)@ + resources_bytes(*r));
}

/// Encode a message. It fails only on a heartbeat whose time has no text. What is
/// encoded is decoded to the same message.
pub fn encode(m: &NodeMessage) -> (r: Result<Vec<u8>, NetError>)
    ensures
        match r {
            Ok(out) => {
                &&& encodable(m@)
                &&& time_survives(m@)
                &&& out@ == message_bytes(m@)
                &&& read_message(out@) == Some((m@, Seq::<u8>::empty()))
            },
            Err(e) => !encodable(m@) && e is Serialization,
        },
        m !is Heartbeat ==> r is Ok,
{
    let mut out: Vec<u8> = Vec::new();
    match m {
        NodeMessage::Register { id, addr, resources } => {
            put_u32(&mut out, 0);
            put_text(&mut out, &id.0);
            put_text(&mut out, addr);
            put_resources(&mut out, resources);
        },
        NodeMessage::Heartbeat(hb) => {
            let time = match hb.timestamp.format() {
                Some(time) => time,
                None => return Err(NetError::Serialization(owned("timestamp out of range"))),
            };
            let tag: u32 = match hb.status {
                NodeStatus::Ready => 0,
                NodeStatus::NotReady => 1,
                NodeStatus::Unknown => 2,
            };
            put_u32(&mut out, 1);
            put_text(&mut out, &hb.node_id.0);
            put_u32(&mut out, tag);
            put_resources(&mut out, &hb.resources);
            put_text(&mut out, &time);
        },
        NodeMessage::Deregister { id } => {
            put_u32(&mut out, 2);
            put_text(&mut out, &id.0);
        },
    }
    assert(out@ =~= message_bytes(m@));
    let total: usize = out.len();
    proof {
        assert(message_bytes(m@) + Seq::<u8>::empty() =~= message_bytes(m@));
        message_round_trip(m@, Seq::empty());
    }
    Ok(out)
}

/// The message of a decoding error for the number of a variant.
fn unknown_variant(tag: u32) -> (e: String)
    ensures
        e@ == unknown_variant_text(tag),
{
    let mut e = owned("invalid value: integer `");
    push_decimal(&mut e, tag as u64);
    e.append("`, expected variant index 0 <= i < 3");
    e
}

fn get_status(reader: &mut Reader) -> (r: Result<NodeStatus, String>)
    ensures
        match r {
            Ok(v) => read_status(old(reader).rest()) == Some((v, final(reader).rest())),
            Err(e) => read_status(old(reader).rest()) is None && (unknown_status(
                old(reader).rest(),
            ) matches Some(tag) ==> e@ == unknown_variant_text(tag)),
        },
{
    match reader.get_u32() {
        Ok(0) => Ok(NodeStatus::Ready),
        Ok(1) => Ok(NodeStatus::NotReady),
        Ok(2) => Ok(NodeStatus::Unknown),
        Ok(tag) => Err(unknown_variant(tag)),
        Err(e) => Err(e),
    }
}

fn get_resources(reader: &mut Reader) -> (r: Result<ResourceSpec, String>)
    ensures
        match r {
            Ok(v) => read_resources(old(reader).rest()) == Some((v, final(reader).rest())),
            Err(_) => read_resources(old(reader).rest()) is None,
        },
{
    let cpu_millicores: u64 = match reader.get_u64() {
        Ok(v) => v,
        Err(e) => return Err(e),
    };
    let memory_mib: u64 = match reader.get_u64() {
        Ok(v) => v,
        Err(e) => return Err(e),
    };
    Ok(ResourceSpec { cpu_millicores, memory_mib })
}

fn get_timestamp(reader: &mut Reader) -> (r: Result<Timestamp, String>)
    ensures
        match r {
            Ok(v) => read_timestamp(old(reader).rest()) == Some((v, final(reader).rest())),
            Err(_) => read_timestamp(old(reader).rest()) is None,
        },
{
    match reader.get_text() {
        Ok(text) => Timestamp::parse(text.as_str()),
        Err(e) => Err(e),
    }
}

fn get_register(reader: &mut Reader) -> (r: Result<NodeMessage, String>)
    ensures
        match r {
            Ok(m) => read_register(old(reader).rest()) == Some((m@, final(reader).rest())),
            Err(_) => read_register(old(reader).rest()) is None,
        },
{
    let id = match reader.get_text() {
        Ok(v) => v,
        Err(e) => return Err(e),
    };
    let addr = match reader.get_text() {
        Ok(v) => v,
        Err(e) => return Err(e),
    };
    let resources = match get_resources(reader) {
        Ok(v) => v,
        Err(e) => return Err(e),
    };
    Ok(NodeMessage::Register { id: NodeId(id), addr, resources })
}

fn get_heartbeat(reader: &mut Reader) -> (r: Result<NodeMessage, String>)
    ensures
        match r {
            Ok(m) => read_heartbeat(old(reader).rest()) == Some((m@, final(reader).rest())),
            Err(e) => read_heartbeat(old(reader).rest()) is None && (unknown_in_heartbeat(
                old(reader).rest(),
            ) matches Some(tag) ==> e@ == unknown_variant_text(tag)),
        },
{
    let node_id = match reader.get_text() {
        Ok(v) => v,
        Err(e) => return Err(e),
    };
    let status = match get_status(reader) {
        Ok(v) => v,
        Err(e) => return Err(e),
    };
    let resources = match get_resources(reader) {
        Ok(v) => v,
        Err(e) => return Err(e),
    };
    let timestamp = match get_timestamp(reader) {
        Ok(v) => v,
        Err(e) => return Err(e),
    };
    Ok(
        NodeMessage::Heartbeat(
            Heartbeat { node_id: NodeId(node_id), status, resources, timestamp },
        ),
    )
}

fn get_deregister(reader: &mut Reader) -> (r: Result<NodeMessage, String>)
    ensures
        match r {
            Ok(m) => read_deregister(old(reader).rest()) == Some((m@, final(reader).rest())),
            Err(_) => read_deregister(old(reader).rest()) is None,
        },
{
    match reader.get_text() {
        Ok(id) => Ok(NodeMessage::Deregister { id: NodeId(id) }),
        Err(e) => Err(e),
    }
}

/// Decode a message. Bytes after it are ignored.
pub fn decode(bytes: &[u8]) -> (r: Result<NodeMessage, NetError>)
    ensures
        match r {
            Ok(m) => read_message(bytes@) is Some && read_message(bytes@)->Some_0.0 == m@,
            Err(e) => read_message(bytes@) is None && e is Serialization && (unknown_in_message(
                bytes@,
            ) matches Some(tag) ==> e->Serialization_0@ == unknown_variant_text(tag)),
        },
{
    let mut reader = Reader::new(bytes);
    let outcome = match reader.get_u32() {
        Ok(0) => get_register(&mut reader),
        Ok(1) => get_heartbeat(&mut reader),
        Ok(2) => get_deregister(&mut reader),
        Ok(tag) => Err(unknown_variant(tag)),
        Err(e) => Err(e),
    };
    match outcome {
        Ok(m) => Ok(m),
        Err(e) => Err(NetError::Serialization(e)),
    }
}

/// Encode a message and frame it, ready to be sent.
pub fn message_frame(m: &NodeMessage) -> (r: Result<Vec<u8>, NetError>)
    ensures
        match r {
            Ok(out) => {
                &&& encodable(m@)
                &&& message_bytes(m@).len() <= 16_777_216
                &&& out@ == frame_bytes(message_bytes(m@))
                &&& frame_outcome(out@) == FrameOutcome::Payload(message_bytes(m@))
                &&& read_message(message_bytes(m@)) == Some((m@, Seq::<u8>::empty()))
            },
            Err(NetError::Serialization(_)) => !encodable(m@),
            Err(e) => encodable(m@) && message_bytes(m@).len() > 16_777_216 && e == (
            NetError::FrameTooLarge { size: message_bytes(m@).len() as u32 }),
        },
{
    match encode(m) {
        Ok(payload) => {
            proof {
                if payload@.len() <= 16_777_216 {
                    sent_message_is_received(m@, Seq::empty());
                    assert(frame_bytes(payload@) + Seq::<u8>::empty() =~= frame_bytes(payload@));
                }
            }
            encode_frame(payload.as_slice())
        },
        Err(e) => Err(e),
    }
}

/// A message that was framed and sent is received, whatever follows it on the
/// stream, if the text of its time is read back as that time.
pub proof fn sent_message_is_received(m: NodeMessageView, rest: Seq<u8>)
    requires
        encodable(m),
        time_survives(m),
        message_bytes(m).len() <= 16_777_216,
    ensures
        frame_outcome(frame_bytes(message_bytes(m)) + rest) == FrameOutcome::Payload(
            message_bytes(m),
        ),
        read_message(message_bytes(m)) == Some((m, Seq::<u8>::empty())),
{
    frame_round_trip(message_bytes(m), rest);
    message_round_trip(m, Seq::empty());
    assert(message_bytes(m) + Seq::<u8>::empty() =~= message_bytes(m));
}

/// Decode what reading a frame gave. The end of the stream is no message.
pub fn received_message(outcome: Result<Option<Vec<u8>>, NetError>) -> (r: Result<
    Option<NodeMessage>,
    NetError,
>)
    ensures
        match outcome {
            Ok(Some(payload)) => match read_message(payload@) {
                Some((m, _)) => r is Ok && r->Ok_0 is Some && r->Ok_0->Some_0@ == m,
                None => r is Err && r->Err_0 is Serialization,
            },
            Ok(None) => r is Ok && r->Ok_0 is None,
            Err(e) => r == Err::<Option<NodeMessage>, NetError>(e),
        },
{
    match outcome {
        Ok(Some(payload)) => match decode(payload.as_slice()) {
            Ok(m) => Ok(Some(m)),
            Err(e) => Err(e),
        },
        Ok(None) => Ok(None),
        Err(e) => Err(e),
    }
}

/// A message goes over the wire as the number of its kind and then its fields in order;
/// a status as its number.
pub proof fn messages_are_laid_out_in_order(m: NodeMessageView)
    ensures
        match m {
            NodeMessageView::Register { id, addr, resources } => message_bytes(m) == u32_bytes(0)
                + text_bytes(id) + text_bytes(addr) + u64_bytes(resources.cpu_millicores)
                + u64_bytes(resources.memory_mib),
            NodeMessageView::Heartbeat(hb) => hb.timestamp.rfc3339() matches Some(time)
                ==> message_bytes(m) == u32_bytes(1) + text_bytes(hb.node_id) + u32_bytes(
                match hb.status {
                    NodeStatus::Ready => 0u32,
                    NodeStatus::NotReady => 1,
                    NodeStatus::Unknown => 2,
                },
            ) + u64_bytes(hb.resources.cpu_millicores) + u64_bytes(hb.resources.memory_mib)
                + text_bytes(time),
            NodeMessageView::Deregister { id } => message_bytes(m) == u32_bytes(2) + text_bytes(
                id,
            ),
        },
{
    match m {
        NodeMessageView::Register { id, addr, resources } => {
            let head = u32_bytes(0) + text_bytes(id) + text_bytes(addr);
            let a = u64_bytes(resources.cpu_millicores);
            let b = u64_bytes(resources.memory_mib);
            assert(head + (a + b) =~= head + a + b);
        },
        NodeMessageView::Heartbeat(hb) => {
            let head = u32_bytes(1) + text_bytes(hb.node_id) + u32_bytes(status_tag(hb.status));
            let a = u64_bytes(hb.resources.cpu_millicores);
            let b = u64_bytes(hb.resources.memory_mib);
            assert(head + (a + b) =~= head + a + b);
        },
        _ => {},
    }
}

/// What was read from the front of an input is what was written there, whole: two messages
/// whose encodings begin the same input are the same message.
pub proof fn encodings_tell_messages_apart(a: NodeMessageView, b: NodeMessageView, rest: Seq<u8>)
    requires
        encodable(a),
        time_survives(a),
        encodable(b),
        time_survives(b),
        message_bytes(a) == message_bytes(b),
        (message_bytes(a) + rest).len() <= u64::MAX,
    ensures
        a == b,
{
    message_round_trip(a, rest);
    message_round_trip(b, rest);
}

/// A message that was encoded and then decoded is the same message; only a heartbeat whose
/// time cannot be written is not encoded.
pub proof fn decoding_undoes_encoding(
    m: NodeMessage,
    encoded: Result<Vec<u8>, NetError>,
    sent: &[u8],
    back: Result<NodeMessage, NetError>,
)
    requires
        call_ensures(encode, (&m,), encoded),
        encoded is Ok ==> sent@ == encoded->Ok_0@,
        call_ensures(decode, (sent,), back),
    ensures
        m !is Heartbeat ==> encoded is Ok,
        encoded is Ok ==> back is Ok && back->Ok_0@ == m@,
{
}

} // verus!
