//! Tests of framing, wire messages and the node service.

use leviathan::control::StateCommand;
use leviathan::model::error::{IoError, IoErrorKind, LeviathanError};
use leviathan::model::node::{Heartbeat, Node, NodeId, NodeMessage, NodeStatus, Timestamp};
use leviathan::model::resources::ResourceSpec;
use leviathan::net::codec::{decode, encode, message_frame, received_message};
use leviathan::net::error::{NetError, MAX_FRAME_SIZE};
use leviathan::net::frame::{classify_io_error, encode_frame, FrameReader};
use leviathan::net::grpc::{
    answered, delivered, deregister_node, deregister_request, heartbeat_request, list_nodes,
    node_to_proto, parse_node_status, register_node, register_request, resource_info_to_spec,
    send_heartbeat, spec_to_resource_info, GrpcStateCommand, HeartbeatRequest,
    RegisterNodeRequest, RegisterNodeResponse,
};

/// Read one frame from the front of a stream that ends after its bytes.
fn read_frame(stream: &mut Vec<u8>) -> Result<Option<Vec<u8>>, NetError> {
    let mut reader = FrameReader::new();
    loop {
        let missing = reader.poll()?;
        if missing == 0 || stream.is_empty() {
            return reader.close();
        }
        let n = missing.min(stream.len()).min(7);
        let piece: Vec<u8> = stream.drain(..n).collect();
        reader.push(&piece);
    }
}

#[test]
fn net_error_converts_to_leviathan_error() {
    let net_err = NetError::ConnectionReset("peer gone".into());
    let lev_err: LeviathanError = net_err.into();
    let msg = lev_err.to_string();
    assert!(msg.contains("connection reset"));
}

#[test]
fn frame_too_large_display() {
    let err = NetError::FrameTooLarge { size: 99_999_999 };
    let msg = err.to_string();
    assert!(msg.contains("99999999"));
    assert!(msg.contains("16777216"));
}

#[test]
fn bincode_error_converts() {
    let result: Result<String, _> = bincode::deserialize(&[0xFF, 0xFF, 0xFF, 0xFF]);
    let bincode_err = result.unwrap_err();
    let net_err: NetError = bincode_err.into();
    assert!(matches!(net_err, NetError::Serialization(_)));
}

#[test]
fn net_error_messages() {
    assert_eq!(
        NetError::IncompleteFrame { bytes_read: 3, expected: 100 }.to_string(),
        "incomplete frame: connection closed after 3 of 100 bytes"
    );
    assert_eq!(NetError::GrpcTransport("refused".into()).to_string(), "gRPC transport error: refused");
    let io = IoError { kind: IoErrorKind::Other, message: "odd".into() };
    assert_eq!(NetError::from(io).to_string(), "I/O error: odd");
}

#[test]
fn roundtrip_single_frame() {
    let payload = b"hello leviathan";
    let mut stream = encode_frame(payload).unwrap();
    assert_eq!(&stream[..4], &[0, 0, 0, 15]);
    let received = read_frame(&mut stream).unwrap().unwrap();
    assert_eq!(received, payload);
}

#[test]
fn roundtrip_multiple_frames() {
    let mut stream = Vec::new();
    for i in 0..10 {
        let msg = format!("frame-{}", i);
        stream.extend(encode_frame(msg.as_bytes()).unwrap());
    }
    for i in 0..10 {
        let received = read_frame(&mut stream).unwrap().unwrap();
        assert_eq!(received, format!("frame-{}", i).as_bytes());
    }
}

#[test]
fn empty_payload_roundtrip() {
    let mut stream = encode_frame(b"").unwrap();
    let received = read_frame(&mut stream).unwrap().unwrap();
    assert!(received.is_empty());
}

#[test]
fn clean_eof_returns_none() {
    let result = read_frame(&mut Vec::new()).unwrap();
    assert!(result.is_none());
}

#[test]
fn frame_too_large_rejected_on_write() {
    let oversized = vec![0u8; MAX_FRAME_SIZE as usize + 1];
    let result = encode_frame(&oversized);
    assert!(matches!(result, Err(NetError::FrameTooLarge { size: 16_777_217 })));
}

#[test]
fn frame_too_large_rejected_on_read() {
    let fake_len: u32 = MAX_FRAME_SIZE + 1;
    let mut stream = fake_len.to_be_bytes().to_vec();
    let result = read_frame(&mut stream);
    assert!(matches!(result, Err(NetError::FrameTooLarge { size: 16_777_217 })));
}

#[test]
fn incomplete_frame_detected() {
    let mut stream = (100u32).to_be_bytes().to_vec();
    let result = read_frame(&mut stream);
    assert!(matches!(result, Err(NetError::IncompleteFrame { bytes_read: 0, expected: 100 })));

    let mut stream = (100u32).to_be_bytes().to_vec();
    stream.extend([1, 2, 3]);
    let result = read_frame(&mut stream);
    assert!(matches!(result, Err(NetError::IncompleteFrame { bytes_read: 3, expected: 100 })));

    let result = read_frame(&mut vec![0, 0]);
    assert!(matches!(result, Err(NetError::IncompleteFrame { bytes_read: 2, expected: 4 })));
}

#[test]
fn large_frame_roundtrip() {
    let payload = vec![0xAB; 1024 * 1024];
    let frame = encode_frame(&payload).unwrap();
    let mut reader = FrameReader::new();
    reader.push(&frame[..4]);
    assert_eq!(reader.poll().unwrap(), payload.len());
    reader.push(&frame[4..]);
    assert_eq!(reader.poll().unwrap(), 0);
    let received = reader.close().unwrap().unwrap();
    assert_eq!(received.len(), payload.len());
    assert_eq!(received, payload);
}

#[test]
fn io_errors_are_classified() {
    for kind in [
        IoErrorKind::ConnectionReset,
        IoErrorKind::ConnectionAborted,
        IoErrorKind::BrokenPipe,
    ] {
        let e = classify_io_error(IoError { kind, message: "gone".into() });
        assert!(matches!(e, NetError::ConnectionReset(ref s) if s == "gone"));
    }
    for kind in [IoErrorKind::UnexpectedEof, IoErrorKind::Other] {
        let e = classify_io_error(IoError { kind, message: "odd".into() });
        assert!(matches!(e, NetError::Io(_)));
    }
}

fn register(id: &str, addr: &str, cpu: u64, mem: u64) -> NodeMessage {
    NodeMessage::Register {
        id: NodeId::new(id),
        addr: addr.into(),
        resources: ResourceSpec::new(cpu, mem),
    }
}

#[test]
fn encode_decode_roundtrip() {
    let msg = register("node-1", "127.0.0.1:7001", 2000, 4096);
    let bytes = encode(&msg).unwrap();
    let decoded: NodeMessage = decode(&bytes).unwrap();
    match decoded {
        NodeMessage::Register { id, addr, resources } => {
            assert_eq!(id, NodeId::new("node-1"));
            assert_eq!(addr, "127.0.0.1:7001");
            assert_eq!(resources, ResourceSpec::new(2000, 4096));
        }
        _ => panic!("Expected Register variant"),
    }
}

#[test]
fn encoding_is_that_of_bincode() {
    let msg = register("n", "a:1", 1, 2);
    let bytes = encode(&msg).unwrap();
    let expected = bincode::serialize(&(0u32, "n", "a:1", 1u64, 2u64)).unwrap();
    assert_eq!(bytes, expected);
    let bytes = encode(&NodeMessage::Deregister { id: NodeId::new("n") }).unwrap();
    assert_eq!(bytes, bincode::serialize(&(2u32, "n")).unwrap());
}

#[test]
fn node_message_register_roundtrip() {
    let bytes = encode(&register("node-test", "127.0.0.1:9999", 1000, 2048)).expect("encode");
    match decode(&bytes).expect("decode") {
        NodeMessage::Register { id, addr, resources } => {
            assert_eq!(id, NodeId::new("node-test"));
            assert_eq!(addr, "127.0.0.1:9999");
            assert_eq!(resources, ResourceSpec::new(1000, 2048));
        }
        _ => panic!("Expected NodeMessage::Register variant"),
    }
}

fn heartbeat(id: &str, cpu: u64, mem: u64, timestamp: Timestamp) -> NodeMessage {
    NodeMessage::Heartbeat(Heartbeat {
        node_id: NodeId::new(id),
        status: NodeStatus::Ready,
        resources: ResourceSpec::new(cpu, mem),
        timestamp,
    })
}

#[test]
fn heartbeat_roundtrip() {
    let now = chrono::Utc::now();
    let timestamp = Timestamp { secs: now.timestamp(), nanos: now.timestamp_subsec_nanos() };
    let bytes = encode(&heartbeat("node-1", 2000, 4096, timestamp)).expect("encode");
    match decode(&bytes).expect("decode") {
        NodeMessage::Heartbeat(hb) => {
            assert_eq!(hb.node_id, NodeId::new("node-1"));
            assert_eq!(hb.status, NodeStatus::Ready);
            assert_eq!(hb.timestamp, timestamp);
        }
        _ => panic!("Expected NodeMessage::Heartbeat variant"),
    }
}

#[test]
fn heartbeat_carries_the_time_as_chrono_does() {
    let time = chrono::DateTime::<chrono::Utc>::from_timestamp(1_700_000_000, 120_000_000).unwrap();
    let timestamp = Timestamp { secs: 1_700_000_000, nanos: 120_000_000 };
    let bytes = encode(&heartbeat("n", 3, 4, timestamp)).unwrap();
    assert_eq!(bytes, bincode::serialize(&(1u32, "n", 0u32, 3u64, 4u64, time)).unwrap());
    assert_eq!(timestamp.format().unwrap(), "2023-11-14T22:13:20.120Z");
}

#[test]
fn timestamps_survive_text() {
    for t in [
        Timestamp { secs: 0, nanos: 0 },
        Timestamp { secs: -1, nanos: 999_999_999 },
        Timestamp { secs: 1_700_000_000, nanos: 1 },
        Timestamp { secs: -62_167_219_200, nanos: 0 },
        Timestamp { secs: 253_402_300_799, nanos: 999_999_999 },
        Timestamp { secs: 253_402_300_800, nanos: 0 },
        Timestamp { secs: -62_167_219_201, nanos: 5 },
        Timestamp { secs: 59, nanos: 1_500_000_000 },
    ] {
        let text = t.format().expect("a text");
        assert_eq!(Timestamp::parse(&text), Ok(t), "{text}");
    }
    assert!(Timestamp { secs: i64::MAX, nanos: 0 }.format().is_none());
    assert!(Timestamp { secs: 0, nanos: 1_000_000_000 }.format().is_none());
    assert!(Timestamp::parse("yesterday").is_err());
    assert_eq!(
        Timestamp::parse("2023-11-14T23:13:20+01:00"),
        Ok(Timestamp { secs: 1_700_000_000, nanos: 0 })
    );
}

#[test]
fn unrepresentable_time_cannot_be_encoded() {
    let msg = heartbeat("n", 1, 1, Timestamp { secs: i64::MAX, nanos: 0 });
    assert!(matches!(encode(&msg), Err(NetError::Serialization(_))));
}

#[test]
fn deregister_roundtrip() {
    let bytes = encode(&NodeMessage::Deregister { id: NodeId::new("node-99") }).expect("encode");
    match decode(&bytes).expect("decode") {
        NodeMessage::Deregister { id } => assert_eq!(id, NodeId::new("node-99")),
        _ => panic!("Expected NodeMessage::Deregister variant"),
    }
}

#[test]
fn decode_corrupt_bytes_fails() {
    let result = decode(&[0xFF, 0x00, 0xDE, 0xAD]);
    assert!(result.is_err());
    assert!(decode(&[]).is_err());
    let mut bytes = encode(&register("node-1", "a", 1, 2)).unwrap();
    bytes.pop();
    assert!(decode(&bytes).is_err());
    let status = bincode::serialize(&(1u32, "n", 3u32, 1u64, 2u64, "2023-11-14T22:13:20Z")).unwrap();
    match decode(&status) {
        Err(NetError::Serialization(s)) => {
            assert_eq!(s, "invalid value: integer `3`, expected variant index 0 <= i < 3");
        }
        other => panic!("unexpected {:?}", other),
    }
    match decode(&bincode::serialize(&7u32).unwrap()) {
        Err(NetError::Serialization(s)) => {
            assert_eq!(s, "invalid value: integer `7`, expected variant index 0 <= i < 3");
        }
        other => panic!("unexpected {:?}", other),
    }
    let time = bincode::serialize(&(1u32, "n", 0u32, 1u64, 2u64, "noon")).unwrap();
    assert!(matches!(decode(&time), Err(NetError::Serialization(_))));
}

#[test]
fn bincode_is_compact() {
    let msg = register("node-1", "127.0.0.1:7001", 2000, 4096);
    let bincode_bytes = encode(&msg).unwrap();
    let mut resources = serde_json::Map::new();
    resources.insert("cpu_millicores".into(), 2000u64.into());
    resources.insert("memory_mib".into(), 4096u64.into());
    let mut fields = serde_json::Map::new();
    fields.insert("id".into(), "node-1".into());
    fields.insert("addr".into(), "127.0.0.1:7001".into());
    fields.insert("resources".into(), serde_json::Value::Object(resources));
    let mut json = serde_json::Map::new();
    json.insert("Register".into(), serde_json::Value::Object(fields));
    let json_bytes = serde_json::to_vec(&serde_json::Value::Object(json)).unwrap();
    assert!(bincode_bytes.len() < json_bytes.len());
}

#[test]
fn send_recv_register_message() {
    let mut stream = message_frame(&register("node-42", "10.0.0.1:9000", 4000, 8192)).unwrap();
    let received = received_message(read_frame(&mut stream)).unwrap().unwrap();
    match received {
        NodeMessage::Register { id, .. } => assert_eq!(id, NodeId::new("node-42")),
        _ => panic!("Expected Register"),
    }
}

#[test]
fn send_recv_heartbeat_message() {
    let msg = heartbeat("node-7", 1000, 2048, Timestamp { secs: 1_700_000_000, nanos: 0 });
    let mut stream = message_frame(&msg).unwrap();
    match received_message(read_frame(&mut stream)).unwrap().unwrap() {
        NodeMessage::Heartbeat(hb) => {
            assert_eq!(hb.node_id, NodeId::new("node-7"));
            assert_eq!(hb.status, NodeStatus::Ready);
        }
        _ => panic!("Expected Heartbeat"),
    }
}

#[test]
fn send_recv_multiple_messages_in_sequence() {
    let mut stream = Vec::new();
    for i in 0..5u64 {
        let msg = register(&format!("node-{}", i), &format!("10.0.0.{}:9000", i), 1000 * (i + 1), 512);
        stream.extend(message_frame(&msg).unwrap());
    }
    for i in 0..5 {
        match received_message(read_frame(&mut stream)).unwrap().unwrap() {
            NodeMessage::Register { id, .. } => {
                assert_eq!(id, NodeId::new(format!("node-{}", i)));
            }
            _ => panic!("Expected Register"),
        }
    }
}

#[test]
fn eof_returns_none() {
    let result = received_message(read_frame(&mut Vec::new())).unwrap();
    assert!(result.is_none());
}

#[test]
fn oversized_message_cannot_be_framed() {
    let msg = NodeMessage::Deregister { id: NodeId::new("x".repeat(17 * 1024 * 1024)) };
    assert!(matches!(message_frame(&msg), Err(NetError::FrameTooLarge { .. })));
}

#[test]
fn resource_conversion_roundtrip() {
    let spec = ResourceSpec::new(4000, 8192);
    let proto = spec_to_resource_info(&spec);
    let back = resource_info_to_spec(proto);
    assert_eq!(spec, back);
}

#[test]
fn node_to_proto_conversion() {
    let mut node = Node::new("node-1", "10.0.0.1:7001", ResourceSpec::new(2000, 4096));
    node.status = NodeStatus::Ready;
    let info = node_to_proto(&node);
    assert_eq!(info.id, "node-1");
    assert_eq!(info.addr, "10.0.0.1:7001");
    assert_eq!(info.status, "Ready");
    assert_eq!(info.resources.unwrap().cpu_millicores, 2000);
}

#[test]
fn parse_node_status_known_values() {
    assert_eq!(parse_node_status("Ready"), NodeStatus::Ready);
    assert_eq!(parse_node_status("NotReady"), NodeStatus::NotReady);
    assert_eq!(parse_node_status("Unknown"), NodeStatus::Unknown);
}

#[test]
fn parse_node_status_unknown_defaults() {
    assert_eq!(parse_node_status("garbage"), NodeStatus::Unknown);
    assert_eq!(parse_node_status(""), NodeStatus::Unknown);
}

#[test]
fn register_node_response_fields() {
    let resp = RegisterNodeResponse {
        accepted: true,
        message: "node 'n1' registered".into(),
    };
    assert!(resp.accepted);
    assert!(resp.message.contains("n1"));
}

#[test]
fn service_translates_requests() {
    let req = register_request(&NodeId::new("n1"), "h:1", &ResourceSpec::new(5, 6));
    let (command, reply) = register_node(req);
    assert_eq!(reply.message, "node 'n1' registered");
    match command {
        GrpcStateCommand::RegisterNode { node } => {
            assert_eq!(node.id, NodeId::new("n1"));
            assert_eq!(node.resources, ResourceSpec::new(5, 6));
            assert_eq!(node.status, NodeStatus::Unknown);
        }
        other => panic!("unexpected {:?}", other),
    }
    let bare = RegisterNodeRequest { node_id: "n2".into(), addr: "h:2".into(), resources: None };
    match register_node(bare).0 {
        GrpcStateCommand::RegisterNode { node } => {
            assert_eq!(node.resources, ResourceSpec::default())
        }
        other => panic!("unexpected {:?}", other),
    }
    let now = Timestamp { secs: 9, nanos: 9 };
    let hb = heartbeat_request(&NodeId::new("n1"), &ResourceSpec::new(1, 2), "1970-01-01T00:00:05Z".into());
    match send_heartbeat(hb, now) {
        (GrpcStateCommand::RecordHeartbeat { heartbeat }, reply) => {
            assert!(reply.acknowledged);
            assert_eq!(heartbeat.status, NodeStatus::Ready);
            assert_eq!(heartbeat.timestamp, Timestamp { secs: 5, nanos: 0 });
        }
        other => panic!("unexpected {:?}", other),
    }
    let odd = HeartbeatRequest {
        node_id: "n1".into(),
        status: "???".into(),
        resources: None,
        timestamp: "later".into(),
    };
    match send_heartbeat(odd, now).0 {
        GrpcStateCommand::RecordHeartbeat { heartbeat } => {
            assert_eq!(heartbeat.status, NodeStatus::Unknown);
            assert_eq!(heartbeat.timestamp, now);
        }
        other => panic!("unexpected {:?}", other),
    }
    match deregister_node(deregister_request(&NodeId::new("n1"))) {
        (GrpcStateCommand::DeregisterNode { id }, reply) => {
            assert_eq!(id, NodeId::new("n1"));
            assert!(reply.acknowledged);
        }
        other => panic!("unexpected {:?}", other),
    }
}

#[test]
fn service_reports_an_unavailable_actor() {
    assert_eq!(delivered(7, true), Ok(7));
    assert_eq!(delivered(7, false), Err("state actor unavailable".to_string()));
    assert_eq!(answered(None).unwrap_err(), "state actor dropped response channel");
    let nodes = vec![Node::new("n1", "h:1", ResourceSpec::new(1, 1))];
    assert_eq!(list_nodes(&nodes).nodes[0].status, "Unknown");
    assert_eq!(answered(Some(nodes)).unwrap().nodes.len(), 1);
}

#[test]
fn state_command_is_debuggable() {
    let text = format!("{:?}", StateCommand::GetNodes);
    assert_eq!(text, "GetNodes");
}
