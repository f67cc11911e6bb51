use snap_net::bstring::BoundedString;
use snap_net::config::{AdvancedNetworkConfig, Config, GeneralConfig, Level, LogLevel, NetworkConfig, ServerConfig};
use snap_net::connection::{
    decimal_string, farewell, process_packet, receive_frame, status_json, status_json_from,
    ConnectionState, ServerInfo, Writer,
};
use snap_net::frame::{
    frame_packet, open_frame, seal_frame, split_frame, split_payload, unpack_inflated,
    CompressionSettings, FrameReader, RawPacket, MAX_FRAME_SIZE,
};
use snap_net::packets::{
    EncryptionRequest, Handshake, NetworkDisconnect, Packets, Pong, SetCompression,
};
use snap_net::serial::{decode_from_slice, encode_to_vec, DecodeError, EncodeError};
use snap_net::varint::v32;

const LIST_PING_HANDSHAKE: [u8; 17] = [
    0x10, 0x00, 0xfa, 0x05, 0x09, 0x31, 0x32, 0x37, 0x2e, 0x30, 0x2e, 0x30, 0x2e, 0x31, 0x63, 0xdd, 0x01,
];
const LIST_PING_REQUEST: [u8; 2] = [0x01, 0x00];
const LIST_PING_PING: [u8; 10] = [0x09, 0x01, 0x00, 0x00, 0x00, 0x00, 0x00, 0x00, 0x00, 0x2a];

fn info() -> ServerInfo {
    ServerInfo { max_players: 20, motd: "A test server".to_string(), compression_threshold: 256 }
}

fn settings() -> CompressionSettings {
    CompressionSettings { threshold: 256, level: 6 }
}

/// Takes every complete frame out of the reader.
fn frames(reader: &mut FrameReader) -> Vec<Vec<u8>> {
    let mut out = Vec::new();
    while let Ok(Some(f)) = reader.next_frame() {
        out.push(f);
    }
    out
}

#[test]
fn list_ping_exchange() {
    let mut reader = FrameReader::new();
    let mut stream = Vec::new();
    stream.extend_from_slice(&LIST_PING_HANDSHAKE);
    stream.extend_from_slice(&LIST_PING_REQUEST);
    stream.extend_from_slice(&LIST_PING_PING);
    reader.feed(&stream);
    let fs = frames(&mut reader);
    assert_eq!(fs.len(), 3);

    let mut state = ConnectionState::Handshake;
    let r = receive_frame(&fs[0], false, state, 3, &info());
    assert!(r.shutdown.is_none());
    assert!(r.replies.is_empty());
    assert_eq!(r.state, ConnectionState::Status);
    state = r.state;

    let r = receive_frame(&fs[1], false, state, 3, &info());
    assert_eq!(r.replies.len(), 1);
    match &r.replies[0] {
        Packets::ClientboundStatusResponse(p) => {
            let json = p.json_response.as_str();
            assert!(json.contains("\"protocol\":754"));
            assert!(json.contains("\"max\":20"));
            assert!(json.contains("\"online\":3"));
        }
        other => panic!("unexpected reply {:?}", other),
    }

    let r = receive_frame(&fs[2], false, state, 3, &info());
    assert_eq!(r.replies, vec![Packets::ClientboundStatusPong(Box::new(Pong { payload: 42 }))]);
    assert!(r.shutdown.is_none());
    assert!(r.forward.is_none());
}

#[test]
fn pong_frame_bytes() {
    let mut writer = Writer::new(settings());
    let out = writer.send(&Packets::ClientboundStatusPong(Box::new(Pong { payload: 42 })));
    assert_eq!(out.bytes.unwrap(), LIST_PING_PING.to_vec());
    assert!(out.shutdown.is_none());
}

#[test]
fn status_json_exact_text() {
    let json = status_json(20, 3, "Hello");
    assert_eq!(
        json,
        "{\"version\":{\"name\":\"1.16.5\",\"protocol\":754},\"players\":{\"max\":20,\"online\":3,\"sample\":[]},\"description\":{\"text\":\"Hello\"}}"
    );
}

#[test]
fn status_json_escapes_the_motd() {
    let json = status_json(1, 0, "say \"hi\"");
    assert!(json.ends_with("{\"text\":\"say \\\"hi\\\"\"}}"));
    let direct = status_json_from(1, 0, "\"x\"");
    assert!(direct.ends_with("{\"text\":\"x\"}}"));
}

#[test]
fn decimal_rendering() {
    assert_eq!(decimal_string(0), "0");
    assert_eq!(decimal_string(7), "7");
    assert_eq!(decimal_string(10), "10");
    assert_eq!(decimal_string(25565), "25565");
}

fn login_start_frame(name: &str) -> Vec<u8> {
    let mut body = vec![0x00u8, name.len() as u8];
    body.extend_from_slice(name.as_bytes());
    body
}

#[test]
fn login_handshake_and_compression() {
    let handshake = Handshake {
        protocol_version: v32::new(754),
        server_address: BoundedString::new("localhost".to_string()).unwrap(),
        server_port: 25565,
        next_state: 2,
    };
    let r = process_packet(
        Packets::ServerboundHandshakingHandshake(Box::new(handshake)),
        ConnectionState::Handshake,
        0,
        &info(),
    );
    assert_eq!(r.state, ConnectionState::Login);
    assert!(r.shutdown.is_none());

    let r = receive_frame(&login_start_frame("tester"), false, ConnectionState::Login, 0, &info());
    assert_eq!(r.state, ConnectionState::Play);
    assert_eq!(r.replies.len(), 2);
    assert_eq!(
        r.replies[0],
        Packets::ClientboundLoginSetCompression(Box::new(SetCompression { threshold: v32::new(256) }))
    );
    match &r.replies[1] {
        Packets::ClientboundLoginLoginSuccess(p) => {
            assert_eq!(p.uuid.as_str(), "00000000-0000-0000-0000-000000000000");
            assert_eq!(p.username.as_str(), "tester");
        }
        other => panic!("unexpected reply {:?}", other),
    }
    match r.forward {
        Some(Packets::InternalServerInitialize(p)) => {
            assert_eq!(p.username, "tester");
            assert_eq!(p.uuid, "00000000-0000-0000-0000-000000000000");
        }
        other => panic!("unexpected forward {:?}", other),
    }

    // The writer sends SetCompression plainly, then compresses from there on.
    let mut writer = Writer::new(settings());
    assert!(!writer.is_compressed());
    let out = writer.send(&r.replies[0]);
    assert_eq!(out.bytes.unwrap(), vec![0x03, 0x03, 0x80, 0x02]);
    assert!(writer.is_compressed());
    let out = writer.send(&r.replies[1]);
    let bytes = out.bytes.unwrap();
    // Small payload: envelope length, a zero uncompressed length, then id and body.
    let body = r.replies[1].get_data();
    let mut expected = vec![(body.len() + 2) as u8, 0x00, 0x02];
    expected.extend_from_slice(&body);
    assert_eq!(bytes, expected);
}

#[test]
fn malformed_varint_ends_the_connection() {
    let mut reader = FrameReader::new();
    reader.feed(&[0x80, 0x80, 0x80, 0x80, 0x80, 0x80]);
    assert!(matches!(reader.next_frame(), Err(DecodeError::InvalidData)));
    assert!(matches!(split_frame(&[0xff, 0xff, 0xff, 0xff, 0xff, 0x01]), Err(DecodeError::InvalidData)));
}

#[test]
fn unknown_id_is_dropped() {
    let r = receive_frame(&[0xfe, 0x01, 0x02], false, ConnectionState::Status, 0, &info());
    assert!(r.shutdown.is_none());
    assert!(r.replies.is_empty());
    assert!(r.forward.is_none());
    assert_eq!(r.state, ConnectionState::Status);
    let r = receive_frame(&LIST_PING_PING[1..], false, ConnectionState::Status, 0, &info());
    assert_eq!(r.replies, vec![Packets::ClientboundStatusPong(Box::new(Pong { payload: 42 }))]);
}

#[test]
fn oversize_send_is_refused() {
    let body = vec![0u8; 1 << 21];
    assert_eq!(frame_packet(0x01, &body, None), Err(EncodeError::FrameTooLarge));
    let mut writer = Writer::new(settings());
    let packet = Packets::ClientboundLoginEncryptionRequest(Box::new(EncryptionRequest {
        server_id: BoundedString::new(String::new()).unwrap(),
        public_key: (0..(1u32 << 21)).map(|i| (i.wrapping_mul(2654435761) >> 13) as u8).collect(),
        verify_token: vec![],
    }));
    let out = writer.send(&packet);
    assert!(out.bytes.is_none());
    assert!(out.shutdown.is_some());
}

#[test]
fn peer_close_mid_frame_leaves_the_frame_incomplete() {
    let mut reader = FrameReader::new();
    let mut bytes = vec![100u8];
    bytes.extend(vec![7u8; 40]);
    reader.feed(&bytes);
    assert!(matches!(reader.next_frame(), Ok(None)));
}

#[test]
fn frame_prefixes_never_yield_a_frame() {
    let mut stream = Vec::new();
    stream.extend_from_slice(&LIST_PING_HANDSHAKE);
    stream.extend_from_slice(&LIST_PING_REQUEST);
    for n in 0..LIST_PING_HANDSHAKE.len() {
        assert!(matches!(split_frame(&stream[..n]), Ok(None)), "prefix {}", n);
    }
    assert_eq!(split_frame(&stream).unwrap(), Some((1, 17)));
    // Fed one byte at a time, the frames come out whole and in order.
    let mut reader = FrameReader::new();
    let mut got = Vec::new();
    for b in &stream {
        reader.feed(&[*b]);
        got.extend(frames(&mut reader));
    }
    assert_eq!(got, vec![LIST_PING_HANDSHAKE[1..].to_vec(), LIST_PING_REQUEST[1..].to_vec()]);
}

#[test]
fn compressed_frame_round_trip() {
    let body = vec![b'a'; 1000];
    let framed = frame_packet(0x05, &body, Some(settings())).unwrap();
    assert!(framed.len() < 100);
    let (len, k) = decode_from_slice::<v32>(&framed).unwrap();
    assert_eq!(len.value() as usize, framed.len() - k);
    let (uncompressed, _) = decode_from_slice::<v32>(&framed[k..]).unwrap();
    assert_eq!(uncompressed.value(), 1001);
    let raw = open_frame(&framed[k..], true).unwrap();
    assert_eq!(raw, RawPacket { id: 0x05, data: body });
}

#[test]
fn small_payload_stays_raw_under_compression() {
    let framed = frame_packet(0x01, &[1, 2, 3], Some(settings())).unwrap();
    assert_eq!(framed, vec![5, 0, 1, 1, 2, 3]);
    let plain = frame_packet(0x01, &[1, 2, 3], None).unwrap();
    assert_eq!(plain, vec![4, 1, 1, 2, 3]);
    assert_eq!(open_frame(&framed[1..], true).unwrap(), RawPacket { id: 1, data: vec![1, 2, 3] });
}

#[test]
fn seal_frame_prefers_shorter_stream() {
    let payload = [9u8, 1, 2, 3, 4];
    assert_eq!(seal_frame(&payload, true, Some(vec![0xaa, 0xbb])).unwrap(), vec![3, 5, 0xaa, 0xbb]);
    assert_eq!(seal_frame(&payload, true, Some(vec![0; 9])).unwrap(), vec![6, 0, 9, 1, 2, 3, 4]);
    assert_eq!(seal_frame(&payload, false, None).unwrap(), vec![5, 9, 1, 2, 3, 4]);
}

#[test]
fn frame_size_limit_is_exact() {
    let fits = vec![0u8; MAX_FRAME_SIZE - 4];
    let framed = frame_packet(0, &fits, None).unwrap();
    assert_eq!(framed.len(), MAX_FRAME_SIZE);
    let over = vec![0u8; MAX_FRAME_SIZE - 3];
    assert_eq!(frame_packet(0, &over, None), Err(EncodeError::FrameTooLarge));
}

#[test]
fn inflated_payload_must_match_announced_length() {
    assert_eq!(unpack_inflated(Some(vec![3, 4]), 2).unwrap(), RawPacket { id: 3, data: vec![4] });
    assert_eq!(unpack_inflated(Some(vec![3, 4]), 3), Err(DecodeError::InvalidData));
    assert_eq!(unpack_inflated(None, 3), Err(DecodeError::InvalidData));
    assert_eq!(split_payload(&[]), Err(DecodeError::InvalidData));
    assert!(open_frame(&[0x05, 0x01, 0x02], true).is_err());
}

#[test]
fn raw_packet_round_trip() {
    let p = RawPacket { id: 7, data: vec![1, 2, 3] };
    let bytes = encode_to_vec(&p).unwrap();
    assert_eq!(bytes, vec![4, 7, 1, 2, 3]);
    let (back, n) = decode_from_slice::<RawPacket>(&bytes).unwrap();
    assert_eq!(back, p);
    assert_eq!(n, 5);
}

#[test]
fn protocol_version_gate() {
    let make = |version: u32, next: u8| {
        Packets::ServerboundHandshakingHandshake(Box::new(Handshake {
            protocol_version: v32::new(version),
            server_address: BoundedString::new("h".to_string()).unwrap(),
            server_port: 1,
            next_state: next,
        }))
    };
    let r = process_packet(make(755, 2), ConnectionState::Handshake, 0, &info());
    assert!(r.shutdown.is_some());
    let r = process_packet(make(9999, 1), ConnectionState::Handshake, 0, &info());
    assert!(r.shutdown.is_none());
    assert_eq!(r.state, ConnectionState::Status);
    let r = process_packet(make(754, 2), ConnectionState::Handshake, 0, &info());
    assert!(r.shutdown.is_none());
    let r = process_packet(make(754, 7), ConnectionState::Handshake, 0, &info());
    assert!(r.shutdown.is_some());
    assert_eq!(r.state, ConnectionState::Handshake);
}

#[test]
fn states_never_move_back() {
    let handshake = Packets::ServerboundHandshakingHandshake(Box::new(Handshake {
        protocol_version: v32::new(754),
        server_address: BoundedString::new("h".to_string()).unwrap(),
        server_port: 1,
        next_state: 1,
    }));
    let r = process_packet(handshake, ConnectionState::Play, 0, &info());
    assert_eq!(r.state, ConnectionState::Play);
    let r = receive_frame(&login_start_frame("x"), false, ConnectionState::Play, 0, &info());
    assert_eq!(r.state, ConnectionState::Play);
}

#[test]
fn known_packet_with_bad_body_ends_the_connection() {
    let r = receive_frame(&[0x01, 0x00], false, ConnectionState::Status, 0, &info());
    assert!(r.shutdown.is_some());
}

#[test]
fn other_packets_are_forwarded() {
    let r = receive_frame(&[0x01, 0x01, 0xaa, 0x01, 0xbb], false, ConnectionState::Login, 0, &info());
    assert!(r.shutdown.is_none());
    assert!(matches!(r.forward, Some(Packets::ServerboundLoginEncryptionResponse(_))));
}

#[test]
fn writer_handles_disconnect_requests() {
    let mut writer = Writer::new(settings());
    let out = writer.send(&Packets::InternalNetworkDisconnect(Box::new(NetworkDisconnect {
        reason: BoundedString::new("bye".to_string()).unwrap(),
    })));
    assert!(out.bytes.is_none());
    assert_eq!(out.shutdown.as_deref(), Some("bye"));
}

#[test]
fn farewell_only_in_play() {
    assert!(farewell(ConnectionState::Login, "x".to_string()).is_none());
    let p = farewell(ConnectionState::Play, "x".to_string()).unwrap();
    assert_eq!(p.get_id(), 0x19);
}

#[test]
fn log_levels_by_name() {
    assert_eq!(LogLevel::from_name("WARN").level, Level::Warn);
    assert_eq!(LogLevel::from_name("Trace").level, Level::Trace);
    assert_eq!(LogLevel::from_name("verbose").level, Level::Off);
    assert_eq!(LogLevel::from_lowercase("info").level, Level::Info);
    assert_eq!(LogLevel { level: Level::Debug }.name(), "debug");
}

#[test]
fn config_gives_engine_settings() {
    let cfg = Config {
        general: GeneralConfig { log_level: LogLevel { level: Level::Info } },
        network: NetworkConfig {
            port: 25565,
            max_players: 20,
            advanced: AdvancedNetworkConfig {
                buffer_size: 8192,
                buffered_packets: 32,
                compression_threshold: 256,
                compression_level: 6,
            },
        },
        server: ServerConfig { motd: "m".to_string() },
        path: "config.toml".to_string(),
    };
    let info = cfg.server_info();
    assert_eq!(info.max_players, 20);
    assert_eq!(info.motd, "m");
    assert_eq!(cfg.network.advanced.compression(), Some(CompressionSettings { threshold: 256, level: 6 }));
    let mut bad = cfg.network.advanced.clone();
    bad.compression_level = 10;
    assert!(bad.compression().is_none());
}

#[test]
fn too_new_login_handshake_is_refused_in_any_state() {
    for state in [ConnectionState::Handshake, ConnectionState::Status, ConnectionState::Login, ConnectionState::Play] {
        let packet = Packets::ServerboundHandshakingHandshake(Box::new(Handshake {
            protocol_version: v32::new(755),
            server_address: BoundedString::new("h".to_string()).unwrap(),
            server_port: 1,
            next_state: 2,
        }));
        let r = process_packet(packet, state, 0, &info());
        assert_eq!(r.shutdown.as_deref(), Some(""));
        if state != ConnectionState::Handshake {
            assert_eq!(r.state, state);
        }
    }
}

#[test]
fn status_reply_sent_for_long_escaped_motd() {
    let motd: String = std::iter::repeat('\u{1}').take(5000).collect();
    let info = ServerInfo { max_players: usize::MAX, motd, compression_threshold: 256 };
    let r = process_packet(
        Packets::ServerboundStatusRequest(Box::new(snap_net::packets::Request {})),
        ConnectionState::Status,
        usize::MAX,
        &info,
    );
    assert!(r.shutdown.is_none());
    assert_eq!(r.replies.len(), 1);
}
