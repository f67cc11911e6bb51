use snap_net::bstring::BoundedString;
use snap_net::chat::Chat;
use snap_net::packets::{
    decode_packet, Direction, Disconnect, EncryptionRequest, EncryptionResponse, Handshake,
    Initialize, LoginStart, LoginSuccess, NetworkDisconnect, PacketState, Packets, Ping, Pong,
    Request, Response, SetCompression,
};
use snap_net::varint::v32;

fn all_wire_packets() -> Vec<Packets> {
    vec![
        Packets::ServerboundHandshakingHandshake(Box::new(Handshake {
            protocol_version: v32::new(754),
            server_address: BoundedString::new("127.0.0.1".to_string()).unwrap(),
            server_port: 25565,
            next_state: 1,
        })),
        Packets::ServerboundStatusRequest(Box::new(Request {})),
        Packets::ServerboundStatusPing(Box::new(Ping { payload: -42 })),
        Packets::ServerboundLoginLoginStart(Box::new(LoginStart {
            name: BoundedString::new("tester".to_string()).unwrap(),
        })),
        Packets::ServerboundLoginEncryptionResponse(Box::new(EncryptionResponse {
            shared_secret: vec![1, 2, 3, 4],
            verify_token: vec![9, 8],
        })),
        Packets::ClientboundStatusResponse(Box::new(Response {
            json_response: BoundedString::new("{}".to_string()).unwrap(),
        })),
        Packets::ClientboundStatusPong(Box::new(Pong { payload: 42 })),
        Packets::ClientboundLoginDisconnect(Box::new(Disconnect {
            reason: Chat::new("{\"text\":\"no\"}".to_string()).unwrap(),
        })),
        Packets::ClientboundLoginEncryptionRequest(Box::new(EncryptionRequest {
            server_id: BoundedString::new(String::new()).unwrap(),
            public_key: (0..200u32).map(|i| i as u8).collect(),
            verify_token: vec![5, 6, 7, 8],
        })),
        Packets::ClientboundLoginLoginSuccess(Box::new(LoginSuccess {
            uuid: BoundedString::new("00000000-0000-0000-0000-000000000000".to_string()).unwrap(),
            username: BoundedString::new("tester".to_string()).unwrap(),
        })),
        Packets::ClientboundLoginSetCompression(Box::new(SetCompression { threshold: v32::new(256) })),
        Packets::ClientboundPlayDisconnect(Box::new(Disconnect {
            reason: Chat::new("{\"text\":\"bye\"}".to_string()).unwrap(),
        })),
        Packets::InternalNetworkDisconnect(Box::new(NetworkDisconnect {
            reason: BoundedString::new("closing".to_string()).unwrap(),
        })),
    ]
}

#[test]
fn every_wire_packet_round_trips() {
    for p in all_wire_packets() {
        let (direction, state) = p.table();
        let back = decode_packet(direction, state, p.get_id(), &p.get_data());
        assert_eq!(back.as_ref(), Some(&p), "{:?}", p);
    }
}

#[test]
fn packet_ids_follow_the_catalog() {
    let ids: Vec<u8> = all_wire_packets().iter().map(|p| p.get_id()).collect();
    assert_eq!(ids, vec![0x00, 0x00, 0x01, 0x00, 0x01, 0x00, 0x01, 0x00, 0x01, 0x02, 0x03, 0x19, 0x00]);
}

#[test]
fn encryption_response_counts_travel_on_the_wire() {
    let p = Packets::ServerboundLoginEncryptionResponse(Box::new(EncryptionResponse {
        shared_secret: vec![1, 2, 3],
        verify_token: vec![4],
    }));
    assert_eq!(p.get_data(), vec![3, 1, 2, 3, 1, 4]);
}

#[test]
fn handshake_body_layout() {
    let p = Packets::ServerboundHandshakingHandshake(Box::new(Handshake {
        protocol_version: v32::new(754),
        server_address: BoundedString::new("127.0.0.1".to_string()).unwrap(),
        server_port: 25565,
        next_state: 1,
    }));
    assert_eq!(
        p.get_data(),
        vec![0xf2, 0x05, 0x09, 0x31, 0x32, 0x37, 0x2e, 0x30, 0x2e, 0x30, 0x2e, 0x31, 0x63, 0xdd, 0x01]
    );
}

#[test]
fn ignored_packet_has_no_body_and_no_decoder() {
    let p = Packets::InternalServerInitialize(Box::new(Initialize {
        uuid: "u".to_string(),
        username: "n".to_string(),
    }));
    assert!(p.is_ignored());
    assert!(p.get_data().is_empty());
    assert_eq!(p.table(), (Direction::Internal, PacketState::Server));
    assert!(decode_packet(Direction::Internal, PacketState::Server, 0, &[]).is_none());
}

#[test]
fn unknown_ids_decode_to_nothing() {
    assert!(decode_packet(Direction::Serverbound, PacketState::Status, 0xfe, &[]).is_none());
    assert!(decode_packet(Direction::Serverbound, PacketState::Play, 0x00, &[]).is_none());
    assert!(decode_packet(Direction::Clientbound, PacketState::Handshaking, 0x00, &[]).is_none());
}

#[test]
fn truncated_body_decodes_to_nothing() {
    assert!(decode_packet(Direction::Serverbound, PacketState::Status, 0x01, &[0, 0, 0]).is_none());
}

#[test]
fn debug_rendering_names_the_variant() {
    let p = Packets::ClientboundStatusPong(Box::new(Pong { payload: 1 }));
    assert!(format!("{:?}", p).starts_with("ClientboundStatusPong"));
}
