use tileworld::codec::{
    decode_client_message, decode_server_message, encode_client_message, encode_server_message,
};
use tileworld::messages::{ClientMessage, ServerMessage};
use tileworld::player::{Player, PlayerMessage};
use tileworld::terrain::TileManager;
use tileworld::tile::{Tile, TileType};

fn client_round_trip(msg: ClientMessage) {
    let frame = encode_client_message(&msg);
    let (decoded, used) = decode_client_message(&frame).expect("frame decodes");
    assert_eq!(decoded, msg);
    assert_eq!(used, frame.len());
}

fn server_round_trip(msg: ServerMessage) {
    let frame = encode_server_message(&msg);
    let (decoded, used) = decode_server_message(&frame).expect("frame decodes");
    assert_eq!(decoded, msg);
    assert_eq!(used, frame.len());
}

#[test]
fn client_frames_round_trip() {
    client_round_trip(ClientMessage::ConnectionRequest);
    client_round_trip(ClientMessage::Disconnect);
    client_round_trip(ClientMessage::MapRequest(b"region-1".to_vec()));
    client_round_trip(ClientMessage::MessageRequest(PlayerMessage {
        id: b"alice".to_vec(),
        message: b"hello world".to_vec(),
    }));
    client_round_trip(ClientMessage::MoveRequest {
        player: b"alice".to_vec(),
        direction: [1, 0, -1],
    });
    client_round_trip(ClientMessage::MoveRequest {
        player: Vec::new(),
        direction: [i64::MAX, i64::MIN, 0],
    });
}

#[test]
fn server_frames_round_trip() {
    server_round_trip(ServerMessage::Player(Player {
        id: b"alice".to_vec(),
        position: [-1000, 25, 3000],
        speed: 25,
    }));
    server_round_trip(ServerMessage::OtherPlayer(Player {
        id: b"bob".to_vec(),
        position: [i64::MAX, i64::MIN, 0],
        speed: 0,
    }));
    server_round_trip(ServerMessage::Message(PlayerMessage {
        id: b"carol".to_vec(),
        message: Vec::new(),
    }));
    server_round_trip(ServerMessage::Disconnect(b"dave".to_vec()));
    server_round_trip(ServerMessage::Terrain(TileManager::new([3, -2], None)));
    server_round_trip(ServerMessage::Terrain(TileManager {
        tiles: vec![
            Tile::new([0, 0, 0], TileType::GrassBlock),
            Tile::new([-5, 7, 2], TileType::GrassSlopeL),
            Tile::new([9, -9, -1], TileType::GrassSlopeR),
        ],
        position: [0, 0],
        size: 9,
    }));
}

#[test]
fn connection_request_has_exact_bytes() {
    let frame = encode_client_message(&ClientMessage::ConnectionRequest);
    assert_eq!(frame, vec![0, 0, 0, 1, 2]);
}

#[test]
fn move_request_has_exact_bytes() {
    let frame = encode_client_message(&ClientMessage::MoveRequest {
        player: b"ab".to_vec(),
        direction: [1, 0, -1],
    });
    let mut expected: Vec<u8> = Vec::new();
    expected.extend_from_slice(&[0, 0, 0, 31]); // frame length
    expected.push(3); // move-request tag
    expected.extend_from_slice(&[0, 0, 0, 2, 97, 98]); // id "ab"
    expected.extend_from_slice(&[0x80, 0, 0, 0, 0, 0, 0, 1]); // +1, offset binary
    expected.extend_from_slice(&[0x80, 0, 0, 0, 0, 0, 0, 0]); // 0
    expected.extend_from_slice(&[0x7f, 0xff, 0xff, 0xff, 0xff, 0xff, 0xff, 0xff]); // -1
    assert_eq!(frame, expected);
}

#[test]
fn short_streams_do_not_decode() {
    assert!(decode_client_message(&[]).is_none());
    assert!(decode_client_message(&[0, 0, 0]).is_none());
    // Announced payload longer than what follows.
    assert!(decode_client_message(&[0, 0, 0, 2, 2]).is_none());
    // Empty payload: no tag byte.
    assert!(decode_client_message(&[0, 0, 0, 0]).is_none());
}

#[test]
fn unknown_tag_does_not_decode() {
    assert!(decode_client_message(&[0, 0, 0, 1, 9]).is_none());
    assert!(decode_server_message(&[0, 0, 0, 1, 9]).is_none());
}

#[test]
fn trailing_bytes_inside_payload_do_not_decode() {
    // A connection request followed by one stray byte inside the frame.
    assert!(decode_client_message(&[0, 0, 0, 2, 2, 0]).is_none());
}

#[test]
fn bad_tile_type_byte_does_not_decode() {
    let frame = encode_server_message(&ServerMessage::Terrain(TileManager {
        tiles: vec![Tile::new([0, 0, 0], TileType::GrassBlock)],
        position: [0, 0],
        size: 1,
    }));
    let mut broken = frame.clone();
    let last = broken.len() - 1;
    broken[last] = 7; // corrupt the tile-type byte
    assert!(decode_server_message(&broken).is_none());
}

#[test]
fn decoding_consumes_one_frame_and_leaves_the_rest() {
    let mut stream = encode_client_message(&ClientMessage::Disconnect);
    let first_len = stream.len();
    stream.extend_from_slice(&encode_client_message(&ClientMessage::ConnectionRequest));
    let (msg, used) = decode_client_message(&stream).expect("first frame decodes");
    assert_eq!(msg, ClientMessage::Disconnect);
    assert_eq!(used, first_len);
    let (second, _) = decode_client_message(&stream[used..]).expect("second frame decodes");
    assert_eq!(second, ClientMessage::ConnectionRequest);
}
