use tileworld::messages::{ClientMessage, ServerMessage};
use tileworld::player::PlayerMessage;
use tileworld::process::{handle_client_message, should_forward};
use tileworld::terrain::TileManager;
use tileworld::world::World;

fn new_world() -> World {
    World::new(TileManager::new([0, 0], None))
}

#[test]
fn connection_request_replies_player_then_map_and_broadcasts() {
    let mut world = new_world();
    let session = b"session-a".to_vec();
    let out = handle_client_message(&mut world, &ClientMessage::ConnectionRequest, &session);
    assert_eq!(out.replies.len(), 2);
    match &out.replies[0] {
        ServerMessage::Player(p) => {
            assert_eq!(p.id, session);
            assert_eq!(p.position, [0, 0, 0]);
        }
        other => panic!("expected a Player reply, got {:?}", other),
    }
    match &out.replies[1] {
        ServerMessage::Terrain(tm) => assert_eq!(tm.tiles.len(), 81),
        other => panic!("expected a Terrain reply, got {:?}", other),
    }
    assert_eq!(out.broadcasts.len(), 1);
    match &out.broadcasts[0] {
        ServerMessage::OtherPlayer(p) => assert_eq!(p.id, session),
        other => panic!("expected an OtherPlayer broadcast, got {:?}", other),
    }
}

#[test]
fn move_request_updates_and_broadcasts() {
    let mut world = new_world();
    let session = b"session-a".to_vec();
    handle_client_message(&mut world, &ClientMessage::ConnectionRequest, &session);
    let msg = ClientMessage::MoveRequest {
        player: session.clone(),
        direction: [40, 0, 0],
    };
    let out = handle_client_message(&mut world, &msg, &session);
    assert_eq!(out.replies.len(), 1);
    assert_eq!(out.broadcasts.len(), 1);
    match &out.broadcasts[0] {
        ServerMessage::OtherPlayer(p) => {
            assert_eq!(p.id, session);
            // The flat terrain sits entirely at level 0, so neither level +1
            // nor level -1 of the destination column is occupied: the
            // horizontal move commits.
            assert_eq!(p.position, [1000, 0, 0]);
        }
        other => panic!("expected an OtherPlayer broadcast, got {:?}", other),
    }
}

#[test]
fn broadcast_excludes_the_mover_only() {
    let mut world = new_world();
    let a = b"session-a".to_vec();
    let b = b"session-b".to_vec();
    handle_client_message(&mut world, &ClientMessage::ConnectionRequest, &a);
    handle_client_message(&mut world, &ClientMessage::ConnectionRequest, &b);
    let msg = ClientMessage::MoveRequest {
        player: a.clone(),
        direction: [1, 0, 0],
    };
    let out = handle_client_message(&mut world, &msg, &a);
    let event = &out.broadcasts[0];
    assert!(!should_forward(&a, event));
    assert!(should_forward(&b, event));
}

#[test]
fn non_other_player_events_always_forward() {
    let a = b"session-a".to_vec();
    let tm = TileManager::new([0, 0], None);
    assert!(should_forward(&a, &ServerMessage::Terrain(tm)));
    assert!(should_forward(&a, &ServerMessage::Disconnect(a.clone())));
}

#[test]
fn unknown_player_move_produces_nothing() {
    let mut world = new_world();
    let a = b"session-a".to_vec();
    handle_client_message(&mut world, &ClientMessage::ConnectionRequest, &a);
    let msg = ClientMessage::MoveRequest {
        player: b"nobody".to_vec(),
        direction: [1, 0, 0],
    };
    let out = handle_client_message(&mut world, &msg, &a);
    assert!(out.replies.is_empty());
    assert!(out.broadcasts.is_empty());
    assert_eq!(world.players.len(), 1);
}

#[test]
fn disconnect_and_reserved_variants_produce_nothing() {
    let mut world = new_world();
    let a = b"session-a".to_vec();
    for msg in [
        ClientMessage::Disconnect,
        ClientMessage::MapRequest(b"region".to_vec()),
        ClientMessage::MessageRequest(PlayerMessage {
            id: a.clone(),
            message: b"hi".to_vec(),
        }),
    ] {
        let out = handle_client_message(&mut world, &msg, &a);
        assert!(out.replies.is_empty());
        assert!(out.broadcasts.is_empty());
    }
    assert!(world.players.is_empty());
}

#[test]
fn disconnect_keeps_player_records() {
    let mut world = new_world();
    let a = b"session-a".to_vec();
    handle_client_message(&mut world, &ClientMessage::ConnectionRequest, &a);
    handle_client_message(&mut world, &ClientMessage::Disconnect, &a);
    assert_eq!(world.players.len(), 1);
}
