//! The typed messages of the wire protocol.
//!
//! Client-to-server requests and server-to-client updates, each a closed set
//! of tagged variants. The reserved variants (`MessageRequest`, `MapRequest`,
//! chat `Message`, server `Disconnect`) travel over the wire but are not yet
//! acted upon by the command processor.

use crate::player::{Player, PlayerMessage, PlayerMessageV, PlayerV};
use crate::terrain::{TileManager, TileManagerV};
use vstd::prelude::*;

verus! {

/// A request sent by a client.
#[derive(Clone, Debug, PartialEq, Eq)]
pub enum ClientMessage {
    /// Chat (reserved).
    MessageRequest(PlayerMessage),
    /// Request for a named map region (reserved).
    MapRequest(Vec<u8>),
    /// Establish or retrieve the caller's player record.
    ConnectionRequest,
    /// Move the named player by `direction * speed`.
    MoveRequest { player: Vec<u8>, direction: [i64; 3] },
    /// Graceful close notice.
    Disconnect,
}

/// Mathematical model of a client request.
pub enum ClientMessageV {
    MessageRequest(PlayerMessageV),
    MapRequest(Seq<u8>),
    ConnectionRequest,
    MoveRequest { player: Seq<u8>, dx: int, dy: int, dz: int },
    Disconnect,
}

impl View for ClientMessage {
    type V = ClientMessageV;

    open spec fn view(&self) -> ClientMessageV {
        match self {
            ClientMessage::MessageRequest(pm) => ClientMessageV::MessageRequest(pm@),
            ClientMessage::MapRequest(region) => ClientMessageV::MapRequest(region@),
            ClientMessage::ConnectionRequest => ClientMessageV::ConnectionRequest,
            ClientMessage::MoveRequest { player, direction } => ClientMessageV::MoveRequest {
                player: player@,
                dx: direction[0] as int,
                dy: direction[1] as int,
                dz: direction[2] as int,
            },
            ClientMessage::Disconnect => ClientMessageV::Disconnect,
        }
    }
}

/// An update sent by the server.
#[derive(Clone, Debug, PartialEq, Eq)]
pub enum ServerMessage {
    /// The terrain snapshot, sent once after connect.
    Terrain(TileManager),
    /// The receiving connection's own player record.
    Player(Player),
    /// Another connection's player record, broadcast on change.
    OtherPlayer(Player),
    /// Chat (reserved).
    Message(PlayerMessage),
    /// Notice that a player left (reserved).
    Disconnect(Vec<u8>),
}

/// Mathematical model of a server update.
pub enum ServerMessageV {
    Terrain(TileManagerV),
    Player(PlayerV),
    OtherPlayer(PlayerV),
    Message(PlayerMessageV),
    Disconnect(Seq<u8>),
}

impl View for ServerMessage {
    type V = ServerMessageV;

    open spec fn view(&self) -> ServerMessageV {
        match self {
            ServerMessage::Terrain(tm) => ServerMessageV::Terrain(tm@),
            ServerMessage::Player(p) => ServerMessageV::Player(p@),
            ServerMessage::OtherPlayer(p) => ServerMessageV::OtherPlayer(p@),
            ServerMessage::Message(pm) => ServerMessageV::Message(pm@),
            ServerMessage::Disconnect(id) => ServerMessageV::Disconnect(id@),
        }
    }
}

/// The views of a sequence of server updates.
pub open spec fn msgs_view(v: Seq<ServerMessage>) -> Seq<ServerMessageV> {
    v.map_values(|m: ServerMessage| m@)
}

} // verus!
