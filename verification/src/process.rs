//! The command processor and the broadcast filter.
//!
//! One inbound client message plus the current world state map to a state
//! mutation and two ordered lists of outbound messages: private replies for
//! the requesting session, and events for the broadcast router. Each session
//! filters the broadcast stream itself with `should_forward`.

use crate::messages::{msgs_view, ClientMessage, ClientMessageV, ServerMessage, ServerMessageV};
use crate::player::bytes_eq;
use crate::world::{lemma_find_index_props, spec_connect, spec_move, World, WorldV};
use vstd::prelude::*;

verus! {

/// What one inbound message produces: private replies for the requesting
/// session (in order), and events for the broadcast router (in order).
pub struct Outcome {
    pub replies: Vec<ServerMessage>,
    pub broadcasts: Vec<ServerMessage>,
}

/// Mathematical model of one processing step: the world after it and the two
/// outbound lists.
pub struct OutcomeV {
    pub world: WorldV,
    pub replies: Seq<ServerMessageV>,
    pub broadcasts: Seq<ServerMessageV>,
}

/// The command processor's transition function.
///
/// A `ConnectionRequest` connects-or-creates the session's player and answers
/// with the player record followed by the terrain snapshot, broadcasting the
/// record to everyone else. A `MoveRequest` steps the named player and
/// answers and broadcasts its updated record — or, for an unknown id, does
/// nothing at all. `Disconnect` and the reserved variants (`MessageRequest`,
/// `MapRequest`) change nothing and produce nothing.
pub open spec fn spec_handle(w: WorldV, m: ClientMessageV, session_id: Seq<u8>) -> OutcomeV {
    match m {
        ClientMessageV::ConnectionRequest => {
            let (w2, p) = spec_connect(w, session_id);
            OutcomeV {
                world: w2,
                replies: seq![ServerMessageV::Player(p), ServerMessageV::Terrain(w2.terrain)],
                broadcasts: seq![ServerMessageV::OtherPlayer(p)],
            }
        },
        ClientMessageV::MoveRequest { player, dx, dy, dz } => {
            let (w2, r) = spec_move(w, player, dx, dy);
            match r {
                Some(p) => OutcomeV {
                    world: w2,
                    replies: seq![ServerMessageV::Player(p)],
                    broadcasts: seq![ServerMessageV::OtherPlayer(p)],
                },
                None => OutcomeV { world: w, replies: Seq::empty(), broadcasts: Seq::empty() },
            }
        },
        ClientMessageV::Disconnect => OutcomeV {
            world: w,
            replies: Seq::empty(),
            broadcasts: Seq::empty(),
        },
        ClientMessageV::MessageRequest(_) => OutcomeV {
            world: w,
            replies: Seq::empty(),
            broadcasts: Seq::empty(),
        },
        ClientMessageV::MapRequest(_) => OutcomeV {
            world: w,
            replies: Seq::empty(),
            broadcasts: Seq::empty(),
        },
    }
}

/// Apply one inbound message from the session carrying `session_id` to the
/// world, per the transition function `spec_handle`.
pub fn handle_client_message(world: &mut World, msg: &ClientMessage, session_id: &Vec<u8>) -> (out:
    Outcome)
    requires
        old(world)@.wf(),
    ensures
        final(world)@ == spec_handle(old(world)@, msg@, session_id@).world,
        msgs_view(out.replies@) == spec_handle(old(world)@, msg@, session_id@).replies,
        msgs_view(out.broadcasts@) == spec_handle(old(world)@, msg@, session_id@).broadcasts,
        final(world)@.wf(),
{
    let mut replies: Vec<ServerMessage> = Vec::new();
    let mut broadcasts: Vec<ServerMessage> = Vec::new();
    match msg {
        ClientMessage::ConnectionRequest => {
            let p = world.get_or_create_player(session_id);
            let map = world.snapshot_terrain();
            replies.push(ServerMessage::Player(p.snapshot()));
            replies.push(ServerMessage::Terrain(map));
            broadcasts.push(ServerMessage::OtherPlayer(p));
            proof {
                let o = spec_handle(old(world)@, msg@, session_id@);
                assert(msgs_view(replies@) =~= o.replies);
                assert(msgs_view(broadcasts@) =~= o.broadcasts);
            }
        },
        ClientMessage::MoveRequest { player, direction } => {
            match world.apply_move(player, *direction) {
                Some(p) => {
                    replies.push(ServerMessage::Player(p.snapshot()));
                    broadcasts.push(ServerMessage::OtherPlayer(p));
                    proof {
                        let o = spec_handle(old(world)@, msg@, session_id@);
                        assert(msgs_view(replies@) =~= o.replies);
                        assert(msgs_view(broadcasts@) =~= o.broadcasts);
                    }
                },
                None => {
                    proof {
                        let o = spec_handle(old(world)@, msg@, session_id@);
                        assert(msgs_view(replies@) =~= o.replies);
                        assert(msgs_view(broadcasts@) =~= o.broadcasts);
                    }
                },
            }
        },
        ClientMessage::Disconnect => {
            proof {
                assert(msgs_view(replies@) =~= Seq::<ServerMessageV>::empty());
                assert(msgs_view(broadcasts@) =~= Seq::<ServerMessageV>::empty());
            }
        },
        ClientMessage::MessageRequest(_) => {
            proof {
                assert(msgs_view(replies@) =~= Seq::<ServerMessageV>::empty());
                assert(msgs_view(broadcasts@) =~= Seq::<ServerMessageV>::empty());
            }
        },
        ClientMessage::MapRequest(_) => {
            proof {
                assert(msgs_view(replies@) =~= Seq::<ServerMessageV>::empty());
                assert(msgs_view(broadcasts@) =~= Seq::<ServerMessageV>::empty());
            }
        },
    }
    Outcome { replies, broadcasts }
}

/// Whether a session forwards a broadcast event to its peer: an
/// `OtherPlayer` event is suppressed exactly for the session whose own id
/// matches the event's player id; every other event kind passes through.
pub open spec fn spec_should_forward(session_id: Seq<u8>, m: ServerMessageV) -> bool {
    match m {
        ServerMessageV::OtherPlayer(p) => p.id != session_id,
        _ => true,
    }
}

/// Evaluate the per-session broadcast filter.
pub fn should_forward(session_id: &Vec<u8>, msg: &ServerMessage) -> (r: bool)
    ensures
        r == spec_should_forward(session_id@, msg@),
{
    match msg {
        ServerMessage::OtherPlayer(p) => !bytes_eq(&p.id, session_id),
        _ => true,
    }
}

/// Broadcast self-exclusion: when a known player moves, the processor
/// answers the requesting session privately with the updated record and
/// hands the router exactly one `OtherPlayer` event for it; the mover's own
/// session filters that event out, and every session with a different id
/// forwards it.
pub proof fn lemma_broadcast_self_exclusion(
    w: WorldV,
    session_id: Seq<u8>,
    mover: Seq<u8>,
    dx: int,
    dy: int,
    dz: int,
    other_session: Seq<u8>,
)
    requires
        w.contains_id(mover),
    ensures
        ({
            let o = spec_handle(
                w,
                ClientMessageV::MoveRequest { player: mover, dx, dy, dz },
                session_id,
            );
            &&& spec_move(w, mover, dx, dy).1 matches Some(p)
            &&& o.replies == seq![ServerMessageV::Player(spec_move(w, mover, dx, dy).1->0)]
            &&& o.broadcasts == seq![
                ServerMessageV::OtherPlayer(spec_move(w, mover, dx, dy).1->0),
            ]
            &&& spec_move(w, mover, dx, dy).1->0.id == mover
            &&& !spec_should_forward(mover, o.broadcasts[0])
            &&& other_session != mover ==> spec_should_forward(other_session, o.broadcasts[0])
        }),
{
    lemma_find_index_props(w.players, mover);
}

/// Unknown-player move: a movement request whose id matches no player leaves
/// the world unchanged and produces no reply and no broadcast.
pub proof fn lemma_unknown_player_move(
    w: WorldV,
    session_id: Seq<u8>,
    mover: Seq<u8>,
    dx: int,
    dy: int,
    dz: int,
)
    requires
        !w.contains_id(mover),
    ensures
        ({
            let o = spec_handle(
                w,
                ClientMessageV::MoveRequest { player: mover, dx, dy, dz },
                session_id,
            );
            o.world == w && o.replies == Seq::<ServerMessageV>::empty() && o.broadcasts
                == Seq::<ServerMessageV>::empty()
        }),
{
}

} // verus!
