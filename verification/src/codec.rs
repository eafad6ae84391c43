//! The binary message codec.
//!
//! Every message travels as one frame: a 4-byte big-endian length prefix
//! followed by exactly that many payload bytes. The payload is a one-byte
//! variant tag followed by the variant's fields. Integers are big-endian;
//! signed 64-bit values are shifted into the unsigned range first (offset
//! binary), byte strings carry their own 4-byte length prefix.
//!
//! The format is defined by spec functions (`client_frame`, `server_frame`,
//! `spec_decode_client`, `spec_decode_server`); the executable encoder and
//! decoder are proved to match them, and decoding is proved to invert
//! encoding.

use crate::bytes::{
    be32, be64, i64_bytes, i64_shifted, is_i64, lemma_u32_bytes_len, lemma_u32_bytes_roundtrip,
    lemma_u64_bytes_len, lemma_u64_bytes_roundtrip, parse_i64, parse_u32, push_i64, push_u32,
    take_i64, take_u32, u32_bytes, u64_bytes,
};
use crate::messages::{ClientMessage, ClientMessageV, ServerMessage, ServerMessageV};
use crate::player::{Player, PlayerMessage, PlayerMessageV, PlayerV};
use crate::terrain::{TileManager, TileManagerV};
use crate::tile::{Tile, TileType, TileV};
use vstd::prelude::*;

verus! {

broadcast use lemma_u32_bytes_len, lemma_u64_bytes_len;

/// A length-prefixed byte string: four big-endian length bytes, then the
/// bytes themselves.
pub open spec fn len_bytes(b: Seq<u8>) -> Seq<u8> {
    u32_bytes(b.len() as int) + b
}

/// Byte strings the framing admits: comfortably below the 32-bit length
/// prefix so that whole payloads stay below it too.
pub open spec fn valid_bytes(b: Seq<u8>) -> bool {
    b.len() < 0x1000_0000
}

/// Append a length-prefixed byte string.
pub fn push_bytes(out: &mut Vec<u8>, b: &Vec<u8>)
    requires
        valid_bytes(b@),
    ensures
        final(out)@ == old(out)@ + len_bytes(b@),
{
    push_u32(out, b.len() as u32);
    let n: usize = b.len();
    let mut k: usize = 0;
    while k < n
        invariant
            n == b@.len(),
            k <= n,
            out@ == old(out)@ + u32_bytes(b@.len() as int) + b@.take(k as int),
        decreases n - k,
    {
        out.push(b[k]);
        proof {
            assert(b@.take(k + 1 as int) =~= b@.take(k as int).push(b@[k as int]));
            assert(out@ =~= old(out)@ + u32_bytes(b@.len() as int) + b@.take(k + 1 as int));
        }
        k = k + 1;
    }
    proof {
        assert(b@.take(n as int) =~= b@);
        assert(out@ =~= old(out)@ + len_bytes(b@));
    }
}

/// Parse a length-prefixed byte string at `i`.
pub open spec fn parse_bytes(s: Seq<u8>, i: int) -> Option<(Seq<u8>, int)> {
    match parse_u32(s, i) {
        Some((n, j)) => if j + n <= s.len() {
            Some((s.subrange(j, j + n), j + n))
        } else {
            None
        },
        None => None,
    }
}

/// Read a length-prefixed byte string at `i`, copying it out.
pub fn take_bytes(s: &[u8], i: usize) -> (r: Option<(Vec<u8>, usize)>)
    ensures
        match r {
            Some((b, j)) => parse_bytes(s@, i as int) == Some((b@, j as int)),
            None => parse_bytes(s@, i as int) is None,
        },
{
    let (n32, j) = match take_u32(s, i) {
        Some(p) => p,
        None => {
            return None;
        },
    };
    let n: usize = n32 as usize;
    if n > s.len() - j {
        return None;
    }
    let mut b: Vec<u8> = Vec::new();
    let mut k: usize = 0;
    while k < n
        invariant
            j + n <= s@.len(),
            j + n <= usize::MAX,
            k <= n,
            b@ == s@.subrange(j as int, j + k as int),
        decreases n - k,
    {
        b.push(s[j + k]);
        proof {
            assert(b@ =~= s@.subrange(j as int, j + k + 1 as int));
        }
        k = k + 1;
    }
    Some((b, j + n))
}

// ---------------------------------------------------------------------------
// Message encodings (spec).
// ---------------------------------------------------------------------------

/// Variant tag of a chat request.
pub const TAG_MESSAGE_REQUEST: u8 = 0;

/// Variant tag of a map-region request.
pub const TAG_MAP_REQUEST: u8 = 1;

/// Variant tag of a connection request.
pub const TAG_CONNECTION_REQUEST: u8 = 2;

/// Variant tag of a movement request.
pub const TAG_MOVE_REQUEST: u8 = 3;

/// Variant tag of a client disconnect notice.
pub const TAG_CLIENT_DISCONNECT: u8 = 4;

/// Variant tag of a terrain snapshot.
pub const TAG_TERRAIN: u8 = 0;

/// Variant tag of the recipient's own player record.
pub const TAG_PLAYER: u8 = 1;

/// Variant tag of another connection's player record.
pub const TAG_OTHER_PLAYER: u8 = 2;

/// Variant tag of a chat payload from the server.
pub const TAG_SERVER_MESSAGE: u8 = 3;

/// Variant tag of a server disconnect notice.
pub const TAG_SERVER_DISCONNECT: u8 = 4;

/// The wire byte of a tile type.
pub open spec fn tile_type_byte(t: TileType) -> u8 {
    match t {
        TileType::GrassBlock => 0,
        TileType::GrassSlopeL => 1,
        TileType::GrassSlopeR => 2,
    }
}

/// The field bytes of a player record.
pub open spec fn enc_player(p: PlayerV) -> Seq<u8> {
    len_bytes(p.id) + i64_bytes(p.x) + i64_bytes(p.y) + i64_bytes(p.z) + i64_bytes(p.speed)
}

/// The field bytes of a chat payload.
pub open spec fn enc_player_message(m: PlayerMessageV) -> Seq<u8> {
    len_bytes(m.id) + len_bytes(m.message)
}

/// The field bytes of one tile.
pub open spec fn enc_tile(t: TileV) -> Seq<u8> {
    i64_bytes(t.x) + i64_bytes(t.y) + i64_bytes(t.z) + seq![tile_type_byte(t.tile_type)]
}

/// The field bytes of a sequence of tiles, in order.
pub open spec fn enc_tiles(ts: Seq<TileV>) -> Seq<u8>
    decreases ts.len(),
{
    if ts.len() == 0 {
        Seq::empty()
    } else {
        enc_tile(ts[0]) + enc_tiles(ts.drop_first())
    }
}

/// The field bytes of a terrain snapshot: center, radius, tile count, tiles.
pub open spec fn enc_terrain(t: TileManagerV) -> Seq<u8> {
    i64_bytes(t.cx) + i64_bytes(t.cy) + seq![t.size as u8] + u32_bytes(t.tiles.len() as int)
        + enc_tiles(t.tiles)
}

/// A player record the framing admits.
pub open spec fn valid_player(p: PlayerV) -> bool {
    valid_bytes(p.id) && is_i64(p.x) && is_i64(p.y) && is_i64(p.z) && is_i64(p.speed)
}

/// A chat payload the framing admits.
pub open spec fn valid_player_message(m: PlayerMessageV) -> bool {
    valid_bytes(m.id) && valid_bytes(m.message)
}

/// A tile the framing admits.
pub open spec fn valid_tile(t: TileV) -> bool {
    is_i64(t.x) && is_i64(t.y) && is_i64(t.z)
}

/// A terrain snapshot the framing admits.
pub open spec fn valid_terrain(t: TileManagerV) -> bool {
    &&& is_i64(t.cx)
    &&& is_i64(t.cy)
    &&& 0 <= t.size < 256
    &&& t.tiles.len() < 0x100_0000
    &&& forall|i: int| 0 <= i < t.tiles.len() ==> valid_tile(#[trigger] t.tiles[i])
}

/// A client request the framing admits.
pub open spec fn valid_client_msg(m: ClientMessageV) -> bool {
    match m {
        ClientMessageV::MessageRequest(pm) => valid_player_message(pm),
        ClientMessageV::MapRequest(region) => valid_bytes(region),
        ClientMessageV::ConnectionRequest => true,
        ClientMessageV::MoveRequest { player, dx, dy, dz } => valid_bytes(player) && is_i64(dx)
            && is_i64(dy) && is_i64(dz),
        ClientMessageV::Disconnect => true,
    }
}

/// A server update the framing admits.
pub open spec fn valid_server_msg(m: ServerMessageV) -> bool {
    match m {
        ServerMessageV::Terrain(t) => valid_terrain(t),
        ServerMessageV::Player(p) => valid_player(p),
        ServerMessageV::OtherPlayer(p) => valid_player(p),
        ServerMessageV::Message(pm) => valid_player_message(pm),
        ServerMessageV::Disconnect(id) => valid_bytes(id),
    }
}

/// The payload bytes of a client request: tag, then fields.
pub open spec fn client_payload(m: ClientMessageV) -> Seq<u8> {
    match m {
        ClientMessageV::MessageRequest(pm) => seq![TAG_MESSAGE_REQUEST] + enc_player_message(pm),
        ClientMessageV::MapRequest(region) => seq![TAG_MAP_REQUEST] + len_bytes(region),
        ClientMessageV::ConnectionRequest => seq![TAG_CONNECTION_REQUEST],
        ClientMessageV::MoveRequest { player, dx, dy, dz } => seq![TAG_MOVE_REQUEST] + len_bytes(
            player,
        ) + i64_bytes(dx) + i64_bytes(dy) + i64_bytes(dz),
        ClientMessageV::Disconnect => seq![TAG_CLIENT_DISCONNECT],
    }
}

/// The payload bytes of a server update: tag, then fields.
pub open spec fn server_payload(m: ServerMessageV) -> Seq<u8> {
    match m {
        ServerMessageV::Terrain(t) => seq![TAG_TERRAIN] + enc_terrain(t),
        ServerMessageV::Player(p) => seq![TAG_PLAYER] + enc_player(p),
        ServerMessageV::OtherPlayer(p) => seq![TAG_OTHER_PLAYER] + enc_player(p),
        ServerMessageV::Message(pm) => seq![TAG_SERVER_MESSAGE] + enc_player_message(pm),
        ServerMessageV::Disconnect(id) => seq![TAG_SERVER_DISCONNECT] + len_bytes(id),
    }
}

/// The whole frame of a client request: length prefix, then payload.
pub open spec fn client_frame(m: ClientMessageV) -> Seq<u8> {
    u32_bytes(client_payload(m).len() as int) + client_payload(m)
}

/// The whole frame of a server update: length prefix, then payload.
pub open spec fn server_frame(m: ServerMessageV) -> Seq<u8> {
    u32_bytes(server_payload(m).len() as int) + server_payload(m)
}

/// The tile bytes grow by exactly one tile's encoding at a time.
pub proof fn lemma_enc_tiles_len(ts: Seq<TileV>)
    ensures
        enc_tiles(ts).len() == 25 * ts.len(),
    decreases ts.len(),
{
    if ts.len() > 0 {
        lemma_enc_tiles_len(ts.drop_first());
    }
}

/// Appending one tile to the sequence appends its encoding to the bytes.
#[verifier::rlimit(50)]
pub proof fn lemma_enc_tiles_snoc(ts: Seq<TileV>, t: TileV)
    ensures
        enc_tiles(ts.push(t)) == enc_tiles(ts) + enc_tile(t),
    decreases ts.len(),
{
    if ts.len() == 0 {
        let s = ts.push(t);
        assert(s[0] == t);
        assert(s.drop_first() =~= Seq::<TileV>::empty());
        assert(enc_tiles(Seq::<TileV>::empty()) == Seq::<u8>::empty());
        assert(enc_tiles(s) == enc_tile(t) + Seq::<u8>::empty());
        assert(enc_tile(t) + Seq::<u8>::empty() =~= enc_tile(t));
        assert(enc_tiles(ts) == Seq::<u8>::empty());
        assert(Seq::<u8>::empty() + enc_tile(t) =~= enc_tile(t));
    } else {
        assert(ts.push(t).drop_first() =~= ts.drop_first().push(t));
        lemma_enc_tiles_snoc(ts.drop_first(), t);
        assert(enc_tiles(ts.push(t)) =~= enc_tiles(ts) + enc_tile(t));
    }
}

/// A valid payload fits the 32-bit length prefix.
pub proof fn lemma_client_payload_len(m: ClientMessageV)
    requires
        valid_client_msg(m),
    ensures
        client_payload(m).len() < 0x1_0000_0000,
{
}

/// A valid payload fits the 32-bit length prefix.
pub proof fn lemma_server_payload_len(m: ServerMessageV)
    requires
        valid_server_msg(m),
    ensures
        server_payload(m).len() < 0x1_0000_0000,
{
    match m {
        ServerMessageV::Terrain(t) => {
            lemma_enc_tiles_len(t.tiles);
        },
        _ => {},
    }
}

// ---------------------------------------------------------------------------
// Executable encoders.
// ---------------------------------------------------------------------------

/// Append the field bytes of a player record.
fn push_player(out: &mut Vec<u8>, p: &Player)
    requires
        valid_player(p@),
    ensures
        final(out)@ == old(out)@ + enc_player(p@),
{
    push_bytes(out, &p.id);
    push_i64(out, p.position[0]);
    push_i64(out, p.position[1]);
    push_i64(out, p.position[2]);
    push_i64(out, p.speed);
    proof {
        assert(out@ =~= old(out)@ + enc_player(p@));
    }
}

/// Append the field bytes of a chat payload.
fn push_player_message(out: &mut Vec<u8>, m: &PlayerMessage)
    requires
        valid_player_message(m@),
    ensures
        final(out)@ == old(out)@ + enc_player_message(m@),
{
    push_bytes(out, &m.id);
    push_bytes(out, &m.message);
    proof {
        assert(out@ =~= old(out)@ + enc_player_message(m@));
    }
}

/// The wire byte of a tile type.
fn tile_type_to_byte(t: TileType) -> (b: u8)
    ensures
        b == tile_type_byte(t),
{
    match t {
        TileType::GrassBlock => 0,
        TileType::GrassSlopeL => 1,
        TileType::GrassSlopeR => 2,
    }
}

/// Append the field bytes of one tile.
fn push_tile(out: &mut Vec<u8>, t: &Tile)
    ensures
        final(out)@ == old(out)@ + enc_tile(t@),
{
    push_i64(out, t.world_position[0]);
    push_i64(out, t.world_position[1]);
    push_i64(out, t.world_position[2]);
    out.push(tile_type_to_byte(t.tile_type));
    proof {
        assert(out@ =~= old(out)@ + enc_tile(t@));
    }
}

/// Append the field bytes of a terrain snapshot.
#[verifier::rlimit(50)]
fn push_terrain(out: &mut Vec<u8>, t: &TileManager)
    requires
        valid_terrain(t@),
    ensures
        final(out)@ == old(out)@ + enc_terrain(t@),
{
    push_i64(out, t.position[0]);
    push_i64(out, t.position[1]);
    out.push(t.size);
    push_u32(out, t.tiles.len() as u32);
    let ghost header: Seq<u8> = out@;
    proof {
        assert(header =~= old(out)@ + (i64_bytes(t@.cx) + i64_bytes(t@.cy) + seq![t@.size as u8]
            + u32_bytes(t@.tiles.len() as int)));
        assert(t@.tiles.take(0) =~= Seq::<TileV>::empty());
        assert(enc_tiles(Seq::<TileV>::empty()) == Seq::<u8>::empty());
        assert(header + enc_tiles(t@.tiles.take(0)) =~= header);
    }
    let n: usize = t.tiles.len();
    let mut k: usize = 0;
    while k < n
        invariant
            n == t.tiles@.len(),
            k <= n,
            valid_terrain(t@),
            out@ == header + enc_tiles(t@.tiles.take(k as int)),
        decreases n - k,
    {
        push_tile(out, &t.tiles[k]);
        proof {
            assert(t@.tiles[k as int] == t.tiles@[k as int]@);
            assert(t@.tiles.take(k + 1 as int) =~= t@.tiles.take(k as int).push(
                t@.tiles[k as int],
            ));
            lemma_enc_tiles_snoc(t@.tiles.take(k as int), t@.tiles[k as int]);
            assert(out@ =~= header + enc_tiles(t@.tiles.take(k + 1 as int)));
        }
        k = k + 1;
    }
    proof {
        assert(out@ == header + enc_tiles(t@.tiles.take(n as int)));
        assert(t@.tiles.take(n as int) =~= t@.tiles);
        assert(enc_tiles(t@.tiles.take(n as int)) == enc_tiles(t@.tiles));
        assert(out@ == header + enc_tiles(t@.tiles));
        assert(enc_terrain(t@) == i64_bytes(t@.cx) + i64_bytes(t@.cy) + seq![t@.size as u8]
            + u32_bytes(t@.tiles.len() as int) + enc_tiles(t@.tiles));
        assert(out@ =~= old(out)@ + enc_terrain(t@));
    }
}

/// Wrap payload bytes into a frame: 32-bit big-endian length, then payload.
fn finish_frame(payload: Vec<u8>) -> (out: Vec<u8>)
    requires
        payload@.len() < 0x1_0000_0000,
    ensures
        out@ == u32_bytes(payload@.len() as int) + payload@,
{
    let mut out: Vec<u8> = Vec::new();
    push_u32(&mut out, payload.len() as u32);
    let mut body = payload;
    out.append(&mut body);
    proof {
        assert(out@ =~= u32_bytes(payload@.len() as int) + payload@);
    }
    out
}

/// Encode a client request as one frame.
pub fn encode_client_message(m: &ClientMessage) -> (out: Vec<u8>)
    requires
        valid_client_msg(m@),
    ensures
        out@ == client_frame(m@),
{
    let mut payload: Vec<u8> = Vec::new();
    match m {
        ClientMessage::MessageRequest(pm) => {
            payload.push(TAG_MESSAGE_REQUEST);
            push_player_message(&mut payload, pm);
        },
        ClientMessage::MapRequest(region) => {
            payload.push(TAG_MAP_REQUEST);
            push_bytes(&mut payload, region);
        },
        ClientMessage::ConnectionRequest => {
            payload.push(TAG_CONNECTION_REQUEST);
        },
        ClientMessage::MoveRequest { player, direction } => {
            payload.push(TAG_MOVE_REQUEST);
            push_bytes(&mut payload, player);
            push_i64(&mut payload, direction[0]);
            push_i64(&mut payload, direction[1]);
            push_i64(&mut payload, direction[2]);
        },
        ClientMessage::Disconnect => {
            payload.push(TAG_CLIENT_DISCONNECT);
        },
    }
    proof {
        lemma_client_payload_len(m@);
        assert(payload@ =~= client_payload(m@));
    }
    finish_frame(payload)
}

/// Encode a server update as one frame.
pub fn encode_server_message(m: &ServerMessage) -> (out: Vec<u8>)
    requires
        valid_server_msg(m@),
    ensures
        out@ == server_frame(m@),
{
    let mut payload: Vec<u8> = Vec::new();
    match m {
        ServerMessage::Terrain(t) => {
            payload.push(TAG_TERRAIN);
            push_terrain(&mut payload, t);
        },
        ServerMessage::Player(p) => {
            payload.push(TAG_PLAYER);
            push_player(&mut payload, p);
        },
        ServerMessage::OtherPlayer(p) => {
            payload.push(TAG_OTHER_PLAYER);
            push_player(&mut payload, p);
        },
        ServerMessage::Message(pm) => {
            payload.push(TAG_SERVER_MESSAGE);
            push_player_message(&mut payload, pm);
        },
        ServerMessage::Disconnect(id) => {
            payload.push(TAG_SERVER_DISCONNECT);
            push_bytes(&mut payload, id);
        },
    }
    proof {
        lemma_server_payload_len(m@);
        assert(payload@ =~= server_payload(m@));
    }
    finish_frame(payload)
}

// ---------------------------------------------------------------------------
// Message parsers (spec).
// ---------------------------------------------------------------------------

/// The tile type denoted by a wire byte, if any.
pub open spec fn parse_tile_type(b: u8) -> Option<TileType> {
    if b == 0 {
        Some(TileType::GrassBlock)
    } else if b == 1 {
        Some(TileType::GrassSlopeL)
    } else if b == 2 {
        Some(TileType::GrassSlopeR)
    } else {
        None
    }
}

/// Parse the field bytes of a player record at `i`.
pub open spec fn parse_player(s: Seq<u8>, i: int) -> Option<(PlayerV, int)> {
    match parse_bytes(s, i) {
        Some((id, j1)) => match parse_i64(s, j1) {
            Some((x, j2)) => match parse_i64(s, j2) {
                Some((y, j3)) => match parse_i64(s, j3) {
                    Some((z, j4)) => match parse_i64(s, j4) {
                        Some((speed, j5)) => Some((PlayerV { id, x, y, z, speed }, j5)),
                        None => None,
                    },
                    None => None,
                },
                None => None,
            },
            None => None,
        },
        None => None,
    }
}

/// Parse the field bytes of a chat payload at `i`.
pub open spec fn parse_player_message(s: Seq<u8>, i: int) -> Option<(PlayerMessageV, int)> {
    match parse_bytes(s, i) {
        Some((id, j1)) => match parse_bytes(s, j1) {
            Some((message, j2)) => Some((PlayerMessageV { id, message }, j2)),
            None => None,
        },
        None => None,
    }
}

/// Parse the field bytes of one tile at `i`.
pub open spec fn parse_tile(s: Seq<u8>, i: int) -> Option<(TileV, int)> {
    match parse_i64(s, i) {
        Some((x, j1)) => match parse_i64(s, j1) {
            Some((y, j2)) => match parse_i64(s, j2) {
                Some((z, j3)) => if j3 < s.len() {
                    match parse_tile_type(s[j3]) {
                        Some(tile_type) => Some((TileV { tile_type, x, y, z }, j3 + 1)),
                        None => None,
                    }
                } else {
                    None
                },
                None => None,
            },
            None => None,
        },
        None => None,
    }
}

/// Parse `n` consecutive tiles at `i`.
pub open spec fn parse_tiles(s: Seq<u8>, i: int, n: int) -> Option<(Seq<TileV>, int)>
    decreases n,
{
    if n <= 0 {
        Some((Seq::empty(), i))
    } else {
        match parse_tile(s, i) {
            Some((t, j)) => match parse_tiles(s, j, n - 1) {
                Some((ts, e)) => Some((seq![t] + ts, e)),
                None => None,
            },
            None => None,
        }
    }
}

/// Parse the field bytes of a terrain snapshot at `i`.
pub open spec fn parse_terrain(s: Seq<u8>, i: int) -> Option<(TileManagerV, int)> {
    match parse_i64(s, i) {
        Some((cx, j1)) => match parse_i64(s, j1) {
            Some((cy, j2)) => if j2 < s.len() {
                let size = s[j2] as int;
                match parse_u32(s, j2 + 1) {
                    Some((n, j3)) => match parse_tiles(s, j3, n) {
                        Some((tiles, e)) => Some((TileManagerV { tiles, cx, cy, size }, e)),
                        None => None,
                    },
                    None => None,
                }
            } else {
                None
            },
            None => None,
        },
        None => None,
    }
}

/// Parse a whole client payload: tag, fields, nothing left over.
pub open spec fn parse_client_payload(p: Seq<u8>) -> Option<ClientMessageV> {
    if p.len() < 1 {
        None
    } else {
        let tag = p[0];
        if tag == TAG_MESSAGE_REQUEST {
            match parse_player_message(p, 1) {
                Some((pm, j)) => if j == p.len() {
                    Some(ClientMessageV::MessageRequest(pm))
                } else {
                    None
                },
                None => None,
            }
        } else if tag == TAG_MAP_REQUEST {
            match parse_bytes(p, 1) {
                Some((region, j)) => if j == p.len() {
                    Some(ClientMessageV::MapRequest(region))
                } else {
                    None
                },
                None => None,
            }
        } else if tag == TAG_CONNECTION_REQUEST {
            if p.len() == 1 {
                Some(ClientMessageV::ConnectionRequest)
            } else {
                None
            }
        } else if tag == TAG_MOVE_REQUEST {
            match parse_bytes(p, 1) {
                Some((player, j1)) => match parse_i64(p, j1) {
                    Some((dx, j2)) => match parse_i64(p, j2) {
                        Some((dy, j3)) => match parse_i64(p, j3) {
                            Some((dz, j4)) => if j4 == p.len() {
                                Some(ClientMessageV::MoveRequest { player, dx, dy, dz })
                            } else {
                                None
                            },
                            None => None,
                        },
                        None => None,
                    },
                    None => None,
                },
                None => None,
            }
        } else if tag == TAG_CLIENT_DISCONNECT {
            if p.len() == 1 {
                Some(ClientMessageV::Disconnect)
            } else {
                None
            }
        } else {
            None
        }
    }
}

/// Parse a whole server payload: tag, fields, nothing left over.
pub open spec fn parse_server_payload(p: Seq<u8>) -> Option<ServerMessageV> {
    if p.len() < 1 {
        None
    } else {
        let tag = p[0];
        if tag == TAG_TERRAIN {
            match parse_terrain(p, 1) {
                Some((t, j)) => if j == p.len() {
                    Some(ServerMessageV::Terrain(t))
                } else {
                    None
                },
                None => None,
            }
        } else if tag == TAG_PLAYER {
            match parse_player(p, 1) {
                Some((pl, j)) => if j == p.len() {
                    Some(ServerMessageV::Player(pl))
                } else {
                    None
                },
                None => None,
            }
        } else if tag == TAG_OTHER_PLAYER {
            match parse_player(p, 1) {
                Some((pl, j)) => if j == p.len() {
                    Some(ServerMessageV::OtherPlayer(pl))
                } else {
                    None
                },
                None => None,
            }
        } else if tag == TAG_SERVER_MESSAGE {
            match parse_player_message(p, 1) {
                Some((pm, j)) => if j == p.len() {
                    Some(ServerMessageV::Message(pm))
                } else {
                    None
                },
                None => None,
            }
        } else if tag == TAG_SERVER_DISCONNECT {
            match parse_bytes(p, 1) {
                Some((id, j)) => if j == p.len() {
                    Some(ServerMessageV::Disconnect(id))
                } else {
                    None
                },
                None => None,
            }
        } else {
            None
        }
    }
}

/// Decode the first frame of a byte stream into a client request: `None` on
/// anything but a complete frame holding one whole, well-formed payload.
pub open spec fn spec_decode_client(s: Seq<u8>) -> Option<(ClientMessageV, int)> {
    match parse_u32(s, 0) {
        Some((n, j)) => if j + n <= s.len() {
            match parse_client_payload(s.subrange(j, j + n)) {
                Some(m) => Some((m, j + n)),
                None => None,
            }
        } else {
            None
        },
        None => None,
    }
}

/// Decode the first frame of a byte stream into a server update: `None` on
/// anything but a complete frame holding one whole, well-formed payload.
pub open spec fn spec_decode_server(s: Seq<u8>) -> Option<(ServerMessageV, int)> {
    match parse_u32(s, 0) {
        Some((n, j)) => if j + n <= s.len() {
            match parse_server_payload(s.subrange(j, j + n)) {
                Some(m) => Some((m, j + n)),
                None => None,
            }
        } else {
            None
        },
        None => None,
    }
}

// ---------------------------------------------------------------------------
// Executable decoders.
// ---------------------------------------------------------------------------

/// Read one tile-type byte at `i`.
fn take_tile_type(s: &[u8], i: usize) -> (r: Option<(TileType, usize)>)
    ensures
        match r {
            Some((t, j)) => i < s@.len() && parse_tile_type(s@[i as int]) == Some(t) && j == i + 1,
            None => i >= s@.len() || parse_tile_type(s@[i as int]) is None,
        },
{
    if i >= s.len() {
        return None;
    }
    let b = s[i];
    if b == 0 {
        Some((TileType::GrassBlock, i + 1))
    } else if b == 1 {
        Some((TileType::GrassSlopeL, i + 1))
    } else if b == 2 {
        Some((TileType::GrassSlopeR, i + 1))
    } else {
        None
    }
}

/// Read the field bytes of a player record at `i`.
fn take_player(s: &[u8], i: usize) -> (r: Option<(Player, usize)>)
    ensures
        match r {
            Some((p, j)) => parse_player(s@, i as int) == Some((p@, j as int)),
            None => parse_player(s@, i as int) is None,
        },
{
    let (id, j1) = match take_bytes(s, i) {
        Some(p) => p,
        None => {
            return None;
        },
    };
    let (x, j2) = match take_i64(s, j1) {
        Some(p) => p,
        None => {
            return None;
        },
    };
    let (y, j3) = match take_i64(s, j2) {
        Some(p) => p,
        None => {
            return None;
        },
    };
    let (z, j4) = match take_i64(s, j3) {
        Some(p) => p,
        None => {
            return None;
        },
    };
    let (speed, j5) = match take_i64(s, j4) {
        Some(p) => p,
        None => {
            return None;
        },
    };
    Some((Player { id, position: [x, y, z], speed }, j5))
}

/// Read the field bytes of a chat payload at `i`.
fn take_player_message(s: &[u8], i: usize) -> (r: Option<(PlayerMessage, usize)>)
    ensures
        match r {
            Some((m, j)) => parse_player_message(s@, i as int) == Some((m@, j as int)),
            None => parse_player_message(s@, i as int) is None,
        },
{
    let (id, j1) = match take_bytes(s, i) {
        Some(p) => p,
        None => {
            return None;
        },
    };
    let (message, j2) = match take_bytes(s, j1) {
        Some(p) => p,
        None => {
            return None;
        },
    };
    Some((PlayerMessage { id, message }, j2))
}

/// Read the field bytes of one tile at `i`.
fn take_tile(s: &[u8], i: usize) -> (r: Option<(Tile, usize)>)
    ensures
        match r {
            Some((t, j)) => parse_tile(s@, i as int) == Some((t@, j as int)),
            None => parse_tile(s@, i as int) is None,
        },
{
    let (x, j1) = match take_i64(s, i) {
        Some(p) => p,
        None => {
            return None;
        },
    };
    let (y, j2) = match take_i64(s, j1) {
        Some(p) => p,
        None => {
            return None;
        },
    };
    let (z, j3) = match take_i64(s, j2) {
        Some(p) => p,
        None => {
            return None;
        },
    };
    let (tile_type, j4) = match take_tile_type(s, j3) {
        Some(p) => p,
        None => {
            return None;
        },
    };
    Some((Tile { tile_type, world_position: [x, y, z] }, j4))
}

/// Read the field bytes of a terrain snapshot at `i`.
#[verifier::loop_isolation(false)]
fn take_terrain(s: &[u8], i: usize) -> (r: Option<(TileManager, usize)>)
    ensures
        match r {
            Some((t, j)) => parse_terrain(s@, i as int) == Some((t@, j as int)),
            None => parse_terrain(s@, i as int) is None,
        },
{
    let (cx, j1) = match take_i64(s, i) {
        Some(p) => p,
        None => {
            return None;
        },
    };
    let (cy, j2) = match take_i64(s, j1) {
        Some(p) => p,
        None => {
            return None;
        },
    };
    if j2 >= s.len() {
        return None;
    }
    let size: u8 = s[j2];
    let (count32, j3) = match take_u32(s, j2 + 1) {
        Some(p) => p,
        None => {
            return None;
        },
    };
    let count: usize = count32 as usize;
    let ghost count_spec: int = count as int;
    let mut tiles: Vec<Tile> = Vec::new();
    let mut pos: usize = j3;
    let mut k: usize = 0;
    while k < count
        invariant
            k <= count,
            count_spec == count as int,
            tiles@.len() == k,
            parse_tiles(s@, j3 as int, count_spec) == match parse_tiles(
                s@,
                pos as int,
                count_spec - k,
            ) {
                Some((ts, e)) => Some((tiles@.map_values(|t: Tile| t@) + ts, e)),
                None => None::<(Seq<TileV>, int)>,
            },
        decreases count - k,
    {
        let ghost pre_views = tiles@.map_values(|t: Tile| t@);
        let (t, next) = match take_tile(s, pos) {
            Some(p) => p,
            None => {
                return None;
            },
        };
        tiles.push(t);
        proof {
            assert(tiles@.map_values(|t: Tile| t@) =~= pre_views.push(t@));
            match parse_tiles(s@, next as int, count_spec - k - 1) {
                Some((ts, e)) => {
                    assert(pre_views + (seq![t@] + ts) =~= pre_views.push(t@) + ts);
                },
                None => {},
            }
        }
        pos = next;
        k = k + 1;
    }
    proof {
        assert(parse_tiles(s@, pos as int, 0) == Some((Seq::<TileV>::empty(), pos as int)));
        assert(tiles@.map_values(|t: Tile| t@) + Seq::<TileV>::empty() =~= tiles@.map_values(
            |t: Tile| t@,
        ));
    }
    let tm = TileManager { tiles, position: [cx, cy], size };
    Some((tm, pos))
}

/// Copy `n` bytes starting at `start` out of the stream.
fn copy_range(s: &[u8], start: usize, n: usize) -> (b: Vec<u8>)
    requires
        start + n <= s@.len(),
        start + n <= usize::MAX,
    ensures
        b@ == s@.subrange(start as int, start + n),
{
    let mut b: Vec<u8> = Vec::new();
    let mut k: usize = 0;
    while k < n
        invariant
            start + n <= s@.len(),
            start + n <= usize::MAX,
            k <= n,
            b@ == s@.subrange(start as int, start + k as int),
        decreases n - k,
    {
        b.push(s[start + k]);
        proof {
            assert(b@ =~= s@.subrange(start as int, start + k + 1 as int));
        }
        k = k + 1;
    }
    b
}

/// Decode a whole client payload: tag, fields, nothing left over.
fn read_client_payload(p: &Vec<u8>) -> (r: Option<ClientMessage>)
    ensures
        match r {
            Some(m) => parse_client_payload(p@) == Some(m@),
            None => parse_client_payload(p@) is None,
        },
{
    if p.len() < 1 {
        return None;
    }
    let tag = p[0];
    let s: &[u8] = p.as_slice();
    if tag == TAG_MESSAGE_REQUEST {
        match take_player_message(s, 1) {
            Some((pm, j)) => if j == p.len() {
                Some(ClientMessage::MessageRequest(pm))
            } else {
                None
            },
            None => None,
        }
    } else if tag == TAG_MAP_REQUEST {
        match take_bytes(s, 1) {
            Some((region, j)) => if j == p.len() {
                Some(ClientMessage::MapRequest(region))
            } else {
                None
            },
            None => None,
        }
    } else if tag == TAG_CONNECTION_REQUEST {
        if p.len() == 1 {
            Some(ClientMessage::ConnectionRequest)
        } else {
            None
        }
    } else if tag == TAG_MOVE_REQUEST {
        let (player, j1) = match take_bytes(s, 1) {
            Some(q) => q,
            None => {
                return None;
            },
        };
        let (dx, j2) = match take_i64(s, j1) {
            Some(q) => q,
            None => {
                return None;
            },
        };
        let (dy, j3) = match take_i64(s, j2) {
            Some(q) => q,
            None => {
                return None;
            },
        };
        let (dz, j4) = match take_i64(s, j3) {
            Some(q) => q,
            None => {
                return None;
            },
        };
        if j4 == p.len() {
            Some(ClientMessage::MoveRequest { player, direction: [dx, dy, dz] })
        } else {
            None
        }
    } else if tag == TAG_CLIENT_DISCONNECT {
        if p.len() == 1 {
            Some(ClientMessage::Disconnect)
        } else {
            None
        }
    } else {
        None
    }
}

/// Decode a whole server payload: tag, fields, nothing left over.
fn read_server_payload(p: &Vec<u8>) -> (r: Option<ServerMessage>)
    ensures
        match r {
            Some(m) => parse_server_payload(p@) == Some(m@),
            None => parse_server_payload(p@) is None,
        },
{
    if p.len() < 1 {
        return None;
    }
    let tag = p[0];
    let s: &[u8] = p.as_slice();
    if tag == TAG_TERRAIN {
        match take_terrain(s, 1) {
            Some((t, j)) => if j == p.len() {
                Some(ServerMessage::Terrain(t))
            } else {
                None
            },
            None => None,
        }
    } else if tag == TAG_PLAYER {
        match take_player(s, 1) {
            Some((pl, j)) => if j == p.len() {
                Some(ServerMessage::Player(pl))
            } else {
                None
            },
            None => None,
        }
    } else if tag == TAG_OTHER_PLAYER {
        match take_player(s, 1) {
            Some((pl, j)) => if j == p.len() {
                Some(ServerMessage::OtherPlayer(pl))
            } else {
                None
            },
            None => None,
        }
    } else if tag == TAG_SERVER_MESSAGE {
        match take_player_message(s, 1) {
            Some((pm, j)) => if j == p.len() {
                Some(ServerMessage::Message(pm))
            } else {
                None
            },
            None => None,
        }
    } else if tag == TAG_SERVER_DISCONNECT {
        match take_bytes(s, 1) {
            Some((id, j)) => if j == p.len() {
                Some(ServerMessage::Disconnect(id))
            } else {
                None
            },
            None => None,
        }
    } else {
        None
    }
}

/// Decode the first frame of a byte stream into a client request. Returns
/// the message and the number of bytes consumed; `None` exactly when the
/// stream does not start with one complete, well-formed frame.
pub fn decode_client_message(s: &[u8]) -> (r: Option<(ClientMessage, usize)>)
    ensures
        match r {
            Some((m, n)) => spec_decode_client(s@) == Some((m@, n as int)),
            None => spec_decode_client(s@) is None,
        },
{
    let (plen32, j) = match take_u32(s, 0) {
        Some(p) => p,
        None => {
            return None;
        },
    };
    let plen: usize = plen32 as usize;
    if plen > s.len() - j {
        return None;
    }
    let payload = copy_range(s, j, plen);
    match read_client_payload(&payload) {
        Some(m) => Some((m, j + plen)),
        None => None,
    }
}

/// Decode the first frame of a byte stream into a server update. Returns
/// the message and the number of bytes consumed; `None` exactly when the
/// stream does not start with one complete, well-formed frame.
pub fn decode_server_message(s: &[u8]) -> (r: Option<(ServerMessage, usize)>)
    ensures
        match r {
            Some((m, n)) => spec_decode_server(s@) == Some((m@, n as int)),
            None => spec_decode_server(s@) is None,
        },
{
    let (plen32, j) = match take_u32(s, 0) {
        Some(p) => p,
        None => {
            return None;
        },
    };
    let plen: usize = plen32 as usize;
    if plen > s.len() - j {
        return None;
    }
    let payload = copy_range(s, j, plen);
    match read_server_payload(&payload) {
        Some(m) => Some((m, j + plen)),
        None => None,
    }
}

// ---------------------------------------------------------------------------
// The round trip: decoding inverts encoding.
// ---------------------------------------------------------------------------

/// A slice that equals a concatenation splits into its two parts.
proof fn lemma_parts(s: Seq<u8>, i: int, a: Seq<u8>, b: Seq<u8>)
    requires
        0 <= i,
        i + a.len() + b.len() <= s.len(),
        s.subrange(i, i + a.len() + b.len()) == a + b,
    ensures
        s.subrange(i, i + a.len()) == a,
        s.subrange(i + a.len(), i + a.len() + b.len()) == b,
{
    let whole = s.subrange(i, i + a.len() + b.len());
    assert forall|k: int| 0 <= k < a.len() implies s[i + k] == a[k] by {
        assert(whole[k] == s[i + k]);
        assert(whole[k] == (a + b)[k]);
        assert((a + b)[k] == a[k]);
    }
    assert(s.subrange(i, i + a.len()) =~= a);
    assert forall|k: int| 0 <= k < b.len() implies s[i + a.len() + k] == b[k] by {
        assert(whole[a.len() + k] == s[i + a.len() + k]);
        assert(whole[a.len() + k] == (a + b)[a.len() + k]);
        assert((a + b)[a.len() + k] == b[k]);
    }
    assert(s.subrange(i + a.len(), i + a.len() + b.len()) =~= b);
}

/// Parsing at the four bytes of a 32-bit value yields it back.
proof fn lemma_parse_u32_at(s: Seq<u8>, i: int, v: int)
    requires
        0 <= v < 0x1_0000_0000,
        0 <= i,
        i + 4 <= s.len(),
        s.subrange(i, i + 4) == u32_bytes(v),
    ensures
        parse_u32(s, i) == Some((v, i + 4)),
{
    lemma_u32_bytes_roundtrip(v);
    assert forall|k: int| 0 <= k < 4 implies s[i + k] == u32_bytes(v)[k] by {
        assert(s.subrange(i, i + 4)[k] == u32_bytes(v)[k]);
    }
    assert(be32(s, i) == be32(u32_bytes(v), 0));
}

/// Parsing at the eight offset-binary bytes of a signed value yields it back.
proof fn lemma_parse_i64_at(s: Seq<u8>, i: int, v: int)
    requires
        is_i64(v),
        0 <= i,
        i + 8 <= s.len(),
        s.subrange(i, i + 8) == i64_bytes(v),
    ensures
        parse_i64(s, i) == Some((v, i + 8)),
{
    let shifted = i64_shifted(v);
    lemma_u64_bytes_roundtrip(shifted);
    assert forall|k: int| 0 <= k < 8 implies s[i + k] == u64_bytes(shifted)[k] by {
        assert(s.subrange(i, i + 8)[k] == u64_bytes(shifted)[k]);
    }
    assert(be64(s, i) == be64(u64_bytes(shifted), 0));
}

/// Parsing at a length-prefixed byte string yields it back.
proof fn lemma_parse_bytes_at(s: Seq<u8>, i: int, b: Seq<u8>)
    requires
        b.len() < 0x1_0000_0000,
        0 <= i,
        i + 4 + b.len() <= s.len(),
        s.subrange(i, i + 4 + b.len()) == len_bytes(b),
    ensures
        parse_bytes(s, i) == Some((b, i + 4 + b.len())),
{
    lemma_parts(s, i, u32_bytes(b.len() as int), b);
    lemma_parse_u32_at(s, i, b.len() as int);
    assert(s.subrange(i + 4, i + 4 + b.len()) == b);
}

/// Parsing at an encoded player record yields it back.
proof fn lemma_parse_player_at(s: Seq<u8>, i: int, p: PlayerV)
    requires
        valid_player(p),
        0 <= i,
        i + enc_player(p).len() <= s.len(),
        s.subrange(i, i + enc_player(p).len()) == enc_player(p),
    ensures
        parse_player(s, i) == Some((p, i + enc_player(p).len())),
{
    let a1 = len_bytes(p.id);
    let a2 = i64_bytes(p.x);
    let a3 = i64_bytes(p.y);
    let a4 = i64_bytes(p.z);
    let a5 = i64_bytes(p.speed);
    assert(enc_player(p) =~= a1 + (a2 + a3 + a4 + a5));
    lemma_parts(s, i, a1, a2 + a3 + a4 + a5);
    lemma_parse_bytes_at(s, i, p.id);
    let j1 = i + a1.len();
    assert(a2 + a3 + a4 + a5 =~= a2 + (a3 + a4 + a5));
    lemma_parts(s, j1, a2, a3 + a4 + a5);
    lemma_parse_i64_at(s, j1, p.x);
    let j2 = j1 + 8;
    assert(a3 + a4 + a5 =~= a3 + (a4 + a5));
    lemma_parts(s, j2, a3, a4 + a5);
    lemma_parse_i64_at(s, j2, p.y);
    let j3 = j2 + 8;
    lemma_parts(s, j3, a4, a5);
    lemma_parse_i64_at(s, j3, p.z);
    let j4 = j3 + 8;
    lemma_parse_i64_at(s, j4, p.speed);
}

/// Parsing at an encoded chat payload yields it back.
proof fn lemma_parse_player_message_at(s: Seq<u8>, i: int, m: PlayerMessageV)
    requires
        valid_player_message(m),
        0 <= i,
        i + enc_player_message(m).len() <= s.len(),
        s.subrange(i, i + enc_player_message(m).len()) == enc_player_message(m),
    ensures
        parse_player_message(s, i) == Some((m, i + enc_player_message(m).len())),
{
    lemma_parts(s, i, len_bytes(m.id), len_bytes(m.message));
    lemma_parse_bytes_at(s, i, m.id);
    lemma_parse_bytes_at(s, i + 4 + m.id.len(), m.message);
}

/// Parsing at an encoded tile yields it back.
proof fn lemma_parse_tile_at(s: Seq<u8>, i: int, t: TileV)
    requires
        valid_tile(t),
        0 <= i,
        i + 25 <= s.len(),
        s.subrange(i, i + 25) == enc_tile(t),
    ensures
        parse_tile(s, i) == Some((t, i + 25)),
{
    let a1 = i64_bytes(t.x);
    let a2 = i64_bytes(t.y);
    let a3 = i64_bytes(t.z);
    let a4 = seq![tile_type_byte(t.tile_type)];
    assert(enc_tile(t) =~= a1 + (a2 + a3 + a4));
    lemma_parts(s, i, a1, a2 + a3 + a4);
    lemma_parse_i64_at(s, i, t.x);
    assert(a2 + a3 + a4 =~= a2 + (a3 + a4));
    lemma_parts(s, i + 8, a2, a3 + a4);
    lemma_parse_i64_at(s, i + 8, t.y);
    lemma_parts(s, i + 16, a3, a4);
    lemma_parse_i64_at(s, i + 16, t.z);
    assert(s[i + 24] == a4[0]) by {
        assert(s.subrange(i + 24, i + 25)[0] == a4[0]);
    }
    assert(parse_tile_type(tile_type_byte(t.tile_type)) == Some(t.tile_type));
}

/// Parsing at an encoded tile sequence yields it back.
proof fn lemma_parse_tiles_at(s: Seq<u8>, i: int, ts: Seq<TileV>)
    requires
        forall|k: int| 0 <= k < ts.len() ==> valid_tile(#[trigger] ts[k]),
        0 <= i,
        i + 25 * ts.len() <= s.len(),
        s.subrange(i, i + 25 * ts.len()) == enc_tiles(ts),
    ensures
        parse_tiles(s, i, ts.len() as int) == Some((ts, i + 25 * ts.len())),
    decreases ts.len(),
{
    lemma_enc_tiles_len(ts);
    if ts.len() == 0 {
        assert(ts =~= Seq::<TileV>::empty());
    } else {
        let rest = ts.drop_first();
        lemma_enc_tiles_len(rest);
        lemma_parts(s, i, enc_tile(ts[0]), enc_tiles(rest));
        lemma_parse_tile_at(s, i, ts[0]);
        assert(forall|k: int| 0 <= k < rest.len() ==> valid_tile(#[trigger] rest[k])) by {
            assert(forall|k: int| 0 <= k < rest.len() ==> rest[k] == ts[k + 1]);
        }
        lemma_parse_tiles_at(s, i + 25, rest);
        assert(seq![ts[0]] + rest =~= ts);
    }
}

/// Parsing at an encoded terrain snapshot yields it back.
proof fn lemma_parse_terrain_at(s: Seq<u8>, i: int, t: TileManagerV)
    requires
        valid_terrain(t),
        0 <= i,
        i + enc_terrain(t).len() <= s.len(),
        s.subrange(i, i + enc_terrain(t).len()) == enc_terrain(t),
    ensures
        parse_terrain(s, i) == Some((t, i + enc_terrain(t).len())),
{
    let a1 = i64_bytes(t.cx);
    let a2 = i64_bytes(t.cy);
    let a3 = seq![t.size as u8];
    let a4 = u32_bytes(t.tiles.len() as int);
    let a5 = enc_tiles(t.tiles);
    lemma_enc_tiles_len(t.tiles);
    assert(enc_terrain(t) =~= a1 + (a2 + a3 + a4 + a5));
    lemma_parts(s, i, a1, a2 + a3 + a4 + a5);
    lemma_parse_i64_at(s, i, t.cx);
    let j1 = i + 8;
    assert(a2 + a3 + a4 + a5 =~= a2 + (a3 + a4 + a5));
    lemma_parts(s, j1, a2, a3 + a4 + a5);
    lemma_parse_i64_at(s, j1, t.cy);
    let j2 = j1 + 8;
    assert(a3 + a4 + a5 =~= a3 + (a4 + a5));
    lemma_parts(s, j2, a3, a4 + a5);
    assert(s[j2] == a3[0]) by {
        assert(s.subrange(j2, j2 + 1)[0] == a3[0]);
    }
    assert(s[j2] as int == t.size);
    let j3 = j2 + 1;
    lemma_parts(s, j3, a4, a5);
    lemma_parse_u32_at(s, j3, t.tiles.len() as int);
    let j4 = j3 + 4;
    lemma_parse_tiles_at(s, j4, t.tiles);
}

/// Parsing a whole encoded client payload yields the message back.
proof fn lemma_parse_client_payload(m: ClientMessageV)
    requires
        valid_client_msg(m),
    ensures
        parse_client_payload(client_payload(m)) == Some(m),
{
    let p = client_payload(m);
    assert(p.subrange(0, p.len() as int) =~= p);
    match m {
        ClientMessageV::MessageRequest(pm) => {
            lemma_parts(p, 0, seq![TAG_MESSAGE_REQUEST], enc_player_message(pm));
            assert(p.subrange(0, 1)[0] == p[0]);
            lemma_parse_player_message_at(p, 1, pm);
        },
        ClientMessageV::MapRequest(region) => {
            lemma_parts(p, 0, seq![TAG_MAP_REQUEST], len_bytes(region));
            assert(p.subrange(0, 1)[0] == p[0]);
            lemma_parse_bytes_at(p, 1, region);
        },
        ClientMessageV::ConnectionRequest => {
            assert(p[0] == TAG_CONNECTION_REQUEST);
        },
        ClientMessageV::MoveRequest { player, dx, dy, dz } => {
            let a1 = len_bytes(player);
            let a2 = i64_bytes(dx);
            let a3 = i64_bytes(dy);
            let a4 = i64_bytes(dz);
            assert(p =~= seq![TAG_MOVE_REQUEST] + (a1 + a2 + a3 + a4));
            lemma_parts(p, 0, seq![TAG_MOVE_REQUEST], a1 + a2 + a3 + a4);
            assert(p.subrange(0, 1)[0] == p[0]);
            assert(a1 + a2 + a3 + a4 =~= a1 + (a2 + a3 + a4));
            lemma_parts(p, 1, a1, a2 + a3 + a4);
            lemma_parse_bytes_at(p, 1, player);
            let j1: int = 1 + a1.len() as int;
            assert(a2 + a3 + a4 =~= a2 + (a3 + a4));
            lemma_parts(p, j1, a2, a3 + a4);
            lemma_parse_i64_at(p, j1, dx);
            lemma_parts(p, j1 + 8, a3, a4);
            lemma_parse_i64_at(p, j1 + 8, dy);
            lemma_parse_i64_at(p, j1 + 16, dz);
        },
        ClientMessageV::Disconnect => {
            assert(p[0] == TAG_CLIENT_DISCONNECT);
        },
    }
}

/// Parsing a whole encoded server payload yields the message back.
proof fn lemma_parse_server_payload(m: ServerMessageV)
    requires
        valid_server_msg(m),
    ensures
        parse_server_payload(server_payload(m)) == Some(m),
{
    let p = server_payload(m);
    assert(p.subrange(0, p.len() as int) =~= p);
    match m {
        ServerMessageV::Terrain(t) => {
            lemma_parts(p, 0, seq![TAG_TERRAIN], enc_terrain(t));
            assert(p.subrange(0, 1)[0] == p[0]);
            lemma_parse_terrain_at(p, 1, t);
        },
        ServerMessageV::Player(pl) => {
            lemma_parts(p, 0, seq![TAG_PLAYER], enc_player(pl));
            assert(p.subrange(0, 1)[0] == p[0]);
            lemma_parse_player_at(p, 1, pl);
        },
        ServerMessageV::OtherPlayer(pl) => {
            lemma_parts(p, 0, seq![TAG_OTHER_PLAYER], enc_player(pl));
            assert(p.subrange(0, 1)[0] == p[0]);
            lemma_parse_player_at(p, 1, pl);
        },
        ServerMessageV::Message(pm) => {
            lemma_parts(p, 0, seq![TAG_SERVER_MESSAGE], enc_player_message(pm));
            assert(p.subrange(0, 1)[0] == p[0]);
            lemma_parse_player_message_at(p, 1, pm);
        },
        ServerMessageV::Disconnect(id) => {
            lemma_parts(p, 0, seq![TAG_SERVER_DISCONNECT], len_bytes(id));
            assert(p.subrange(0, 1)[0] == p[0]);
            lemma_parse_bytes_at(p, 1, id);
        },
    }
}

/// The frame round trip for client requests: decoding a stream that starts
/// with the encoding of any admissible message yields that message back,
/// equal in all fields, and consumes exactly the frame — whatever follows it.
pub proof fn lemma_client_round_trip(m: ClientMessageV, rest: Seq<u8>)
    requires
        valid_client_msg(m),
    ensures
        spec_decode_client(client_frame(m) + rest) == Some(
            (m, client_frame(m).len() as int),
        ),
        spec_decode_client(client_frame(m)) == Some((m, client_frame(m).len() as int)),
{
    lemma_decode_client_of_frame(m, rest);
    lemma_decode_client_of_frame(m, Seq::empty());
    assert(client_frame(m) + Seq::<u8>::empty() =~= client_frame(m));
}

/// The body of the client round trip, for one given suffix.
proof fn lemma_decode_client_of_frame(m: ClientMessageV, rest: Seq<u8>)
    requires
        valid_client_msg(m),
    ensures
        spec_decode_client(client_frame(m) + rest) == Some(
            (m, client_frame(m).len() as int),
        ),
{
    let payload = client_payload(m);
    let frame = client_frame(m);
    let s = frame + rest;
    lemma_client_payload_len(m);
    assert(s.subrange(0, frame.len() as int) =~= frame);
    assert(frame == u32_bytes(payload.len() as int) + payload);
    lemma_parts(s, 0, u32_bytes(payload.len() as int), payload);
    lemma_parse_u32_at(s, 0, payload.len() as int);
    lemma_parse_client_payload(m);
    assert(s.subrange(4, 4 + payload.len() as int) == payload);
}

/// The frame round trip for server updates: decoding a stream that starts
/// with the encoding of any admissible message yields that message back,
/// equal in all fields, and consumes exactly the frame — whatever follows it.
pub proof fn lemma_server_round_trip(m: ServerMessageV, rest: Seq<u8>)
    requires
        valid_server_msg(m),
    ensures
        spec_decode_server(server_frame(m) + rest) == Some(
            (m, server_frame(m).len() as int),
        ),
        spec_decode_server(server_frame(m)) == Some((m, server_frame(m).len() as int)),
{
    lemma_decode_server_of_frame(m, rest);
    lemma_decode_server_of_frame(m, Seq::empty());
    assert(server_frame(m) + Seq::<u8>::empty() =~= server_frame(m));
}

/// The body of the server round trip, for one given suffix.
proof fn lemma_decode_server_of_frame(m: ServerMessageV, rest: Seq<u8>)
    requires
        valid_server_msg(m),
    ensures
        spec_decode_server(server_frame(m) + rest) == Some(
            (m, server_frame(m).len() as int),
        ),
{
    let payload = server_payload(m);
    let frame = server_frame(m);
    let s = frame + rest;
    lemma_server_payload_len(m);
    assert(s.subrange(0, frame.len() as int) =~= frame);
    assert(frame == u32_bytes(payload.len() as int) + payload);
    lemma_parts(s, 0, u32_bytes(payload.len() as int), payload);
    lemma_parse_u32_at(s, 0, payload.len() as int);
    lemma_parse_server_payload(m);
    assert(s.subrange(4, 4 + payload.len() as int) == payload);
}

} // verus!
