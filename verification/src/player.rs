//! Player records and chat payloads.

use crate::coords::in_bounds;
use vstd::prelude::*;

verus! {

/// Movement speed a freshly created player starts with, in milli-units per
/// unit of direction.
pub const DEFAULT_SPEED: i64 = 25;

/// One connected (or previously connected) player. The id is an opaque byte
/// string, stable for the lifetime of the record; the position is a
/// fixed-point world coordinate in milli-units (see `crate::coords`).
#[derive(Clone, Debug, PartialEq, Eq)]
pub struct Player {
    pub id: Vec<u8>,
    pub position: [i64; 3],
    pub speed: i64,
}

/// Mathematical model of a player.
pub struct PlayerV {
    pub id: Seq<u8>,
    pub x: int,
    pub y: int,
    pub z: int,
    pub speed: int,
}

impl View for Player {
    type V = PlayerV;

    open spec fn view(&self) -> PlayerV {
        PlayerV {
            id: self.id@,
            x: self.position[0] as int,
            y: self.position[1] as int,
            z: self.position[2] as int,
            speed: self.speed as int,
        }
    }
}

impl PlayerV {
    /// A player record is well formed when its position lies inside the world
    /// bounds.
    pub open spec fn wf(self) -> bool {
        in_bounds(self.x) && in_bounds(self.y) && in_bounds(self.z)
    }
}

impl Player {
    /// An independent copy of this record, equal to it in every field.
    pub fn snapshot(&self) -> (r: Player)
        ensures
            r@ == self@,
    {
        let id: Vec<u8> = self.id.clone();
        proof {
            assert(id@ =~= self.id@);
        }
        Player { id, position: self.position, speed: self.speed }
    }
}

/// Compare two byte strings for equality, element by element.
pub fn bytes_eq(a: &Vec<u8>, b: &Vec<u8>) -> (r: bool)
    ensures
        r == (a@ == b@),
{
    if a.len() != b.len() {
        proof {
            assert(a@ != b@);
        }
        return false;
    }
    let n: usize = a.len();
    let mut i: usize = 0;
    while i < n
        invariant
            n == a@.len() == b@.len(),
            i <= n,
            forall|j: int| 0 <= j < i ==> a@[j] == b@[j],
        decreases n - i,
    {
        if a[i] != b[i] {
            proof {
                assert(a@ != b@);
            }
            return false;
        }
        i = i + 1;
    }
    proof {
        assert(a@ =~= b@);
    }
    true
}

/// A chat payload: the sender's id and the message bytes.
#[derive(Clone, Debug, PartialEq, Eq)]
pub struct PlayerMessage {
    pub id: Vec<u8>,
    pub message: Vec<u8>,
}

/// Mathematical model of a chat payload.
pub struct PlayerMessageV {
    pub id: Seq<u8>,
    pub message: Seq<u8>,
}

impl View for PlayerMessage {
    type V = PlayerMessageV;

    open spec fn view(&self) -> PlayerMessageV {
        PlayerMessageV { id: self.id@, message: self.message@ }
    }
}

impl PlayerMessage {
    /// An independent copy of this payload, equal to it in every field.
    pub fn snapshot(&self) -> (r: PlayerMessage)
        ensures
            r@ == self@,
    {
        let id: Vec<u8> = self.id.clone();
        let message: Vec<u8> = self.message.clone();
        proof {
            assert(id@ =~= self.id@);
            assert(message@ =~= self.message@);
        }
        PlayerMessage { id, message }
    }
}

} // verus!
