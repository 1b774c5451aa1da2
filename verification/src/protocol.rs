//! The messages and records exchanged between the game server and its clients.
use vstd::prelude::*;
use crate::tiles::{Tile, TileCollider};

verus! {

/// A client asking in or out: its player id and its group.
#[derive(Clone, Copy, Debug, PartialEq, Eq, Structural)]
pub struct AccountData {
    pub uid: u32,
    pub group: u32,
}

/// The state of a player: health and mana, now and at most.
#[derive(Clone, Copy, Debug, PartialEq, Eq, Structural)]
pub struct PlayerData {
    pub uid: u32,
    pub hp: u32,
    pub mp: u32,
    pub max_hp: u32,
    pub max_mp: u32,
}

/// The players sent to the clients in one frame.
#[derive(Debug)]
pub struct PlayerListData {
    pub frame: u128,
    pub players: Vec<PlayerData>,
}

/// The tile stored for a map cell: its point, image and collider.
#[derive(Debug)]
pub struct TileState {
    pub point: (i32, i32, i32),
    pub filename: String,
    pub collider: TileCollider,
}

/// The stored tiles of a map.
#[derive(Debug)]
pub struct TileMapData {
    pub map_id: u128,
    pub tiles: Vec<TileState>,
}

/// A map cell and its tile, if it has one.
#[derive(Debug)]
pub struct TileData {
    pub point: (i32, i32, i32),
    pub tile: Option<Tile>,
}

/// The kinds of skill a player can cast.
#[derive(Clone, Copy, Debug, PartialEq, Eq, Structural)]
pub enum SkillType {
    Shot,
}

impl SkillType {
    /// The skill of a wire number; every number reads as `Shot`.
    pub fn from(num: u8) -> (s: SkillType)
        ensures s == SkillType::Shot,
    {
        match num {
            0 => SkillType::Shot,
            _ => SkillType::Shot,
        }
    }
}

/// Heartbeat messages; `Keep` carries the client's clock.
#[derive(Clone, Copy, Debug, PartialEq, Eq, Structural)]
pub enum HeartbeatRoute {
    In,
    Out,
    Keep(u128),
}

/// Account messages.
#[derive(Clone, Copy, Debug, PartialEq, Eq, Structural)]
pub enum AccountRoute {
    Login(AccountData),
    Logout(AccountData),
}

/// A message body that goes on the wire as bytes.
pub trait Data {
    spec fn spec_data(&self) -> Seq<u8>;

    fn data(&self) -> (bytes: Vec<u8>)
        ensures bytes@ == self.spec_data();
}

/// The four bytes of `v`, least significant first.
pub open spec fn le_bytes(v: u32) -> Seq<u8> {
    seq![v as u8, (v >> 8u32) as u8, (v >> 16u32) as u8, (v >> 24u32) as u8]
}

fn push_le(out: &mut Vec<u8>, v: u32)
    ensures final(out)@ == old(out)@ + le_bytes(v),
{
    out.push(v as u8);
    out.push((v >> 8u32) as u8);
    out.push((v >> 16u32) as u8);
    out.push((v >> 24u32) as u8);
    assert(final(out)@ =~= old(out)@ + le_bytes(v));
}

impl Data for AccountData {
    /// The id in bytes 0 to 3 and the group in bytes 4 to 7, least significant first.
    open spec fn spec_data(&self) -> Seq<u8> {
        le_bytes(self.uid) + le_bytes(self.group)
    }

    fn data(&self) -> (bytes: Vec<u8>) {
        let mut out: Vec<u8> = Vec::new();
        push_le(&mut out, self.uid);
        push_le(&mut out, self.group);
        assert(out@ =~= le_bytes(self.uid) + le_bytes(self.group));
        out
    }
}

} // verus!
