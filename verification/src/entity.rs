//! Entities of the physics world: their kind, and the integer tag that rides in a rigid
//! body's user data (id, texture, kind, animation frame).
use vstd::prelude::*;
use crate::protocol::PlayerData;

verus! {

/// The kind of an entity.
#[derive(Clone, Copy, Debug, PartialEq, Eq, Structural)]
pub enum EntityType {
    Static,
    Moveable,
    Player,
}

/// The wire number of a kind.
pub open spec fn type_code(t: EntityType) -> u8 {
    match t {
        EntityType::Static => 0,
        EntityType::Moveable => 1,
        EntityType::Player => 2,
    }
}

/// The kind of a wire number; unknown numbers read as `Static`.
pub open spec fn type_of_code(n: u8) -> EntityType {
    if n == 1 {
        EntityType::Moveable
    } else if n == 2 {
        EntityType::Player
    } else {
        EntityType::Static
    }
}

impl EntityType {
    /// The kind of a wire number; unknown numbers read as `Static`.
    pub fn from(num: u8) -> (t: EntityType)
        ensures t == type_of_code(num),
    {
        match num {
            0 => EntityType::Static,
            1 => EntityType::Moveable,
            2 => EntityType::Player,
            _ => EntityType::Static,
        }
    }

    /// The wire number of this kind.
    pub fn code(&self) -> (n: u8)
        ensures n == type_code(*self),
    {
        match self {
            EntityType::Static => 0,
            EntityType::Moveable => 1,
            EntityType::Player => 2,
        }
    }
}

/// The integer part of an entity's state, kept in the `u128` user data of its body.
#[derive(Clone, Copy, Debug, PartialEq, Eq)]
pub struct EntityTag {
    pub id: u64,
    pub texture: (u32, u8, u8),
    pub entity_type: EntityType,
    pub animate: u8,
}

/// The user data of a tag, byte by byte in little-endian order: the id (bytes 0 to 7),
/// the texture index (8 to 11), the two texture cells (12, 13), the kind (14) and the
/// animation frame (15).
pub open spec fn packed(id: u64, t0: u32, t1: u8, t2: u8, kind: u8, animate: u8) -> u128 {
    (id as u128) | ((t0 as u128) << 64u128) | ((t1 as u128) << 96u128) | ((t2 as u128) << 104u128)
        | ((kind as u128) << 112u128) | ((animate as u128) << 120u128)
}

impl EntityTag {
    /// The user data that carries this tag.
    pub fn get_data(&self) -> (d: u128)
        ensures
            d == packed(self.id, self.texture.0, self.texture.1, self.texture.2,
                type_code(self.entity_type), self.animate),
    {
        let kind = self.entity_type.code();
        (self.id as u128) | ((self.texture.0 as u128) << 64u128) | ((self.texture.1 as u128) << 96u128)
            | ((self.texture.2 as u128) << 104u128) | ((kind as u128) << 112u128)
            | ((self.animate as u128) << 120u128)
    }

    /// Reads the tag out of a body's user data.
    pub fn make_up_data(&mut self, user_data: u128)
        ensures
            final(self).id == user_data as u64,
            final(self).texture.0 == (user_data >> 64u128) as u32,
            final(self).texture.1 == (user_data >> 96u128) as u8,
            final(self).texture.2 == (user_data >> 104u128) as u8,
            final(self).entity_type == type_of_code((user_data >> 112u128) as u8),
            final(self).animate == (user_data >> 120u128) as u8,
    {
        self.id = user_data as u64;
        self.texture = ((user_data >> 64u128) as u32, (user_data >> 96u128) as u8, (user_data >> 104u128) as u8);
        self.entity_type = EntityType::from((user_data >> 112u128) as u8);
        self.animate = (user_data >> 120u128) as u8;
    }
}

/// Reading the tag back out of the user data a tag was packed into gives the tag.
pub proof fn lemma_tag_roundtrip(id: u64, t0: u32, t1: u8, t2: u8, kind: u8, animate: u8)
    ensures ({
        let d = packed(id, t0, t1, t2, kind, animate);
        &&& d as u64 == id
        &&& (d >> 64u128) as u32 == t0
        &&& (d >> 96u128) as u8 == t1
        &&& (d >> 104u128) as u8 == t2
        &&& (d >> 112u128) as u8 == kind
        &&& (d >> 120u128) as u8 == animate
    }),
{
    let a = id as u128;
    let b = t0 as u128;
    let c = t1 as u128;
    let e = t2 as u128;
    let f = kind as u128;
    let g = animate as u128;
    assert(a < 0x1_0000_0000_0000_0000u128 && b < 0x1_0000_0000u128 && c < 256 && e < 256 && f < 256 && g < 256);
    let d = a | (b << 64u128) | (c << 96u128) | (e << 104u128) | (f << 112u128) | (g << 120u128);
    assert(d % 0x1_0000_0000_0000_0000u128 == a && (d >> 64u128) % 0x1_0000_0000u128 == b
        && (d >> 96u128) % 256 == c && (d >> 104u128) % 256 == e && (d >> 112u128) % 256 == f
        && (d >> 120u128) % 256 == g) by (bit_vector)
        requires a < 0x1_0000_0000_0000_0000u128, b < 0x1_0000_0000u128, c < 256, e < 256, f < 256, g < 256,
            d == a | (b << 64u128) | (c << 96u128) | (e << 104u128) | (f << 112u128) | (g << 120u128);
    assert(d as u64 == d % 0x1_0000_0000_0000_0000u128) by (bit_vector);
    assert((d >> 64u128) as u32 == (d >> 64u128) % 0x1_0000_0000u128) by (bit_vector);
    assert((d >> 96u128) as u8 == (d >> 96u128) % 256) by (bit_vector);
    assert((d >> 104u128) as u8 == (d >> 104u128) % 256) by (bit_vector);
    assert((d >> 112u128) as u8 == (d >> 112u128) % 256) by (bit_vector);
    assert((d >> 120u128) as u8 == (d >> 120u128) % 256) by (bit_vector);
}

/// Every kind reads back from its wire number.
pub proof fn lemma_type_code_roundtrip(t: EntityType)
    ensures type_of_code(type_code(t)) == t,
{
}

/// A player hit by a trap or a skill loses 5 health points, when it has that many;
/// `None` when it has fewer and nothing changes.
pub fn contact_damage(player: PlayerData) -> (res: Option<PlayerData>)
    ensures
        match res {
            Some(p) => player.hp >= 5 && p == (PlayerData { hp: (player.hp - 5) as u32, ..player }),
            None => player.hp < 5,
        },
{
    if player.hp >= 5 {
        let mut p = player;
        p.hp = p.hp - 5;
        Some(p)
    } else {
        None
    }
}

/// A player may act only while it is found and alive.
pub fn check_player_health(found: Option<PlayerData>) -> (alive: bool)
    ensures alive == (found matches Some(p) && p.hp > 0),
{
    match found {
        Some(p) => p.hp > 0,
        None => false,
    }
}

/// The sprite frames a player cycles through for an animation kind: walking forward (1),
/// back (2), right (3) or left (4); any other kind stands still on frame 0.
pub open spec fn player_frames_spec(kind: u8) -> Seq<u32> {
    if kind == 1 {
        seq![0u32, 4, 4, 0, 8, 8]
    } else if kind == 2 {
        seq![2u32, 6, 6, 2, 10, 10]
    } else if kind == 3 {
        seq![1u32, 5, 5, 1, 9, 9]
    } else if kind == 4 {
        seq![3u32, 7, 7, 3, 11, 11]
    } else {
        seq![0u32]
    }
}

/// The sprite frames of a player's animation kind (see `player_frames_spec`).
pub fn player_frames(kind: u8) -> (frames: Vec<u32>)
    ensures frames@ == player_frames_spec(kind),
{
    let frames: Vec<u32> = if kind == 1 {
        vec![0, 4, 4, 0, 8, 8]
    } else if kind == 2 {
        vec![2, 6, 6, 2, 10, 10]
    } else if kind == 3 {
        vec![1, 5, 5, 1, 9, 9]
    } else if kind == 4 {
        vec![3, 7, 7, 3, 11, 11]
    } else {
        vec![0]
    };
    assert(frames@ =~= player_frames_spec(kind));
    frames
}

/// The next step of an animation whose frames are two entries apart: the new position in
/// `frames` (back to the first after the last) and the sprite frame found there.
pub fn next_animate(frames: &Vec<u32>, index: usize) -> (next: (usize, u32))
    requires frames@.len() > 0, index <= usize::MAX - 2,
    ensures
        next.0 == if index + 2 >= frames@.len() { 0 } else { index + 2 },
        next.1 == frames@[next.0 as int],
{
    let mut i = index + 2;
    if i >= frames.len() {
        i = 0;
    }
    (i, frames[i])
}

/// A synchronised entity not heard of for more than one second is gone.
pub fn entity_expired(now_secs: u64, last_heard_secs: u64) -> (gone: bool)
    ensures gone == (now_secs > last_heard_secs + 1),
{
    now_secs > last_heard_secs && now_secs - last_heard_secs > 1
}

} // verus!
