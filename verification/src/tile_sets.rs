//! The tile sets of each map layer.
use vstd::prelude::*;
use crate::text::{same_text, string_of};
use crate::tiles::{joint_view, joints_view, tile_view, JointView, Tile, TileCollider, TileJoint, TileView};

verus! {

/// A tile with the given image, layer, weight, collider and joints.
fn tile(name: &str, layer: usize, seed: u8, collider: TileCollider, joints: [TileJoint; 6]) -> (t: Tile)
    ensures
        t.filename@ == name@, t.layer == layer, t.rng_seed == seed, t.collider == collider,
        t.joints == joints,
        tile_view(t) == (name@, seed, collider, joints_view(joints)),
{
    Tile { filename: string_of(name), layer, rng_seed: seed, collider, joints }
}

/// A joint with one tag.
fn tag(s: &str) -> (j: TileJoint)
    ensures j matches TileJoint::TagOne(t) && t@ == s@, joint_view(j) == tagged(s@),
{
    TileJoint::TagOne(string_of(s))
}

/// A side that accepts anything, as plain values.
pub open spec fn any_side() -> JointView {
    joint_view(TileJoint::All)
}

/// A side that accepts nothing, as plain values.
pub open spec fn no_side() -> JointView {
    joint_view(TileJoint::Nothing)
}

/// A side with the tag `s`, as plain values.
pub open spec fn tagged(s: Seq<char>) -> JointView {
    (2u8, s)
}

/// The image files of `load_glue_superposition`, in order.
pub open spec fn load_glue_superposition_names() -> Seq<Seq<char>> {
    seq![
        "0-tileset_30.png"@
    ]
}

/// The tiles of `load_glue_superposition`, in order, as plain values.
pub open spec fn load_glue_superposition_tiles() -> Seq<TileView> {
    seq![
        (
            "0-tileset_30.png"@, 1u8, TileCollider::Full,
            (any_side(), any_side(), any_side(), any_side(), any_side(), any_side()),
        )
    ]
}

/// The glue tile that fills any gap: open ground on the background layer.
pub fn load_glue_superposition() -> (sp: Vec<Tile>)
    ensures
        sp@.len() == 1,
        forall|k: int| 0 <= k < sp@.len() ==> #[trigger] sp@[k].layer == 0 && sp@[k].rng_seed > 0,
        sp@.map_values(|t: Tile| tile_view(t)) == load_glue_superposition_tiles(),
        sp@.map_values(|t: Tile| t.filename@) == load_glue_superposition_names(),
{
    let mut sp: Vec<Tile> = Vec::new();
    sp.push(tile("0-tileset_30.png", 0, 1, TileCollider::Full, [TileJoint::All, TileJoint::All, TileJoint::All, TileJoint::All, TileJoint::All, TileJoint::All]));
    assert(sp@.map_values(|t: Tile| tile_view(t)) =~= load_glue_superposition_tiles());
    assert(sp@.map_values(|t: Tile| t.filename@) =~= load_glue_superposition_names());
    sp
}

/// The image files of `load_background_superposition`, in order.
pub open spec fn load_background_superposition_names() -> Seq<Seq<char>> {
    seq![
        "0-tileset_30.png"@
    ]
}

/// The tiles of `load_background_superposition`, in order, as plain values.
pub open spec fn load_background_superposition_tiles() -> Seq<TileView> {
    seq![
        (
            "0-tileset_30.png"@, 1u8, TileCollider::Nothing,
            (any_side(), any_side(), any_side(), any_side(), any_side(), any_side()),
        )
    ]
}

/// The tiles of the background layer.
pub fn load_background_superposition(layer: usize) -> (sp: Vec<Tile>)
    ensures
        sp@.len() == 1,
        forall|k: int| 0 <= k < sp@.len() ==> #[trigger] sp@[k].layer == layer && sp@[k].rng_seed > 0,
        sp@.map_values(|t: Tile| tile_view(t)) == load_background_superposition_tiles(),
        sp@.map_values(|t: Tile| t.filename@) == load_background_superposition_names(),
{
    let mut sp: Vec<Tile> = Vec::new();
    sp.push(tile("0-tileset_30.png", layer, 1, TileCollider::Nothing, [TileJoint::All, TileJoint::All, TileJoint::All, TileJoint::All, TileJoint::All, TileJoint::All]));
    assert(sp@.map_values(|t: Tile| tile_view(t)) =~= load_background_superposition_tiles());
    assert(sp@.map_values(|t: Tile| t.filename@) =~= load_background_superposition_names());
    sp
}

/// The image files of `load_terrain_superposition`, in order.
pub open spec fn load_terrain_superposition_names() -> Seq<Seq<char>> {
    seq![
        "0-tileset_30.png"@,
        "0-tileset_01.png"@,
        "0-tileset_02.png"@,
        "0-tileset_03.png"@,
        "0-tileset_04.png"@,
        "0-tileset_21.png"@,
        "0-tileset_23.png"@,
        "0-tileset_39.png"@,
        "0-tileset_40.png"@,
        "0-tileset_41.png"@,
        "0-tileset_17.png"@,
        "0-tileset_18.png"@,
        "0-tileset_19.png"@,
        "0-tileset_36.png"@,
        "0-tileset_37.png"@,
        "0-tileset_38.png"@,
        "0-tileset_54.png"@,
        "0-tileset_55.png"@,
        "0-tileset_56.png"@,
        "0-tileset_13.png"@,
        "0-tileset_14.png"@,
        "0-tileset_15.png"@,
        "0-tileset_33.png"@,
        "0-tileset_34.png"@,
        "0-tileset_35.png"@,
        "0-tileset_51.png"@,
        "0-tileset_52.png"@,
        "0-tileset_53.png"@
    ]
}

/// The tiles of `load_terrain_superposition`, in order, as plain values.
pub open spec fn load_terrain_superposition_tiles() -> Seq<TileView> {
    seq![
        (
            "0-tileset_30.png"@, 40u8, TileCollider::Nothing,
            (tagged("空"@), tagged("空"@), tagged("空"@), tagged("空"@), any_side(), any_side()),
        ),
        (
            "0-tileset_01.png"@, 2u8, TileCollider::Full,
            (tagged("草空"@), tagged("x|边|草"@), tagged("草空"@), tagged("y|边|草"@), any_side(), any_side()),
        ),
        (
            "0-tileset_02.png"@, 2u8, TileCollider::Full,
            (tagged("草空"@), tagged("草"@), tagged("y|边|草"@), tagged("y|边|草"@), any_side(), any_side()),
        ),
        (
            "0-tileset_03.png"@, 2u8, TileCollider::Full,
            (tagged("草空"@), tagged("x|草|边"@), tagged("y|边|草"@), tagged("草空"@), any_side(), any_side()),
        ),
        (
            "0-tileset_04.png"@, 2u8, TileCollider::Full,
            (tagged("草"@), tagged("草"@), tagged("草"@), tagged("草"@), any_side(), any_side()),
        ),
        (
            "0-tileset_21.png"@, 2u8, TileCollider::Full,
            (tagged("x|边|草"@), tagged("x|边|草"@), tagged("草空"@), tagged("草"@), any_side(), any_side()),
        ),
        (
            "0-tileset_23.png"@, 2u8, TileCollider::Full,
            (tagged("x|草|边"@), tagged("x|草|边"@), tagged("草"@), tagged("草空"@), any_side(), any_side()),
        ),
        (
            "0-tileset_39.png"@, 2u8, TileCollider::Full,
            (tagged("x|边|草"@), tagged("草空"@), tagged("草空"@), tagged("y|草|边"@), any_side(), any_side()),
        ),
        (
            "0-tileset_40.png"@, 2u8, TileCollider::Full,
            (tagged("草"@), tagged("草空"@), tagged("y|草|边"@), tagged("y|草|边"@), any_side(), any_side()),
        ),
        (
            "0-tileset_41.png"@, 2u8, TileCollider::Full,
            (tagged("x|草|边"@), tagged("草空"@), tagged("y|草|边"@), tagged("草空"@), any_side(), any_side()),
        ),
        (
            "0-tileset_17.png"@, 1u8, TileCollider::Full,
            (tagged("池空"@), tagged("x|边|水"@), tagged("池空"@), tagged("y|边|水"@), no_side(), no_side()),
        ),
        (
            "0-tileset_18.png"@, 1u8, TileCollider::Full,
            (tagged("池空"@), tagged("水"@), tagged("y|边|水"@), tagged("y|边|水"@), no_side(), no_side()),
        ),
        (
            "0-tileset_19.png"@, 1u8, TileCollider::Full,
            (tagged("池空"@), tagged("x|水|边"@), tagged("y|边|水"@), tagged("池空"@), no_side(), no_side()),
        ),
        (
            "0-tileset_36.png"@, 1u8, TileCollider::Full,
            (tagged("x|边|水"@), tagged("x|边|水"@), tagged("池空"@), tagged("水"@), no_side(), no_side()),
        ),
        (
            "0-tileset_37.png"@, 1u8, TileCollider::Full,
            (tagged("水"@), tagged("水"@), tagged("水"@), tagged("水"@), no_side(), no_side()),
        ),
        (
            "0-tileset_38.png"@, 1u8, TileCollider::Full,
            (tagged("x|水|边"@), tagged("x|水|边"@), tagged("水"@), tagged("池空"@), no_side(), no_side()),
        ),
        (
            "0-tileset_54.png"@, 1u8, TileCollider::Full,
            (tagged("x|边|水"@), tagged("池空"@), tagged("池空"@), tagged("y|水|边"@), no_side(), no_side()),
        ),
        (
            "0-tileset_55.png"@, 1u8, TileCollider::Full,
            (tagged("水"@), tagged("池空"@), tagged("y|水|边"@), tagged("y|水|边"@), no_side(), no_side()),
        ),
        (
            "0-tileset_56.png"@, 1u8, TileCollider::Full,
            (tagged("x|水|边"@), tagged("池空"@), tagged("y|水|边"@), tagged("池空"@), no_side(), no_side()),
        ),
        (
            "0-tileset_13.png"@, 1u8, TileCollider::Nothing,
            (tagged("砖空"@), tagged("x|边|砖"@), tagged("砖空"@), tagged("y|边|砖"@), any_side(), no_side()),
        ),
        (
            "0-tileset_14.png"@, 1u8, TileCollider::Nothing,
            (tagged("砖空"@), tagged("砖"@), tagged("y|边|砖"@), tagged("y|边|砖"@), any_side(), no_side()),
        ),
        (
            "0-tileset_15.png"@, 1u8, TileCollider::Nothing,
            (tagged("砖空"@), tagged("x|砖|边"@), tagged("y|边|砖"@), tagged("砖空"@), any_side(), no_side()),
        ),
        (
            "0-tileset_33.png"@, 1u8, TileCollider::Nothing,
            (tagged("x|边|砖"@), tagged("x|边|砖"@), tagged("砖空"@), tagged("砖"@), any_side(), no_side()),
        ),
        (
            "0-tileset_34.png"@, 1u8, TileCollider::Nothing,
            (tagged("砖"@), tagged("砖"@), tagged("砖"@), tagged("砖"@), any_side(), no_side()),
        ),
        (
            "0-tileset_35.png"@, 1u8, TileCollider::Nothing,
            (tagged("x|砖|边"@), tagged("x|砖|边"@), tagged("砖"@), tagged("砖空"@), any_side(), no_side()),
        ),
        (
            "0-tileset_51.png"@, 1u8, TileCollider::Nothing,
            (tagged("x|边|砖"@), tagged("砖空"@), tagged("砖空"@), tagged("y|砖|边"@), any_side(), no_side()),
        ),
        (
            "0-tileset_52.png"@, 1u8, TileCollider::Nothing,
            (tagged("砖"@), tagged("砖空"@), tagged("y|砖|边"@), tagged("y|砖|边"@), any_side(), no_side()),
        ),
        (
            "0-tileset_53.png"@, 1u8, TileCollider::Nothing,
            (tagged("x|砖|边"@), tagged("砖空"@), tagged("y|砖|边"@), tagged("砖空"@), any_side(), no_side()),
        )
    ]
}

/// The terrain tiles: open ground, grass, water, mud and brick, with their edges.
pub fn load_terrain_superposition(layer: usize) -> (sp: Vec<Tile>)
    ensures
        sp@.len() == 28,
        forall|k: int| 0 <= k < sp@.len() ==> #[trigger] sp@[k].layer == layer && sp@[k].rng_seed > 0,
        sp@.map_values(|t: Tile| tile_view(t)) == load_terrain_superposition_tiles(),
        sp@.map_values(|t: Tile| t.filename@) == load_terrain_superposition_names(),
{
    let mut sp: Vec<Tile> = Vec::new();
    sp.push(tile("0-tileset_30.png", layer, 40, TileCollider::Nothing, [tag("空"), tag("空"), tag("空"), tag("空"), TileJoint::All, TileJoint::All]));
    sp.push(tile("0-tileset_01.png", layer, 2, TileCollider::Full, [tag("草空"), tag("x|边|草"), tag("草空"), tag("y|边|草"), TileJoint::All, TileJoint::All]));
    sp.push(tile("0-tileset_02.png", layer, 2, TileCollider::Full, [tag("草空"), tag("草"), tag("y|边|草"), tag("y|边|草"), TileJoint::All, TileJoint::All]));
    sp.push(tile("0-tileset_03.png", layer, 2, TileCollider::Full, [tag("草空"), tag("x|草|边"), tag("y|边|草"), tag("草空"), TileJoint::All, TileJoint::All]));
    sp.push(tile("0-tileset_04.png", layer, 2, TileCollider::Full, [tag("草"), tag("草"), tag("草"), tag("草"), TileJoint::All, TileJoint::All]));
    sp.push(tile("0-tileset_21.png", layer, 2, TileCollider::Full, [tag("x|边|草"), tag("x|边|草"), tag("草空"), tag("草"), TileJoint::All, TileJoint::All]));
    sp.push(tile("0-tileset_23.png", layer, 2, TileCollider::Full, [tag("x|草|边"), tag("x|草|边"), tag("草"), tag("草空"), TileJoint::All, TileJoint::All]));
    sp.push(tile("0-tileset_39.png", layer, 2, TileCollider::Full, [tag("x|边|草"), tag("草空"), tag("草空"), tag("y|草|边"), TileJoint::All, TileJoint::All]));
    sp.push(tile("0-tileset_40.png", layer, 2, TileCollider::Full, [tag("草"), tag("草空"), tag("y|草|边"), tag("y|草|边"), TileJoint::All, TileJoint::All]));
    sp.push(tile("0-tileset_41.png", layer, 2, TileCollider::Full, [tag("x|草|边"), tag("草空"), tag("y|草|边"), tag("草空"), TileJoint::All, TileJoint::All]));
    sp.push(tile("0-tileset_17.png", layer, 1, TileCollider::Full, [tag("池空"), tag("x|边|水"), tag("池空"), tag("y|边|水"), TileJoint::Nothing, TileJoint::Nothing]));
    sp.push(tile("0-tileset_18.png", layer, 1, TileCollider::Full, [tag("池空"), tag("水"), tag("y|边|水"), tag("y|边|水"), TileJoint::Nothing, TileJoint::Nothing]));
    sp.push(tile("0-tileset_19.png", layer, 1, TileCollider::Full, [tag("池空"), tag("x|水|边"), tag("y|边|水"), tag("池空"), TileJoint::Nothing, TileJoint::Nothing]));
    sp.push(tile("0-tileset_36.png", layer, 1, TileCollider::Full, [tag("x|边|水"), tag("x|边|水"), tag("池空"), tag("水"), TileJoint::Nothing, TileJoint::Nothing]));
    sp.push(tile("0-tileset_37.png", layer, 1, TileCollider::Full, [tag("水"), tag("水"), tag("水"), tag("水"), TileJoint::Nothing, TileJoint::Nothing]));
    sp.push(tile("0-tileset_38.png", layer, 1, TileCollider::Full, [tag("x|水|边"), tag("x|水|边"), tag("水"), tag("池空"), TileJoint::Nothing, TileJoint::Nothing]));
    sp.push(tile("0-tileset_54.png", layer, 1, TileCollider::Full, [tag("x|边|水"), tag("池空"), tag("池空"), tag("y|水|边"), TileJoint::Nothing, TileJoint::Nothing]));
    sp.push(tile("0-tileset_55.png", layer, 1, TileCollider::Full, [tag("水"), tag("池空"), tag("y|水|边"), tag("y|水|边"), TileJoint::Nothing, TileJoint::Nothing]));
    sp.push(tile("0-tileset_56.png", layer, 1, TileCollider::Full, [tag("x|水|边"), tag("池空"), tag("y|水|边"), tag("池空"), TileJoint::Nothing, TileJoint::Nothing]));
    sp.push(tile("0-tileset_13.png", layer, 1, TileCollider::Nothing, [tag("砖空"), tag("x|边|砖"), tag("砖空"), tag("y|边|砖"), TileJoint::All, TileJoint::Nothing]));
    sp.push(tile("0-tileset_14.png", layer, 1, TileCollider::Nothing, [tag("砖空"), tag("砖"), tag("y|边|砖"), tag("y|边|砖"), TileJoint::All, TileJoint::Nothing]));
    sp.push(tile("0-tileset_15.png", layer, 1, TileCollider::Nothing, [tag("砖空"), tag("x|砖|边"), tag("y|边|砖"), tag("砖空"), TileJoint::All, TileJoint::Nothing]));
    sp.push(tile("0-tileset_33.png", layer, 1, TileCollider::Nothing, [tag("x|边|砖"), tag("x|边|砖"), tag("砖空"), tag("砖"), TileJoint::All, TileJoint::Nothing]));
    sp.push(tile("0-tileset_34.png", layer, 1, TileCollider::Nothing, [tag("砖"), tag("砖"), tag("砖"), tag("砖"), TileJoint::All, TileJoint::Nothing]));
    sp.push(tile("0-tileset_35.png", layer, 1, TileCollider::Nothing, [tag("x|砖|边"), tag("x|砖|边"), tag("砖"), tag("砖空"), TileJoint::All, TileJoint::Nothing]));
    sp.push(tile("0-tileset_51.png", layer, 1, TileCollider::Nothing, [tag("x|边|砖"), tag("砖空"), tag("砖空"), tag("y|砖|边"), TileJoint::All, TileJoint::Nothing]));
    sp.push(tile("0-tileset_52.png", layer, 1, TileCollider::Nothing, [tag("砖"), tag("砖空"), tag("y|砖|边"), tag("y|砖|边"), TileJoint::All, TileJoint::Nothing]));
    sp.push(tile("0-tileset_53.png", layer, 1, TileCollider::Nothing, [tag("x|砖|边"), tag("砖空"), tag("y|砖|边"), tag("砖空"), TileJoint::All, TileJoint::Nothing]));
    assert(sp@.map_values(|t: Tile| tile_view(t)) =~= load_terrain_superposition_tiles());
    assert(sp@.map_values(|t: Tile| t.filename@) =~= load_terrain_superposition_names());
    sp
}

/// The image files of `load_item_superposition`, in order.
pub open spec fn load_item_superposition_names() -> Seq<Seq<char>> {
    seq![
        "0-tileset_50.png"@
    ]
}

/// The tiles of `load_item_superposition`, in order, as plain values.
pub open spec fn load_item_superposition_tiles() -> Seq<TileView> {
    seq![
        (
            "0-tileset_50.png"@, 1u8, TileCollider::Nothing,
            (tagged("边"@), tagged("边"@), tagged("边"@), tagged("边"@), any_side(), any_side()),
        )
    ]
}

/// The tiles of the layer that stands on the terrain.
pub fn load_item_superposition(layer: usize) -> (sp: Vec<Tile>)
    ensures
        sp@.len() == 1,
        forall|k: int| 0 <= k < sp@.len() ==> #[trigger] sp@[k].layer == layer && sp@[k].rng_seed > 0,
        sp@.map_values(|t: Tile| tile_view(t)) == load_item_superposition_tiles(),
        sp@.map_values(|t: Tile| t.filename@) == load_item_superposition_names(),
{
    let mut sp: Vec<Tile> = Vec::new();
    sp.push(tile("0-tileset_50.png", layer, 1, TileCollider::Nothing, [tag("边"), tag("边"), tag("边"), tag("边"), TileJoint::All, TileJoint::All]));
    assert(sp@.map_values(|t: Tile| tile_view(t)) =~= load_item_superposition_tiles());
    assert(sp@.map_values(|t: Tile| t.filename@) =~= load_item_superposition_names());
    sp
}

/// The image files of `load_all_superposition`, in order.
pub open spec fn load_all_superposition_names() -> Seq<Seq<char>> {
    seq![
        "0-tileset_50.png"@,
        "0-tileset_65.png"@,
        "0-tileset_64.png"@,
        "0-tileset_63.png"@,
        "0-tileset_62.png"@,
        "0-tileset_58.png"@,
        "0-tileset_57.png"@,
        "0-tileset_59.png"@,
        "0-tileset_61.png"@,
        "0-tileset_66.png"@,
        "0-tileset_67.png"@,
        "0-tileset_68.png"@,
        "0-tileset_69.png"@,
        "0-tileset_01.png"@,
        "0-tileset_02.png"@,
        "0-tileset_03.png"@,
        "0-tileset_04.png"@,
        "0-tileset_21.png"@,
        "0-tileset_23.png"@,
        "0-tileset_39.png"@,
        "0-tileset_40.png"@,
        "0-tileset_41.png"@
    ]
}

/// The tiles of `load_all_superposition`, in order, as plain values.
pub open spec fn load_all_superposition_tiles() -> Seq<TileView> {
    seq![
        (
            "0-tileset_50.png"@, 1u8, TileCollider::Full,
            (tagged("边"@), tagged("边"@), tagged("边"@), tagged("边"@), any_side(), any_side()),
        ),
        (
            "0-tileset_65.png"@, 1u8, TileCollider::Full,
            (tagged("路"@), tagged("路"@), tagged("路"@), tagged("路"@), any_side(), any_side()),
        ),
        (
            "0-tileset_64.png"@, 1u8, TileCollider::Full,
            (tagged("路"@), tagged("路"@), tagged("边"@), tagged("路"@), any_side(), any_side()),
        ),
        (
            "0-tileset_63.png"@, 1u8, TileCollider::Full,
            (tagged("路"@), tagged("边"@), tagged("路"@), tagged("边"@), any_side(), any_side()),
        ),
        (
            "0-tileset_62.png"@, 1u8, TileCollider::Full,
            (tagged("路"@), tagged("路"@), tagged("边"@), tagged("边"@), any_side(), any_side()),
        ),
        (
            "0-tileset_58.png"@, 1u8, TileCollider::Full,
            (tagged("边"@), tagged("边"@), tagged("路"@), tagged("路"@), any_side(), any_side()),
        ),
        (
            "0-tileset_57.png"@, 1u8, TileCollider::Full,
            (tagged("边"@), tagged("路"@), tagged("边"@), tagged("路"@), any_side(), any_side()),
        ),
        (
            "0-tileset_59.png"@, 1u8, TileCollider::Full,
            (tagged("边"@), tagged("路"@), tagged("路"@), tagged("边"@), any_side(), any_side()),
        ),
        (
            "0-tileset_61.png"@, 1u8, TileCollider::Full,
            (tagged("路"@), tagged("边"@), tagged("边"@), tagged("路"@), any_side(), any_side()),
        ),
        (
            "0-tileset_66.png"@, 1u8, TileCollider::Full,
            (tagged("路"@), tagged("路"@), tagged("路"@), tagged("边"@), any_side(), any_side()),
        ),
        (
            "0-tileset_67.png"@, 1u8, TileCollider::Full,
            (tagged("边"@), tagged("路"@), tagged("路"@), tagged("路"@), any_side(), any_side()),
        ),
        (
            "0-tileset_68.png"@, 1u8, TileCollider::Full,
            (tagged("路"@), tagged("边"@), tagged("路"@), tagged("路"@), any_side(), any_side()),
        ),
        (
            "0-tileset_69.png"@, 1u8, TileCollider::Full,
            (tagged("路"@), tagged("路"@), tagged("路"@), tagged("路"@), any_side(), any_side()),
        ),
        (
            "0-tileset_01.png"@, 1u8, TileCollider::Full,
            (tagged("边"@), tagged("x|边|草"@), tagged("边"@), tagged("y|边|草"@), any_side(), any_side()),
        ),
        (
            "0-tileset_02.png"@, 1u8, TileCollider::Full,
            (tagged("边"@), tagged("草"@), tagged("y|边|草"@), tagged("y|边|草"@), any_side(), any_side()),
        ),
        (
            "0-tileset_03.png"@, 1u8, TileCollider::Full,
            (tagged("边"@), tagged("x|草|边"@), tagged("y|边|草"@), tagged("边"@), any_side(), any_side()),
        ),
        (
            "0-tileset_04.png"@, 1u8, TileCollider::Full,
            (tagged("草"@), tagged("草"@), tagged("草"@), tagged("草"@), any_side(), any_side()),
        ),
        (
            "0-tileset_21.png"@, 1u8, TileCollider::Full,
            (tagged("x|边|草"@), tagged("x|边|草"@), tagged("边"@), tagged("草"@), any_side(), any_side()),
        ),
        (
            "0-tileset_23.png"@, 1u8, TileCollider::Full,
            (tagged("x|草|边"@), tagged("x|草|边"@), tagged("草"@), tagged("边"@), any_side(), any_side()),
        ),
        (
            "0-tileset_39.png"@, 1u8, TileCollider::Full,
            (tagged("x|边|草"@), tagged("边"@), tagged("边"@), tagged("y|草|边"@), any_side(), any_side()),
        ),
        (
            "0-tileset_40.png"@, 1u8, TileCollider::Full,
            (tagged("草"@), tagged("边"@), tagged("y|草|边"@), tagged("y|草|边"@), any_side(), any_side()),
        ),
        (
            "0-tileset_41.png"@, 1u8, TileCollider::Full,
            (tagged("x|草|边"@), tagged("边"@), tagged("y|草|边"@), tagged("边"@), any_side(), any_side()),
        )
    ]
}

/// The full tile set of the default map data.
pub fn load_all_superposition(layer: usize) -> (sp: Vec<Tile>)
    ensures
        sp@.len() == 22,
        forall|k: int| 0 <= k < sp@.len() ==> #[trigger] sp@[k].layer == layer && sp@[k].rng_seed > 0,
        sp@.map_values(|t: Tile| tile_view(t)) == load_all_superposition_tiles(),
        sp@.map_values(|t: Tile| t.filename@) == load_all_superposition_names(),
{
    let mut sp: Vec<Tile> = Vec::new();
    sp.push(tile("0-tileset_50.png", layer, 1, TileCollider::Full, [tag("边"), tag("边"), tag("边"), tag("边"), TileJoint::All, TileJoint::All]));
    sp.push(tile("0-tileset_65.png", layer, 1, TileCollider::Full, [tag("路"), tag("路"), tag("路"), tag("路"), TileJoint::All, TileJoint::All]));
    sp.push(tile("0-tileset_64.png", layer, 1, TileCollider::Full, [tag("路"), tag("路"), tag("边"), tag("路"), TileJoint::All, TileJoint::All]));
    sp.push(tile("0-tileset_63.png", layer, 1, TileCollider::Full, [tag("路"), tag("边"), tag("路"), tag("边"), TileJoint::All, TileJoint::All]));
    sp.push(tile("0-tileset_62.png", layer, 1, TileCollider::Full, [tag("路"), tag("路"), tag("边"), tag("边"), TileJoint::All, TileJoint::All]));
    sp.push(tile("0-tileset_58.png", layer, 1, TileCollider::Full, [tag("边"), tag("边"), tag("路"), tag("路"), TileJoint::All, TileJoint::All]));
    sp.push(tile("0-tileset_57.png", layer, 1, TileCollider::Full, [tag("边"), tag("路"), tag("边"), tag("路"), TileJoint::All, TileJoint::All]));
    sp.push(tile("0-tileset_59.png", layer, 1, TileCollider::Full, [tag("边"), tag("路"), tag("路"), tag("边"), TileJoint::All, TileJoint::All]));
    sp.push(tile("0-tileset_61.png", layer, 1, TileCollider::Full, [tag("路"), tag("边"), tag("边"), tag("路"), TileJoint::All, TileJoint::All]));
    sp.push(tile("0-tileset_66.png", layer, 1, TileCollider::Full, [tag("路"), tag("路"), tag("路"), tag("边"), TileJoint::All, TileJoint::All]));
    sp.push(tile("0-tileset_67.png", layer, 1, TileCollider::Full, [tag("边"), tag("路"), tag("路"), tag("路"), TileJoint::All, TileJoint::All]));
    sp.push(tile("0-tileset_68.png", layer, 1, TileCollider::Full, [tag("路"), tag("边"), tag("路"), tag("路"), TileJoint::All, TileJoint::All]));
    sp.push(tile("0-tileset_69.png", layer, 1, TileCollider::Full, [tag("路"), tag("路"), tag("路"), tag("路"), TileJoint::All, TileJoint::All]));
    sp.push(tile("0-tileset_01.png", layer, 1, TileCollider::Full, [tag("边"), tag("x|边|草"), tag("边"), tag("y|边|草"), TileJoint::All, TileJoint::All]));
    sp.push(tile("0-tileset_02.png", layer, 1, TileCollider::Full, [tag("边"), tag("草"), tag("y|边|草"), tag("y|边|草"), TileJoint::All, TileJoint::All]));
    sp.push(tile("0-tileset_03.png", layer, 1, TileCollider::Full, [tag("边"), tag("x|草|边"), tag("y|边|草"), tag("边"), TileJoint::All, TileJoint::All]));
    sp.push(tile("0-tileset_04.png", layer, 1, TileCollider::Full, [tag("草"), tag("草"), tag("草"), tag("草"), TileJoint::All, TileJoint::All]));
    sp.push(tile("0-tileset_21.png", layer, 1, TileCollider::Full, [tag("x|边|草"), tag("x|边|草"), tag("边"), tag("草"), TileJoint::All, TileJoint::All]));
    sp.push(tile("0-tileset_23.png", layer, 1, TileCollider::Full, [tag("x|草|边"), tag("x|草|边"), tag("草"), tag("边"), TileJoint::All, TileJoint::All]));
    sp.push(tile("0-tileset_39.png", layer, 1, TileCollider::Full, [tag("x|边|草"), tag("边"), tag("边"), tag("y|草|边"), TileJoint::All, TileJoint::All]));
    sp.push(tile("0-tileset_40.png", layer, 1, TileCollider::Full, [tag("草"), tag("边"), tag("y|草|边"), tag("y|草|边"), TileJoint::All, TileJoint::All]));
    sp.push(tile("0-tileset_41.png", layer, 1, TileCollider::Full, [tag("x|草|边"), tag("边"), tag("y|草|边"), tag("边"), TileJoint::All, TileJoint::All]));
    assert(sp@.map_values(|t: Tile| tile_view(t)) =~= load_all_superposition_tiles());
    assert(sp@.map_values(|t: Tile| t.filename@) =~= load_all_superposition_names());
    sp
}

/// The terrain tiles have distinct images.
pub proof fn lemma_terrain_names_distinct()
    ensures load_terrain_superposition_names().no_duplicates(),
{
    reveal_strlit("0-tileset_30.png");
    reveal_strlit("0-tileset_01.png");
    reveal_strlit("0-tileset_02.png");
    reveal_strlit("0-tileset_03.png");
    reveal_strlit("0-tileset_04.png");
    reveal_strlit("0-tileset_21.png");
    reveal_strlit("0-tileset_23.png");
    reveal_strlit("0-tileset_39.png");
    reveal_strlit("0-tileset_40.png");
    reveal_strlit("0-tileset_41.png");
    reveal_strlit("0-tileset_17.png");
    reveal_strlit("0-tileset_18.png");
    reveal_strlit("0-tileset_19.png");
    reveal_strlit("0-tileset_36.png");
    reveal_strlit("0-tileset_37.png");
    reveal_strlit("0-tileset_38.png");
    reveal_strlit("0-tileset_54.png");
    reveal_strlit("0-tileset_55.png");
    reveal_strlit("0-tileset_56.png");
    reveal_strlit("0-tileset_13.png");
    reveal_strlit("0-tileset_14.png");
    reveal_strlit("0-tileset_15.png");
    reveal_strlit("0-tileset_33.png");
    reveal_strlit("0-tileset_34.png");
    reveal_strlit("0-tileset_35.png");
    reveal_strlit("0-tileset_51.png");
    reveal_strlit("0-tileset_52.png");
    reveal_strlit("0-tileset_53.png");
    let names = load_terrain_superposition_names();
    assert forall|i: int, j: int| 0 <= i < names.len() && 0 <= j < names.len() && i != j
        implies names[i] != names[j] by {
        if names[i] == names[j] {
            assert(names[i][10] == names[j][10] && names[i][11] == names[j][11]);
        }
    }
}

/// Each terrain tile is found again by its image: the first terrain tile named as the
/// `k`-th is the `k`-th, so `get_tile_by_filename` gives back that terrain tile.
pub proof fn lemma_terrain_tile_by_name(k: int)
    requires 0 <= k < load_terrain_superposition_names().len(),
    ensures terrain_index(load_terrain_superposition_names()[k]) == k,
{
    let names = load_terrain_superposition_names();
    lemma_terrain_names_distinct();
    lemma_first_name(names, names[k]);
}

/// The tiles a layer starts from, as plain values: background (0), terrain (1),
/// items (2); no tiles on any other layer.
pub open spec fn layer_tiles(layer: int) -> Seq<TileView> {
    if layer == 0 {
        load_background_superposition_tiles()
    } else if layer == 1 {
        load_terrain_superposition_tiles()
    } else if layer == 2 {
        load_item_superposition_tiles()
    } else {
        Seq::empty()
    }
}

/// The tiles a layer starts from: background (0), terrain (1), items (2); no tiles above.
pub fn load_default_superposition(layer: u32) -> (sp: Vec<Tile>)
    ensures
        forall|k: int| 0 <= k < sp@.len() ==> #[trigger] sp@[k].layer == layer && sp@[k].rng_seed > 0,
        sp@.map_values(|t: Tile| tile_view(t)) == layer_tiles(layer as int),
        layer == 0 ==> sp@.map_values(|t: Tile| t.filename@) == load_background_superposition_names(),
        layer == 1 ==> sp@.map_values(|t: Tile| t.filename@) == load_terrain_superposition_names(),
        layer == 2 ==> sp@.map_values(|t: Tile| t.filename@) == load_item_superposition_names(),
        layer > 2 ==> sp@.len() == 0,
{
    if layer == 0 {
        load_background_superposition(layer as usize)
    } else if layer == 1 {
        load_terrain_superposition(layer as usize)
    } else if layer == 2 {
        load_item_superposition(layer as usize)
    } else {
        let sp: Vec<Tile> = Vec::new();
        assert(sp@.map_values(|t: Tile| tile_view(t)) =~= Seq::<TileView>::empty());
        sp
    }
}

/// The position of the first terrain tile with the image `name`, or the number of
/// terrain tiles when there is none.
pub open spec fn terrain_index(name: Seq<char>) -> int {
    first_name(load_terrain_superposition_names(), name)
}

/// The position of the first entry equal to `x`, or `s.len()` when there is none.
pub open spec fn first_name(s: Seq<Seq<char>>, x: Seq<char>) -> int
    decreases s.len(),
{
    if s.len() == 0 {
        0
    } else if s[0] == x {
        0
    } else {
        1 + first_name(s.drop_first(), x)
    }
}

proof fn lemma_first_name(s: Seq<Seq<char>>, x: Seq<char>)
    ensures
        0 <= first_name(s, x) <= s.len(),
        first_name(s, x) < s.len() ==> s[first_name(s, x)] == x,
        forall|j: int| 0 <= j < first_name(s, x) ==> s[j] != x,
    decreases s.len(),
{
    if s.len() > 0 && s[0] != x {
        let t = s.drop_first();
        lemma_first_name(t, x);
        assert forall|j: int| 0 <= j < first_name(s, x) implies s[j] != x by {
            if j > 0 { assert(s[j] == t[j - 1]); }
        }
    }
}

/// The terrain tile with the image `filename` (the first one, on layer 1), if there is one.
pub fn find_tile_by_filename(filename: &str) -> (res: Option<Tile>)
    ensures
        match res {
            Some(t) => {
                &&& terrain_index(filename@) < load_terrain_superposition_names().len()
                &&& tile_view(t) == load_terrain_superposition_tiles()[terrain_index(filename@)]
                &&& t.filename@ == filename@ && t.layer == 1 && t.rng_seed > 0
            },
            None => !load_terrain_superposition_names().contains(filename@),
        },
{
    let tiles = load_terrain_superposition(1);
    let ghost names = tiles@.map_values(|t: Tile| t.filename@);
    let ghost views = tiles@.map_values(|t: Tile| tile_view(t));
    proof { lemma_first_name(names, filename@); }
    let mut i: usize = 0;
    while i < tiles.len()
        invariant
            i <= tiles@.len(), names == tiles@.map_values(|t: Tile| t.filename@),
            names == load_terrain_superposition_names(),
            views == tiles@.map_values(|t: Tile| tile_view(t)),
            views == load_terrain_superposition_tiles(),
            forall|k: int| 0 <= k < tiles@.len() ==> #[trigger] tiles@[k].layer == 1 && tiles@[k].rng_seed > 0,
            forall|k: int| 0 <= k < i ==> names[k] != filename@,
            0 <= first_name(names, filename@) <= names.len(),
            first_name(names, filename@) < names.len() ==> names[first_name(names, filename@)] == filename@,
            forall|j: int| 0 <= j < first_name(names, filename@) ==> names[j] != filename@,
        decreases tiles@.len() - i,
    {
        assert(names[i as int] == tiles@[i as int].filename@);
        if same_text(tiles[i].filename.as_str(), filename) {
            assert(tiles@[i as int].layer == 1 && tiles@[i as int].rng_seed > 0);
            assert(first_name(names, filename@) == i);
            assert(views[i as int] == tile_view(tiles@[i as int]));
            return Some(tiles[i].duplicate());
        }
        i = i + 1;
    }
    assert(!names.contains(filename@)) by {
        if names.contains(filename@) {
            let k = choose|k: int| 0 <= k < names.len() && names[k] == filename@;
            assert(names[k] != filename@);
        }
    }
    None
}

/// The terrain tile with the image `filename` (the first one, on layer 1).
pub fn get_tile_by_filename(filename: String) -> (t: Tile)
    requires load_terrain_superposition_names().contains(filename@),
    ensures
        terrain_index(filename@) < load_terrain_superposition_names().len(),
        tile_view(t) == load_terrain_superposition_tiles()[terrain_index(filename@)],
        t.filename@ == filename@, t.layer == 1, t.rng_seed > 0,
{
    match find_tile_by_filename(filename.as_str()) {
        Some(t) => t,
        None => {
            assert(false);
            load_glue_superposition().remove(0)
        },
    }
}

} // verus!
