use gamecore::grid::GridPoint;
use gamecore::protocol::TileState;
use gamecore::tile_map::{
    chunk_map, collapse, collapse_step, create_map, find_slot, neighbour_joints, tile_states, total_weight_of,
    weighted_pick, GridSize, Slot, TileMap,
};
use gamecore::tile_sets::{
    find_tile_by_filename, get_tile_by_filename, load_all_superposition, load_background_superposition,
    load_default_superposition, load_glue_superposition, load_item_superposition, load_terrain_superposition,
};
use gamecore::tiles::{filter_superposition, fits, joint_accepts, tag_accepts, Tile, TileCollider, TileJoint};

fn tag(s: &str) -> TileJoint {
    TileJoint::TagOne(s.to_string())
}

fn plain_tile(name: &str, seed: u8, joints: [TileJoint; 6]) -> Tile {
    Tile { filename: name.to_string(), layer: 1, rng_seed: seed, collider: TileCollider::Full, joints }
}

fn all_joints() -> [TileJoint; 6] {
    [TileJoint::All, TileJoint::All, TileJoint::All, TileJoint::All, TileJoint::All, TileJoint::All]
}

#[test]
fn tag_rules() {
    // a tag that mentions open ground accepts only open ground
    assert!(tag_accepts("草空", "空"));
    assert!(!tag_accepts("草空", "草空"));
    assert!(!tag_accepts("草空", "草"));
    // open ground accepts every tag that mentions open ground
    assert!(tag_accepts("空", "草空"));
    assert!(tag_accepts("空", "空"));
    assert!(!tag_accepts("空", "草"));
    // other tags accept only themselves
    assert!(tag_accepts("x|边|草", "x|边|草"));
    assert!(!tag_accepts("x|边|草", "x|草|边"));
}

#[test]
fn joint_rules() {
    assert!(joint_accepts(&TileJoint::All, &TileJoint::Nothing));
    assert!(!joint_accepts(&TileJoint::Nothing, &TileJoint::All));
    assert!(joint_accepts(&tag("草"), &TileJoint::All));
    assert!(!joint_accepts(&tag("草"), &TileJoint::Nothing));
    assert!(joint_accepts(&tag("草"), &tag("草")));
    assert!(!joint_accepts(&tag("草"), &tag("水")));
}

#[test]
fn filtering() {
    let grass = plain_tile("g", 1, [tag("草"), tag("草"), tag("草"), tag("草"), TileJoint::All, TileJoint::All]);
    let water = plain_tile("w", 1, [tag("水"), tag("水"), tag("水"), tag("水"), TileJoint::All, TileJoint::All]);
    let sp = vec![grass.clone(), water.clone()];
    let mut jl = all_joints();
    assert_eq!(filter_superposition(&sp, &jl).len(), 2);
    jl[0] = tag("草");
    let kept = filter_superposition(&sp, &jl);
    assert_eq!(kept.len(), 1);
    assert_eq!(kept[0].filename, "g");
    assert!(fits(&jl, &grass));
    assert!(!fits(&jl, &water));
    // a neighbour side that offers nothing leaves no tile
    jl[5] = TileJoint::Nothing;
    assert_eq!(filter_superposition(&sp, &jl).len(), 0);
}

#[test]
fn tile_sets() {
    assert_eq!(load_glue_superposition().len(), 1);
    assert_eq!(load_background_superposition(0).len(), 1);
    let terrain = load_terrain_superposition(1);
    assert_eq!(terrain.len(), 28);
    assert_eq!(terrain[0].filename, "0-tileset_30.png");
    assert_eq!(terrain[0].rng_seed, 40);
    assert_eq!(terrain[0].collider, TileCollider::Nothing);
    assert_eq!(terrain[0].joints[0], tag("空"));
    assert_eq!(terrain[1].filename, "0-tileset_01.png");
    assert_eq!(terrain[1].joints[1], tag("x|边|草"));
    assert_eq!(load_item_superposition(2)[0].filename, "0-tileset_50.png");
    assert_eq!(load_all_superposition(1).len(), 22);
    assert_eq!(load_default_superposition(0).len(), 1);
    assert_eq!(load_default_superposition(1).len(), 28);
    assert_eq!(load_default_superposition(2).len(), 1);
    assert_eq!(load_default_superposition(3).len(), 0);
    assert!(terrain.iter().all(|t| t.layer == 1 && t.rng_seed > 0));
}

#[test]
fn tile_by_filename() {
    let t = get_tile_by_filename("0-tileset_37.png".to_string());
    assert_eq!(t.filename, "0-tileset_37.png");
    assert_eq!(t.layer, 1);
    assert_eq!(t.joints[4], TileJoint::Nothing);
    assert!(find_tile_by_filename("nope.png").is_none());
}

#[test]
fn weights() {
    let a = plain_tile("a", 2, all_joints());
    let b = plain_tile("b", 3, all_joints());
    let sp = vec![a, b];
    assert_eq!(total_weight_of(&sp), 5);
    let picks: Vec<String> = (0..5u128).map(|r| weighted_pick(&sp, r).filename).collect();
    assert_eq!(picks, vec!["a", "a", "b", "b", "b"]);
}

fn open_slot(x: i32, y: i32, tiles: Vec<Tile>) -> Slot {
    let entropy = tiles.len();
    Slot { point: GridPoint::new(x, y, 0), superposition: tiles, entropy, tile: None }
}

#[test]
fn neighbours_constrain() {
    let grass = plain_tile("g", 1, [tag("草"), tag("上"), tag("左"), tag("右"), TileJoint::All, TileJoint::All]);
    let mut placed = open_slot(0, 1, vec![]);
    placed.tile = Some(grass);
    let map = vec![placed, open_slot(0, 0, vec![])];
    let jl = neighbour_joints(&map, GridPoint::new(0, 0, 0));
    // the cell below the grass tile faces its down side
    assert_eq!(jl[0], tag("上"));
    assert_eq!(jl[1], TileJoint::All);
    assert_eq!(find_slot(&map, GridPoint::new(0, 1, 0)), Some(0));
    assert_eq!(find_slot(&map, GridPoint::new(5, 5, 0)), None);
}

#[test]
fn collapse_settles_everything() {
    let grass = plain_tile("g", 1, [tag("草"), tag("草"), tag("草"), tag("草"), TileJoint::All, TileJoint::All]);
    let water = plain_tile("w", 1, [tag("水"), tag("水"), tag("水"), tag("水"), TileJoint::All, TileJoint::All]);
    let mut map = Vec::new();
    for x in 0..3 {
        map.push(open_slot(x, 0, vec![grass.clone(), water.clone()]));
    }
    let res = collapse(map);
    assert_eq!(res.len(), 3);
    assert!(res.iter().all(|s| s.entropy == 0 && s.tile.is_some()));
    // neighbours agree: all grass or all water
    let first = res[0].tile.as_ref().unwrap().filename.clone();
    assert!(res.iter().all(|s| s.tile.as_ref().unwrap().filename == first));
}

#[test]
fn collapse_step_picks_most_constrained() {
    let a = plain_tile("a", 1, all_joints());
    let b = plain_tile("b", 1, all_joints());
    let mut map = vec![open_slot(0, 0, vec![a.clone(), b.clone()]), open_slot(5, 0, vec![a.clone()])];
    assert_eq!(collapse_step(&mut map), Some(1));
    assert_eq!(map[1].tile.as_ref().unwrap().filename, "a");
    assert_eq!(map[0].entropy, 2);
    assert_eq!(collapse_step(&mut map), Some(0));
    assert_eq!(collapse_step(&mut map), None);
}

#[test]
fn dead_cells_are_emptied() {
    let grass = plain_tile("g", 1, [tag("草"), tag("草"), tag("草"), tag("草"), TileJoint::All, TileJoint::All]);
    let water = plain_tile("w", 1, [tag("水"), tag("水"), tag("水"), tag("水"), TileJoint::All, TileJoint::All]);
    let mut placed = open_slot(0, 1, vec![]);
    placed.tile = Some(water);
    let map = vec![placed, open_slot(0, 0, vec![grass])];
    let res = collapse(map);
    assert!(res[1].tile.is_none());
    assert_eq!(res[1].entropy, 0);
    assert!(res[1].superposition.is_empty());
}

#[test]
fn map_creation_uses_saved_tiles() {
    let mut tile_map = TileMap {
        center_point: GridPoint::new(0, 0, 0),
        texture_size: GridSize { x: 64, y: 64, z: 1 },
        chunk_size: GridSize { x: 1, y: 1, z: 1 },
        map_size: GridSize { x: 4, y: 2, z: 2 },
        slot_map: Vec::new(),
    };
    let saved = vec![TileState { point: (1, 1, 1), filename: "0-tileset_04.png".to_string(), collider: TileCollider::Full }];
    create_map(&mut tile_map, &saved);
    // x in -2..=2, y in -1..=1, z in 0..2
    assert_eq!(tile_map.slot_map.len(), 30);
    let i = find_slot(&tile_map.slot_map, GridPoint::new(1, 1, 1)).unwrap();
    assert_eq!(tile_map.slot_map[i].tile.as_ref().unwrap().filename, "0-tileset_04.png");
    for s in &tile_map.slot_map {
        assert_eq!(s.entropy, 0);
        if let Some(t) = &s.tile {
            assert!(t.layer == s.point.z as usize);
        }
    }
    let states = tile_states(&tile_map);
    assert!(states.iter().any(|s| s.point == (1, 1, 1) && s.filename == "0-tileset_04.png"));
}

#[test]
fn chunks() {
    let tm = chunk_map(-5, 3);
    assert_eq!(tm.center_point, GridPoint::new(-50, 30, 0));
    assert_eq!(tm.map_size, GridSize { x: 20, y: 20, z: 2 });
    assert!(tm.slot_map.is_empty());
    let mut tm = chunk_map(0, 0);
    create_map(&mut tm, &Vec::new());
    assert_eq!(tm.slot_map.len(), 21 * 21 * 2);
}

#[test]
fn random_choice_reaches_every_candidate() {
    // Two equally weighted candidates: over many draws both must come up.
    let a = plain_tile("a", 1, all_joints());
    let b = plain_tile("b", 1, all_joints());
    let mut seen_a = false;
    let mut seen_b = false;
    for _ in 0..200 {
        let mut map = vec![open_slot(0, 0, vec![a.clone(), b.clone()])];
        assert_eq!(collapse_step(&mut map), Some(0));
        match map[0].tile.as_ref().unwrap().filename.as_str() {
            "a" => seen_a = true,
            "b" => seen_b = true,
            other => panic!("unexpected tile {}", other),
        }
    }
    assert!(seen_a && seen_b);
}

#[test]
fn full_terrain_entries() {
    let t = get_tile_by_filename("0-tileset_01.png".to_string());
    assert_eq!(t.rng_seed, 2);
    assert_eq!(t.collider, TileCollider::Full);
    assert_eq!(t.joints, [tag("草空"), tag("x|边|草"), tag("草空"), tag("y|边|草"), TileJoint::All, TileJoint::All]);
    let all = load_all_superposition(0);
    assert_eq!(all[0].filename, "0-tileset_50.png");
    assert!(all.iter().all(|t| t.layer == 0 && t.rng_seed > 0));
}

#[test]
fn lone_background_cell_gets_its_tile() {
    let sp = load_background_superposition(0);
    let bg = sp[0].clone();
    let res = collapse(vec![Slot { point: GridPoint::new(0, 0, 0), superposition: sp, entropy: 1, tile: None }]);
    assert_eq!(res[0].tile, Some(bg));
    assert_eq!(res[0].entropy, 0);
    assert!(res[0].superposition.is_empty());
}

#[test]
fn background_map_is_filled() {
    let mut tile_map = TileMap {
        center_point: GridPoint::new(0, 0, 0),
        texture_size: GridSize { x: 64, y: 64, z: 1 },
        chunk_size: GridSize { x: 1, y: 1, z: 1 },
        map_size: GridSize { x: 5, y: 5, z: 1 },
        slot_map: Vec::new(),
    };
    create_map(&mut tile_map, &Vec::new());
    let bg = load_background_superposition(0)[0].clone();
    assert_eq!(tile_map.slot_map.len(), 25);
    for s in &tile_map.slot_map {
        assert!(-2 <= s.point.x && s.point.x <= 2 && -2 <= s.point.y && s.point.y <= 2 && s.point.z == 0);
        assert_eq!(s.tile, Some(bg.clone()));
    }
}

#[test]
fn settled_neighbours_agree() {
    // terrain on layer 1 next to itself: every pair of horizontal neighbours accepts each other
    let mut tile_map = TileMap {
        center_point: GridPoint::new(0, 0, 0),
        texture_size: GridSize { x: 64, y: 64, z: 1 },
        chunk_size: GridSize { x: 1, y: 1, z: 1 },
        map_size: GridSize { x: 6, y: 6, z: 2 },
        slot_map: Vec::new(),
    };
    create_map(&mut tile_map, &Vec::new());
    let tiles: Vec<(GridPoint, Tile)> = tile_map.slot_map.iter()
        .filter_map(|s| s.tile.clone().map(|t| (s.point, t))).collect();
    for (p, a) in &tiles {
        for (q, b) in &tiles {
            if q.x == p.x && q.y == p.y + 1 && q.z == p.z {
                assert!(joint_accepts(&a.joints[0], &b.joints[1]) || joint_accepts(&b.joints[1], &a.joints[0]));
            }
            if q.x == p.x + 1 && q.y == p.y && q.z == p.z {
                assert!(joint_accepts(&a.joints[3], &b.joints[2]) || joint_accepts(&b.joints[2], &a.joints[3]));
            }
        }
    }
}

#[test]
fn every_terrain_tile_is_found_by_its_image() {
    for t in load_terrain_superposition(1) {
        assert_eq!(get_tile_by_filename(t.filename.clone()), t);
    }
}

#[test]
fn sizes_above_the_i32_range_read_as_negative() {
    let make = |sx: u32| TileMap {
        center_point: GridPoint::new(0, 0, 0),
        texture_size: GridSize { x: 64, y: 64, z: 1 },
        chunk_size: GridSize { x: 1, y: 1, z: 1 },
        map_size: GridSize { x: sx, y: 1, z: 1 },
        slot_map: Vec::new(),
    };
    // u32::MAX reads as -1, and -1 / 2 is 0: one column
    let mut one = make(u32::MAX);
    create_map(&mut one, &Vec::new());
    assert_eq!(one.slot_map.len(), 1);
    assert!(one.holds_point(GridPoint::new(0, 0, 0)));
    // 2^31 reads as i32::MIN: the box is empty
    let mut none = make(0x8000_0000);
    create_map(&mut none, &Vec::new());
    assert!(none.slot_map.is_empty());
}
