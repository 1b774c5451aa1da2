use gamecore::grid::GridPoint;
use gamecore::store::{find, next_u64, save, GameData};
use gamecore::tile_map::{create_map, GridSize, TileMap};

fn temp_db() -> sled::Db {
    sled::Config::new().temporary(true).open().unwrap()
}

#[test]
fn rocksdb_test() {
    // Write, read back and remove a run of keys, as the store is used.
    let mut db = temp_db();
    for i in 0..100u32 {
        let record = GameData::player_group_addr(i, Some(format!("value-{}", i)));
        save(&mut db, record).unwrap();
        let value = find(&db, GameData::player_group_addr(i, None)).unwrap();
        assert_eq!(value, format!("value-{}", i));
    }
}

#[test]
fn test1() {
    // Every stored record can be read back.
    let mut db = temp_db();
    save(&mut db, GameData::player_online(Some("1,2,3".to_string()))).unwrap();
    save(&mut db, GameData::player_queue_uid(Some("7".to_string()))).unwrap();
    assert_eq!(find(&db, GameData::player_online(None)).unwrap(), "1,2,3");
    assert_eq!(next_u64(&mut db, GameData::player_queue_uid(None)).unwrap(), 8);
}

#[test]
fn lib_test_1() {
    let user_data_b = 0u128.to_be_bytes();
    println!("length {}", user_data_b.len());
    assert_eq!(user_data_b.len(), 16);
    println!("be: {:?}", 10u128.to_be_bytes());
    println!("le: {:?}", 10u128.to_le_bytes());
    println!("ne: {:?}", 10u128.to_ne_bytes());
    assert_eq!(10u128.to_le_bytes()[0], 10);
    assert_eq!(10u128.to_be_bytes()[15], 10);
}

#[test]
fn packet_test_1() {
    let user_data_b = 0u128.to_be_bytes();
    println!("length {}", user_data_b.len());
    assert_eq!(user_data_b.len(), 16);
    println!("be: {:?}", 10u128.to_be_bytes());
    println!("le: {:?}", 10u128.to_le_bytes());
    println!("ne: {:?}", 10u128.to_ne_bytes());
}

#[test]
fn test_sled() {
    let db: sled::Db = sled::Config::new().temporary(true).open().unwrap();

    // insert and get
    let _ = db.insert(b"yo!", b"v1");
    assert_eq!(&db.get(b"yo!").unwrap().unwrap(), b"v1");

    // Atomic compare-and-swap.
    let _ = db
        .compare_and_swap(b"yo!", Some(b"v1"), Some(b"v2"))
        .unwrap();

    // Iterates over key-value pairs, starting at the given key.
    let scan_key: &[u8] = b"a non-present key before yo!";
    let mut iter = db.range(scan_key..);
    assert_eq!(&iter.next().unwrap().unwrap().0, b"yo!");
    assert_eq!(iter.next(), None);

    let _ = db.remove(b"yo!");
    assert_eq!(db.get(b"yo!"), Ok(None));

    let other_tree: sled::Tree = db.open_tree(b"cool db facts").unwrap();
    other_tree
        .insert(b"k1", &b"a Db acts like a Tree due to implementing Deref<Target = Tree>"[..])
        .unwrap();
}

#[test]
fn test_server_db() {
    let db = temp_db();
    let point = GridPoint::new(0, 0, 0);
    if let Ok(tile) = find(&db, GameData::tile_map(point, None)) {
        println!("{:?}", tile);
    }
    assert!(find(&db, GameData::tile_map(point, None)).is_err());
}

#[test]
fn tile_map_test_create_map() {
    let mut tile_map = TileMap {
        center_point: GridPoint::new(0, 0, 0),
        texture_size: GridSize { x: 64, y: 64, z: 1 },
        chunk_size: GridSize { x: 1, y: 1, z: 1 },
        map_size: GridSize { x: 5, y: 5, z: 1 },
        slot_map: Vec::new(),
    };
    create_map(&mut tile_map, &Vec::new());
    assert_eq!(tile_map.slot_map.len(), 25);
    assert!(tile_map.slot_map.iter().all(|s| s.entropy == 0));
}
