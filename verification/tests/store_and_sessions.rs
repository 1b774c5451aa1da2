use gamecore::grid::GridPoint;
use gamecore::session::{
    bound_player, clean_offline_users, is_silent, login, logout, player_offline, record_heartbeat, OFFLINE_AFTER_MS,
};
use gamecore::store::{
    find, find_and_lock, find_record, next_u64, save, save_record, ColumnFamily, GameData, StoreError,
};

fn temp_db() -> sled::Db {
    sled::Config::new().temporary(true).open().unwrap()
}

fn key_text(data: &GameData) -> String {
    String::from_utf8(data.key_bytes()).unwrap()
}

#[test]
fn record_names() {
    assert_eq!(key_text(&GameData::player_online(None)), "player-(online)");
    assert_eq!(key_text(&GameData::player_group_addr(3, None)), "player-(group_addr_3)");
    assert_eq!(key_text(&GameData::player_addr_health("1.2.3.4:5".to_string(), None)), "player-(addr_health_1.2.3.4:5)");
    assert_eq!(key_text(&GameData::player_addr_uid("1.2.3.4:5".to_string(), None)), "player-(addr_uid_1.2.3.4:5)");
    assert_eq!(key_text(&GameData::player_queue_uid(None)), "player-(queue_uid)");
    assert_eq!(key_text(&GameData::tile_map(GridPoint::new(1, -2, 3), None)), "tile_map-(1,-2,3)");
    assert_eq!(key_text(&GameData::player(42, None)), "player-(42)");
}

#[test]
fn column_families() {
    assert_eq!(ColumnFamily::GameServer.index(), 0);
    assert_eq!(ColumnFamily::GameClient.index(), 1);
    assert_eq!(ColumnFamily::GameServer.name(), "0");
    assert_eq!(ColumnFamily::GameClient.name(), "1");
}

#[test]
fn save_then_find() {
    let mut db = temp_db();
    assert!(matches!(find(&db, GameData::player_online(None)), Err(StoreError::NotFound)));
    save(&mut db, GameData::player_online(Some("1,2".to_string()))).unwrap();
    assert_eq!(find(&db, GameData::player_online(None)).unwrap(), "1,2");
    assert_eq!(find_and_lock(&db, GameData::player_online(None)).unwrap(), "1,2");
    save(&mut db, GameData::player_online(Some("3".to_string()))).unwrap();
    assert_eq!(find(&db, GameData::player_online(None)).unwrap(), "3");
    assert!(matches!(find(&db, GameData::player_queue_uid(None)), Err(StoreError::NotFound)));
}

#[test]
fn non_text_record() {
    let mut db = temp_db();
    let key = GameData::player_online(None).key_bytes();
    save_record(&mut db, &key, &[0xff, 0xfe]).unwrap();
    assert!(matches!(find(&db, GameData::player_online(None)), Err(StoreError::NotText)));
    assert_eq!(find_record(&db, &key).unwrap(), vec![0xff, 0xfe]);
    assert!(matches!(find_record(&db, b"missing"), Err(StoreError::NotFound)));
}

#[test]
fn counter_steps() {
    let mut db = temp_db();
    assert_eq!(next_u64(&mut db, GameData::player_queue_uid(None)).unwrap(), 0);
    assert_eq!(find(&db, GameData::player_queue_uid(None)).unwrap(), "0");
    assert_eq!(next_u64(&mut db, GameData::player_queue_uid(None)).unwrap(), 1);
    assert_eq!(next_u64(&mut db, GameData::player_queue_uid(None)).unwrap(), 2);
    // a counter that does not read as a number starts again from 0
    save(&mut db, GameData::player_queue_uid(Some("x".to_string()))).unwrap();
    assert_eq!(next_u64(&mut db, GameData::player_queue_uid(None)).unwrap(), 0);
    // the new value always goes to the id counter, whatever record was read
    save(&mut db, GameData::player_online(Some("41".to_string()))).unwrap();
    assert_eq!(next_u64(&mut db, GameData::player_online(None)).unwrap(), 42);
    assert_eq!(find(&db, GameData::player_queue_uid(None)).unwrap(), "42");
    assert_eq!(find(&db, GameData::player_online(None)).unwrap(), "41");
}

#[test]
fn counter_on_non_text() {
    let mut db = temp_db();
    let key = GameData::player_queue_uid(None).key_bytes();
    save_record(&mut db, &key, &[0xff]).unwrap();
    // a counter that is not text starts again from 0
    assert_eq!(next_u64(&mut db, GameData::player_queue_uid(None)).unwrap(), 0);
    assert_eq!(find(&db, GameData::player_queue_uid(None)).unwrap(), "0");
    assert_eq!(next_u64(&mut db, GameData::player_queue_uid(None)).unwrap(), 1);
}

#[test]
fn login_binds_and_lists() {
    let mut db = temp_db();
    let a = "10.0.0.1:4000";
    let b = "10.0.0.2:4000";
    assert_eq!(login(&mut db, a, 0, 1000).unwrap(), 0);
    assert_eq!(find(&db, GameData::player_online(None)).unwrap(), "0");
    assert_eq!(find(&db, GameData::player_group_addr(0, None)).unwrap(), a);
    assert_eq!(find(&db, GameData::player_addr_health(a.to_string(), None)).unwrap(), "1000");
    assert_eq!(bound_player(&db, a).unwrap(), Some(0));
    // the same address keeps its id
    assert_eq!(login(&mut db, a, 0, 2000).unwrap(), 0);
    assert_eq!(find(&db, GameData::player_online(None)).unwrap(), "0");
    assert_eq!(find(&db, GameData::player_group_addr(0, None)).unwrap(), a);
    // another address gets the next id
    assert_eq!(login(&mut db, b, 0, 2000).unwrap(), 1);
    assert_eq!(find(&db, GameData::player_online(None)).unwrap(), "0,1");
    assert_eq!(find(&db, GameData::player_group_addr(0, None)).unwrap(), format!("{},{}", a, b));
}

#[test]
fn login_keeps_bound_id() {
    let mut db = temp_db();
    save(&mut db, GameData::player_addr_uid("h:1".to_string(), Some("77".to_string()))).unwrap();
    assert_eq!(login(&mut db, "h:1", 2, 10).unwrap(), 77);
    assert_eq!(find(&db, GameData::player_group_addr(2, None)).unwrap(), "h:1");
    assert!(matches!(find(&db, GameData::player_queue_uid(None)), Err(StoreError::NotFound)));
}

#[test]
fn login_with_broken_counter_starts_ids_again() {
    let mut db = temp_db();
    let key = GameData::player_queue_uid(None).key_bytes();
    save_record(&mut db, &key, &[0xff]).unwrap();
    assert_eq!(login(&mut db, "h:2", 0, 10).unwrap(), 0);
    assert_eq!(bound_player(&db, "h:2").unwrap(), Some(0));
    assert_eq!(find(&db, GameData::player_online(None)).unwrap(), "0");
}

#[test]
fn logout_unlists() {
    let mut db = temp_db();
    login(&mut db, "a:1", 0, 10).unwrap();
    login(&mut db, "b:1", 0, 10).unwrap();
    logout(&mut db, "a:1", 0).unwrap();
    assert_eq!(find(&db, GameData::player_online(None)).unwrap(), "1");
    assert_eq!(find(&db, GameData::player_group_addr(0, None)).unwrap(), "b:1");
    // the binding stays, so a new log-in gets the old id back
    assert_eq!(bound_player(&db, "a:1").unwrap(), Some(0));
    // an address bound to no id changes nothing
    logout(&mut db, "c:1", 0).unwrap();
    assert_eq!(find(&db, GameData::player_online(None)).unwrap(), "1");
}

#[test]
fn heartbeat_is_recorded() {
    let mut db = temp_db();
    record_heartbeat(&mut db, "a:1", 123456).unwrap();
    assert_eq!(find(&db, GameData::player_addr_health("a:1".to_string(), None)).unwrap(), "123456");
}

#[test]
fn silence() {
    assert!(!is_silent(100, 100));
    assert!(!is_silent(5100, 100));
    assert!(is_silent(5101, 100));
    assert!(!is_silent(0, u128::MAX));
    assert!(!is_silent(u128::MAX, u128::MAX - OFFLINE_AFTER_MS));
    assert!(is_silent(u128::MAX, u128::MAX - OFFLINE_AFTER_MS - 1));
}

#[test]
fn sweep_drops_silent_players() {
    let mut db = temp_db();
    login(&mut db, "a:1", 0, 1000).unwrap();
    login(&mut db, "b:1", 0, 4000).unwrap();
    clean_offline_users(&mut db, 7000).unwrap();
    assert_eq!(find(&db, GameData::player_online(None)).unwrap(), "1");
    assert_eq!(find(&db, GameData::player_group_addr(0, None)).unwrap(), "b:1");
    clean_offline_users(&mut db, 9001).unwrap();
    assert_eq!(find(&db, GameData::player_online(None)).unwrap(), "");
    assert_eq!(find(&db, GameData::player_group_addr(0, None)).unwrap(), "");
    // nothing listed: nothing to do
    clean_offline_users(&mut db, 100000).unwrap();
}

#[test]
fn offline_check() {
    let mut db = temp_db();
    assert_eq!(player_offline(&db, 0).unwrap(), false);
    login(&mut db, "a:1", 0, 10).unwrap();
    assert_eq!(player_offline(&db, 0).unwrap(), false);
    assert_eq!(player_offline(&db, 1).unwrap(), true);
}
