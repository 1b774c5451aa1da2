use gamecore::protocol::AccountData;
use gamecore::server::{serve, Reply, Request};
use gamecore::session::bound_player;
use gamecore::store::{find, GameData};

fn temp_db() -> sled::Db {
    sled::Config::new().temporary(true).open().unwrap()
}

const ADDR: &str = "127.0.0.1:4000";

#[test]
fn keep_is_echoed_and_recorded() {
    let mut db = temp_db();
    assert_eq!(serve(&mut db, ADDR, Request::Keep, 1234).unwrap(), Reply::Echo);
    assert_eq!(find(&db, GameData::player_addr_health(ADDR.to_string(), None)).unwrap(), "1234");
}

#[test]
fn other_messages_change_nothing() {
    let mut db = temp_db();
    assert_eq!(serve(&mut db, ADDR, Request::Heartbeat, 1).unwrap(), Reply::Nothing);
    assert_eq!(serve(&mut db, ADDR, Request::Game, 1).unwrap(), Reply::Nothing);
    assert!(find(&db, GameData::player_addr_health(ADDR.to_string(), None)).is_err());
}

#[test]
fn login_is_announced_with_the_new_id() {
    let mut db = temp_db();
    let reply = serve(&mut db, ADDR, Request::Login(AccountData { uid: 77, group: 0 }), 10).unwrap();
    assert_eq!(reply, Reply::Joined(AccountData { uid: 0, group: 0 }));
    let again = serve(&mut db, ADDR, Request::Login(AccountData { uid: 77, group: 0 }), 20).unwrap();
    assert_eq!(again, Reply::Joined(AccountData { uid: 0, group: 0 }));
    let other = serve(&mut db, "127.0.0.1:4001", Request::Login(AccountData { uid: 5, group: 0 }), 30).unwrap();
    assert_eq!(other, Reply::Joined(AccountData { uid: 1, group: 0 }));
    assert_eq!(find(&db, GameData::player_online(None)).unwrap(), "0,1");
    assert_eq!(find(&db, GameData::player_group_addr(0, None)).unwrap(), "127.0.0.1:4000,127.0.0.1:4001");
}

#[test]
fn unbound_sender_stops_the_front() {
    let mut db = temp_db();
    assert_eq!(serve(&mut db, ADDR, Request::Control, 1).unwrap(), Reply::Stop);
    assert_eq!(serve(&mut db, ADDR, Request::Logout(AccountData { uid: 0, group: 0 }), 1).unwrap(), Reply::Stop);
}

#[test]
fn control_is_steered_under_the_bound_id() {
    let mut db = temp_db();
    serve(&mut db, "127.0.0.1:4001", Request::Login(AccountData { uid: 9, group: 0 }), 5).unwrap();
    serve(&mut db, ADDR, Request::Login(AccountData { uid: 9, group: 0 }), 5).unwrap();
    assert_eq!(serve(&mut db, ADDR, Request::Control, 6).unwrap(), Reply::Steer(1));
}

#[test]
fn logout_unlists_but_keeps_the_binding() {
    let mut db = temp_db();
    serve(&mut db, ADDR, Request::Login(AccountData { uid: 9, group: 2 }), 5).unwrap();
    let reply = serve(&mut db, ADDR, Request::Logout(AccountData { uid: 9, group: 2 }), 6).unwrap();
    assert_eq!(reply, Reply::Nothing);
    assert_eq!(find(&db, GameData::player_online(None)).unwrap(), "");
    assert_eq!(find(&db, GameData::player_group_addr(2, None)).unwrap(), "");
    assert_eq!(bound_player(&db, ADDR).unwrap(), Some(0));
    let back = serve(&mut db, ADDR, Request::Login(AccountData { uid: 9, group: 2 }), 7).unwrap();
    assert_eq!(back, Reply::Joined(AccountData { uid: 0, group: 2 }));
}
