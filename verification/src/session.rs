//! Player sessions on the game server: log-in, log-out, heartbeats and the sweep of
//! silent addresses, kept in the game store.
use vstd::prelude::*;
use vstd::utf8::*;
use crate::lists::{
    lemma_with_keeps_unique, lemma_with_then_holds, lemma_without_keeps_lacking, lemma_without_then_lacks,
    list_holds, list_with,
    list_with_spec, list_without, list_without_spec, split_commas, split_list,
};
use crate::store::{
    db_contents, find, group_record, health_record, next_counter, online_record, next_u64, queue_record,
    lemma_player_records_distinct, lemma_read_after_save, stored_counter, stored_text,
    uid_record, save, GameData, StoreError,
};
use crate::text::{
    dec_digits, decimal_string, is_digit, lemma_dec_digits, lemma_parse_dec_digits, parse_bounded,
    parse_u128, parse_u32, string_of,
};

verus! {

pub type Contents = Map<Seq<u8>, Seq<u8>>;

/// An address is dropped when it has been silent for longer than this many milliseconds.
pub const OFFLINE_AFTER_MS: u128 = 5000;

/// The contents after `item` joins the list stored under `k`; a missing or unreadable list
/// becomes `item` alone.
pub open spec fn with_added(m: Contents, k: Seq<u8>, item: Seq<char>) -> Contents {
    match stored_text(m, k) {
        Some(d) => match list_with_spec(d, item) {
            Some(r) => m.insert(k, encode_utf8(r)),
            None => m,
        },
        None => m.insert(k, encode_utf8(item)),
    }
}

/// The contents after the first `item` leaves the list stored under `k`.
pub open spec fn with_removed(m: Contents, k: Seq<u8>, item: Seq<char>) -> Contents {
    match stored_text(m, k) {
        Some(d) => match list_without_spec(d, item) {
            Some(r) => m.insert(k, encode_utf8(r)),
            None => m,
        },
        None => m,
    }
}

/// The player id bound to `addr`, when its record reads as a `u32`.
pub open spec fn bound_uid(m: Contents, addr: Seq<char>) -> Option<nat> {
    match stored_text(m, uid_record(addr)) {
        Some(t) => parse_bounded(t, u32::MAX as nat),
        None => None,
    }
}

/// The id a logging-in address plays under, and the contents after it is settled: the id
/// already bound to the address; else a new id drawn from the counter and bound to the
/// address.
pub open spec fn settle_uid(m: Contents, addr: Seq<char>) -> (u32, Contents) {
    match bound_uid(m, addr) {
        Some(id) => (id as u32, m),
        None => {
            let n = next_counter(m, queue_record());
            let m1 = m.insert(queue_record(), encode_utf8(dec_digits(n)));
            let u = (n as u64) as u32;
            (u, m1.insert(uid_record(addr), encode_utf8(dec_digits(u as nat))))
        },
    }
}

/// A log-in from `addr` can draw a new id from the counter: the address has an id already,
/// or the counter is below its largest value.
pub open spec fn can_settle(m: Contents, addr: Seq<char>) -> bool {
    bound_uid(m, addr) is None ==> stored_counter(m, queue_record()) != Some(u64::MAX as nat)
}

/// The id and the contents after a log-in from `addr` into `group` at time `now`.
pub open spec fn login_spec(m: Contents, addr: Seq<char>, group: u32, now: u128) -> (u32, Contents) {
    let (u, m1) = settle_uid(m, addr);
    let m2 = with_added(m1, online_record(), dec_digits(u as nat));
    let m3 = with_added(m2, group_record(group as nat), addr);
    (u, m3.insert(health_record(addr), encode_utf8(dec_digits(now as nat))))
}

/// The contents after a log-out of `addr` from `group`.
pub open spec fn logout_spec(m: Contents, addr: Seq<char>, group: u32) -> Contents {
    match bound_uid(m, addr) {
        Some(u) => with_removed(
            with_removed(m, online_record(), dec_digits(u)),
            group_record(group as nat),
            addr,
        ),
        None => m,
    }
}

/// The time of the last sign of life from `addr`.
pub open spec fn last_seen(m: Contents, addr: Seq<char>) -> Option<nat> {
    match stored_text(m, health_record(addr)) {
        Some(t) => parse_bounded(t, u128::MAX as nat),
        None => None,
    }
}

/// The sweep of one address of group 0: an address silent for too long, and bound to a
/// player id, leaves the online list (its id) and the group 0 list (its address).
pub open spec fn sweep_one(m: Contents, addr: Seq<char>, now: u128) -> Contents {
    match last_seen(m, addr) {
        Some(h) => if now > h + OFFLINE_AFTER_MS {
            match bound_uid(m, addr) {
                Some(u) => with_removed(
                    with_removed(m, online_record(), dec_digits(u)),
                    group_record(0),
                    addr,
                ),
                None => m,
            }
        } else {
            m
        },
        None => m,
    }
}

/// The sweep of the addresses `addrs`, in order.
pub open spec fn sweep(m: Contents, addrs: Seq<Seq<char>>, now: u128) -> Contents
    decreases addrs.len(),
{
    if addrs.len() == 0 {
        m
    } else {
        sweep_one(sweep(m, addrs.drop_last(), now), addrs.last(), now)
    }
}

/// The contents after the sweep of every address listed in group 0 at its start.
pub open spec fn clean_spec(m: Contents, now: u128) -> Contents {
    match stored_text(m, group_record(0)) {
        Some(d) => if d.len() > 0 { sweep(m, split_commas(d), now) } else { m },
        None => m,
    }
}

/// Reads a stored list; a missing or unreadable one reads as `None`.
fn read_list(db: &sled::Db, list: &GameData) -> (res: Result<Option<String>, StoreError>)
    ensures
        res matches Ok(r) ==> (match r {
            Some(s) => stored_text(db_contents(*db), list.store_key()) == Some(s@),
            None => stored_text(db_contents(*db), list.store_key()) is None,
        }),
        res matches Err(e) ==> e is Db,
{
    match find(db, list.record(None)) {
        Ok(s) => Ok(Some(s)),
        Err(StoreError::NotFound) => Ok(None),
        Err(StoreError::NotText) => Ok(None),
        Err(e) => Err(e),
    }
}

/// Adds `item` to the list stored under the record `list`.
fn add_to_list(db: &mut sled::Db, list: &GameData, item: &str) -> (res: Result<(), StoreError>)
    ensures
        res is Ok ==> db_contents(*final(db)) == with_added(db_contents(*old(db)), list.store_key(), item@),
        res matches Err(e) ==> e is Db,
{
    let current = read_list(db, list)?;
    match current {
        Some(d) => {
            match list_with(d.as_str(), item) {
                Some(r) => save(db, list.record(Some(r))),
                None => Ok(()),
            }
        },
        None => save(db, list.record(Some(string_of(item)))),
    }
}

/// Removes the first `item` from the list stored under the record `list`.
fn remove_from_list(db: &mut sled::Db, list: &GameData, item: &str) -> (res: Result<(), StoreError>)
    ensures
        res is Ok ==> db_contents(*final(db)) == with_removed(db_contents(*old(db)), list.store_key(), item@),
        res matches Err(e) ==> e is Db,
{
    let current = read_list(db, list)?;
    match current {
        Some(d) => {
            match list_without(d.as_str(), item) {
                Some(r) => save(db, list.record(Some(r))),
                None => Ok(()),
            }
        },
        None => Ok(()),
    }
}

/// The player id bound to `addr`, when its record reads as a `u32`.
pub fn bound_player(db: &sled::Db, addr: &str) -> (res: Result<Option<u32>, StoreError>)
    ensures
        res matches Ok(r) ==> (match bound_uid(db_contents(*db), addr@) {
            Some(u) => r == Some(u as u32),
            None => r is None,
        }),
        res matches Err(e) ==> e is Db,
{
    let record = GameData::player_addr_uid(string_of(addr), None);
    match read_list(db, &record)? {
        Some(t) => Ok(parse_u32(t.as_str())),
        None => Ok(None),
    }
}

/// Records a heartbeat from `addr` at time `now` (milliseconds since the epoch).
pub fn record_heartbeat(db: &mut sled::Db, addr: &str, now: u128) -> (res: Result<(), StoreError>)
    ensures
        res is Ok ==> db_contents(*final(db)) == db_contents(*old(db)).insert(
            health_record(addr@), encode_utf8(dec_digits(now as nat))),
        res matches Err(e) ==> e is Db,
{
    let record = GameData::player_addr_health(string_of(addr), Some(decimal_string(now)));
    save(db, record)
}

/// Settles the id a logging-in address plays under (see `settle_uid`).
fn settle_player(db: &mut sled::Db, addr: &str) -> (res: Result<u32, StoreError>)
    requires can_settle(db_contents(*old(db)), addr@),
    ensures
        res matches Ok(u) ==> (u, db_contents(*final(db))) == settle_uid(db_contents(*old(db)), addr@),
        res matches Err(e) ==> e is Db,
{
    if let Some(id) = bound_player(db, addr)? {
        return Ok(id);
    }
    let counter = GameData::player_queue_uid(None);
    let id = next_u64(db, counter)?;
    let uid = id as u32;
    let record = GameData::player_addr_uid(string_of(addr), Some(decimal_string(uid as u128)));
    save(db, record)?;
    Ok(uid)
}

/// Logs in a player from `addr` into `group` at time `now` (milliseconds since the epoch):
/// settles its id, adds the id to the online list and the address to the group's list,
/// and records the address as alive. Returns the id.
pub fn login(db: &mut sled::Db, addr: &str, group: u32, now: u128) -> (res: Result<u32, StoreError>)
    requires can_settle(db_contents(*old(db)), addr@),
    ensures
        res matches Ok(u) ==> (u, db_contents(*final(db))) == login_spec(db_contents(*old(db)), addr@, group, now),
        res matches Err(e) ==> e is Db,
{
    let uid = settle_player(db, addr)?;
    let online = GameData::player_online(None);
    add_to_list(db, &online, decimal_string(uid as u128).as_str())?;
    let members = GameData::player_group_addr(group, None);
    add_to_list(db, &members, addr)?;
    record_heartbeat(db, addr, now)?;
    Ok(uid)
}

/// Logs out the player of `addr` from `group`: its id leaves the online list and the
/// address leaves the group's list. An address bound to no id changes nothing.
pub fn logout(db: &mut sled::Db, addr: &str, group: u32) -> (res: Result<(), StoreError>)
    ensures
        res is Ok ==> db_contents(*final(db)) == logout_spec(db_contents(*old(db)), addr@, group),
        res matches Err(e) ==> e is Db,
{
    let uid = match bound_player(db, addr)? {
        Some(u) => u,
        None => { return Ok(()); },
    };
    let online = GameData::player_online(None);
    remove_from_list(db, &online, decimal_string(uid as u128).as_str())?;
    let members = GameData::player_group_addr(group, None);
    remove_from_list(db, &members, addr)?;
    Ok(())
}

/// The time of the last heartbeat of `addr`, when its record reads as a `u128`.
fn last_heartbeat(db: &sled::Db, addr: &str) -> (res: Result<Option<u128>, StoreError>)
    ensures
        res matches Ok(r) ==> (match last_seen(db_contents(*db), addr@) {
            Some(h) => r == Some(h as u128),
            None => r is None,
        }),
        res matches Err(e) ==> e is Db,
{
    let record = GameData::player_addr_health(string_of(addr), None);
    match read_list(db, &record)? {
        Some(t) => Ok(parse_u128(t.as_str())),
        None => Ok(None),
    }
}

/// Whether an address last seen at `seen` counts as gone at time `now`.
pub fn is_silent(now: u128, seen: u128) -> (res: bool)
    ensures res == (now > seen + OFFLINE_AFTER_MS),
{
    now > seen && now - seen > OFFLINE_AFTER_MS
}

/// Sweeps one address of group 0 (see `sweep_one`).
fn sweep_address(db: &mut sled::Db, addr: &str, now: u128) -> (res: Result<(), StoreError>)
    ensures
        res is Ok ==> db_contents(*final(db)) == sweep_one(db_contents(*old(db)), addr@, now),
        res matches Err(e) ==> e is Db,
{
    let seen = match last_heartbeat(db, addr)? {
        Some(h) => h,
        None => { return Ok(()); },
    };
    if !is_silent(now, seen) {
        return Ok(());
    }
    let uid = match bound_player(db, addr)? {
        Some(u) => u,
        None => { return Ok(()); },
    };
    let online = GameData::player_online(None);
    remove_from_list(db, &online, decimal_string(uid as u128).as_str())?;
    let members = GameData::player_group_addr(0, None);
    remove_from_list(db, &members, addr)?;
    Ok(())
}

/// Drops the players of group 0 whose address has been silent for longer than
/// `OFFLINE_AFTER_MS` at time `now`, going through the group's address list as it stood
/// when the sweep began.
pub fn clean_offline_users(db: &mut sled::Db, now: u128) -> (res: Result<(), StoreError>)
    ensures
        res is Ok ==> db_contents(*final(db)) == clean_spec(db_contents(*old(db)), now),
        res matches Err(e) ==> e is Db,
{
    let members = GameData::player_group_addr(0, None);
    let listed = match read_list(db, &members)? {
        Some(d) => d,
        None => { return Ok(()); },
    };
    if listed.unicode_len() == 0 {
        return Ok(());
    }
    let addrs = split_list(listed.as_str());
    let ghost m0 = db_contents(*db);
    let ghost views = split_commas(listed@);
    let mut i: usize = 0;
    assert(views.take(0) =~= Seq::<Seq<char>>::empty());
    while i < addrs.len()
        invariant
            i <= addrs@.len(), addrs@.len() == views.len(),
            forall|k: int| 0 <= k < addrs@.len() ==> #[trigger] addrs@[k]@ == views[k],
            db_contents(*db) == sweep(m0, views.take(i as int), now),
        decreases addrs@.len() - i,
    {
        sweep_address(db, addrs[i].as_str(), now)?;
        assert(views.take(i + 1).drop_last() =~= views.take(i as int));
        i = i + 1;
    }
    assert(views.take(addrs@.len() as int) =~= views);
    Ok(())
}

/// A decimal number has no comma in it.
proof fn lemma_digits_plain(n: nat)
    ensures dec_digits(n).len() > 0, !dec_digits(n).contains(','),
{
    lemma_dec_digits(n);
    let d = dec_digits(n);
    if d.contains(',') {
        let k = choose|k: int| 0 <= k < d.len() && d[k] == ',';
        assert(is_digit(d[k]));
    }
}

/// After `item` joins the list under `k`, that list holds it, and every other record is
/// as it was.
pub proof fn lemma_with_added(m: Contents, k: Seq<u8>, x: Seq<char>)
    requires x.len() > 0, !x.contains(','),
    ensures
        stored_text(with_added(m, k, x), k) matches Some(t) && list_holds(t, x),
        forall|k2: Seq<u8>| k2 != k ==> #[trigger] stored_text(with_added(m, k, x), k2) == stored_text(m, k2),
{
    match stored_text(m, k) {
        Some(d) => {
            lemma_with_then_holds(d, x);
            match list_with_spec(d, x) {
                Some(r) => { lemma_read_after_save(m, k, r); },
                None => {},
            }
        },
        None => {
            lemma_with_then_holds(Seq::<char>::empty(), x);
            lemma_read_after_save(m, k, x);
        },
    }
}

/// After a log-in from `addr` the address is bound to the id it got, the online list holds
/// that id, the group's list holds the address, and the address was last seen now; so a
/// second log-in from the same address gets the same id.
pub proof fn lemma_login_effects(m: Contents, addr: Seq<char>, group: u32, now: u128,
    group2: u32, now2: u128)
    requires
        addr.len() > 0, !addr.contains(','),
    ensures ({
        let (u, m2) = login_spec(m, addr, group, now);
        &&& bound_uid(m2, addr) == Some(u as nat)
        &&& stored_text(m2, online_record()) matches Some(t) && list_holds(t, dec_digits(u as nat))
        &&& stored_text(m2, group_record(group as nat)) matches Some(t) && list_holds(t, addr)
        &&& last_seen(m2, addr) == Some(now as nat)
        &&& login_spec(m2, addr, group2, now2).0 == u
    }),
{
    lemma_player_records_distinct(group as nat, addr, addr);
    let (u, m1) = settle_uid(m, addr);
    match bound_uid(m, addr) {
        Some(id) => {},
        None => {
            let n = next_counter(m, queue_record());
            let ma = m.insert(queue_record(), encode_utf8(dec_digits(n)));
            lemma_read_after_save(ma, uid_record(addr), dec_digits(u as nat));
            lemma_parse_dec_digits(u as nat);
        },
    }
    assert(bound_uid(m1, addr) == Some(u as nat));
    lemma_digits_plain(u as nat);
    let m2 = with_added(m1, online_record(), dec_digits(u as nat));
    lemma_with_added(m1, online_record(), dec_digits(u as nat));
    assert(stored_text(m2, uid_record(addr)) == stored_text(m1, uid_record(addr)));
    let m3 = with_added(m2, group_record(group as nat), addr);
    lemma_with_added(m2, group_record(group as nat), addr);
    assert(stored_text(m3, uid_record(addr)) == stored_text(m2, uid_record(addr)));
    assert(stored_text(m3, online_record()) == stored_text(m2, online_record()));
    let m4 = m3.insert(health_record(addr), encode_utf8(dec_digits(now as nat)));
    lemma_read_after_save(m3, health_record(addr), dec_digits(now as nat));
    lemma_parse_dec_digits(now as nat);
    assert(stored_text(m4, uid_record(addr)) == stored_text(m3, uid_record(addr)));
    assert(stored_text(m4, online_record()) == stored_text(m3, online_record()));
    assert(stored_text(m4, group_record(group as nat)) == stored_text(m3, group_record(group as nat)));
    assert(bound_uid(m4, addr) == Some(u as nat));
}

/// Whether the player `uid` has left: the online list is stored and does not hold its id.
/// A missing or unreadable list keeps the player.
pub fn player_offline(db: &sled::Db, uid: u64) -> (res: Result<bool, StoreError>)
    ensures
        res matches Ok(gone) ==> gone == (match stored_text(db_contents(*db), online_record()) {
            Some(t) => !list_holds(t, dec_digits(uid as nat)),
            None => false,
        }),
        res matches Err(e) ==> e is Db,
{
    let online = GameData::player_online(None);
    match read_list(db, &online)? {
        Some(t) => Ok(!crate::lists::list_contains(t.as_str(), decimal_string(uid as u128).as_str())),
        None => Ok(false),
    }
}

/// The pieces of the list stored under `k` are distinct; a missing or unreadable list
/// counts as such.
pub open spec fn list_unique(m: Contents, k: Seq<u8>) -> bool {
    stored_text(m, k) matches Some(d) ==> split_commas(d).no_duplicates()
}

/// Adding an item to a list with distinct pieces keeps them distinct.
pub proof fn lemma_with_added_unique(m: Contents, k: Seq<u8>, x: Seq<char>)
    requires x.len() > 0, !x.contains(','), list_unique(m, k),
    ensures list_unique(with_added(m, k, x), k),
{
    match stored_text(m, k) {
        Some(d) => {
            lemma_with_keeps_unique(d, x);
            match list_with_spec(d, x) {
                Some(r) => { lemma_read_after_save(m, k, r); },
                None => {},
            }
        },
        None => {
            let e = Seq::<char>::empty();
            assert(split_commas(e).no_duplicates());
            lemma_with_keeps_unique(e, x);
            lemma_read_after_save(m, k, x);
        },
    }
}

/// Once `x` has left a stored list with distinct pieces, the list no longer holds `x`, its
/// pieces stay distinct, and every other record is as it was.
pub proof fn lemma_with_removed_lacks(m: Contents, k: Seq<u8>, x: Seq<char>)
    requires list_unique(m, k),
    ensures
        list_unique(with_removed(m, k, x), k),
        stored_text(m, k) is Some ==> (stored_text(with_removed(m, k, x), k) matches Some(t) && !list_holds(t, x)),
        forall|k2: Seq<u8>| k2 != k ==> #[trigger] stored_text(with_removed(m, k, x), k2) == stored_text(m, k2),
{
    match stored_text(m, k) {
        Some(d) => {
            lemma_without_then_lacks(d, x);
            match list_without_spec(d, x) {
                Some(r) => { lemma_read_after_save(m, k, r); },
                None => {},
            }
        },
        None => {},
    }
}

/// A log-in keeps the online list and the group's address list free of repeats.
pub proof fn lemma_login_keeps_unique(m: Contents, addr: Seq<char>, group: u32, now: u128)
    requires
        addr.len() > 0, !addr.contains(','),
        list_unique(m, online_record()), list_unique(m, group_record(group as nat)),
    ensures ({
        let m2 = login_spec(m, addr, group, now).1;
        &&& list_unique(m2, online_record())
        &&& list_unique(m2, group_record(group as nat))
    }),
{
    lemma_player_records_distinct(group as nat, addr, addr);
    let (u, m1) = settle_uid(m, addr);
    assert(stored_text(m1, online_record()) == stored_text(m, online_record()));
    assert(stored_text(m1, group_record(group as nat)) == stored_text(m, group_record(group as nat)));
    lemma_digits_plain(u as nat);
    let m2 = with_added(m1, online_record(), dec_digits(u as nat));
    lemma_with_added(m1, online_record(), dec_digits(u as nat));
    lemma_with_added_unique(m1, online_record(), dec_digits(u as nat));
    assert(stored_text(m2, group_record(group as nat)) == stored_text(m1, group_record(group as nat)));
    let m3 = with_added(m2, group_record(group as nat), addr);
    lemma_with_added(m2, group_record(group as nat), addr);
    lemma_with_added_unique(m2, group_record(group as nat), addr);
    assert(stored_text(m3, online_record()) == stored_text(m2, online_record()));
}

/// A log-out undoes the listing of a log-in: after a log-in from `addr` into `group` and a
/// log-out of `addr` from the same group, the online list no longer holds the player's id
/// and the group's list no longer holds the address, while the address stays bound to the
/// id. This holds when both lists were free of repeats before the log-in.
pub proof fn lemma_login_logout(m: Contents, addr: Seq<char>, group: u32, now: u128)
    requires
        addr.len() > 0, !addr.contains(','),
        list_unique(m, online_record()), list_unique(m, group_record(group as nat)),
    ensures ({
        let (u, m1) = login_spec(m, addr, group, now);
        let m2 = logout_spec(m1, addr, group);
        &&& bound_uid(m2, addr) == Some(u as nat)
        &&& stored_text(m2, online_record()) matches Some(t) && !list_holds(t, dec_digits(u as nat))
        &&& stored_text(m2, group_record(group as nat)) matches Some(t) && !list_holds(t, addr)
    }),
{
    lemma_player_records_distinct(group as nat, addr, addr);
    lemma_login_effects(m, addr, group, now, group, now);
    lemma_login_keeps_unique(m, addr, group, now);
    let (u, m1) = login_spec(m, addr, group, now);
    let ma = with_removed(m1, online_record(), dec_digits(u as nat));
    lemma_with_removed_lacks(m1, online_record(), dec_digits(u as nat));
    assert(stored_text(ma, group_record(group as nat)) == stored_text(m1, group_record(group as nat)));
    assert(stored_text(ma, uid_record(addr)) == stored_text(m1, uid_record(addr)));
    let mb = with_removed(ma, group_record(group as nat), addr);
    lemma_with_removed_lacks(ma, group_record(group as nat), addr);
    assert(stored_text(mb, online_record()) == stored_text(ma, online_record()));
    assert(stored_text(mb, uid_record(addr)) == stored_text(ma, uid_record(addr)));
    assert(logout_spec(m1, addr, group) == mb);
}

/// The sweep drops an address as a log-out from group 0 would, when the address has been
/// silent for longer than `OFFLINE_AFTER_MS`; any other address is left as it is.
pub proof fn lemma_sweep_is_logout(m: Contents, addr: Seq<char>, now: u128)
    ensures
        sweep_one(m, addr, now) == (match last_seen(m, addr) {
            Some(h) => if now > h + OFFLINE_AFTER_MS { logout_spec(m, addr, 0) } else { m },
            None => m,
        }),
{
}

/// Removing an item from a stored list never makes it hold another item it lacked.
proof fn lemma_with_removed_keeps_lacking(m: Contents, k: Seq<u8>, x: Seq<char>, y: Seq<char>)
    requires stored_text(m, k) matches Some(t) ==> !list_holds(t, y),
    ensures stored_text(with_removed(m, k, x), k) matches Some(t) ==> !list_holds(t, y),
{
    match stored_text(m, k) {
        Some(d) => {
            lemma_without_keeps_lacking(d, x, y);
            match list_without_spec(d, x) {
                Some(r) => { lemma_read_after_save(m, k, r); },
                None => {},
            }
        },
        None => {},
    }
}

/// The id of `a`, when `a` is bound to one and has been silent for longer than
/// `OFFLINE_AFTER_MS` at time `now`.
pub open spec fn silent_player(m: Contents, a: Seq<char>, now: u128) -> Option<nat> {
    match (last_seen(m, a), bound_uid(m, a)) {
        (Some(h), Some(u)) => if now > h + OFFLINE_AFTER_MS { Some(u) } else { None },
        _ => None,
    }
}

/// Neither the group 0 list holds `a` nor the online list holds the id `u`.
pub open spec fn dropped(m: Contents, a: Seq<char>, u: nat) -> bool {
    &&& stored_text(m, group_record(0)) matches Some(t) ==> !list_holds(t, a)
    &&& stored_text(m, online_record()) matches Some(t) ==> !list_holds(t, dec_digits(u))
}

proof fn lemma_sweep_prefix(m: Contents, addrs: Seq<Seq<char>>, now: u128, n: nat)
    requires
        n <= addrs.len(),
        list_unique(m, online_record()), list_unique(m, group_record(0)),
    ensures ({
        let mm = sweep(m, addrs.take(n as int), now);
        &&& list_unique(mm, online_record())
        &&& list_unique(mm, group_record(0))
        &&& forall|a: Seq<char>| #[trigger] last_seen(mm, a) == last_seen(m, a)
        &&& forall|a: Seq<char>| #[trigger] bound_uid(mm, a) == bound_uid(m, a)
        &&& stored_text(m, group_record(0)) is Some ==> stored_text(mm, group_record(0)) is Some
        &&& forall|j: int| 0 <= j < n && (#[trigger] silent_player(m, addrs[j], now)) is Some
            ==> dropped(mm, addrs[j], silent_player(m, addrs[j], now).unwrap())
    }),
    decreases n,
{
    if n == 0 {
        assert(addrs.take(0) =~= Seq::<Seq<char>>::empty());
    } else {
        lemma_sweep_prefix(m, addrs, now, (n - 1) as nat);
        let s = addrs.take(n as int);
        assert(s.drop_last() =~= addrs.take(n - 1));
        assert(s.last() == addrs[n - 1]);
        let m0 = sweep(m, addrs.take(n - 1), now);
        let a = addrs[n - 1];
        let mm = sweep(m, s, now);
        assert(mm == sweep_one(m0, a, now));
        match silent_player(m, a, now) {
            Some(u) => {
                assert(last_seen(m0, a) == last_seen(m, a));
                assert(bound_uid(m0, a) == bound_uid(m, a));
                let m1 = with_removed(m0, online_record(), dec_digits(u));
                assert(mm == with_removed(m1, group_record(0), a));
                lemma_player_records_distinct(0, a, a);
                lemma_with_removed_lacks(m0, online_record(), dec_digits(u));
                assert(stored_text(m1, group_record(0)) == stored_text(m0, group_record(0)));
                lemma_with_removed_lacks(m1, group_record(0), a);
                assert(stored_text(mm, online_record()) == stored_text(m1, online_record()));
                assert forall|b: Seq<char>| #[trigger] last_seen(mm, b) == last_seen(m, b) by {
                    lemma_player_records_distinct(0, b, b);
                    assert(last_seen(m0, b) == last_seen(m, b));
                    assert(stored_text(m1, health_record(b)) == stored_text(m0, health_record(b)));
                    assert(stored_text(mm, health_record(b)) == stored_text(m1, health_record(b)));
                }
                assert forall|b: Seq<char>| #[trigger] bound_uid(mm, b) == bound_uid(m, b) by {
                    lemma_player_records_distinct(0, b, b);
                    assert(bound_uid(m0, b) == bound_uid(m, b));
                    assert(stored_text(m1, uid_record(b)) == stored_text(m0, uid_record(b)));
                    assert(stored_text(mm, uid_record(b)) == stored_text(m1, uid_record(b)));
                }
                assert forall|j: int| 0 <= j < n && (#[trigger] silent_player(m, addrs[j], now)) is Some
                    implies dropped(mm, addrs[j], silent_player(m, addrs[j], now).unwrap()) by {
                    let uj = silent_player(m, addrs[j], now).unwrap();
                    if j < n - 1 {
                        lemma_with_removed_keeps_lacking(m0, online_record(), dec_digits(u), dec_digits(uj));
                        lemma_with_removed_keeps_lacking(m1, group_record(0), a, addrs[j]);
                    }
                }
            },
            None => {
                assert(last_seen(m0, a) == last_seen(m, a));
                assert(bound_uid(m0, a) == bound_uid(m, a));
                assert(mm == m0);
            },
        }
    }
}

/// The sweep checks every address of group 0: after it, each listed address that is bound
/// to an id and has been silent for longer than `OFFLINE_AFTER_MS` is gone from the group 0
/// list, and its id is gone from the online list. This holds when both lists were free of
/// repeats before the sweep.
pub proof fn lemma_clean_drops_silent(m: Contents, now: u128, addr: Seq<char>)
    requires
        list_unique(m, online_record()), list_unique(m, group_record(0)),
        stored_text(m, group_record(0)) matches Some(d) && list_holds(d, addr),
        silent_player(m, addr, now) is Some,
    ensures
        stored_text(clean_spec(m, now), group_record(0)) matches Some(t) && !list_holds(t, addr),
        stored_text(clean_spec(m, now), online_record()) matches Some(t)
            ==> !list_holds(t, dec_digits(silent_player(m, addr, now).unwrap())),
{
    let d = stored_text(m, group_record(0)).unwrap();
    let addrs = split_commas(d);
    let k = choose|k: int| 0 <= k < addrs.len() && addrs[k] == addr;
    lemma_sweep_prefix(m, addrs, now, addrs.len());
    assert(addrs.take(addrs.len() as int) =~= addrs);
    assert(silent_player(m, addrs[k], now) is Some);
}

} // verus!
