//! The keyed game store: named records kept as text in a `sled` database.
use vstd::prelude::*;
use vstd::utf8::*;
use crate::grid::GridPoint;
use crate::text::{
    dec_digits, decimal_string, parse_bounded, parse_u64, push_char, push_decimal, push_signed,
    push_str, signed_digits, string_from_utf8, string_of,
};

verus! {

#[verifier::external_type_specification]
#[verifier::external_body]
pub struct ExDb(sled::Db);

#[verifier::external_type_specification]
#[verifier::external_body]
pub struct ExSledError(sled::Error);

/// What a `sled` database holds: its keys and their values.
pub uninterp spec fn db_contents(db: sled::Db) -> Map<Seq<u8>, Seq<u8>>;

/// Reads one key with `sled::Tree::get` (through the `Deref` of `Db`).
/// Claimed: a successful read gives the value held under the key, or `None` when the
/// key is absent. Nothing is claimed of a failed read. The claim holds while every write
/// to this database goes through `db_insert` on this handle.
#[verifier::external_body]
fn db_get(db: &sled::Db, key: &[u8]) -> (res: Result<Option<Vec<u8>>, sled::Error>)
    ensures
        res matches Ok(Some(v)) ==> db_contents(*db).contains_key(key@) && db_contents(*db)[key@] == v@,
        res matches Ok(None) ==> !db_contents(*db).contains_key(key@),
{
    match db.get(key) {
        Ok(Some(v)) => Ok(Some(v.to_vec())),
        Ok(None) => Ok(None),
        Err(e) => Err(e),
    }
}

/// Writes one key with `sled::Tree::insert`, dropping the value it replaced.
/// Claimed: after a successful write the database holds what it held before, with `key`
/// mapped to `value`. Nothing is claimed of the contents after a failed write.
#[verifier::external_body]
fn db_insert(db: &mut sled::Db, key: &[u8], value: &[u8]) -> (res: Result<(), sled::Error>)
    ensures
        res is Ok ==> db_contents(*final(db)) == db_contents(*old(db)).insert(key@, value@),
{
    match db.insert(key, value) {
        Ok(_) => Ok(()),
        Err(e) => Err(e),
    }
}

/// Why a store operation did not give a value.
#[derive(Debug)]
pub enum StoreError {
    /// The database reported an error.
    Db(sled::Error),
    /// No record is stored under the key.
    NotFound,
    /// The stored record is not UTF-8 text.
    NotText,
}

/// A record of the store: the table and the key within it, with the text to save.
#[derive(Debug)]
pub struct GameData {
    pub table: String,
    pub key: String,
    pub data: Option<String>,
}

pub open spec fn player_table() -> Seq<char> {
    seq!['p', 'l', 'a', 'y', 'e', 'r']
}

pub open spec fn tile_map_table() -> Seq<char> {
    seq!['t', 'i', 'l', 'e', '_', 'm', 'a', 'p']
}

/// The text key of a record: `table-(key)`.
pub open spec fn record_name(table: Seq<char>, key: Seq<char>) -> Seq<char> {
    table + seq!['-', '('] + key + seq![')']
}

/// The bytes under which the record is stored: its name in UTF-8.
pub open spec fn record_key(table: Seq<char>, key: Seq<char>) -> Seq<u8> {
    encode_utf8(record_name(table, key))
}

/// The text stored under `k`, when there is a record and it is UTF-8.
pub open spec fn stored_text(m: Map<Seq<u8>, Seq<u8>>, k: Seq<u8>) -> Option<Seq<char>> {
    if m.contains_key(k) && valid_utf8(m[k]) {
        Some(decode_utf8(m[k]))
    } else {
        None
    }
}

/// A record is stored under `k` but it is not UTF-8 text.
pub open spec fn stored_not_text(m: Map<Seq<u8>, Seq<u8>>, k: Seq<u8>) -> bool {
    m.contains_key(k) && !valid_utf8(m[k])
}

impl GameData {
    pub open spec fn store_key(&self) -> Seq<u8> {
        record_key(self.table@, self.key@)
    }

    /// The list of online player ids.
    pub fn player_online(data: Option<String>) -> (r: Self)
        ensures
            r.table@ == player_table(),
            r.key@ == seq!['o', 'n', 'l', 'i', 'n', 'e'],
            r.data == data,
    {
        let table = string_of("player");
        let key = string_of("online");
        proof {
            reveal_strlit("player");
            reveal_strlit("online");
        }
        GameData { table, key, data }
    }

    /// The list of addresses in a player group: key `group_addr_<group>`.
    pub fn player_group_addr(group: u32, data: Option<String>) -> (r: Self)
        ensures
            r.table@ == player_table(),
            r.key@ == seq!['g', 'r', 'o', 'u', 'p', '_', 'a', 'd', 'd', 'r', '_'] + dec_digits(group as nat),
            r.data == data,
    {
        let table = string_of("player");
        let mut key = string_of("group_addr_");
        push_decimal(&mut key, group as u128);
        proof {
            reveal_strlit("player");
            reveal_strlit("group_addr_");
        }
        GameData { table, key, data }
    }

    /// When the address last showed it is alive: key `addr_health_<addr>`.
    pub fn player_addr_health(addr: String, data: Option<String>) -> (r: Self)
        ensures
            r.table@ == player_table(),
            r.key@ == seq!['a', 'd', 'd', 'r', '_', 'h', 'e', 'a', 'l', 't', 'h', '_'] + addr@,
            r.data == data,
    {
        let table = string_of("player");
        let mut key = string_of("addr_health_");
        push_str(&mut key, addr.as_str());
        proof {
            reveal_strlit("player");
            reveal_strlit("addr_health_");
        }
        GameData { table, key, data }
    }

    /// The player id bound to an address: key `addr_uid_<addr>`.
    pub fn player_addr_uid(addr: String, data: Option<String>) -> (r: Self)
        ensures
            r.table@ == player_table(),
            r.key@ == seq!['a', 'd', 'd', 'r', '_', 'u', 'i', 'd', '_'] + addr@,
            r.data == data,
    {
        let table = string_of("player");
        let mut key = string_of("addr_uid_");
        push_str(&mut key, addr.as_str());
        proof {
            reveal_strlit("player");
            reveal_strlit("addr_uid_");
        }
        GameData { table, key, data }
    }

    /// The counter from which new player ids are drawn.
    pub fn player_queue_uid(data: Option<String>) -> (r: Self)
        ensures
            r.table@ == player_table(),
            r.key@ == queue_uid_key(),
            r.data == data,
    {
        let table = string_of("player");
        let key = string_of("queue_uid");
        proof {
            reveal_strlit("player");
            reveal_strlit("queue_uid");
        }
        GameData { table, key, data }
    }

    /// The tile of a map cell: table `tile_map`, key `x,y,z`.
    pub fn tile_map(point: GridPoint, data: Option<String>) -> (r: Self)
        ensures
            r.table@ == tile_map_table(),
            r.key@ == signed_digits(point.x as int) + seq![','] + signed_digits(point.y as int)
                + seq![','] + signed_digits(point.z as int),
            r.data == data,
    {
        let table = string_of("tile_map");
        let mut key = String::new();
        push_signed(&mut key, point.x);
        push_char(&mut key, ',');
        push_signed(&mut key, point.y);
        push_char(&mut key, ',');
        push_signed(&mut key, point.z);
        proof {
            reveal_strlit("tile_map");
        }
        assert(key@ =~= signed_digits(point.x as int) + seq![','] + signed_digits(point.y as int)
            + seq![','] + signed_digits(point.z as int));
        GameData { table, key, data }
    }

    /// The record of one player's state: table `player`, key its id.
    pub fn player(uid: u32, data: Option<String>) -> (r: Self)
        ensures r.table@ == player_table(), r.key@ == dec_digits(uid as nat), r.data == data,
    {
        let table = string_of("player");
        let key = decimal_string(uid as u128);
        proof {
            reveal_strlit("player");
        }
        GameData { table, key, data }
    }

    /// The same record name with other text to save.
    pub fn record(&self, data: Option<String>) -> (r: GameData)
        ensures r.table@ == self.table@, r.key@ == self.key@, r.data == data,
    {
        GameData { table: self.table.clone(), key: self.key.clone(), data }
    }

    /// The bytes under which this record is stored.
    pub fn key_bytes(&self) -> (k: Vec<u8>)
        ensures k@ == self.store_key(),
    {
        let mut name = String::new();
        push_str(&mut name, self.table.as_str());
        push_char(&mut name, '-');
        push_char(&mut name, '(');
        push_str(&mut name, self.key.as_str());
        push_char(&mut name, ')');
        assert(name@ =~= record_name(self.table@, self.key@));
        let bytes = name.as_str().as_bytes();
        slice_to_vec(bytes)
    }
}

/// The record of the online player list.
pub open spec fn online_record() -> Seq<u8> {
    record_key(player_table(), seq!['o', 'n', 'l', 'i', 'n', 'e'])
}

/// The record of the address list of a player group.
pub open spec fn group_record(group: nat) -> Seq<u8> {
    record_key(player_table(), seq!['g', 'r', 'o', 'u', 'p', '_', 'a', 'd', 'd', 'r', '_'] + dec_digits(group))
}

/// The record of the last sign of life from an address.
pub open spec fn health_record(addr: Seq<char>) -> Seq<u8> {
    record_key(player_table(), seq!['a', 'd', 'd', 'r', '_', 'h', 'e', 'a', 'l', 't', 'h', '_'] + addr)
}

/// The record of the player id bound to an address.
pub open spec fn uid_record(addr: Seq<char>) -> Seq<u8> {
    record_key(player_table(), seq!['a', 'd', 'd', 'r', '_', 'u', 'i', 'd', '_'] + addr)
}

pub open spec fn queue_uid_key() -> Seq<char> {
    seq!['q', 'u', 'e', 'u', 'e', '_', 'u', 'i', 'd']
}

/// The bytes of the counter record.
pub open spec fn queue_record() -> Seq<u8> {
    record_key(player_table(), queue_uid_key())
}

fn slice_to_vec(s: &[u8]) -> (v: Vec<u8>)
    ensures v@ == s@,
{
    let mut v: Vec<u8> = Vec::new();
    let mut i: usize = 0;
    while i < s.len()
        invariant i <= s@.len(), v@ == s@.take(i as int),
        decreases s@.len() - i,
    {
        v.push(s[i]);
        i = i + 1;
        assert(v@ =~= s@.take(i as int));
    }
    assert(s@.take(s@.len() as int) =~= s@);
    v
}

/// What `find` reports for the key `k` of a database holding `m`: `Ok` carries the stored text.
pub open spec fn find_outcome(m: Map<Seq<u8>, Seq<u8>>, k: Seq<u8>, res: Result<String, StoreError>) -> bool {
    match res {
        Ok(s) => stored_text(m, k) == Some(s@),
        Err(StoreError::NotFound) => !m.contains_key(k),
        Err(StoreError::NotText) => stored_not_text(m, k),
        Err(StoreError::Db(_)) => true,
    }
}

/// Reads the text of a record.
pub fn find(db: &sled::Db, key: GameData) -> (res: Result<String, StoreError>)
    ensures find_outcome(db_contents(*db), key.store_key(), res),
{
    let k = key.key_bytes();
    match db_get(db, k.as_slice()) {
        Err(e) => Err(StoreError::Db(e)),
        Ok(None) => Err(StoreError::NotFound),
        Ok(Some(bytes)) => {
            match string_from_utf8(bytes) {
                Some(text) => Ok(text),
                None => Err(StoreError::NotText),
            }
        },
    }
}

/// Reads the text of a record; the same read as `find`.
pub fn find_and_lock(db: &sled::Db, key: GameData) -> (res: Result<String, StoreError>)
    ensures find_outcome(db_contents(*db), key.store_key(), res),
{
    find(db, key)
}

/// Two reads of the same record on the same store that the database does not refuse give
/// the same answer: the same text, or the same error. So `find_and_lock` answers as `find`
/// does, and a read repeated on an unchanged store answers as the first.
pub proof fn lemma_reads_agree(
    m: Map<Seq<u8>, Seq<u8>>,
    k: Seq<u8>,
    r1: Result<String, StoreError>,
    r2: Result<String, StoreError>,
)
    requires
        find_outcome(m, k, r1), find_outcome(m, k, r2),
        !(r1 matches Err(StoreError::Db(_))), !(r2 matches Err(StoreError::Db(_))),
    ensures
        match (r1, r2) {
            (Ok(a), Ok(b)) => a@ == b@,
            (Err(StoreError::NotFound), Err(StoreError::NotFound)) => true,
            (Err(StoreError::NotText), Err(StoreError::NotText)) => true,
            _ => false,
        },
{
}

/// Stores the text of a record, replacing what was stored under its key. A write that the
/// database refuses is reported as `StoreError::Db`.
pub fn save(db: &mut sled::Db, data: GameData) -> (res: Result<(), StoreError>)
    requires data.data is Some,
    ensures
        res is Ok ==> db_contents(*final(db)) == db_contents(*old(db)).insert(
            data.store_key(),
            encode_utf8(data.data.unwrap()@),
        ),
        res matches Err(e) ==> e is Db,
{
    let k = data.key_bytes();
    let text = match &data.data {
        Some(t) => t,
        None => { return Ok(()); },
    };
    let value = text.as_str().as_bytes();
    match db_insert(db, k.as_slice(), value) {
        Ok(()) => Ok(()),
        Err(e) => Err(StoreError::Db(e)),
    }
}

/// The counter value stored under `k`, when the record is text that reads as a `u64`.
pub open spec fn stored_counter(m: Map<Seq<u8>, Seq<u8>>, k: Seq<u8>) -> Option<nat> {
    match stored_text(m, k) {
        Some(t) => parse_bounded(t, u64::MAX as nat),
        None => None,
    }
}

/// The id `next_u64` hands out: one past the stored counter, or 0 when there is none (the
/// record is missing, is not text, or does not read as a number).
pub open spec fn next_counter(m: Map<Seq<u8>, Seq<u8>>, k: Seq<u8>) -> nat {
    match stored_counter(m, k) {
        Some(v) => v + 1,
        None => 0,
    }
}

/// Reads the counter record of `key` and hands out the next id: one past the stored value,
/// or 0 when the record is missing, is not text or does not read as a number. The id is
/// then saved as the player id counter (`player-(queue_uid)`), whatever `key` names; a read
/// or a write that the database refuses is reported as `StoreError::Db`.
pub fn next_u64(db: &mut sled::Db, key: GameData) -> (res: Result<u64, StoreError>)
    requires stored_counter(db_contents(*old(db)), key.store_key()) != Some(u64::MAX as nat),
    ensures
        res matches Ok(n) ==> {
            &&& n == next_counter(db_contents(*old(db)), key.store_key())
            &&& db_contents(*final(db)) == db_contents(*old(db)).insert(
                queue_record(), encode_utf8(dec_digits(n as nat)))
        },
        res matches Err(e) ==> e is Db,
{
    let k = key.key_bytes();
    let found = match db_get(db, k.as_slice()) {
        Err(e) => { return Err(StoreError::Db(e)); },
        Ok(found) => found,
    };
    let mut next: u64 = 0;
    match found {
        Some(bytes) => {
            match string_from_utf8(bytes) {
                Some(text) => {
                    match parse_u64(text.as_str()) {
                        Some(v) => { next = v + 1; },
                        None => {},
                    }
                },
                None => {},
            }
        },
        None => {},
    }
    let record = GameData::player_queue_uid(Some(decimal_string(next as u128)));
    save(db, record)?;
    Ok(next)
}

/// The store after `i` ids have been drawn from the counter record, every write taking:
/// each draw saves the id it hands out.
pub open spec fn after_draws(m: Map<Seq<u8>, Seq<u8>>, i: nat) -> Map<Seq<u8>, Seq<u8>>
    decreases i,
{
    if i == 0 {
        m
    } else {
        let m1 = after_draws(m, (i - 1) as nat);
        m1.insert(queue_record(), encode_utf8(dec_digits(next_counter(m1, queue_record()))))
    }
}

/// Drawn from a counter that holds no number, the ids come out as 0, 1, 2, … in order:
/// after `n` draws whose writes took, the next draw hands out `n`.
pub proof fn lemma_ids_in_order(m: Map<Seq<u8>, Seq<u8>>, n: nat)
    requires stored_counter(m, queue_record()) is None, n <= u64::MAX,
    ensures next_counter(after_draws(m, n), queue_record()) == n,
    decreases n,
{
    if n > 0 {
        lemma_ids_in_order(m, (n - 1) as nat);
        lemma_next_after_next(after_draws(m, (n - 1) as nat), (n - 1) as nat);
    }
}

/// Saving a record and reading it back gives the saved text.
pub proof fn lemma_read_after_save(m: Map<Seq<u8>, Seq<u8>>, k: Seq<u8>, text: Seq<char>)
    ensures stored_text(m.insert(k, encode_utf8(text)), k) == Some(text),
{
    encode_utf8_valid_utf8(text);
    encode_utf8_decode_utf8(text);
}

/// Saving a record leaves every other record as it was.
pub proof fn lemma_save_keeps_others(m: Map<Seq<u8>, Seq<u8>>, k: Seq<u8>, v: Seq<u8>, other: Seq<u8>)
    requires other != k,
    ensures stored_text(m.insert(k, v), other) == stored_text(m, other),
{
}

/// The two column families of the game database: the server's and the client's.
#[derive(Clone, Copy, Debug, PartialEq, Eq, Hash, Structural)]
pub enum ColumnFamily {
    GameServer,
    GameClient,
}

impl ColumnFamily {
    /// The slot of this family among the open databases.
    pub fn index(&self) -> (i: usize)
        ensures i == (if *self == ColumnFamily::GameServer { 0usize } else { 1usize }),
    {
        match self {
            ColumnFamily::GameServer => 0,
            ColumnFamily::GameClient => 1,
        }
    }

    /// The name of this family's column: its number, `0` or `1`.
    pub fn name(&self) -> (n: String)
        ensures n@ == dec_digits(if *self == ColumnFamily::GameServer { 0nat } else { 1nat }),
    {
        decimal_string(self.index() as u128)
    }
}

/// Records whose names differ at some character are stored under different keys.
pub proof fn lemma_names_differ(a: Seq<char>, b: Seq<char>, k: int)
    requires 0 <= k < a.len(), k < b.len(), a[k] != b[k],
    ensures encode_utf8(a) != encode_utf8(b),
{
    encode_utf8_decode_utf8(a);
    encode_utf8_decode_utf8(b);
}

/// The player records (online list, group lists, heartbeats, id bindings, id counter)
/// never share a key.
pub proof fn lemma_player_records_distinct(g: nat, addr1: Seq<char>, addr2: Seq<char>)
    ensures
        online_record() != group_record(g),
        online_record() != health_record(addr1),
        online_record() != uid_record(addr1),
        online_record() != queue_record(),
        group_record(g) != health_record(addr1),
        group_record(g) != uid_record(addr1),
        group_record(g) != queue_record(),
        health_record(addr1) != uid_record(addr2),
        health_record(addr1) != queue_record(),
        uid_record(addr1) != queue_record(),
{
    let p = player_table();
    let online = record_name(p, seq!['o', 'n', 'l', 'i', 'n', 'e']);
    let group = record_name(p, seq!['g', 'r', 'o', 'u', 'p', '_', 'a', 'd', 'd', 'r', '_'] + dec_digits(g));
    let health = record_name(p, seq!['a', 'd', 'd', 'r', '_', 'h', 'e', 'a', 'l', 't', 'h', '_'] + addr1);
    let uid1 = record_name(p, seq!['a', 'd', 'd', 'r', '_', 'u', 'i', 'd', '_'] + addr1);
    let uid2 = record_name(p, seq!['a', 'd', 'd', 'r', '_', 'u', 'i', 'd', '_'] + addr2);
    let queue = record_name(p, queue_uid_key());
    assert(online[8] == 'o' && group[8] == 'g' && health[8] == 'a' && uid1[8] == 'a' && queue[8] == 'q');
    assert(health[13] == 'h' && uid2[13] == 'u');
    lemma_names_differ(online, group, 8);
    lemma_names_differ(online, health, 8);
    lemma_names_differ(online, uid1, 8);
    lemma_names_differ(online, queue, 8);
    lemma_names_differ(group, health, 8);
    lemma_names_differ(group, uid1, 8);
    lemma_names_differ(group, queue, 8);
    lemma_names_differ(health, uid2, 13);
    lemma_names_differ(health, queue, 8);
    lemma_names_differ(uid1, queue, 8);
}

/// After `next_u64` hands out `n`, the next call hands out `n + 1`.
pub proof fn lemma_next_after_next(m: Map<Seq<u8>, Seq<u8>>, n: nat)
    requires n < u64::MAX,
    ensures next_counter(m.insert(queue_record(), encode_utf8(dec_digits(n))), queue_record()) == n + 1,
{
    lemma_read_after_save(m, queue_record(), dec_digits(n));
    crate::text::lemma_parse_dec_digits(n);
}

/// Reads the raw bytes stored under `key`.
pub fn find_record(db: &sled::Db, key: &[u8]) -> (res: Result<Vec<u8>, StoreError>)
    ensures
        match res {
            Ok(v) => db_contents(*db).contains_key(key@) && db_contents(*db)[key@] == v@,
            Err(StoreError::NotFound) => !db_contents(*db).contains_key(key@),
            Err(StoreError::NotText) => false,
            Err(StoreError::Db(_)) => true,
        },
{
    match db_get(db, key) {
        Err(e) => Err(StoreError::Db(e)),
        Ok(None) => Err(StoreError::NotFound),
        Ok(Some(v)) => Ok(v),
    }
}

/// Stores raw bytes under `key`, replacing what was stored there.
pub fn save_record(db: &mut sled::Db, key: &[u8], value: &[u8]) -> (res: Result<(), StoreError>)
    ensures
        res is Ok ==> db_contents(*final(db)) == db_contents(*old(db)).insert(key@, value@),
        res matches Err(e) ==> e is Db,
{
    match db_insert(db, key, value) {
        Ok(()) => Ok(()),
        Err(e) => Err(StoreError::Db(e)),
    }
}

} // verus!
