//! The decisions of the game server's network front: what a message received from a
//! client does to the sessions in the store, and what the front does in return.
use vstd::prelude::*;
use vstd::utf8::*;
use crate::protocol::AccountData;
use crate::session::{bound_player, bound_uid, can_settle, login, login_spec, logout, logout_spec, record_heartbeat};
use crate::store::{db_contents, health_record, StoreError};
use crate::text::dec_digits;

verus! {

/// A message received from a client, as far as the sessions are concerned.
#[derive(Clone, Copy, Debug, PartialEq, Eq, Structural)]
pub enum Request {
    /// A heartbeat that keeps the sender's address alive.
    Keep,
    /// Any other heartbeat message.
    Heartbeat,
    /// A player asks in.
    Login(AccountData),
    /// A player asks out.
    Logout(AccountData),
    /// A player steers its character.
    Control,
    /// Any other game message.
    Game,
}

/// What the network front does once a message has been served.
#[derive(Clone, Copy, Debug, PartialEq, Eq, Structural)]
pub enum Reply {
    /// Nothing more.
    Nothing,
    /// Sends the heartbeat back to its sender.
    Echo,
    /// Tells the engine and the client that this player has logged in.
    Joined(AccountData),
    /// Hands the control message to the engine on behalf of this player id.
    Steer(u32),
    /// Stops listening: the sender's address is bound to no player.
    Stop,
}

/// Serves one message from `addr` received at time `now` (milliseconds since the epoch):
/// a kept heartbeat records the address as alive and is echoed; a log-in settles the
/// player and is announced with the id it got; a log-out or a control message from an
/// address bound to no player stops the front; a log-out from a bound address logs it out;
/// a control message from a bound address is handed on under the bound id.
pub fn serve(db: &mut sled::Db, addr: &str, request: Request, now: u128) -> (res: Result<Reply, StoreError>)
    requires
        request is Login ==> can_settle(db_contents(*old(db)), addr@),
    ensures
        match request {
            Request::Keep => res matches Ok(r) ==> r == Reply::Echo
                && db_contents(*final(db)) == db_contents(*old(db)).insert(
                    health_record(addr@), encode_utf8(dec_digits(now as nat))),
            Request::Login(a) => res matches Ok(r) ==> {
                let (u, m) = login_spec(db_contents(*old(db)), addr@, a.group, now);
                r == Reply::Joined(AccountData { uid: u, group: a.group }) && db_contents(*final(db)) == m
            },
            Request::Logout(a) => res matches Ok(r) ==> match bound_uid(db_contents(*old(db)), addr@) {
                Some(_) => r == Reply::Nothing
                    && db_contents(*final(db)) == logout_spec(db_contents(*old(db)), addr@, a.group),
                None => r == Reply::Stop && *final(db) == *old(db),
            },
            Request::Control => res matches Ok(r) ==> *final(db) == *old(db)
                && r == match bound_uid(db_contents(*old(db)), addr@) {
                    Some(u) => Reply::Steer(u as u32),
                    None => Reply::Stop,
                },
            _ => res == Ok::<Reply, StoreError>(Reply::Nothing) && *final(db) == *old(db),
        },
        res matches Err(e) ==> e is Db,
{
    match request {
        Request::Keep => {
            record_heartbeat(db, addr, now)?;
            Ok(Reply::Echo)
        },
        Request::Login(a) => {
            let uid = login(db, addr, a.group, now)?;
            Ok(Reply::Joined(AccountData { uid, group: a.group }))
        },
        Request::Logout(a) => {
            match bound_player(db, addr)? {
                Some(_) => {
                    logout(db, addr, a.group)?;
                    Ok(Reply::Nothing)
                },
                None => Ok(Reply::Stop),
            }
        },
        Request::Control => {
            match bound_player(db, addr)? {
                Some(uid) => Ok(Reply::Steer(uid)),
                None => Ok(Reply::Stop),
            }
        },
        Request::Heartbeat => Ok(Reply::Nothing),
        Request::Game => Ok(Reply::Nothing),
    }
}

} // verus!
