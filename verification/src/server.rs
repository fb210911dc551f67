//! What the server does with a command: the change to the store, and the reply.

use crate::resp::command::{Command, CommandView};
use crate::resp::value::{Value, ValueView};
use crate::store::{deadline, lookup, stored, Store, StoreView};
use vstd::prelude::*;
use vstd::string::StringExecFns;

verus! {

/// The reply to `command` at time `now`, and the store it leaves:
/// `PING` answers `PONG`; `ECHO` answers its message; `GET` answers the
/// lookup of its key; `SET` stores and answers `OK`.
pub open spec fn outcome(m: StoreView, command: CommandView, now: u128) -> (ValueView, StoreView) {
    match command {
        CommandView::Ping => (ValueView::SimpleString("PONG"@), m),
        CommandView::Echo(message) => (ValueView::BulkString(message), m),
        CommandView::Get(key) => lookup(m, key, now),
        CommandView::SetKey(key, value, ttl) => (
            ValueView::SimpleString("OK"@),
            stored(
                m,
                key,
                value,
                match ttl {
                    Some(px) => deadline(now, px),
                    None => None,
                },
            ),
        ),
    }
}

/// Carries out `command` on `store` at time `now`, and returns the reply.
pub fn execute_at(store: &mut Store, command: Command, now: u128) -> (reply: Value)
    ensures
        (reply@, final(store)@) == outcome(old(store)@, command@, now),
{
    match command {
        Command::Ping => Value::SimpleString(String::from_str("PONG")),
        Command::Echo(message) => Value::BulkString(message),
        Command::Get(key) => store.get_at(key.as_str(), now),
        Command::SetKey(key, value, ttl) => {
            match ttl {
                Some(px) => store.set_px_at(key, value, px, now),
                None => store.set(key, value),
            }
            Value::SimpleString(String::from_str("OK"))
        },
    }
}

/// Carries out `command` on `store` now, and returns the reply.
pub fn execute(store: &mut Store, command: Command) -> (reply: Value)
    ensures
        exists|now: u128| (reply@, final(store)@) == outcome(old(store)@, command@, now),
{
    let now: u128 = store.now();
    execute_at(store, command, now)
}

} // verus!
