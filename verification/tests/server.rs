use redis_starter_rust::resp::{decode_message, Command, Value};
use redis_starter_rust::server::{execute, execute_at};
use redis_starter_rust::store::Store;

const MILLI: u128 = 1_000_000;

/// Decodes one request, carries it out at `now`, and encodes the reply.
fn serve(store: &mut Store, input: &[u8], now: u128) -> Vec<u8> {
    let (value, consumed) = decode_message(input).unwrap().unwrap();
    assert_eq!(consumed, input.len());
    let command = value.to_command().unwrap();
    execute_at(store, command, now).encode().into_bytes()
}

#[test]
fn scenario_ping() {
    let mut store = Store::new();
    assert_eq!(serve(&mut store, b"*1\r\n$4\r\nPING\r\n", 0), b"+PONG\r\n");
}

#[test]
fn scenario_echo() {
    let mut store = Store::new();
    assert_eq!(serve(&mut store, b"*2\r\n$4\r\nECHO\r\n$3\r\nhey\r\n", 0), b"$3\r\nhey\r\n");
}

#[test]
fn scenario_set_and_get_with_expiry() {
    let mut store = Store::new();
    let start: u128 = 123_456;
    let set = b"*5\r\n$3\r\nSET\r\n$3\r\nfoo\r\n$3\r\nbar\r\n$2\r\nPX\r\n$2\r\n50\r\n";
    let get = b"*2\r\n$3\r\nGET\r\n$3\r\nfoo\r\n";
    assert_eq!(serve(&mut store, set, start), b"+OK\r\n");
    assert_eq!(serve(&mut store, get, start), b"$3\r\nbar\r\n");
    assert_eq!(serve(&mut store, get, start + 60 * MILLI), b"$-1\r\n");
}

#[test]
fn scenario_missing_key() {
    let mut store = Store::new();
    assert_eq!(serve(&mut store, b"*2\r\n$3\r\nGET\r\n$9\r\nnosuchkey\r\n", 0), b"$-1\r\n");
}

#[test]
fn set_without_px_answers_ok_and_never_expires() {
    let mut store = Store::new();
    let set = b"*3\r\n$3\r\nSET\r\n$3\r\nfoo\r\n$3\r\nbar\r\n";
    let get = b"*2\r\n$3\r\nGET\r\n$3\r\nfoo\r\n";
    assert_eq!(serve(&mut store, set, 5), b"+OK\r\n");
    assert_eq!(serve(&mut store, get, u128::MAX), b"$3\r\nbar\r\n");
}

#[test]
fn execute_replies_to_each_command() {
    let mut store = Store::new();
    assert_eq!(execute(&mut store, Command::Ping), Value::SimpleString("PONG".to_string()));
    assert_eq!(
        execute(&mut store, Command::Echo("hi".to_string())),
        Value::BulkString("hi".to_string())
    );
    assert_eq!(execute(&mut store, Command::Get("k".to_string())), Value::Null);
    assert_eq!(
        execute(&mut store, Command::SetKey("k".to_string(), "v".to_string(), None)),
        Value::SimpleString("OK".to_string())
    );
    assert_eq!(
        execute(&mut store, Command::Get("k".to_string())),
        Value::BulkString("v".to_string())
    );
    assert_eq!(
        execute(&mut store, Command::SetKey("k".to_string(), "w".to_string(), Some(3_600_000))),
        Value::SimpleString("OK".to_string())
    );
    assert_eq!(
        execute(&mut store, Command::Get("k".to_string())),
        Value::BulkString("w".to_string())
    );
}

#[test]
fn ping_and_echo_leave_the_store_alone() {
    let mut store = Store::new();
    store.set("k".to_string(), "v".to_string());
    execute_at(&mut store, Command::Ping, 0);
    execute_at(&mut store, Command::Echo("k".to_string()), 0);
    assert_eq!(store.get_at("k", 0), Value::BulkString("v".to_string()));
}

#[test]
fn execute_at_takes_the_time_to_live_from_the_given_time() {
    let mut store = Store::new();
    execute_at(&mut store, Command::SetKey("k".to_string(), "v".to_string(), Some(2)), 100);
    assert_eq!(
        execute_at(&mut store, Command::Get("k".to_string()), 100 + 2 * MILLI),
        Value::BulkString("v".to_string())
    );
    assert_eq!(execute_at(&mut store, Command::Get("k".to_string()), 101 + 2 * MILLI), Value::Null);
}

#[test]
fn interleaved_clients_on_distinct_keys_see_their_own_writes() {
    let mut store = Store::new();
    let clients: usize = 8;
    for round in 0..20 {
        for client in 0..clients {
            let key = format!("key-{}", client);
            let value = format!("value-{}-{}", client, round);
            let reply = execute_at(&mut store, Command::SetKey(key, value, Some(1_000)), round as u128);
            assert_eq!(reply, Value::SimpleString("OK".to_string()));
        }
        for client in (0..clients).rev() {
            let key = format!("key-{}", client);
            let reply = execute_at(&mut store, Command::Get(key), round as u128);
            assert_eq!(reply, Value::BulkString(format!("value-{}-{}", client, round)));
        }
    }
}
