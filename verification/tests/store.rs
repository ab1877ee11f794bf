#![allow(deprecated)]

use rand::{ChaChaRng, SeedableRng};
use secure_storage::args::{DeleteArgs, ReadArgs, WriteArgs};
use secure_storage::store::{
    FlutterSecureStoragePlugin, Operation, CRYPTO_ERROR, DECODE_ERROR, INVALID_ARGUMENTS,
};
use secure_storage::value::{CallResult, Value};

const KEY_TEXT: &str = "AAECAwQFBgcICQoLDA0ODxAREhMUFRYXGBkaGxwdHh8=";
const ABC123: &str = "ZGVmZ2hpamtsbW5vcHFyc6FkvRCSOp2CCpigyQH/HYg=";

fn rng(seed: u8) -> ChaChaRng {
    ChaChaRng::from_seed([seed; 32])
}

fn text(text: &str) -> Value {
    Value::String(String::from(text))
}

fn key_args(key: &str) -> Value {
    Value::Dict(vec![(text("key"), text(key))])
}

fn write_args(key: &str, value: &str) -> Value {
    Value::Dict(vec![(text("key"), text(key)), (text("value"), text(value))])
}

fn failure(code: &str) -> CallResult {
    CallResult::Failure {
        code: String::from(code),
        message: String::new(),
        details: Value::Null,
    }
}

fn null() -> CallResult {
    CallResult::Success(Value::Null)
}

/// A store over a snapshot that holds the fixed key and `abc123` under `token`.
fn fixed_store() -> FlutterSecureStoragePlugin {
    let stored = format!("{{\"crypto_key\":\"{}\",\"token\":\"{}\"}}", KEY_TEXT, ABC123);
    FlutterSecureStoragePlugin::with_rng(Some(&stored), rng(1)).0
}

#[test]
fn method_names_are_resolved() {
    assert_eq!(Operation::named("read"), Some(Operation::Read));
    assert_eq!(Operation::named("write"), Some(Operation::Write));
    assert_eq!(Operation::named("delete"), Some(Operation::Delete));
    assert_eq!(Operation::named("readAll"), Some(Operation::ReadAll));
    assert_eq!(Operation::named("deleteAll"), Some(Operation::DeleteAll));
    assert_eq!(Operation::named("readall"), None);
    assert_eq!(Operation::named("Read"), None);
    assert_eq!(Operation::named("read "), None);
    assert_eq!(Operation::named(""), None);
    assert_eq!(Operation::named("getTemporaryDirectory"), None);
}

#[test]
fn error_codes_are_stable() {
    assert_eq!(DECODE_ERROR, "decode-error");
    assert_eq!(CRYPTO_ERROR, "crypto-error");
    assert_eq!(INVALID_ARGUMENTS, "invalid-arguments");
}

#[test]
fn a_new_store_holds_only_a_fresh_key() {
    let (store, persist) = FlutterSecureStoragePlugin::new(None).expect("Failed to create crypto");
    let persist = persist.expect("a text to write");
    // {"crypto_key":"<44 characters>"}
    assert!(persist.starts_with("{\"crypto_key\":\""));
    assert!(persist.ends_with("\"}"));
    assert_eq!(persist.len(), 15 + 44 + 2);
    assert_eq!(store.save(), Some(persist));
    assert_eq!(store.read_all(), CallResult::Success(Value::Dict(vec![])));

    let (_, other) = FlutterSecureStoragePlugin::new(None).expect("Failed to create crypto");
    assert_ne!(other, store.save());
}

#[test]
fn a_store_is_made_from_what_was_stored() {
    let store = fixed_store();
    assert_eq!(
        store.save(),
        Some(format!("{{\"crypto_key\":\"{}\",\"token\":\"{}\"}}", KEY_TEXT, ABC123))
    );
    assert_eq!(store.read(&ReadArgs { key: "token" }), CallResult::Success(text("abc123")));
}

#[test]
fn an_unparsable_text_starts_an_empty_store() {
    for stored in ["", "not json", "[1, 2]", "{\"token\": 5}", "{\"token\": \"x\""].iter() {
        let (store, persist) = FlutterSecureStoragePlugin::with_rng(Some(stored), rng(2));
        let persist = persist.expect("a text to write");
        assert_eq!(persist.len(), 15 + 44 + 2);
        assert_eq!(store.read_all(), CallResult::Success(Value::Dict(vec![])));
        assert_eq!(store.read(&ReadArgs { key: "token" }), null());
    }
}

#[test]
fn a_master_key_of_wrong_length_wipes_the_store() {
    // a key of 31 bytes
    let stored = format!(
        "{{\"crypto_key\":\"AAECAwQFBgcICQoLDA0ODxAREhMUFRYXGBkaGxwdHg==\",\"token\":\"{}\"}}",
        ABC123
    );
    let (mut store, persist) = FlutterSecureStoragePlugin::with_rng(Some(&stored), rng(3));
    let persist = persist.expect("a text to write");
    assert!(persist.starts_with("{\"crypto_key\":\""));
    assert_eq!(persist.len(), 15 + 44 + 2);
    assert!(!persist.contains("token"));
    assert_eq!(store.read(&ReadArgs { key: "token" }), null());
    assert_eq!(store.read_all(), CallResult::Success(Value::Dict(vec![])));

    // the new key works
    assert_eq!(store.write(&WriteArgs { key: "token", value: "abc123" }), null());
    assert_eq!(store.read(&ReadArgs { key: "token" }), CallResult::Success(text("abc123")));

    // and making the store again from what was written wipes nothing more
    let (again, second) = FlutterSecureStoragePlugin::with_rng(Some(&persist), rng(4));
    assert_eq!(second, Some(persist.clone()));
    let (_, third) = FlutterSecureStoragePlugin::with_rng(Some(&persist), rng(5));
    assert_eq!(third, Some(persist));
    assert_eq!(again.read_all(), CallResult::Success(Value::Dict(vec![])));
}

#[test]
fn a_missing_master_key_wipes_the_store() {
    let stored = format!("{{\"token\":\"{}\"}}", ABC123);
    let (store, persist) = FlutterSecureStoragePlugin::with_rng(Some(&stored), rng(6));
    let persist = persist.expect("a text to write");
    assert_eq!(persist.len(), 15 + 44 + 2);
    assert_eq!(store.read(&ReadArgs { key: "token" }), null());
}

#[test]
fn write_then_read_and_again_after_a_restart() {
    let (mut store, _) = FlutterSecureStoragePlugin::new(None).expect("Failed to create crypto");
    let written = store.handle("write", &write_args("token", "abc123")).expect("a reply");
    assert_eq!(written.response, null());
    let persisted = written.persist.expect("a text to write");

    let read = store.handle("read", &key_args("token")).expect("a reply");
    assert_eq!(read.response, CallResult::Success(text("abc123")));
    assert_eq!(read.persist, None);

    let (mut restarted, again) =
        FlutterSecureStoragePlugin::new(Some(&persisted)).expect("Failed to create crypto");
    assert_eq!(again, Some(persisted));
    let read = restarted.handle("read", &key_args("token")).expect("a reply");
    assert_eq!(read.response, CallResult::Success(text("abc123")));
}

#[test]
fn read_gives_null_for_an_absent_key() {
    let store = fixed_store();
    assert_eq!(store.read(&ReadArgs { key: "other" }), null());
    assert_eq!(store.read(&ReadArgs { key: "" }), null());
}

#[test]
fn read_gives_an_error_for_an_envelope_that_does_not_open() {
    let stored = format!(
        "{{\"crypto_key\":\"{}\",\"broken\":\"AAECAwQFBgcICQ==\",\"junk\":\"not an envelope\"}}",
        KEY_TEXT
    );
    let (store, _) = FlutterSecureStoragePlugin::with_rng(Some(&stored), rng(1));
    assert_eq!(store.read(&ReadArgs { key: "broken" }), failure("crypto-error"));
    assert_eq!(store.read(&ReadArgs { key: "junk" }), failure("crypto-error"));
}

#[test]
fn write_overwrites() {
    let mut store = fixed_store();
    assert_eq!(store.write(&WriteArgs { key: "token", value: "new" }), null());
    assert_eq!(store.read(&ReadArgs { key: "token" }), CallResult::Success(text("new")));
    assert_eq!(store.write(&WriteArgs { key: "token", value: "" }), null());
    assert_eq!(store.read(&ReadArgs { key: "token" }), CallResult::Success(text("")));
}

#[test]
fn write_stores_an_envelope_and_not_the_value() {
    let mut store = fixed_store();
    assert_eq!(store.write(&WriteArgs { key: "secret", value: "hunter2hunter2" }), null());
    let saved = store.save().expect("a text to write");
    assert!(saved.contains("\"secret\":\""));
    assert!(!saved.contains("hunter2"));
}

#[test]
fn delete_removes_a_key() {
    let mut store = fixed_store();
    assert_eq!(store.delete(&DeleteArgs { key: "token" }), null());
    assert_eq!(store.read(&ReadArgs { key: "token" }), null());
    assert_eq!(store.save(), Some(format!("{{\"crypto_key\":\"{}\"}}", KEY_TEXT)));
}

#[test]
fn delete_of_an_absent_key_changes_nothing() {
    let mut store = fixed_store();
    let before = store.save();
    assert_eq!(store.delete(&DeleteArgs { key: "other" }), null());
    assert_eq!(store.save(), before);
    assert_eq!(store.delete(&DeleteArgs { key: "other" }), null());
    assert_eq!(store.save(), before);
    assert_eq!(store.read(&ReadArgs { key: "token" }), CallResult::Success(text("abc123")));

    let handled = store.handle("delete", &key_args("other")).expect("a reply");
    assert_eq!(handled.response, null());
    assert_eq!(handled.persist, before);
}

#[test]
fn read_all_gives_every_entry_that_opens() {
    let stored = format!(
        "{{\"a\":\"{}\",\"broken\":\"AAECAwQFBgcICQ==\",\"crypto_key\":\"{}\",\"z\":\"{}\"}}",
        ABC123, KEY_TEXT, "ZGVmZ2hpamtsbW5vcHFyc/eV9uiAL9FRoCGkEVDUq2k="
    );
    let (store, _) = FlutterSecureStoragePlugin::with_rng(Some(&stored), rng(1));
    assert_eq!(
        store.read_all(),
        CallResult::Success(Value::Dict(vec![
            (text("a"), text("abc123")),
            (text("z"), text("")),
        ]))
    );
}

#[test]
fn delete_all_then_read_all_gives_an_empty_map() {
    let mut store = fixed_store();
    assert_eq!(store.write(&WriteArgs { key: "other", value: "x" }), null());
    assert_eq!(store.delete_all(), null());
    assert_eq!(store.read_all(), CallResult::Success(Value::Dict(vec![])));
    assert_eq!(store.read(&ReadArgs { key: "token" }), null());
    // the master key stays
    assert_eq!(store.save(), Some(format!("{{\"crypto_key\":\"{}\"}}", KEY_TEXT)));

    let mut store = fixed_store();
    let deleted = store.handle("deleteAll", &Value::Null).expect("a reply");
    assert_eq!(deleted.response, null());
    assert_eq!(deleted.persist, Some(format!("{{\"crypto_key\":\"{}\"}}", KEY_TEXT)));
    let read = store.handle("readAll", &Value::Null).expect("a reply");
    assert_eq!(read.response, CallResult::Success(Value::Dict(vec![])));
    assert_eq!(read.persist, None);
}

#[test]
fn what_is_written_after_delete_all_survives_a_restart() {
    let mut store = fixed_store();
    store.handle("deleteAll", &Value::Null).expect("a reply");
    let written = store.handle("write", &write_args("token", "again")).expect("a reply");
    let persisted = written.persist.expect("a text to write");
    let (restarted, _) = FlutterSecureStoragePlugin::with_rng(Some(&persisted), rng(9));
    assert_eq!(restarted.read(&ReadArgs { key: "token" }), CallResult::Success(text("again")));
}

#[test]
fn the_reserved_key_is_out_of_reach() {
    let mut store = fixed_store();
    let before = store.save();
    assert_eq!(store.read(&ReadArgs { key: "crypto_key" }), null());
    assert_eq!(store.delete(&DeleteArgs { key: "crypto_key" }), null());
    assert_eq!(store.save(), before);
    assert_eq!(
        store.write(&WriteArgs { key: "crypto_key", value: "mine" }),
        failure("invalid-arguments")
    );
    assert_eq!(store.save(), before);
    let handled = store.handle("write", &write_args("crypto_key", "mine")).expect("a reply");
    assert_eq!(handled.response, failure("invalid-arguments"));
    assert_eq!(handled.persist, None);
    assert_eq!(store.save(), before);
    assert_eq!(
        store.read_all(),
        CallResult::Success(Value::Dict(vec![(text("token"), text("abc123"))]))
    );
}

#[test]
fn an_unknown_method_is_dropped() {
    let mut store = fixed_store();
    let before = store.save();
    assert!(store.handle("getTemporaryDirectory", &Value::Null).is_none());
    assert!(store.handle("", &key_args("token")).is_none());
    assert!(store.handle("READ", &key_args("token")).is_none());
    assert_eq!(store.save(), before);
}

#[test]
fn arguments_that_do_not_decode_give_a_decode_error() {
    let mut store = fixed_store();
    let before = store.save();
    for method in ["read", "write", "delete"].iter() {
        for args in [
            Value::Null,
            Value::Dict(vec![]),
            Value::Dict(vec![(text("key"), Value::I32(1))]),
            Value::Dict(vec![(text("key"), text("token")), (text("extra"), text("x"))]),
        ]
        .iter()
        {
            let handled = store.handle(method, args).expect("a reply");
            assert_eq!(handled.response, failure("decode-error"));
            assert_eq!(handled.persist, None);
        }
    }
    // a write needs its value
    let handled = store.handle("write", &key_args("token")).expect("a reply");
    assert_eq!(handled.response, failure("decode-error"));
    assert_eq!(store.save(), before);
}

#[test]
fn handle_runs_each_operation() {
    let mut store = fixed_store();

    let handled = store.handle("read", &key_args("token")).expect("a reply");
    assert_eq!(handled.response, CallResult::Success(text("abc123")));
    assert_eq!(handled.persist, None);

    let handled = store.handle("write", &write_args("other", "x")).expect("a reply");
    assert_eq!(handled.response, null());
    assert_eq!(handled.persist, store.save());
    assert!(handled.persist.expect("a text to write").contains("\"other\":\""));

    let handled = store.handle("readAll", &Value::Null).expect("a reply");
    assert_eq!(
        handled.response,
        CallResult::Success(Value::Dict(vec![
            (text("token"), text("abc123")),
            (text("other"), text("x")),
        ]))
    );
    assert_eq!(handled.persist, None);

    let handled = store.handle("delete", &key_args("token")).expect("a reply");
    assert_eq!(handled.response, null());
    assert_eq!(handled.persist, store.save());

    let handled = store.handle("read", &key_args("token")).expect("a reply");
    assert_eq!(handled.response, null());

    // arguments of readAll and deleteAll are not looked at
    let handled = store.handle("readAll", &key_args("whatever")).expect("a reply");
    assert_eq!(handled.response, CallResult::Success(Value::Dict(vec![(text("other"), text("x"))])));
    let handled = store.handle("deleteAll", &Value::I32(5)).expect("a reply");
    assert_eq!(handled.response, null());
    assert_eq!(handled.persist, Some(format!("{{\"crypto_key\":\"{}\"}}", KEY_TEXT)));
}
