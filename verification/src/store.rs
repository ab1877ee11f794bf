//! The secure store and its dispatcher.
//!
//! The store keeps an envelope for each key. The master key lives in the
//! same snapshot, in a reserved slot that no call can reach: reading or
//! deleting the reserved key behaves as if nothing were stored under it,
//! writing to it is refused, `readAll` leaves it out and `deleteAll` keeps
//! it. So whatever was written can still be opened after a restart.
//!
//! An error reply carries one of three codes, an empty message and no
//! details. Writing to disk is left to the host: a handled call says what
//! text to write, and the host may ignore a failed write.

use crate::args::{
    decoded, delete_fields, read_fields, write_fields, DeleteArgs, ReadArgs, WriteArgs,
};
use crate::crypto::{
    bootstrapped, key_entry, opened, seals, stored_master_key, Crypto, CryptoError,
    AES_PREFERENCES_KEY,
};
use crate::entropy::seeded_from_entropy;
use crate::json::{json_object_entries, json_object_text};
use crate::snapshot::{
    as_map, distinct_keys, has_key, inserted, lemma_as_map_at, lemma_inserted, lemma_removed,
    pairs_of, position_of, removed, Pair, Snapshot,
};
use crate::value::{failure_reply, lemma_dict_view, CallResult, Datum, Reply, Value};
#[allow(deprecated)]
use rand::ChaChaRng;
use vstd::prelude::*;

verus! {

/// The code of the reply to a call whose arguments could not be decoded.
pub const DECODE_ERROR: &'static str = "decode-error";

/// The code of the reply to a call that the crypto engine failed.
pub const CRYPTO_ERROR: &'static str = "crypto-error";

/// The code of the reply to a call that names the reserved key where it
/// may not.
pub const INVALID_ARGUMENTS: &'static str = "invalid-arguments";

/// The operations of the store.
#[derive(Debug, Clone, Copy, PartialEq, Eq, Structural)]
pub enum Operation {
    Read,
    Write,
    Delete,
    ReadAll,
    DeleteAll,
}

/// The operation that a method name stands for.
pub open spec fn operation_named(name: Seq<char>) -> Option<Operation> {
    if name == "read"@ {
        Some(Operation::Read)
    } else if name == "write"@ {
        Some(Operation::Write)
    } else if name == "delete"@ {
        Some(Operation::Delete)
    } else if name == "readAll"@ {
        Some(Operation::ReadAll)
    } else if name == "deleteAll"@ {
        Some(Operation::DeleteAll)
    } else {
        None
    }
}

/// The text that was stored, if any, as plain text.
pub open spec fn stored_text(stored: Option<&str>) -> Option<Seq<char>> {
    match stored {
        Some(text) => Some(text@),
        None => None,
    }
}

/// The snapshot that a stored text holds: that of the text where it is a
/// snapshot's text, the empty one where it is not or where there is none.
pub open spec fn loaded(stored: Option<Seq<char>>) -> Map<Seq<char>, Seq<char>> {
    match stored {
        Some(text) => match json_object_entries(text) {
            Some(snapshot) => snapshot,
            None => Map::<Seq<char>, Seq<char>>::empty(),
        },
        None => Map::<Seq<char>, Seq<char>>::empty(),
    }
}

/// The reply to reading `key`.
pub open spec fn read_reply(
    master_key: Seq<u8>,
    snapshot: Map<Seq<char>, Seq<char>>,
    key: Seq<char>,
) -> Reply {
    if key == AES_PREFERENCES_KEY@ || !snapshot.contains_key(key) {
        Reply::Success(Datum::Null)
    } else {
        match opened(master_key, snapshot[key]) {
            Some(text) => Reply::Success(Datum::Text(text)),
            None => failure_reply(CRYPTO_ERROR@),
        }
    }
}

/// How writing `value` under `key` relates the entries before and after
/// and the reply: the reserved key is refused; under any other key the
/// entries then hold an envelope of `value`, sealed under the master key
/// and some initialization vector, and nothing else has changed.
pub open spec fn wrote(
    master_key: Seq<u8>,
    before: Seq<Pair>,
    after: Seq<Pair>,
    key: Seq<char>,
    value: Seq<char>,
    reply: Reply,
) -> bool {
    if key == AES_PREFERENCES_KEY@ {
        after == before && reply == failure_reply(INVALID_ARGUMENTS@)
    } else {
        &&& reply == Reply::Success(Datum::Null)
        &&& as_map(after).contains_key(key)
        &&& after == inserted(before, key, as_map(after)[key])
        &&& seals(master_key, value, as_map(after)[key])
        &&& opened(master_key, as_map(after)[key]) == Some(value)
    }
}

/// The entries after deleting `key`.
pub open spec fn after_delete(entries: Seq<Pair>, key: Seq<char>) -> Seq<Pair> {
    if key == AES_PREFERENCES_KEY@ {
        entries
    } else {
        removed(entries, key)
    }
}

/// The entries after deleting everything: only the reserved slot is left.
pub open spec fn after_delete_all(entries: Seq<Pair>) -> Seq<Pair> {
    if has_key(entries, AES_PREFERENCES_KEY@) {
        seq![(AES_PREFERENCES_KEY@, as_map(entries)[AES_PREFERENCES_KEY@])]
    } else {
        Seq::<Pair>::empty()
    }
}

/// What `readAll` shows of one entry: its key and its plaintext, or
/// nothing for the reserved slot and for an envelope that does not open.
pub open spec fn shown(master_key: Seq<u8>, pair: Pair) -> Option<(Datum, Datum)> {
    if pair.0 == AES_PREFERENCES_KEY@ {
        None
    } else {
        match opened(master_key, pair.1) {
            Some(text) => Some((Datum::Text(pair.0), Datum::Text(text))),
            None => None,
        }
    }
}

/// What `readAll` shows of the entries, in their order.
pub open spec fn readable(master_key: Seq<u8>, entries: Seq<Pair>) -> Seq<(Datum, Datum)> {
    entries.filter_map(|pair: Pair| shown(master_key, pair))
}

/// Whether a call asks for the snapshot to be written to disk.
pub open spec fn must_persist(operation: Operation, args: Datum) -> bool {
    match operation {
        Operation::Read => false,
        Operation::Write => decoded(write_fields(), args) matches Ok(fields) && fields[0]
            != AES_PREFERENCES_KEY@,
        Operation::Delete => decoded(delete_fields(), args) is Ok,
        Operation::ReadAll => false,
        Operation::DeleteAll => true,
    }
}

/// How a call relates the entries before and after and the reply.
pub open spec fn answered(
    operation: Operation,
    args: Datum,
    master_key: Seq<u8>,
    before: Seq<Pair>,
    after: Seq<Pair>,
    reply: Reply,
) -> bool {
    match operation {
        Operation::Read => after == before && reply == match decoded(read_fields(), args) {
            Ok(fields) => read_reply(master_key, as_map(before), fields[0]),
            Err(_) => failure_reply(DECODE_ERROR@),
        },
        Operation::Write => match decoded(write_fields(), args) {
            Ok(fields) => wrote(master_key, before, after, fields[0], fields[1], reply),
            Err(_) => after == before && reply == failure_reply(DECODE_ERROR@),
        },
        Operation::Delete => match decoded(delete_fields(), args) {
            Ok(fields) => after == after_delete(before, fields[0]) && reply == Reply::Success(
                Datum::Null,
            ),
            Err(_) => after == before && reply == failure_reply(DECODE_ERROR@),
        },
        Operation::ReadAll => after == before && reply == Reply::Success(
            Datum::Dict(readable(master_key, before)),
        ),
        Operation::DeleteAll => after == after_delete_all(before) && reply == Reply::Success(
            Datum::Null,
        ),
    }
}

/// Deleting a key under which nothing is stored leaves the entries as
/// they were.
pub proof fn lemma_delete_absent_changes_nothing(entries: Seq<Pair>, key: Seq<char>)
    requires
        !as_map(entries).contains_key(key),
    ensures
        after_delete(entries, key) == entries,
{
}

/// Deleting a key a second time changes nothing more.
pub proof fn lemma_delete_is_idempotent(entries: Seq<Pair>, key: Seq<char>)
    requires
        distinct_keys(entries),
    ensures
        after_delete(after_delete(entries, key), key) == after_delete(entries, key),
{
    lemma_removed(entries, key);
}

/// Deleting a key takes it out of the snapshot and leaves every other key
/// as it was; the reserved slot cannot be deleted.
pub proof fn lemma_after_delete(entries: Seq<Pair>, key: Seq<char>)
    requires
        distinct_keys(entries),
    ensures
        distinct_keys(after_delete(entries, key)),
        as_map(after_delete(entries, key)) == if key == AES_PREFERENCES_KEY@ {
            as_map(entries)
        } else {
            as_map(entries).remove(key)
        },
{
    lemma_removed(entries, key);
}

/// Deleting everything leaves of the snapshot the reserved slot alone.
pub proof fn lemma_after_delete_all(entries: Seq<Pair>)
    ensures
        distinct_keys(after_delete_all(entries)),
        as_map(after_delete_all(entries)) == as_map(entries).restrict(set![AES_PREFERENCES_KEY@]),
{
    let after = after_delete_all(entries);
    let reserved = AES_PREFERENCES_KEY@;
    assert forall|key: Seq<char>| #[trigger] has_key(after, key) <==> (key == reserved && has_key(
        entries,
        reserved,
    )) by {
        if has_key(after, key) {
            let i = position_of(after, key);
            assert(after[i].0 == key);
        }
        if key == reserved && has_key(entries, reserved) {
            assert(after[0].0 == key);
        }
    }
    if has_key(entries, reserved) {
        lemma_as_map_at(after, 0);
    }
    assert(as_map(after) =~= as_map(entries).restrict(set![reserved]));
}

/// After everything was deleted, `readAll` shows an empty map.
pub proof fn lemma_nothing_readable_after_delete_all(master_key: Seq<u8>, entries: Seq<Pair>)
    ensures
        readable(master_key, after_delete_all(entries)) == Seq::<(Datum, Datum)>::empty(),
{
    let after = after_delete_all(entries);
    let show = |pair: Pair| shown(master_key, pair);
    if has_key(entries, AES_PREFERENCES_KEY@) {
        assert(after.drop_last() =~= Seq::<Pair>::empty());
        assert(after.last().0 == AES_PREFERENCES_KEY@);
        assert(after.drop_last().filter_map(show) =~= Seq::<(Datum, Datum)>::empty());
        assert(after.filter_map(show) =~= Seq::<(Datum, Datum)>::empty());
    } else {
        assert(after.filter_map(show) =~= Seq::<(Datum, Datum)>::empty());
    }
}

/// What was written under a key is what reading that key gives.
pub proof fn lemma_read_after_write(
    master_key: Seq<u8>,
    before: Seq<Pair>,
    after: Seq<Pair>,
    key: Seq<char>,
    value: Seq<char>,
    reply: Reply,
)
    requires
        wrote(master_key, before, after, key, value, reply),
        key != AES_PREFERENCES_KEY@,
    ensures
        read_reply(master_key, as_map(after), key) == Reply::Success(Datum::Text(value)),
{
}

/// Writing changes the snapshot under the key written and nowhere else.
pub proof fn lemma_after_write(
    master_key: Seq<u8>,
    before: Seq<Pair>,
    after: Seq<Pair>,
    key: Seq<char>,
    value: Seq<char>,
    reply: Reply,
)
    requires
        distinct_keys(before),
        wrote(master_key, before, after, key, value, reply),
    ensures
        distinct_keys(after),
        as_map(after) == if key == AES_PREFERENCES_KEY@ {
            as_map(before)
        } else {
            as_map(before).insert(key, as_map(after)[key])
        },
{
    if key != AES_PREFERENCES_KEY@ {
        lemma_inserted(before, key, as_map(after)[key]);
    }
}

/// No call changes what the reserved slot holds, and every call keeps the
/// keys distinct.
pub proof fn lemma_calls_keep_the_master_key(
    operation: Operation,
    args: Datum,
    master_key: Seq<u8>,
    before: Seq<Pair>,
    after: Seq<Pair>,
    reply: Reply,
)
    requires
        distinct_keys(before),
        answered(operation, args, master_key, before, after, reply),
    ensures
        distinct_keys(after),
        stored_master_key(as_map(after)) == stored_master_key(as_map(before)),
{
    match operation {
        Operation::Write => {
            match decoded(write_fields(), args) {
                Ok(fields) => {
                    lemma_after_write(master_key, before, after, fields[0], fields[1], reply);
                },
                Err(_) => {},
            }
        },
        Operation::Delete => {
            match decoded(delete_fields(), args) {
                Ok(fields) => {
                    lemma_after_delete(before, fields[0]);
                },
                Err(_) => {},
            }
        },
        Operation::DeleteAll => {
            lemma_after_delete_all(before);
        },
        _ => {},
    }
}

/// A store survives a restart: where the snapshot holds the master key, a
/// store made from the snapshot's text has the same snapshot and the same
/// master key, so that every key reads as before.
pub proof fn lemma_survives_restart(
    master_key: Seq<u8>,
    snapshot: Map<Seq<char>, Seq<char>>,
    text: Seq<char>,
    restarted_key: Seq<u8>,
    restarted: Map<Seq<char>, Seq<char>>,
    key: Seq<char>,
)
    requires
        stored_master_key(snapshot) == Some(master_key),
        json_object_entries(text) == Some(snapshot),
        bootstrapped(loaded(Some(text)), restarted, restarted_key),
    ensures
        restarted == snapshot,
        restarted_key == master_key,
        read_reply(restarted_key, restarted, key) == read_reply(master_key, snapshot, key),
{
}

impl Operation {
    /// The operation that a method name stands for, if any.
    pub fn named(name: &str) -> (operation: Option<Operation>)
        ensures
            operation == operation_named(name@),
    {
        if *name == *"read" {
            Some(Operation::Read)
        } else if *name == *"write" {
            Some(Operation::Write)
        } else if *name == *"delete" {
            Some(Operation::Delete)
        } else if *name == *"readAll" {
            Some(Operation::ReadAll)
        } else if *name == *"deleteAll" {
            Some(Operation::DeleteAll)
        } else {
            None
        }
    }
}

/// What the host has to do for a call that was handled.
pub struct Handled {
    /// The reply to send back.
    pub response: CallResult,
    /// The text of the snapshot to write to disk, where the call asks for
    /// it.
    pub persist: Option<String>,
}

/// The secure store.
pub struct FlutterSecureStoragePlugin {
    storage: Snapshot,
    crypto: Crypto,
}

impl FlutterSecureStoragePlugin {
    /// The entries of the snapshot, in the order in which they are kept.
    pub closed spec fn entries(&self) -> Seq<Pair> {
        self.storage.pairs()
    }

    /// The snapshot: the envelope stored under each key, and the master
    /// key in its reserved slot.
    pub open spec fn snapshot(&self) -> Map<Seq<char>, Seq<char>> {
        as_map(self.entries())
    }

    /// The master key of the crypto engine.
    pub closed spec fn master_key(&self) -> Seq<u8> {
        self.crypto.master_key()
    }

    /// The text of the snapshot to write to disk. Parsing the text gives
    /// the snapshot back.
    pub fn save(&self) -> (text: Option<String>)
        ensures
            distinct_keys(self.entries()),
            text matches Some(json) && json@ == json_object_text(self.snapshot())
                && json_object_entries(json@) == Some(self.snapshot()),
    {
        // read for the fact that no key occurs twice
        let _ = self.storage.entries();
        self.storage.to_json()
    }

    fn load(stored: Option<&str>) -> (storage: Snapshot)
        ensures
            storage@ == loaded(stored_text(stored)),
    {
        match stored {
            Some(text) => match Snapshot::from_json(text) {
                Some(storage) => storage,
                None => Snapshot::new(),
            },
            None => Snapshot::new(),
        }
    }

    /// The store over what was last written to disk, if anything was, with
    /// a generator seeded from the system's entropy; and the text to write
    /// to disk at once. A stored text that holds no master key is
    /// discarded with all its entries. Fails only where no entropy is to
    /// be had.
    pub fn new(stored: Option<&str>) -> (made: Result<(Self, Option<String>), CryptoError>)
        ensures
            match made {
                Ok((store, persist)) => {
                    &&& distinct_keys(store.entries())
                    &&& bootstrapped(
                        loaded(stored_text(stored)),
                        store.snapshot(),
                        store.master_key(),
                    )
                    &&& stored_master_key(loaded(stored_text(stored))) is None ==> store.entries()
                        == key_entry(store.master_key())
                    &&& persist matches Some(json) && json@ == json_object_text(store.snapshot())
                        && json_object_entries(json@) == Some(store.snapshot())
                },
                Err(error) => error == CryptoError::Failed,
            },
    {
        match seeded_from_entropy() {
            Ok(rng) => Ok(Self::with_rng(stored, rng)),
            Err(_) => Err(CryptoError::Failed),
        }
    }

    /// The store over what was last written to disk, if anything was, with
    /// the given generator; and the text to write to disk at once.
    pub fn with_rng(stored: Option<&str>, rng: ChaChaRng) -> (made: (Self, Option<String>))
        ensures
            distinct_keys(made.0.entries()),
            bootstrapped(loaded(stored_text(stored)), made.0.snapshot(), made.0.master_key()),
            stored_master_key(loaded(stored_text(stored))) is None ==> made.0.entries() == key_entry(
                made.0.master_key(),
            ),
            made.1 matches Some(json) && json@ == json_object_text(made.0.snapshot())
                && json_object_entries(json@) == Some(made.0.snapshot()),
    {
        let mut storage = Self::load(stored);
        let crypto = Crypto::from_storage_with_rng(&mut storage, rng);
        let store = FlutterSecureStoragePlugin { storage, crypto };
        let persist = store.save();
        (store, persist)
    }

    /// Reads what is stored under a key: its plaintext, nothing where the
    /// key is absent or reserved, or an error where the envelope does not
    /// open.
    pub fn read(&self, args: &ReadArgs) -> (reply: CallResult)
        ensures
            reply@ == read_reply(self.master_key(), self.snapshot(), args.key@),
    {
        if *args.key == *AES_PREFERENCES_KEY {
            return CallResult::null();
        }
        match self.storage.get(args.key) {
            Some(envelope) => match self.crypto.decrypt(envelope.as_str()) {
                Ok(data) => CallResult::text(data),
                Err(_) => CallResult::failure(CRYPTO_ERROR),
            },
            None => CallResult::null(),
        }
    }

    /// Seals a value and stores the envelope under a key, in place of what
    /// was stored there. The reserved key is refused.
    pub fn write(&mut self, args: &WriteArgs) -> (reply: CallResult)
        ensures
            final(self).master_key() == old(self).master_key(),
            distinct_keys(final(self).entries()),
            wrote(
                old(self).master_key(),
                old(self).entries(),
                final(self).entries(),
                args.key@,
                args.value@,
                reply@,
            ),
    {
        // read for the fact that no key occurs twice
        let _ = self.storage.entries();
        if *args.key == *AES_PREFERENCES_KEY {
            return CallResult::failure(INVALID_ARGUMENTS);
        }
        match self.crypto.encrypt(args.value) {
            Ok(data) => {
                proof {
                    lemma_inserted(self.entries(), args.key@, data@);
                }
                self.storage.insert(args.key.to_owned(), data);
                CallResult::null()
            },
            Err(_) => CallResult::failure(CRYPTO_ERROR),
        }
    }

    /// Deletes what is stored under a key, if anything. The reserved slot
    /// stays.
    pub fn delete(&mut self, args: &DeleteArgs) -> (reply: CallResult)
        ensures
            final(self).master_key() == old(self).master_key(),
            distinct_keys(final(self).entries()),
            final(self).entries() == after_delete(old(self).entries(), args.key@),
            reply@ == Reply::Success(Datum::Null),
    {
        // read for the fact that no key occurs twice
        let _ = self.storage.entries();
        proof {
            lemma_after_delete(self.entries(), args.key@);
        }
        if *args.key != *AES_PREFERENCES_KEY {
            self.storage.remove(args.key);
        }
        CallResult::null()
    }

    /// Reads every entry that opens, but for the reserved slot: a map from
    /// key to plaintext, in the order of the entries.
    pub fn read_all(&self) -> (reply: CallResult)
        ensures
            reply@ == Reply::Success(Datum::Dict(readable(self.master_key(), self.entries()))),
    {
        let entries = self.storage.entries();
        let ghost pairs = self.entries();
        let ghost master_key = self.master_key();
        let mut map: Vec<(Value, Value)> = Vec::new();
        let mut i: usize = 0;
        assert(pairs.take(0).filter_map(|pair: Pair| shown(master_key, pair)) =~= Seq::<
            (Datum, Datum),
        >::empty());
        while i < entries.len()
            invariant
                i <= entries.len(),
                pairs == self.entries(),
                master_key == self.master_key(),
                pairs == pairs_of(entries@),
                map@.len() == readable(master_key, pairs.take(i as int)).len(),
                forall|k: int|
                    0 <= k < map@.len() ==> (#[trigger] map@[k]).0@ == readable(
                        master_key,
                        pairs.take(i as int),
                    )[k].0 && map@[k].1@ == readable(master_key, pairs.take(i as int))[k].1,
            decreases entries.len() - i,
        {
            let key = &entries[i].0;
            let value = &entries[i].1;
            proof {
                assert(pairs.take(i as int + 1).drop_last() =~= pairs.take(i as int));
                assert(pairs.take(i as int + 1).last() == (key@, value@));
            }
            if *key.as_str() != *AES_PREFERENCES_KEY {
                match self.crypto.decrypt(value.as_str()) {
                    Ok(data) => {
                        map.push((Value::String(key.clone()), Value::String(data)));
                    },
                    Err(_) => {},
                }
            }
            i += 1;
        }
        assert(pairs.take(i as int) =~= pairs);
        let value = Value::Dict(map);
        proof {
            lemma_dict_view(value);
            assert(value@->Dict_0 =~= readable(master_key, pairs));
        }
        CallResult::Success(value)
    }

    /// Deletes every entry but the reserved slot.
    pub fn delete_all(&mut self) -> (reply: CallResult)
        ensures
            final(self).master_key() == old(self).master_key(),
            distinct_keys(final(self).entries()),
            final(self).entries() == after_delete_all(old(self).entries()),
            reply@ == Reply::Success(Datum::Null),
    {
        proof {
            lemma_after_delete_all(self.entries());
        }
        let kept: Option<String> = match self.storage.get(AES_PREFERENCES_KEY) {
            Some(text) => Some(text.clone()),
            None => None,
        };
        self.storage.clear();
        match kept {
            Some(text) => {
                self.storage.insert(AES_PREFERENCES_KEY.to_owned(), text);
            },
            None => {},
        }
        assert(self.entries() =~= after_delete_all(old(self).entries()));
        CallResult::null()
    }

    /// Handles one call: the reply to send back and what to write to disk,
    /// or nothing at all for a method that the store does not have.
    pub fn handle(&mut self, method: &str, args: &Value) -> (handled: Option<Handled>)
        ensures
            final(self).master_key() == old(self).master_key(),
            distinct_keys(final(self).entries()),
            match operation_named(method@) {
                Some(operation) => {
                    &&& handled matches Some(done)
                    &&& answered(
                        operation,
                        args@,
                        old(self).master_key(),
                        old(self).entries(),
                        final(self).entries(),
                        done.response@,
                    )
                    &&& done.persist is Some <==> must_persist(operation, args@)
                    &&& done.persist matches Some(json) ==> json@ == json_object_text(
                        final(self).snapshot(),
                    ) && json_object_entries(json@) == Some(final(self).snapshot())
                },
                None => handled is None && final(self).entries() == old(self).entries(),
            },
    {
        // read for the fact that no key occurs twice
        let _ = self.storage.entries();
        let operation = match Operation::named(method) {
            Some(operation) => operation,
            None => {
                return None;
            },
        };
        let handled = match operation {
            Operation::Read => {
                let response = match ReadArgs::from_value(args) {
                    Ok(args) => self.read(&args),
                    Err(_) => CallResult::failure(DECODE_ERROR),
                };
                Handled { response, persist: None }
            },
            Operation::Write => match WriteArgs::from_value(args) {
                Ok(args) => {
                    let response = self.write(&args);
                    let persist = match &response {
                        CallResult::Success(_) => self.save(),
                        CallResult::Failure { .. } => None,
                    };
                    Handled { response, persist }
                },
                Err(_) => Handled { response: CallResult::failure(DECODE_ERROR), persist: None },
            },
            Operation::Delete => match DeleteArgs::from_value(args) {
                Ok(args) => {
                    let response = self.delete(&args);
                    let persist = self.save();
                    Handled { response, persist }
                },
                Err(_) => Handled { response: CallResult::failure(DECODE_ERROR), persist: None },
            },
            Operation::ReadAll => Handled { response: self.read_all(), persist: None },
            Operation::DeleteAll => {
                let response = self.delete_all();
                let persist = self.save();
                Handled { response, persist }
            },
        };
        Some(handled)
    }
}

} // verus!
