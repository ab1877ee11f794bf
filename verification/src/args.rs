//! The argument decoder: it takes the named text fields of an operation out
//! of the map that a call carries, and rejects a map that does not fit.

use crate::value::{lemma_dict_view, Datum, Value};
use vstd::prelude::*;

verus! {

/// Why the arguments of a call were rejected.
#[derive(Debug, Clone, Copy, PartialEq, Eq, Structural)]
pub enum DecodeError {
    /// The arguments are no map, a key of the map is no text, or the value
    /// of a declared field is no text.
    WrongType,
    /// The map has a key that names no declared field.
    UnknownMapKey,
    /// A declared field has no entry in the map.
    MissingMapKey,
}

/// What is wrong with one entry of the map, if anything is.
pub open spec fn entry_fault(names: Seq<Seq<char>>, entry: (Datum, Datum)) -> Option<DecodeError> {
    match entry.0 {
        Datum::Text(key) => if !names.contains(key) {
            Some(DecodeError::UnknownMapKey)
        } else if !(entry.1 is Text) {
            Some(DecodeError::WrongType)
        } else {
            None
        },
        _ => Some(DecodeError::WrongType),
    }
}

/// The fault of the first entry that has one.
pub open spec fn first_fault(names: Seq<Seq<char>>, entries: Seq<(Datum, Datum)>) -> Option<DecodeError>
    decreases entries.len(),
{
    if entries.len() == 0 {
        None
    } else {
        match entry_fault(names, entries[0]) {
            Some(error) => Some(error),
            None => first_fault(names, entries.drop_first()),
        }
    }
}

/// The text of the last entry whose key is `name`.
pub open spec fn last_text(entries: Seq<(Datum, Datum)>, name: Seq<char>) -> Option<Seq<char>>
    decreases entries.len(),
{
    if entries.len() == 0 {
        None
    } else if entries.last().0 == Datum::Text(name) {
        match entries.last().1 {
            Datum::Text(text) => Some(text),
            _ => None,
        }
    } else {
        last_text(entries.drop_last(), name)
    }
}

/// The fields that decoding `value` against the declared `names` gives, one
/// text for each name, or the reason why it gives none.
pub open spec fn decoded(names: Seq<Seq<char>>, value: Datum) -> Result<Seq<Seq<char>>, DecodeError> {
    match value {
        Datum::Dict(entries) => match first_fault(names, entries) {
            Some(error) => Err(error),
            None => if exists|j: int| 0 <= j < names.len() && last_text(entries, #[trigger] names[j]) is None {
                Err(DecodeError::MissingMapKey)
            } else {
                Ok(Seq::new(names.len(), |j: int| last_text(entries, names[j])->Some_0))
            },
        },
        _ => Err(DecodeError::WrongType),
    }
}

/// The declared names as plain text.
pub open spec fn names_of(names: Seq<&str>) -> Seq<Seq<char>> {
    names.map_values(|name: &str| name@)
}

/// The texts found so far as plain text.
pub open spec fn texts_of(slots: Seq<Option<&str>>) -> Seq<Option<Seq<char>>> {
    slots.map_values(
        |slot: Option<&str>|
            match slot {
                Some(text) => Some(text@),
                None => None,
            },
    )
}

proof fn lemma_first_fault_push(names: Seq<Seq<char>>, entries: Seq<(Datum, Datum)>, entry: (Datum, Datum))
    ensures
        first_fault(names, entries.push(entry)) == match first_fault(names, entries) {
            Some(error) => Some(error),
            None => entry_fault(names, entry),
        },
    decreases entries.len(),
{
    if entries.len() == 0 {
        assert(entries.push(entry).drop_first() =~= entries);
        assert(first_fault(names, entries.push(entry).drop_first()) == None::<DecodeError>);
    } else {
        assert(entries.push(entry).drop_first() =~= entries.drop_first().push(entry));
        lemma_first_fault_push(names, entries.drop_first(), entry);
    }
}

fn is_declared(names: &[&str], key: &str) -> (declared: bool)
    ensures
        declared == names_of(names@).contains(key@),
{
    let mut j: usize = 0;
    while j < names.len()
        invariant
            j <= names.len(),
            forall|k: int| 0 <= k < j ==> names_of(names@)[k] != key@,
        decreases names.len() - j,
    {
        if *names[j] == *key {
            assert(names_of(names@)[j as int] == key@);
            return true;
        }
        j += 1;
    }
    false
}

/// Decodes `value` against the declared field names: one text for each
/// name, in the order of `names`.
pub fn decode_fields<'a>(value: &'a Value, names: &[&str]) -> (fields: Result<Vec<&'a str>, DecodeError>)
    ensures
        match decoded(names_of(names@), value@) {
            Ok(texts) => fields matches Ok(found) && found@.map_values(|text: &str| text@) == texts,
            Err(error) => fields matches Err(e) && e == error,
        },
{
    let entries = match value {
        Value::Dict(entries) => entries,
        _ => {
            return Err(DecodeError::WrongType);
        },
    };
    proof {
        lemma_dict_view(*value);
    }
    let ghost all = value@->Dict_0;
    let ghost declared = names_of(names@);
    let mut slots: Vec<Option<&'a str>> = Vec::new();
    let mut j: usize = 0;
    while j < names.len()
        invariant
            j <= names.len(),
            slots@.len() == j,
            forall|k: int| 0 <= k < j ==> slots@[k] is None,
        decreases names.len() - j,
    {
        slots.push(None);
        j += 1;
    }
    let mut i: usize = 0;
    while i < entries.len()
        invariant
            i <= entries.len(),
            all == value@->Dict_0,
            value@ is Dict,
            all.len() == entries@.len(),
            forall|k: int| 0 <= k < entries@.len() ==> #[trigger] all[k] == (entries@[k].0@, entries@[k].1@),
            declared == names_of(names@),
            slots@.len() == names@.len(),
            first_fault(declared, all.take(i as int)) is None,
            forall|k: int|
                0 <= k < names@.len() ==> #[trigger] texts_of(slots@)[k] == last_text(
                    all.take(i as int),
                    declared[k],
                ),
        decreases entries.len() - i,
    {
        let ghost before = all.take(i as int);
        let ghost entry = all[i as int];
        proof {
            assert(all.take(i as int + 1) =~= before.push(entry));
            lemma_first_fault_push(declared, before, entry);
        }
        let key: &'a str = match &entries[i].0 {
            Value::String(key) => key.as_str(),
            _ => {
                proof {
                    lemma_fault_in_prefix(declared, all, i as int + 1);
                }
                return Err(DecodeError::WrongType);
            },
        };
        if !is_declared(names, key) {
            proof {
                lemma_fault_in_prefix(declared, all, i as int + 1);
            }
            return Err(DecodeError::UnknownMapKey);
        }
        let text: &'a str = match &entries[i].1 {
            Value::String(text) => text.as_str(),
            _ => {
                proof {
                    lemma_fault_in_prefix(declared, all, i as int + 1);
                }
                return Err(DecodeError::WrongType);
            },
        };
        let mut j: usize = 0;
        while j < names.len()
            invariant
                j <= names.len(),
                slots@.len() == names@.len(),
                declared == names_of(names@),
                before.push(entry).last() == entry,
                before.push(entry).drop_last() == before,
                entry == (Datum::Text(key@), Datum::Text(text@)),
                forall|k: int|
                    0 <= k < j ==> #[trigger] texts_of(slots@)[k] == last_text(
                        before.push(entry),
                        declared[k],
                    ),
                forall|k: int|
                    j <= k < names@.len() ==> #[trigger] texts_of(slots@)[k] == last_text(
                        before,
                        declared[k],
                    ),
            decreases names.len() - j,
        {
            let ghost old_slots = slots@;
            if *names[j] == *key {
                slots.set(j, Some(text));
            }
            proof {
                assert forall|k: int| 0 <= k < names@.len() && k != j implies #[trigger] texts_of(
                    slots@,
                )[k] == texts_of(old_slots)[k] by {}
                assert(declared[j as int] == names@[j as int]@);
            }
            j += 1;
        }
        i += 1;
    }
    proof {
        assert(all.take(i as int) =~= all);
    }
    let mut fields: Vec<&'a str> = Vec::new();
    let mut j: usize = 0;
    while j < names.len()
        invariant
            j <= names.len(),
            slots@.len() == names@.len(),
            fields@.len() == j,
            forall|k: int|
                0 <= k < names@.len() ==> #[trigger] texts_of(slots@)[k] == last_text(all, declared[k]),
            forall|k: int| 0 <= k < j ==> last_text(all, #[trigger] declared[k]) == Some(fields@[k]@),
            declared == names_of(names@),
            value@ == Datum::Dict(all),
            first_fault(declared, all) is None,
        decreases names.len() - j,
    {
        match slots[j] {
            Some(text) => {
                assert(texts_of(slots@)[j as int] == Some(text@));
                fields.push(text);
            },
            None => {
                assert(texts_of(slots@)[j as int] is None);
                assert(last_text(all, declared[j as int]) is None);
                return Err(DecodeError::MissingMapKey);
            },
        }
        j += 1;
    }
    proof {
        let texts = Seq::new(declared.len(), |j: int| last_text(all, declared[j])->Some_0);
        assert(fields@.map_values(|text: &str| text@) =~= texts);
    }
    Ok(fields)
}

/// A fault among the first `n` entries is a fault of the whole list.
proof fn lemma_fault_in_prefix(names: Seq<Seq<char>>, entries: Seq<(Datum, Datum)>, n: int)
    requires
        0 <= n <= entries.len(),
        first_fault(names, entries.take(n)) is Some,
    ensures
        first_fault(names, entries) == first_fault(names, entries.take(n)),
    decreases entries.len() - n,
{
    if n < entries.len() {
        assert(entries.take(n + 1) =~= entries.take(n).push(entries[n]));
        lemma_first_fault_push(names, entries.take(n), entries[n]);
        lemma_fault_in_prefix(names, entries, n + 1);
    } else {
        assert(entries.take(n) =~= entries);
    }
}

/// The fields of a `read` call.
pub open spec fn read_fields() -> Seq<Seq<char>> {
    seq!["key"@]
}

/// The fields of a `write` call.
pub open spec fn write_fields() -> Seq<Seq<char>> {
    seq!["key"@, "value"@]
}

/// The fields of a `delete` call.
pub open spec fn delete_fields() -> Seq<Seq<char>> {
    seq!["key"@]
}

/// The arguments of a `read` call.
pub struct ReadArgs<'a> {
    pub key: &'a str,
}

/// The arguments of a `write` call.
pub struct WriteArgs<'a> {
    pub key: &'a str,
    pub value: &'a str,
}

/// The arguments of a `delete` call.
pub struct DeleteArgs<'a> {
    pub key: &'a str,
}

impl<'a> ReadArgs<'a> {
    /// Decodes the arguments of a `read` call.
    pub fn from_value(value: &'a Value) -> (args: Result<Self, DecodeError>)
        ensures
            match decoded(read_fields(), value@) {
                Ok(texts) => args matches Ok(found) && found.key@ == texts[0],
                Err(error) => args matches Err(e) && e == error,
            },
    {
        let names = ["key"];
        assert(names_of(names@) =~= read_fields());
        match decode_fields(value, names.as_slice()) {
            Ok(fields) => {
                assert(fields@.map_values(|text: &str| text@).len() == 1);
                Ok(ReadArgs { key: fields[0] })
            },
            Err(error) => Err(error),
        }
    }
}

impl<'a> WriteArgs<'a> {
    /// Decodes the arguments of a `write` call.
    pub fn from_value(value: &'a Value) -> (args: Result<Self, DecodeError>)
        ensures
            match decoded(write_fields(), value@) {
                Ok(texts) => args matches Ok(found) && found.key@ == texts[0] && found.value@
                    == texts[1],
                Err(error) => args matches Err(e) && e == error,
            },
    {
        let names = ["key", "value"];
        assert(names_of(names@) =~= write_fields());
        match decode_fields(value, names.as_slice()) {
            Ok(fields) => {
                assert(fields@.map_values(|text: &str| text@).len() == 2);
                Ok(WriteArgs { key: fields[0], value: fields[1] })
            },
            Err(error) => Err(error),
        }
    }
}

impl<'a> DeleteArgs<'a> {
    /// Decodes the arguments of a `delete` call.
    pub fn from_value(value: &'a Value) -> (args: Result<Self, DecodeError>)
        ensures
            match decoded(delete_fields(), value@) {
                Ok(texts) => args matches Ok(found) && found.key@ == texts[0],
                Err(error) => args matches Err(e) && e == error,
            },
    {
        let names = ["key"];
        assert(names_of(names@) =~= delete_fields());
        match decode_fields(value, names.as_slice()) {
            Ok(fields) => {
                assert(fields@.map_values(|text: &str| text@).len() == 1);
                Ok(DeleteArgs { key: fields[0] })
            },
            Err(error) => Err(error),
        }
    }
}

/// Arguments that are no map are rejected as of the wrong type.
pub proof fn lemma_root_must_be_a_map(names: Seq<Seq<char>>, value: Datum)
    requires
        !(value is Dict),
    ensures
        decoded(names, value) == Err::<Seq<Seq<char>>, DecodeError>(DecodeError::WrongType),
{
}

/// The first entry that has a fault decides: the map is rejected for the
/// fault of that entry.
pub proof fn lemma_first_fault_decides(
    names: Seq<Seq<char>>,
    entries: Seq<(Datum, Datum)>,
    at: int,
    error: DecodeError,
)
    requires
        0 <= at < entries.len(),
        forall|k: int| 0 <= k < at ==> entry_fault(names, #[trigger] entries[k]) is None,
        entry_fault(names, entries[at]) == Some(error),
    ensures
        decoded(names, Datum::Dict(entries)) == Err::<Seq<Seq<char>>, DecodeError>(error),
    decreases at,
{
    lemma_first_fault_at(names, entries, at, error);
}

proof fn lemma_first_fault_at(
    names: Seq<Seq<char>>,
    entries: Seq<(Datum, Datum)>,
    at: int,
    error: DecodeError,
)
    requires
        0 <= at < entries.len(),
        forall|k: int| 0 <= k < at ==> entry_fault(names, #[trigger] entries[k]) is None,
        entry_fault(names, entries[at]) == Some(error),
    ensures
        first_fault(names, entries) == Some(error),
    decreases at,
{
    if at > 0 {
        let rest = entries.drop_first();
        assert forall|k: int| 0 <= k < at - 1 implies entry_fault(names, #[trigger] rest[k]) is None by {
            assert(rest[k] == entries[k + 1]);
        }
        assert(rest[at - 1] == entries[at]);
        assert(entry_fault(names, entries[0]) is None);
        lemma_first_fault_at(names, rest, at - 1, error);
    }
}

proof fn lemma_faultless(names: Seq<Seq<char>>, entries: Seq<(Datum, Datum)>)
    requires
        forall|k: int| 0 <= k < entries.len() ==> entry_fault(names, #[trigger] entries[k]) is None,
    ensures
        first_fault(names, entries) is None,
    decreases entries.len(),
{
    if entries.len() > 0 {
        let rest = entries.drop_first();
        assert forall|k: int| 0 <= k < rest.len() implies entry_fault(names, #[trigger] rest[k]) is None by {
            assert(rest[k] == entries[k + 1]);
        }
        assert(entry_fault(names, entries[0]) is None);
        lemma_faultless(names, rest);
    }
}

proof fn lemma_absent(entries: Seq<(Datum, Datum)>, name: Seq<char>)
    requires
        forall|k: int| 0 <= k < entries.len() ==> (#[trigger] entries[k]).0 != Datum::Text(name),
    ensures
        last_text(entries, name) is None,
    decreases entries.len(),
{
    if entries.len() > 0 {
        let rest = entries.drop_last();
        assert forall|k: int| 0 <= k < rest.len() implies (#[trigger] rest[k]).0 != Datum::Text(name) by {
            assert(rest[k] == entries[k]);
        }
        assert(entries.last() == entries[entries.len() - 1]);
        lemma_absent(rest, name);
    }
}

/// A map with an entry whose key names no declared field is rejected for
/// its unknown key, where no entry before that one has a fault.
pub proof fn lemma_unknown_key_is_rejected(
    names: Seq<Seq<char>>,
    entries: Seq<(Datum, Datum)>,
    at: int,
    key: Seq<char>,
)
    requires
        0 <= at < entries.len(),
        forall|k: int| 0 <= k < at ==> entry_fault(names, #[trigger] entries[k]) is None,
        entries[at].0 == Datum::Text(key),
        !names.contains(key),
    ensures
        decoded(names, Datum::Dict(entries)) == Err::<Seq<Seq<char>>, DecodeError>(
            DecodeError::UnknownMapKey,
        ),
{
    lemma_first_fault_decides(names, entries, at, DecodeError::UnknownMapKey);
}

/// A map with an entry for a declared field whose value is no text is
/// rejected as of the wrong type, where no entry before that one has a
/// fault.
pub proof fn lemma_wrong_typed_field_is_rejected(
    names: Seq<Seq<char>>,
    entries: Seq<(Datum, Datum)>,
    at: int,
    key: Seq<char>,
)
    requires
        0 <= at < entries.len(),
        forall|k: int| 0 <= k < at ==> entry_fault(names, #[trigger] entries[k]) is None,
        entries[at].0 == Datum::Text(key),
        names.contains(key),
        !(entries[at].1 is Text),
    ensures
        decoded(names, Datum::Dict(entries)) == Err::<Seq<Seq<char>>, DecodeError>(
            DecodeError::WrongType,
        ),
{
    lemma_first_fault_decides(names, entries, at, DecodeError::WrongType);
}

/// A map with an entry whose key is no text is rejected as of the wrong
/// type, where no entry before that one has a fault.
pub proof fn lemma_key_must_be_text(names: Seq<Seq<char>>, entries: Seq<(Datum, Datum)>, at: int)
    requires
        0 <= at < entries.len(),
        forall|k: int| 0 <= k < at ==> entry_fault(names, #[trigger] entries[k]) is None,
        !(entries[at].0 is Text),
    ensures
        decoded(names, Datum::Dict(entries)) == Err::<Seq<Seq<char>>, DecodeError>(
            DecodeError::WrongType,
        ),
{
    lemma_first_fault_decides(names, entries, at, DecodeError::WrongType);
}

/// A map whose entries have no fault, but which has no entry for some
/// declared field, is rejected for the missing key.
pub proof fn lemma_missing_field_is_rejected(
    names: Seq<Seq<char>>,
    entries: Seq<(Datum, Datum)>,
    field: int,
)
    requires
        forall|k: int| 0 <= k < entries.len() ==> entry_fault(names, #[trigger] entries[k]) is None,
        0 <= field < names.len(),
        forall|k: int| 0 <= k < entries.len() ==> (#[trigger] entries[k]).0 != Datum::Text(names[field]),
    ensures
        decoded(names, Datum::Dict(entries)) == Err::<Seq<Seq<char>>, DecodeError>(
            DecodeError::MissingMapKey,
        ),
{
    lemma_faultless(names, entries);
    lemma_absent(entries, names[field]);
}

/// Of several entries for one field the last one counts: an entry added
/// at the end sets its field and leaves the others as they were.
pub proof fn lemma_last_entry_wins(
    names: Seq<Seq<char>>,
    entries: Seq<(Datum, Datum)>,
    field: int,
    text: Seq<char>,
)
    requires
        decoded(names, Datum::Dict(entries)) is Ok,
        0 <= field < names.len(),
    ensures
        decoded(names, Datum::Dict(entries.push((Datum::Text(names[field]), Datum::Text(text))))) is Ok,
        decoded(
            names,
            Datum::Dict(entries.push((Datum::Text(names[field]), Datum::Text(text)))),
        )->Ok_0[field] == text,
        forall|j: int|
            0 <= j < names.len() && names[j] != names[field] ==> #[trigger] decoded(
                names,
                Datum::Dict(entries.push((Datum::Text(names[field]), Datum::Text(text)))),
            )->Ok_0[j] == decoded(names, Datum::Dict(entries))->Ok_0[j],
{
    let entry = (Datum::Text(names[field]), Datum::Text(text));
    let more = entries.push(entry);
    lemma_first_fault_push(names, entries, entry);
    assert(more.drop_last() =~= entries);
    assert(more.last() == entry);
    assert(names.contains(names[field]));
    assert forall|j: int| 0 <= j < names.len() implies last_text(more, #[trigger] names[j]) == if names[j]
        == names[field] {
        Some(text)
    } else {
        last_text(entries, names[j])
    } by {}
}

} // verus!
