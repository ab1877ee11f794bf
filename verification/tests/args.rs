use secure_storage::args::{decode_fields, DecodeError, DeleteArgs, ReadArgs, WriteArgs};
use secure_storage::value::Value;

fn text(text: &str) -> Value {
    Value::String(String::from(text))
}

fn entry(key: &str, value: &str) -> (Value, Value) {
    (text(key), text(value))
}

#[test]
fn read_args_are_decoded() {
    let value = Value::Dict(vec![entry("key", "token")]);
    let args = ReadArgs::from_value(&value).ok().expect("arguments");
    assert_eq!(args.key, "token");
}

#[test]
fn write_args_are_decoded_in_any_order() {
    let value = Value::Dict(vec![entry("key", "token"), entry("value", "abc123")]);
    let args = WriteArgs::from_value(&value).ok().expect("arguments");
    assert_eq!(args.key, "token");
    assert_eq!(args.value, "abc123");

    let value = Value::Dict(vec![entry("value", "abc123"), entry("key", "token")]);
    let args = WriteArgs::from_value(&value).ok().expect("arguments");
    assert_eq!(args.key, "token");
    assert_eq!(args.value, "abc123");
}

#[test]
fn delete_args_are_decoded() {
    let value = Value::Dict(vec![entry("key", "")]);
    let args = DeleteArgs::from_value(&value).ok().expect("arguments");
    assert_eq!(args.key, "");
}

#[test]
fn a_missing_field_is_a_missing_map_key() {
    let value = Value::Dict(vec![]);
    assert_eq!(ReadArgs::from_value(&value).err(), Some(DecodeError::MissingMapKey));
    assert_eq!(DeleteArgs::from_value(&value).err(), Some(DecodeError::MissingMapKey));
    assert_eq!(WriteArgs::from_value(&value).err(), Some(DecodeError::MissingMapKey));

    let value = Value::Dict(vec![entry("key", "token")]);
    assert_eq!(WriteArgs::from_value(&value).err(), Some(DecodeError::MissingMapKey));
    let value = Value::Dict(vec![entry("value", "abc123")]);
    assert_eq!(WriteArgs::from_value(&value).err(), Some(DecodeError::MissingMapKey));
}

#[test]
fn a_wrong_typed_field_is_a_wrong_type() {
    let wrong = || {
        vec![
            Value::Null,
            Value::Boolean(true),
            Value::I32(1),
            Value::I64(1),
            Value::LargeInt,
            Value::F64(0x3ff0_0000_0000_0000),
            Value::U8List(vec![1]),
            Value::I32List(vec![1]),
            Value::I64List(vec![1]),
            Value::F64List(vec![0]),
            Value::List(vec![Value::String(String::from("token"))]),
            Value::Dict(vec![(
                Value::String(String::from("key")),
                Value::String(String::from("token")),
            )]),
        ]
    };
    for value in wrong() {
        let value = Value::Dict(vec![(text("key"), value)]);
        assert_eq!(ReadArgs::from_value(&value).err(), Some(DecodeError::WrongType));
        assert_eq!(DeleteArgs::from_value(&value).err(), Some(DecodeError::WrongType));
    }
    for value in wrong() {
        let value = Value::Dict(vec![entry("key", "token"), (text("value"), value)]);
        assert_eq!(WriteArgs::from_value(&value).err(), Some(DecodeError::WrongType));
    }
}

#[test]
fn an_unknown_field_is_an_unknown_map_key() {
    let value = Value::Dict(vec![entry("key", "token"), entry("extra", "x")]);
    assert_eq!(ReadArgs::from_value(&value).err(), Some(DecodeError::UnknownMapKey));
    assert_eq!(DeleteArgs::from_value(&value).err(), Some(DecodeError::UnknownMapKey));
    // `value` is no field of a read
    let value = Value::Dict(vec![entry("key", "token"), entry("value", "abc123")]);
    assert_eq!(ReadArgs::from_value(&value).err(), Some(DecodeError::UnknownMapKey));
    // an unknown key is reported whatever its value is
    let value = Value::Dict(vec![(text("extra"), Value::Null)]);
    assert_eq!(ReadArgs::from_value(&value).err(), Some(DecodeError::UnknownMapKey));
    // names are matched exactly
    let value = Value::Dict(vec![entry("Key", "token")]);
    assert_eq!(ReadArgs::from_value(&value).err(), Some(DecodeError::UnknownMapKey));
}

#[test]
fn a_root_that_is_no_map_is_a_wrong_type() {
    let roots = vec![
        Value::Null,
        Value::Boolean(false),
        Value::I32(0),
        Value::I64(0),
        Value::LargeInt,
        Value::F64(0),
        Value::String(String::from("key")),
        Value::U8List(vec![]),
        Value::I32List(vec![]),
        Value::I64List(vec![]),
        Value::F64List(vec![]),
        Value::List(vec![text("key"), text("token")]),
    ];
    for root in roots.iter() {
        assert_eq!(ReadArgs::from_value(root).err(), Some(DecodeError::WrongType));
        assert_eq!(WriteArgs::from_value(root).err(), Some(DecodeError::WrongType));
        assert_eq!(DeleteArgs::from_value(root).err(), Some(DecodeError::WrongType));
    }
}

#[test]
fn a_key_that_is_no_text_is_a_wrong_type() {
    let value = Value::Dict(vec![(Value::I32(1), text("token"))]);
    assert_eq!(ReadArgs::from_value(&value).err(), Some(DecodeError::WrongType));
    let value = Value::Dict(vec![entry("key", "token"), (Value::Null, Value::Null)]);
    assert_eq!(ReadArgs::from_value(&value).err(), Some(DecodeError::WrongType));
}

#[test]
fn the_first_faulty_entry_decides() {
    let value = Value::Dict(vec![entry("extra", "x"), (text("key"), Value::Null)]);
    assert_eq!(ReadArgs::from_value(&value).err(), Some(DecodeError::UnknownMapKey));
    let value = Value::Dict(vec![(text("key"), Value::Null), entry("extra", "x")]);
    assert_eq!(ReadArgs::from_value(&value).err(), Some(DecodeError::WrongType));
    // a fault is reported before a missing field
    let value = Value::Dict(vec![entry("extra", "x")]);
    assert_eq!(WriteArgs::from_value(&value).err(), Some(DecodeError::UnknownMapKey));
}

#[test]
fn the_last_of_a_repeated_field_wins() {
    let value = Value::Dict(vec![
        entry("key", "first"),
        entry("value", "abc123"),
        entry("key", "second"),
    ]);
    let args = WriteArgs::from_value(&value).ok().expect("arguments");
    assert_eq!(args.key, "second");
    assert_eq!(args.value, "abc123");
}

#[test]
fn decode_fields_follows_the_schema() {
    let value = Value::Dict(vec![entry("b", "2"), entry("c", "3"), entry("a", "1")]);
    assert_eq!(decode_fields(&value, &["a", "b", "c"]), Ok(vec!["1", "2", "3"]));
    assert_eq!(decode_fields(&value, &["c", "a", "b"]), Ok(vec!["3", "1", "2"]));
    assert_eq!(decode_fields(&value, &["a", "b"]), Err(DecodeError::UnknownMapKey));
    assert_eq!(decode_fields(&value, &["a", "b", "c", "d"]), Err(DecodeError::MissingMapKey));
    assert_eq!(decode_fields(&Value::Dict(vec![]), &[]), Ok(vec![]));
    assert_eq!(decode_fields(&Value::Null, &[]), Err(DecodeError::WrongType));
}
