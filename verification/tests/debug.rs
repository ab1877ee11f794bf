use secure_storage::debug::{debug_print_args, signed_decimal, unsigned_decimal};
use secure_storage::value::Value;

fn text(text: &str) -> Value {
    Value::String(String::from(text))
}

#[test]
fn decimals_are_those_of_the_standard_library() {
    for n in [0u64, 1, 9, 10, 11, 99, 100, 101, 1234567890, u64::MAX].iter() {
        assert_eq!(unsigned_decimal(*n), n.to_string());
    }
    for n in [0i64, 1, -1, 9, -9, 10, -10, 42, -42, 1000, i64::MAX, i64::MIN, i64::MIN + 1].iter() {
        assert_eq!(signed_decimal(*n), n.to_string());
    }
    assert_eq!(unsigned_decimal(18446744073709551615), "18446744073709551615");
    assert_eq!(signed_decimal(-9223372036854775808), "-9223372036854775808");
    assert_eq!(signed_decimal(-305), "-305");
}

#[test]
fn scalars_are_printed_with_their_kind() {
    assert_eq!(debug_print_args(&text("token")), "String: token");
    assert_eq!(debug_print_args(&text("")), "String: ");
    assert_eq!(debug_print_args(&Value::Boolean(true)), "Boolean: true");
    assert_eq!(debug_print_args(&Value::Boolean(false)), "Boolean: false");
    assert_eq!(debug_print_args(&Value::I32(-17)), "I32: -17");
    assert_eq!(debug_print_args(&Value::I32(i32::MIN)), "I32: -2147483648");
    assert_eq!(debug_print_args(&Value::I64(1 << 40)), "I64: 1099511627776");
    assert_eq!(debug_print_args(&Value::LargeInt), "LargeInt");
    assert_eq!(debug_print_args(&Value::Null), "Null");
    // the bits of 1.0
    assert_eq!(
        debug_print_args(&Value::F64(0x3ff0_0000_0000_0000)),
        "F64: bits 4607182418800017408"
    );
}

#[test]
fn lists_are_printed_as_their_kind_alone() {
    assert_eq!(debug_print_args(&Value::F64List(vec![0, 1])), "F64List");
    assert_eq!(debug_print_args(&Value::I32List(vec![1, 2])), "I32List");
    assert_eq!(debug_print_args(&Value::I64List(vec![1, 2])), "I64List");
    assert_eq!(debug_print_args(&Value::U8List(vec![1, 2])), "U8List");
    assert_eq!(debug_print_args(&Value::List(vec![Value::Null])), "List");
}

#[test]
fn maps_are_printed_entry_by_entry() {
    assert_eq!(debug_print_args(&Value::Dict(vec![])), "Map: {\n}");
    let value = Value::Dict(vec![(text("key"), text("token")), (text("value"), Value::I32(5))]);
    assert_eq!(
        debug_print_args(&value),
        "Map: {\n\tString: key:\n\tString: token\n\tString: value:\n\tI32: 5\n}"
    );
    let nested = Value::Dict(vec![(Value::Null, Value::Dict(vec![(text("a"), Value::Boolean(true))]))]);
    assert_eq!(
        debug_print_args(&nested),
        "Map: {\n\tNull:\n\tMap: {\n\tString: a:\n\tBoolean: true\n}\n}"
    );
}
