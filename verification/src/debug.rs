//! A readable form of a structured value, for the log.

use crate::value::{lemma_dict_view, Datum, Value};
use vstd::prelude::*;
use vstd::string::StringExecFns;

verus! {

/// The text of one decimal digit.
pub open spec fn digit_text(digit: int) -> Seq<char> {
    if digit == 0 {
        "0"@
    } else if digit == 1 {
        "1"@
    } else if digit == 2 {
        "2"@
    } else if digit == 3 {
        "3"@
    } else if digit == 4 {
        "4"@
    } else if digit == 5 {
        "5"@
    } else if digit == 6 {
        "6"@
    } else if digit == 7 {
        "7"@
    } else if digit == 8 {
        "8"@
    } else {
        "9"@
    }
}

/// The decimal digits of a natural number, without leading zeros.
pub open spec fn decimal_of_nat(n: nat) -> Seq<char>
    decreases n,
{
    if n < 10 {
        digit_text(n as int)
    } else {
        decimal_of_nat(n / 10) + digit_text((n % 10) as int)
    }
}

/// The decimal form of an integer, with a minus sign where it is negative.
pub open spec fn decimal(n: int) -> Seq<char> {
    if n < 0 {
        "-"@ + decimal_of_nat((-n) as nat)
    } else {
        decimal_of_nat(n as nat)
    }
}

/// The readable form of a value: its kind; for a text, a truth value or a
/// whole number also what it holds; for a floating-point number its bits;
/// for a map its entries, each on two lines.
pub open spec fn debug_text(value: Datum) -> Seq<char>
    decreases value,
{
    match value {
        Datum::Text(text) => "String: "@ + text,
        Datum::Boolean(b) => "Boolean: "@ + if b {
            "true"@
        } else {
            "false"@
        },
        Datum::F64(bits) => "F64: bits "@ + decimal(bits as int),
        Datum::I32(n) => "I32: "@ + decimal(n as int),
        Datum::I64(n) => "I64: "@ + decimal(n as int),
        Datum::LargeInt => "LargeInt"@,
        Datum::Null => "Null"@,
        Datum::F64List(_) => "F64List"@,
        Datum::I32List(_) => "I32List"@,
        Datum::I64List(_) => "I64List"@,
        Datum::U8List(_) => "U8List"@,
        Datum::List(_) => "List"@,
        Datum::Dict(entries) => "Map: {\n"@ + entries_text(entries) + "}"@,
    }
}

/// The readable form of the entries of a map, one after the other.
pub open spec fn entries_text(entries: Seq<(Datum, Datum)>) -> Seq<char>
    decreases entries,
{
    if entries.len() == 0 {
        Seq::<char>::empty()
    } else {
        entries_text(entries.drop_last()) + "\t"@ + debug_text(entries.last().0) + ":\n\t"@
            + debug_text(entries.last().1) + "\n"@
    }
}

fn digit_str(digit: u64) -> (text: &'static str)
    requires
        digit < 10,
    ensures
        text@ == digit_text(digit as int),
{
    if digit == 0 {
        "0"
    } else if digit == 1 {
        "1"
    } else if digit == 2 {
        "2"
    } else if digit == 3 {
        "3"
    } else if digit == 4 {
        "4"
    } else if digit == 5 {
        "5"
    } else if digit == 6 {
        "6"
    } else if digit == 7 {
        "7"
    } else if digit == 8 {
        "8"
    } else {
        "9"
    }
}

/// The decimal digits of a number.
pub fn unsigned_decimal(n: u64) -> (text: String)
    ensures
        text@ == decimal_of_nat(n as nat),
    decreases n,
{
    if n < 10 {
        String::from_str(digit_str(n))
    } else {
        unsigned_decimal(n / 10).concat(digit_str(n % 10))
    }
}

/// The decimal form of a number.
pub fn signed_decimal(n: i64) -> (text: String)
    ensures
        text@ == decimal(n as int),
{
    if n < 0 {
        let magnitude: u64 = ((-(n + 1)) as u64) + 1;
        let digits = unsigned_decimal(magnitude);
        String::from_str("-").concat(digits.as_str())
    } else {
        unsigned_decimal(n as u64)
    }
}

/// The readable form of a value.
pub fn debug_print_args(value: &Value) -> (text: String)
    ensures
        text@ == debug_text(value@),
    decreases value,
{
    match value {
        Value::String(string) => String::from_str("String: ").concat(string.as_str()),
        Value::Boolean(b) => String::from_str("Boolean: ").concat(
            if *b {
                "true"
            } else {
                "false"
            },
        ),
        Value::F64(bits) => String::from_str("F64: bits ").concat(unsigned_decimal(*bits).as_str()),
        Value::I32(num) => String::from_str("I32: ").concat(signed_decimal(*num as i64).as_str()),
        Value::I64(num) => String::from_str("I64: ").concat(signed_decimal(*num).as_str()),
        Value::LargeInt => String::from_str("LargeInt"),
        Value::Null => String::from_str("Null"),
        Value::F64List(_) => String::from_str("F64List"),
        Value::I32List(_) => String::from_str("I32List"),
        Value::I64List(_) => String::from_str("I64List"),
        Value::U8List(_) => String::from_str("U8List"),
        Value::List(_) => String::from_str("List"),
        Value::Dict(map) => {
            proof {
                lemma_dict_view(*value);
            }
            let ghost entries = value@->Dict_0;
            let mut string = String::from_str("Map: {\n");
            let mut i: usize = 0;
            assert(entries.take(0) =~= Seq::<(Datum, Datum)>::empty());
            while i < map.len()
                invariant
                    i <= map.len(),
                    *value == Value::Dict(*map),
                    value@ == Datum::Dict(entries),
                    entries.len() == map@.len(),
                    forall|k: int|
                        0 <= k < map@.len() ==> #[trigger] entries[k] == (map@[k].0@, map@[k].1@),
                    string@ == "Map: {\n"@ + entries_text(entries.take(i as int)),
                decreases map.len() - i,
            {
                proof {
                    assert(entries.take(i as int + 1).drop_last() =~= entries.take(i as int));
                    assert(entries.take(i as int + 1).last() == entries[i as int]);
                }
                let key = debug_print_args(&map[i].0);
                let item = debug_print_args(&map[i].1);
                let ghost before = string@;
                string.append("\t");
                string.append(key.as_str());
                string.append(":\n\t");
                string.append(item.as_str());
                string.append("\n");
                proof {
                    let rest = entries_text(entries.take(i as int));
                    assert(string@ =~= "Map: {\n"@ + (rest + "\t"@ + key@ + ":\n\t"@ + item@ + "\n"@));
                }
                i += 1;
            }
            assert(entries.take(i as int) =~= entries);
            string.concat("}")
        },
    }
}

} // verus!
