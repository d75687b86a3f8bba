//! A decoded document: a tree of objects, arrays and scalars, as a
//! structured-data format describes a grammar.

use vstd::prelude::*;
use vstd::string::StringExecFns;
use crate::instruction::Magnitude;
use crate::symbols::{lemma_views_push, views, Symbol};
use crate::table::Table;

verus! {

/// One node of a document.
#[derive(Debug, PartialEq, Eq)]
pub enum Value {
    Null,
    Boolean(bool),
    Number(Magnitude),
    Text(String),
    Array(Vec<Value>),
    Object(Table<Value>),
}

/// Why a document is not a grammar.
#[derive(Clone, Copy, Debug, PartialEq, Eq)]
pub enum LoadError {
    /// The text holds more decimal digits in a row than the parser takes.
    DigitRunTooLong,
    /// The text is no JSON.
    NotJson,
    /// The generation count is missing, is no number, or is no
    /// non-negative integer.
    IterationsNotNumber,
    AlphabetNotArray,
    AlphabetElementNotString,
    StartNotArray,
    StartElementNotString,
    RulesNotObject,
    RuleOutputNotArray,
    RuleOutputElementNotString,
    InterpretationNotObject,
    InterpretationOutputNotArray,
    InterpretationElementNotObject,
    /// An instruction object has more than one key.
    TooManyPairs,
    /// An instruction's value is neither a number nor null.
    MagnitudeNotNumber,
    /// An instruction's key is none of the six names.
    UnrecognizedName,
}

/// The key under which a document holds the starting sequence.
pub open spec fn start_key() -> Seq<char> {
    "axio"@ + "m"@
}

/// The key under which a document holds the starting sequence.
pub fn start_key_name() -> (name: String)
    ensures
        name@ == start_key(),
{
    String::from_str("axio").concat("m")
}

impl LoadError {
    /// The error in words.
    pub open spec fn text(self) -> Seq<char> {
        match self {
            LoadError::DigitRunTooLong => "document must hold no more than 32767 digits in a row"@,
            LoadError::NotJson => "document must be valid JSON"@,
            LoadError::IterationsNotNumber => "iters value must be a number"@,
            LoadError::AlphabetNotArray => "alphabet value must be an array"@,
            LoadError::AlphabetElementNotString => "alphabet array element must be a string"@,
            LoadError::StartNotArray => start_key() + " value must be an array"@,
            LoadError::StartElementNotString => start_key() + " array element must be a string"@,
            LoadError::RulesNotObject => "rules value must be an object"@,
            LoadError::RuleOutputNotArray => "production rule output must be an array"@,
            LoadError::RuleOutputElementNotString => "production rule output element must be a string"@,
            LoadError::InterpretationNotObject => "interpretation value must be an object"@,
            LoadError::InterpretationOutputNotArray => "interpretation rule output must be an array"@,
            LoadError::InterpretationElementNotObject => "interpretation rule output element must be an object"@,
            LoadError::TooManyPairs => "too many key-value pairs"@,
            LoadError::MagnitudeNotNumber => "instruction value must be a number or null"@,
            LoadError::UnrecognizedName => "unrecognized instruction name"@,
        }
    }

    /// The error in words, for a reader.
    pub fn message(&self) -> (message: String)
        ensures
            message@ == self.text(),
    {
        match self {
            LoadError::DigitRunTooLong => String::from_str(
                "document must hold no more than 32767 digits in a row",
            ),
            LoadError::NotJson => String::from_str("document must be valid JSON"),
            LoadError::IterationsNotNumber => String::from_str("iters value must be a number"),
            LoadError::AlphabetNotArray => String::from_str("alphabet value must be an array"),
            LoadError::AlphabetElementNotString => String::from_str(
                "alphabet array element must be a string",
            ),
            LoadError::StartNotArray => start_key_name().concat(" value must be an array"),
            LoadError::StartElementNotString => start_key_name().concat(
                " array element must be a string",
            ),
            LoadError::RulesNotObject => String::from_str("rules value must be an object"),
            LoadError::RuleOutputNotArray => String::from_str(
                "production rule output must be an array",
            ),
            LoadError::RuleOutputElementNotString => String::from_str(
                "production rule output element must be a string",
            ),
            LoadError::InterpretationNotObject => String::from_str(
                "interpretation value must be an object",
            ),
            LoadError::InterpretationOutputNotArray => String::from_str(
                "interpretation rule output must be an array",
            ),
            LoadError::InterpretationElementNotObject => String::from_str(
                "interpretation rule output element must be an object",
            ),
            LoadError::TooManyPairs => String::from_str("too many key-value pairs"),
            LoadError::MagnitudeNotNumber => String::from_str(
                "instruction value must be a number or null",
            ),
            LoadError::UnrecognizedName => String::from_str("unrecognized instruction name"),
        }
    }
}

/// What a document holds under `name`: `missing` where it holds nothing, or
/// is no object.
pub open spec fn field_or(doc: Value, name: Seq<char>, missing: Value) -> Value {
    match doc {
        Value::Object(members) => if members@.contains_key(name) {
            members@[name]
        } else {
            missing
        },
        _ => missing,
    }
}

/// What a document holds under `name`: null where it holds nothing, or is
/// no object.
pub open spec fn field(doc: Value, name: Seq<char>) -> Value {
    field_or(doc, name, Value::Null)
}

/// Every item is a string.
pub open spec fn all_text(items: Seq<Value>) -> bool {
    forall|i: int| 0 <= i < items.len() ==> (#[trigger] items[i]) is Text
}

/// The symbol that a string node spells.
pub open spec fn text_of(value: Value) -> Symbol {
    match value {
        Value::Text(text) => text@,
        _ => Seq::empty(),
    }
}

/// The symbols that an array of strings spells, in order.
pub open spec fn text_views(items: Seq<Value>) -> Seq<Symbol> {
    Seq::new(items.len(), |i: int| text_of(items[i]))
}

/// The sequence of symbols that a node holds: it must be an array of
/// strings.
pub open spec fn symbols_of(value: Value, not_array: LoadError, not_string: LoadError) -> Result<
    Seq<Symbol>,
    LoadError,
> {
    match value {
        Value::Array(items) => if all_text(items@) {
            Ok(text_views(items@))
        } else {
            Err(not_string)
        },
        _ => Err(not_array),
    }
}

/// The whole number that a decimal is: `mantissa` times ten to the power
/// `exponent`, or none where that is a fraction.
pub open spec fn whole(mantissa: nat, exponent: int) -> Option<nat>
    decreases (if exponent < 0 { -exponent } else { exponent }),
{
    if exponent == 0 {
        Some(mantissa)
    } else if exponent < 0 {
        if mantissa % 10 == 0 {
            whole(mantissa / 10, exponent + 1)
        } else {
            None
        }
    } else {
        whole(mantissa * 10, exponent - 1)
    }
}

/// The generation count that a node holds: it must be a number, not
/// negative, whole, and no greater than a `u64` can hold.
pub open spec fn iterations_of(value: Value) -> Result<u64, LoadError> {
    match value {
        Value::Number(m) => match whole(m.mantissa as nat, m.exponent as int) {
            Some(n) => if m.positive && n <= u64::MAX {
                Ok(n as u64)
            } else {
                Err(LoadError::IterationsNotNumber)
            },
            None => Err(LoadError::IterationsNotNumber),
        },
        _ => Err(LoadError::IterationsNotNumber),
    }
}

/// Zero times a power of ten is zero.
pub proof fn lemma_whole_of_zero(exponent: int)
    requires
        exponent >= 0,
    ensures
        whole(0, exponent) == Some(0nat),
    decreases exponent,
{
    if exponent > 0 {
        lemma_whole_of_zero(exponent - 1);
    }
}

/// A number times a power of ten is whole and no less than the number.
pub proof fn lemma_whole_grows(mantissa: nat, exponent: int)
    requires
        exponent >= 0,
    ensures
        whole(mantissa, exponent) matches Some(n) && n >= mantissa,
    decreases exponent,
{
    if exponent > 0 {
        lemma_whole_grows(mantissa * 10, exponent - 1);
    }
}

/// The whole number that a decimal is, sign apart, where it is one that a
/// `u64` can hold.
pub fn whole_number(m: &Magnitude) -> (number: Option<u64>)
    ensures
        match whole(m.mantissa as nat, m.exponent as int) {
            Some(n) => if n <= u64::MAX {
                number == Some(n as u64)
            } else {
                number is None
            },
            None => number is None,
        },
{
    let mut mantissa: u64 = m.mantissa;
    let mut exponent: i16 = m.exponent;
    while exponent < 0
        invariant
            whole(mantissa as nat, exponent as int) == whole(m.mantissa as nat, m.exponent as int),
        decreases -exponent,
    {
        if mantissa % 10 != 0 {
            return None;
        }
        mantissa = mantissa / 10;
        exponent = exponent + 1;
    }
    while exponent > 0
        invariant
            exponent >= 0,
            whole(mantissa as nat, exponent as int) == whole(m.mantissa as nat, m.exponent as int),
        decreases exponent,
    {
        if mantissa == 0 {
            proof {
                lemma_whole_of_zero(exponent as int);
            }
            return Some(0);
        }
        if mantissa > u64::MAX / 10 {
            proof {
                lemma_whole_grows(mantissa as nat * 10, exponent as int - 1);
            }
            return None;
        }
        mantissa = mantissa * 10;
        exponent = exponent - 1;
    }
    Some(mantissa)
}

/// Decodes the generation count.
pub fn decode_iterations(value: &Value) -> (result: Result<u64, LoadError>)
    ensures
        result == iterations_of(*value),
{
    match value {
        Value::Number(m) => {
            if m.positive {
                match whole_number(m) {
                    Some(n) => Ok(n),
                    None => Err(LoadError::IterationsNotNumber),
                }
            } else {
                Err(LoadError::IterationsNotNumber)
            }
        },
        _ => Err(LoadError::IterationsNotNumber),
    }
}

/// What `doc` holds under `name`, or `missing` where it holds nothing.
pub fn lookup<'a>(doc: &'a Value, name: &String, missing: &'a Value) -> (value: &'a Value)
    ensures
        *value == field_or(*doc, name@, *missing),
{
    match doc {
        Value::Object(members) => match members.get(name) {
            Some(value) => value,
            None => missing,
        },
        _ => missing,
    }
}

/// Decodes an array of strings.
pub fn decode_symbols(value: &Value, not_array: LoadError, not_string: LoadError) -> (result:
    Result<Vec<String>, LoadError>)
    ensures
        match symbols_of(*value, not_array, not_string) {
            Ok(line) => result matches Ok(symbols) && views(symbols@) == line,
            Err(e) => result matches Err(got) && got == e,
        },
{
    match value {
        Value::Array(items) => {
            let mut out: Vec<String> = Vec::new();
            let mut i: usize = 0;
            while i < items.len()
                invariant
                    i <= items.len(),
                    *value matches Value::Array(inner) && inner@ == items@,
                    all_text(items@.take(i as int)),
                    views(out@) =~= text_views(items@.take(i as int)),
                decreases items.len() - i,
            {
                match &items[i] {
                    Value::Text(text) => {
                        let ghost before = out@;
                        out.push(text.clone());
                        proof {
                            lemma_views_push(before, *text);
                            assert(items@.take(i as int + 1) =~= items@.take(i as int).push(
                                items@[i as int],
                            ));
                        }
                    },
                    _ => {
                        assert(!(items@[i as int] is Text));
                        return Err(not_string);
                    },
                }
                i += 1;
            }
            assert(items@.take(i as int) =~= items@);
            Ok(out)
        },
        _ => Err(not_array),
    }
}

} // verus!
