//! JSON text: parsed by the `jzon` crate, and carried over into the nodes
//! that the loader reads.

use vstd::prelude::*;
use vstd::string::StringSliceAdditionalSpecFns;
use crate::document::Value;
use crate::instruction::Magnitude;
use crate::table::{Entry, Table};

verus! {

/// `jzon::JsonValue`, a parsed JSON value. Nothing is known of what one
/// holds but through `node_of`.
#[verifier::external_type_specification]
#[verifier::external_body]
pub struct ExJsonValue(jzon::JsonValue);

/// What `jzon::parse` returns for a text: the parsed value, or none where
/// it refuses the text.
pub uninterp spec fn parsed(text: Seq<char>) -> Option<jzon::JsonValue>;

/// The node that holds what a parsed value holds.
pub uninterp spec fn node_of(json: jzon::JsonValue) -> Value;

/// The most decimal digits in a row that a text may hold to be parsed.
pub const MAX_DIGIT_RUN: usize = 32767;

/// Whether a byte is an ASCII decimal digit.
pub open spec fn is_digit(byte: u8) -> bool {
    48 <= byte <= 57
}

/// How many decimal digits in a row the bytes end with.
pub open spec fn trailing_digits(bytes: Seq<u8>) -> nat
    decreases bytes.len(),
{
    if bytes.len() > 0 && is_digit(bytes.last()) {
        trailing_digits(bytes.drop_last()) + 1
    } else {
        0
    }
}

/// No more than `MAX_DIGIT_RUN` decimal digits stand in a row anywhere in
/// the bytes: at no position does the run of digits that ends there exceed
/// it.
pub open spec fn digit_runs_fit(bytes: Seq<u8>) -> bool {
    forall|n: int|
        0 <= n <= bytes.len() ==> trailing_digits(#[trigger] bytes.take(n)) <= MAX_DIGIT_RUN
}

/// Whether no more than `MAX_DIGIT_RUN` decimal digits stand in a row in
/// `text`.
pub fn digit_runs_fit_in(text: &str) -> (fit: bool)
    ensures
        fit == digit_runs_fit(text.spec_bytes()),
{
    let bytes = text.as_bytes();
    let mut run: usize = 0;
    let mut i: usize = 0;
    assert(bytes@.take(0) =~= Seq::<u8>::empty());
    while i < bytes.len()
        invariant
            i <= bytes.len(),
            bytes@ == text.spec_bytes(),
            run == trailing_digits(bytes@.take(i as int)),
            run <= MAX_DIGIT_RUN,
            forall|n: int|
                0 <= n <= i ==> trailing_digits(#[trigger] bytes@.take(n)) <= MAX_DIGIT_RUN,
        decreases bytes.len() - i,
    {
        proof {
            let next = bytes@.take(i as int + 1);
            assert(next.drop_last() =~= bytes@.take(i as int));
            assert(next.last() == bytes@[i as int]);
        }
        let byte = bytes[i];
        if 48 <= byte && byte <= 57 {
            if run == MAX_DIGIT_RUN {
                assert(trailing_digits(bytes@.take(i as int + 1)) > MAX_DIGIT_RUN);
                return false;
            }
            run = run + 1;
        } else {
            run = 0;
        }
        i += 1;
    }
    true
}

/// Calls `jzon::parse`. The contract names the result, an outcome of the
/// text alone, and claims nothing else of it; the error that says why a
/// text was refused is dropped. Texts with a longer run of digits are left
/// out: the parser counts the digits of a fraction down in an `i16`, and
/// the count of a longer fraction overflows.
#[verifier::external_body]
pub(crate) fn parse_text(text: &str) -> (json: Option<jzon::JsonValue>)
    requires
        digit_runs_fit(text.spec_bytes()),
    ensures
        json == parsed(text@),
{
    match jzon::parse(text) {
        Ok(json) => Some(json),
        Err(_) => None,
    }
}

/// Carries a `jzon::JsonValue` over into a node, variant by variant: a short
/// and a long string both become a text, a number is taken apart by
/// `Number::as_parts`, the members of an object by `Object::iter`, in its
/// order. The contract names the result and claims nothing else of it.
#[verifier::external_body]
pub(crate) fn node(json: &jzon::JsonValue) -> (value: Value)
    ensures
        value == node_of(*json),
{
    match json {
        jzon::JsonValue::Null => Value::Null,
        jzon::JsonValue::Boolean(b) => Value::Boolean(*b),
        jzon::JsonValue::Short(s) => Value::Text(s.to_string()),
        jzon::JsonValue::String(s) => Value::Text(s.clone()),
        jzon::JsonValue::Number(n) => {
            let (positive, mantissa, exponent) = n.as_parts();
            Value::Number(Magnitude { positive, mantissa, exponent })
        },
        jzon::JsonValue::Array(a) => Value::Array(a.iter().map(node).collect()),
        jzon::JsonValue::Object(o) => Value::Object(
            Table { entries: o.iter().map(|(k, v)| Entry { key: k.to_string(), value: node(v) }).collect() },
        ),
    }
}

} // verus!
