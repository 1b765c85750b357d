//! Abstract values: what the analysis knows of the values an expression takes.

use vstd::prelude::*;

verus! {

/// The bits of the double-precision number negative zero.
pub const NEGATIVE_ZERO_BITS: u64 = 0x8000_0000_0000_0000;

/// A primitive value.
#[derive(Debug, PartialEq, Eq)]
pub enum PrimitiveValue {
    /// A boolean.
    Boolean(bool),
    /// A number, by the bits of its double-precision representation.
    Number(u64),
    /// `null`.
    Null,
    /// `undefined`.
    Undefined,
    /// A string.
    String(String),
    /// Any other primitive value.
    Other,
}

/// One of the values that an expression may take.
#[derive(Debug, PartialEq, Eq)]
pub enum Type {
    /// A primitive value.
    Primitive(PrimitiveValue),
    /// An object, a function or any other value that is not primitive.
    Other,
}

/// What is known of an expression's value.
#[derive(Debug, PartialEq, Eq)]
pub struct AbstractValue {
    /// Whether no value at all can arise.
    pub bottom: bool,
    /// The values that may arise; none listed means that nothing is known.
    pub values: Vec<Type>,
}

/// The number zero, of either sign.
pub open spec fn is_zero(bits: u64) -> bool {
    bits == 0 || bits == NEGATIVE_ZERO_BITS
}

/// The values that never pass a condition: `false`, zero, `null` and
/// `undefined`. A string is not among them, since its text is not examined.
pub open spec fn never_truthy(value: Type) -> bool {
    match value {
        Type::Primitive(PrimitiveValue::Boolean(b)) => !b,
        Type::Primitive(PrimitiveValue::Number(bits)) => is_zero(bits),
        Type::Primitive(PrimitiveValue::Null) => true,
        Type::Primitive(PrimitiveValue::Undefined) => true,
        _ => false,
    }
}

/// Nothing is known of the value, or one of the known values may pass a
/// condition.
pub open spec fn could_be_truthy(value: AbstractValue) -> bool {
    value.values@.len() == 0 || exists|i: int|
        0 <= i < value.values@.len() && !never_truthy(#[trigger] value.values@[i])
}

/// Says whether a value can pass a condition.
pub fn pa_value_could_be_truthy(value: &AbstractValue) -> (truthy: bool)
    ensures
        truthy == could_be_truthy(*value),
{
    if value.values.len() == 0 {
        return true;
    }
    let mut i: usize = 0;
    while i < value.values.len()
        invariant
            value.values@.len() > 0,
            i <= value.values@.len(),
            forall|j: int| 0 <= j < i ==> never_truthy(#[trigger] value.values@[j]),
        decreases value.values@.len() - i,
    {
        let passes = match &value.values[i] {
            Type::Primitive(PrimitiveValue::Boolean(b)) => *b,
            Type::Primitive(PrimitiveValue::Number(bits)) => *bits != 0 && *bits
                != NEGATIVE_ZERO_BITS,
            Type::Primitive(PrimitiveValue::Null) => false,
            Type::Primitive(PrimitiveValue::Undefined) => false,
            _ => true,
        };
        if passes {
            assert(!never_truthy(value.values@[i as int]));
            return true;
        }
        i += 1;
    }
    false
}

/// Compares a string with a text.
pub(crate) fn text_is(string: &String, text: &str) -> (same: bool)
    ensures
        same == (string@ == text@),
{
    *string == text.to_owned()
}

} // verus!
