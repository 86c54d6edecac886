use vstd::prelude::*;

use crate::literal::NixLiteral;
use crate::path::{NixPath, NixPathBuf};

verus! {

/// One value of the generic input tree that the encoder walks.
///
/// Scalars, strings, byte sequences and the absent value are the leaves;
/// lists, tuples, maps, records and tagged variants carry children in the
/// order their host value reported them. The two pseudo-shapes stand apart:
/// [`Value::Literal`] is a pre-formed Nix expression emitted verbatim, and
/// [`Value::Path`] is a filesystem path, given as text, emitted as a path
/// expression.
#[derive(Debug, PartialEq)]
pub enum Value {
    /// The absent value (a unit, a unit struct, or a `None`): `null`.
    Null,
    /// A boolean: `true` or `false`.
    Bool(bool),
    /// A signed integer: decimal digits, `-` first when negative.
    Int(i64),
    /// An unsigned integer: decimal digits.
    UInt(u64),
    /// A string: a quoted or block string literal.
    Str(String),
    /// A character: the string literal of its one-character string.
    Char(char),
    /// Raw bytes: a list of decimal integers, one per line.
    Bytes(Vec<u8>),
    /// A sequence: a multi-line list, one indented element per line.
    List(Vec<Value>),
    /// A fixed-arity tuple: a single-line list.
    Tuple(Vec<Value>),
    /// A map: an attribute set, entries in input order, keys encoded and
    /// then unquoted.
    Dict(Vec<(Value, Value)>),
    /// A record with named fields: an attribute set, fields in input order.
    Record(Vec<(String, Value)>),
    /// A unit variant: its tag as a string literal.
    UnitVariant(String),
    /// A newtype variant: `{ tag = value; }` with the tag's first character
    /// lowercased.
    NewtypeVariant(String, Box<Value>),
    /// A tuple variant: `{ "tag" = [elem elem] }` on a single line.
    TupleVariant(String, Vec<Value>),
    /// A struct variant: `{ "tag" = { "field" = { value}; }` on a single
    /// line.
    StructVariant(String, Vec<(String, Value)>),
    /// A pre-formed Nix expression, emitted verbatim.
    Literal(String),
    /// A filesystem path given as text, emitted as a path expression.
    Path(String),
}

impl NixLiteral {
    /// The [`Value`] that emits this raw expression verbatim.
    pub fn to_value(&self) -> (r: Value)
        ensures
            r matches Value::Literal(s) && s@ == self@,
    {
        Value::Literal(String::from_str(self.as_str()))
    }
}

impl NixPathBuf {
    /// The [`Value`] that emits this path as a Nix path expression.
    pub fn to_value(&self) -> (r: Value)
        ensures
            r matches Value::Path(s) && s@ == self@,
    {
        Value::Path(String::from_str(self.as_path()))
    }
}

impl<'a> NixPath<'a> {
    /// The [`Value`] that emits this path as a Nix path expression.
    pub fn to_value(&self) -> (r: Value)
        ensures
            r matches Value::Path(s) && s@ == self@,
    {
        Value::Path(String::from_str(self.as_path()))
    }
}

} // verus!
