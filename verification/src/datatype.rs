//! The kinds of value a column can hold.

use crate::text::{chars_of, lower_chars, lower_text, same_chars};
use vstd::prelude::*;

verus! {

/// The kind of value a column holds.
#[derive(Clone, Copy, Debug, PartialEq, Eq, Structural)]
pub enum DataType {
    Int,
    Str,
    Float,
    Bool,
    /// The type of a column that was declared with an unknown type name.
    /// Such a column is part of the schema but holds no values.
    Invalid,
}

/// The type that a type name of a schema stands for, whatever the case of
/// its ASCII letters: `int`; `string` or `text`; `float` or `double`;
/// `bool`. Every other name gives `Invalid`.
pub open spec fn datatype_of_token(token: Seq<char>) -> DataType {
    let l = lower_text(token);
    if l == seq!['i', 'n', 't'] {
        DataType::Int
    } else if l == seq!['s', 't', 'r', 'i', 'n', 'g'] || l == seq!['t', 'e', 'x', 't'] {
        DataType::Str
    } else if l == seq!['f', 'l', 'o', 'a', 't'] || l == seq!['d', 'o', 'u', 'b', 'l', 'e'] {
        DataType::Float
    } else if l == seq!['b', 'o', 'o', 'l'] {
        DataType::Bool
    } else {
        DataType::Invalid
    }
}

/// Whether values of this type can key an index. Floating-point values
/// cannot: an exact match on them is not reliable.
pub open spec fn indexable(datatype: DataType) -> bool {
    datatype == DataType::Int || datatype == DataType::Str || datatype == DataType::Bool
}

impl DataType {
    /// The type that the type name `cmd` stands for.
    pub fn new(cmd: String) -> (r: DataType)
        ensures
            r == datatype_of_token(cmd@),
    {
        let l = lower_chars(&chars_of(cmd.as_str()));
        let integer: Vec<char> = vec!['i', 'n', 't'];
        let string: Vec<char> = vec!['s', 't', 'r', 'i', 'n', 'g'];
        let text: Vec<char> = vec!['t', 'e', 'x', 't'];
        let float: Vec<char> = vec!['f', 'l', 'o', 'a', 't'];
        let double: Vec<char> = vec!['d', 'o', 'u', 'b', 'l', 'e'];
        let boolean: Vec<char> = vec!['b', 'o', 'o', 'l'];
        assert(integer@ =~= seq!['i', 'n', 't']);
        assert(string@ =~= seq!['s', 't', 'r', 'i', 'n', 'g']);
        assert(text@ =~= seq!['t', 'e', 'x', 't']);
        assert(float@ =~= seq!['f', 'l', 'o', 'a', 't']);
        assert(double@ =~= seq!['d', 'o', 'u', 'b', 'l', 'e']);
        assert(boolean@ =~= seq!['b', 'o', 'o', 'l']);
        if same_chars(&l, &integer) {
            DataType::Int
        } else if same_chars(&l, &string) || same_chars(&l, &text) {
            DataType::Str
        } else if same_chars(&l, &float) || same_chars(&l, &double) {
            DataType::Float
        } else if same_chars(&l, &boolean) {
            DataType::Bool
        } else {
            DataType::Invalid
        }
    }

    /// The name under which the type is shown.
    pub open spec fn shown(self) -> Seq<char> {
        match self {
            DataType::Int => "Int"@,
            DataType::Str => "Str"@,
            DataType::Float => "Float"@,
            DataType::Bool => "Boolean"@,
            DataType::Invalid => "Invalid"@,
        }
    }

    /// The name under which the type is shown, as text.
    pub fn to_string(&self) -> (s: String)
        ensures
            s@ == self.shown(),
    {
        match self {
            DataType::Int => "Int".to_owned(),
            DataType::Str => "Str".to_owned(),
            DataType::Float => "Float".to_owned(),
            DataType::Bool => "Boolean".to_owned(),
            DataType::Invalid => "Invalid".to_owned(),
        }
    }

    /// Whether values of this type can key an index.
    pub fn is_indexable(&self) -> (r: bool)
        ensures
            r == indexable(*self),
    {
        match self {
            DataType::Int => true,
            DataType::Str => true,
            DataType::Bool => true,
            _ => false,
        }
    }
}

} // verus!
