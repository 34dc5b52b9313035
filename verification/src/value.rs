//! Runtime values.

use crate::tokens::{Literal, LiteralView};
use vstd::prelude::*;
use vstd::string::{StrSliceExecFns, StringExecFns};

verus! {

/// What an expression evaluates to. A number is a double-precision value,
/// held as its bit pattern.
#[derive(Debug, PartialEq)]
pub enum Value {
    String_(String),
    Bool(bool),
    Number(u64),
    Nil,
}

/// The mathematical value of a [`Value`].
pub enum ValueView {
    String_(Seq<char>),
    Bool(bool),
    Number(u64),
    Nil,
}

impl View for Value {
    type V = ValueView;

    open spec fn view(&self) -> ValueView {
        match *self {
            Value::String_(s) => ValueView::String_(s@),
            Value::Bool(b) => ValueView::Bool(b),
            Value::Number(n) => ValueView::Number(n),
            Value::Nil => ValueView::Nil,
        }
    }
}

impl Clone for Value {
    fn clone(&self) -> (r: Self)
        ensures
            r == *self,
    {
        match self {
            Value::String_(s) => Value::String_(s.clone()),
            Value::Bool(b) => Value::Bool(*b),
            Value::Number(n) => Value::Number(*n),
            Value::Nil => Value::Nil,
        }
    }
}

/// The views of a sequence of values, in order.
pub open spec fn values_view(values: Seq<Value>) -> Seq<ValueView> {
    Seq::new(values.len(), |i: int| values[i]@)
}

/// The value of a literal that is no number; a numeral has none until the
/// host has read it.
pub open spec fn constant(literal: LiteralView) -> Option<ValueView> {
    match literal {
        LiteralView::String_(s) => Some(ValueView::String_(s)),
        LiteralView::Number(_) => None,
        LiteralView::Bool(b) => Some(ValueView::Bool(b)),
        LiteralView::Nil => Some(ValueView::Nil),
    }
}

/// `digits` without a trailing `.0`.
pub open spec fn trimmed(digits: Seq<char>) -> Seq<char> {
    if digits.len() >= 2 && digits[digits.len() - 2] == '.' && digits[digits.len() - 1] == '0' {
        digits.subrange(0, digits.len() - 2)
    } else {
        digits
    }
}

/// The text that stands for a value that is no number: a string as it is,
/// `true`, `false` or `nil`.
pub open spec fn plain_text(value: ValueView) -> Seq<char> {
    match value {
        ValueView::String_(s) => s,
        ValueView::Bool(b) => if b {
            "true"@
        } else {
            "false"@
        },
        ValueView::Number(_) => Seq::<char>::empty(),
        ValueView::Nil => "nil"@,
    }
}

/// The text that stands for a value, where `digits` is how the host writes
/// the number, if the value is one: a number is written without a trailing
/// `.0`.
pub open spec fn rendered(value: ValueView, digits: Seq<char>) -> Seq<char> {
    match value {
        ValueView::Number(_) => trimmed(digits),
        _ => plain_text(value),
    }
}

/// Removes a trailing `.0`.
pub fn trim(digits: &str) -> (r: String)
    ensures
        r@ == trimmed(digits@),
{
    let n = digits.unicode_len();
    if n >= 2 && digits.get_char(n - 2) == '.' && digits.get_char(n - 1) == '0' {
        digits.substring_char(0, n - 2).to_owned()
    } else {
        digits.to_owned()
    }
}

impl Value {
    /// The value of a literal, or, for a number, the numeral that the host
    /// is to read.
    pub fn from_literal(literal: Literal) -> (r: Result<Value, String>)
        ensures
            match r {
                Ok(v) => constant(literal@) == Some(v@),
                Err(numeral) => literal@ == LiteralView::Number(numeral@),
            },
    {
        match literal {
            Literal::String_(s) => Ok(Value::String_(s)),
            Literal::Number(n) => Err(n),
            Literal::Bool(b) => Ok(Value::Bool(b)),
            Literal::Nil => Ok(Value::Nil),
        }
    }

    /// The text that stands for the value; `digits` is how the host writes
    /// the number, if the value is one, and is not read otherwise.
    pub fn render(&self, digits: &str) -> (r: String)
        ensures
            r@ == rendered(self@, digits@),
    {
        match self {
            Value::String_(s) => s.clone(),
            Value::Bool(b) => {
                if *b {
                    String::from_str("true")
                } else {
                    String::from_str("false")
                }
            },
            Value::Number(_) => trim(digits),
            Value::Nil => String::from_str("nil"),
        }
    }
}

} // verus!
