//! Type names, values and operators of the language.
use vstd::prelude::*;
use vstd::std_specs::convert::FromSpecImpl;

use crate::common::text;

verus! {

/// The three types a variable or an expression can have.
#[derive(Debug, PartialEq, Eq, Clone, Copy, Structural)]
pub enum TypeName {
    IntType,
    StringType,
    BoolType,
}

/// A constant written in the source text.
#[derive(Debug, PartialEq, Eq)]
pub enum LiteralValue {
    StringLiteral(String),
    IntLiteral(i32),
}

/// The mathematical content of a [`LiteralValue`].
pub enum SpecLiteral {
    StringLiteral(Seq<char>),
    IntLiteral(i32),
}

impl View for LiteralValue {
    type V = SpecLiteral;

    open spec fn view(&self) -> SpecLiteral {
        match self {
            LiteralValue::StringLiteral(s) => SpecLiteral::StringLiteral(s@),
            LiteralValue::IntLiteral(i) => SpecLiteral::IntLiteral(*i),
        }
    }
}

impl Clone for LiteralValue {
    fn clone(&self) -> (copy: Self)
        ensures
            copy == *self,
    {
        match self {
            LiteralValue::StringLiteral(s) => LiteralValue::StringLiteral(s.clone()),
            LiteralValue::IntLiteral(i) => LiteralValue::IntLiteral(*i),
        }
    }
}

impl SpecLiteral {
    /// The type of a constant.
    pub open spec fn type_of(self) -> TypeName {
        match self {
            SpecLiteral::StringLiteral(_) => TypeName::StringType,
            SpecLiteral::IntLiteral(_) => TypeName::IntType,
        }
    }

    /// The run-time value a constant stands for.
    pub open spec fn value(self) -> SpecValue {
        match self {
            SpecLiteral::StringLiteral(s) => SpecValue::StringV(s),
            SpecLiteral::IntLiteral(i) => SpecValue::IntV(i),
        }
    }
}

/// A value that exists while a program runs.
#[derive(Debug, PartialEq, PartialOrd)]
pub enum Value {
    IntV(i32),
    StringV(String),
    BoolV(bool),
}

/// The mathematical content of a [`Value`].
pub enum SpecValue {
    IntV(i32),
    StringV(Seq<char>),
    BoolV(bool),
}

impl View for Value {
    type V = SpecValue;

    open spec fn view(&self) -> SpecValue {
        match self {
            Value::IntV(i) => SpecValue::IntV(*i),
            Value::StringV(s) => SpecValue::StringV(s@),
            Value::BoolV(b) => SpecValue::BoolV(*b),
        }
    }
}

impl Clone for Value {
    fn clone(&self) -> (copy: Self)
        ensures
            copy == *self,
    {
        match self {
            Value::IntV(i) => Value::IntV(*i),
            Value::StringV(s) => Value::StringV(s.clone()),
            Value::BoolV(b) => Value::BoolV(*b),
        }
    }
}

impl SpecValue {
    /// The type a value belongs to.
    pub open spec fn type_of(self) -> TypeName {
        match self {
            SpecValue::IntV(_) => TypeName::IntType,
            SpecValue::StringV(_) => TypeName::StringType,
            SpecValue::BoolV(_) => TypeName::BoolType,
        }
    }

    /// What `print` writes for a value: an integer in decimal with a leading
    /// `-` when negative, a string as it is, a boolean as `true` or `false`.
    pub open spec fn display(self) -> Seq<char> {
        match self {
            SpecValue::IntV(i) => text::decimal(i as int),
            SpecValue::StringV(s) => s,
            SpecValue::BoolV(b) => if b {
                seq!['t', 'r', 'u', 'e']
            } else {
                seq!['f', 'a', 'l', 's', 'e']
            },
        }
    }

    /// Equality of two values: same variant and same content.
    pub open spec fn equals(self, other: SpecValue) -> bool {
        self == other
    }

    /// The strict order within one variant: integers by size, strings
    /// lexicographically by character code, `false` before `true`. Two values
    /// of different variants are not ordered.
    pub open spec fn less_than(self, other: SpecValue) -> bool {
        match (self, other) {
            (SpecValue::IntV(a), SpecValue::IntV(b)) => a < b,
            (SpecValue::StringV(a), SpecValue::StringV(b)) => text::lex_less(a, b),
            (SpecValue::BoolV(a), SpecValue::BoolV(b)) => !a && b,
            _ => false,
        }
    }
}

impl TypeName {
    /// The value of a variable declared without an initialiser.
    pub open spec fn default_value(self) -> SpecValue {
        match self {
            TypeName::IntType => SpecValue::IntV(0),
            TypeName::StringType => SpecValue::StringV(Seq::empty()),
            TypeName::BoolType => SpecValue::BoolV(false),
        }
    }

    /// The name of the type as it is written in source text.
    pub open spec fn keyword(self) -> Seq<char> {
        match self {
            TypeName::IntType => "int"@,
            TypeName::StringType => "string"@,
            TypeName::BoolType => "bool"@,
        }
    }

    /// The name of the type as it is written in source text.
    pub fn get_keyword(self) -> (word: &'static str)
        ensures
            word@ == self.keyword(),
    {
        match self {
            TypeName::IntType => "int",
            TypeName::StringType => "string",
            TypeName::BoolType => "bool",
        }
    }

    pub fn get_default_value(self) -> (value: Value)
        ensures
            value@ == self.default_value(),
    {
        match self {
            TypeName::IntType => Value::IntV(0),
            TypeName::StringType => Value::StringV(String::new()),
            TypeName::BoolType => Value::BoolV(false),
        }
    }
}

impl Value {
    pub fn get_type(&self) -> (type_of: TypeName)
        ensures
            type_of == self@.type_of(),
    {
        match *self {
            Value::IntV(_) => TypeName::IntType,
            Value::StringV(_) => TypeName::StringType,
            Value::BoolV(_) => TypeName::BoolType,
        }
    }

    /// The text that `print` writes for this value.
    pub fn to_string(&self) -> (shown: String)
        ensures
            shown@ == self@.display(),
    {
        match self {
            Value::StringV(s) => s.clone(),
            Value::IntV(i) => text::format_decimal(*i),
            Value::BoolV(b) => {
                proof {
                    reveal_strlit("true");
                    reveal_strlit("false");
                }
                let shown = if *b {
                    String::from_str("true")
                } else {
                    String::from_str("false")
                };
                assert(shown@ =~= self@.display());
                shown
            },
        }
    }

    /// Whether two values are the same.
    pub fn equals(&self, other: &Value) -> (same: bool)
        ensures
            same == self@.equals(other@),
    {
        match (self, other) {
            (Value::IntV(a), Value::IntV(b)) => *a == *b,
            (Value::StringV(a), Value::StringV(b)) => *a == *b,
            (Value::BoolV(a), Value::BoolV(b)) => *a == *b,
            _ => false,
        }
    }

    /// Whether this value comes strictly before `other`.
    pub fn less_than(&self, other: &Value) -> (less: bool)
        ensures
            less == self@.less_than(other@),
    {
        match (self, other) {
            (Value::IntV(a), Value::IntV(b)) => *a < *b,
            (Value::StringV(a), Value::StringV(b)) => text::string_less(a.as_str(), b.as_str()),
            (Value::BoolV(a), Value::BoolV(b)) => !*a && *b,
            _ => false,
        }
    }
}

// A constant converts to the value it denotes.
impl From<LiteralValue> for Value {
    fn from(literal: LiteralValue) -> (value: Value) {
        match literal {
            LiteralValue::IntLiteral(i) => Value::IntV(i),
            LiteralValue::StringLiteral(s) => Value::StringV(s),
        }
    }
}

impl FromSpecImpl<LiteralValue> for Value {
    open spec fn obeys_from_spec() -> bool {
        true
    }

    open spec fn from_spec(literal: LiteralValue) -> Value {
        match literal {
            LiteralValue::IntLiteral(i) => Value::IntV(i),
            LiteralValue::StringLiteral(s) => Value::StringV(s),
        }
    }
}

#[derive(Debug, PartialEq, Eq, Clone, Copy, Structural)]
pub enum BinaryOperator {
    Add,
    Sub,
    Mul,
    Div,
    LessThan,
    Equal,
    And,
}

#[derive(Debug, PartialEq, Eq, Clone, Copy, Structural)]
pub enum UnaryOperator {
    Not,
}

#[derive(Debug, PartialEq, Eq, Clone, Copy, Structural)]
pub enum Operator {
    BinaryOperator(BinaryOperator),
    UnaryOperator(UnaryOperator),
}

#[derive(Debug, PartialEq, Eq, Clone, Copy, Structural)]
pub enum Arity {
    Unary,
    Binary,
}

impl Operator {
    /// How tightly an operator binds; a higher number binds tighter.
    pub open spec fn precedence(self) -> u8 {
        match self {
            Operator::UnaryOperator(UnaryOperator::Not) => 3,
            Operator::BinaryOperator(BinaryOperator::Mul) => 2,
            Operator::BinaryOperator(BinaryOperator::Div) => 2,
            Operator::BinaryOperator(BinaryOperator::Add) => 1,
            Operator::BinaryOperator(BinaryOperator::Sub) => 1,
            Operator::BinaryOperator(BinaryOperator::And) => 1,
            Operator::BinaryOperator(BinaryOperator::LessThan) => 0,
            Operator::BinaryOperator(BinaryOperator::Equal) => 0,
        }
    }

    pub fn get_precedence(self) -> (level: u8)
        ensures
            level == self.precedence(),
    {
        match self {
            Operator::UnaryOperator(UnaryOperator::Not) => 3,
            Operator::BinaryOperator(op) => match op {
                BinaryOperator::Mul | BinaryOperator::Div => 2,
                BinaryOperator::Add | BinaryOperator::Sub | BinaryOperator::And => 1,
                BinaryOperator::LessThan | BinaryOperator::Equal => 0,
            },
        }
    }

    pub fn get_arity(self) -> (arity: Arity)
        ensures
            arity == (match self {
                Operator::UnaryOperator(_) => Arity::Unary,
                Operator::BinaryOperator(_) => Arity::Binary,
            }),
    {
        match self {
            Operator::UnaryOperator(_) => Arity::Unary,
            Operator::BinaryOperator(_) => Arity::Binary,
        }
    }
}

} // verus!
