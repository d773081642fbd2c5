//! Values of the language and the records that the interpreter keeps of
//! what it could not compute itself.
use vstd::prelude::*;
use crate::ast::{NumberLiteral, ParseMessage, SpecNumber, SpecParseMessage};

verus! {

pub type StrId = usize;

pub type ListId = usize;

pub type ObjectId = usize;

pub type FunctionId = usize;

/// The built-in modules that `import` loads.
#[derive(Clone, Copy, Debug, PartialEq, Eq)]
pub enum Module {
    Io,
    List,
    Math,
}

/// The built-in functions.
#[derive(Clone, Copy, Debug, PartialEq, Eq)]
pub enum NativeFunction {
    Import,
    Print,
    Push,
    Len,
    Add,
}

/// A value. Numbers are held as the bits of an IEEE-754 double; strings,
/// lists, objects and functions by their index in the interpreter's memory.
#[derive(Clone, Copy, Debug, PartialEq, Eq)]
pub enum Value {
    Nil,
    Bool(bool),
    Number(u64),
    Str(StrId),
    List(ListId),
    Object(ObjectId),
    Function(FunctionId),
    NativeObject(Module),
    NativeFunction(NativeFunction),
}

/// A question about floating-point numbers that the interpreter leaves to
/// its caller: the double that a literal denotes, the double nearest to a
/// count, the sum of two doubles, a double cast to an index, and the text
/// that a double is printed as.
#[derive(Debug, PartialEq)]
pub enum FloatOp {
    FromLiteral(NumberLiteral),
    FromCount(usize),
    Add(u64, u64),
    ToIndex(u64),
    ToText(u64),
}

/// The answer to a `FloatOp`.
#[derive(Debug, PartialEq)]
pub enum FloatAnswer {
    Bits(u64),
    Index(usize),
    Text(String),
}

/// A line of what the interpreter prints: a line of `io.print`, or one of
/// its messages.
#[derive(Debug, PartialEq)]
pub enum Output {
    Line(String),
    CannotFindIdentifier(String),
    CannotFindField(String),
    FieldOfNonObject,
    SetFieldOfNonObject,
    IndexOutOfBounds,
    IndexNonList,
    SetIndexNonList,
    IndexWithNonNumber,
    SetIndexWithNonNumber,
    CallNonFunction,
    InvalidArguments,
    ImportNotFound(String),
    FieldNotFound(String),
    InvalidNumberOfArguments,
    InvalidArgumentTypes,
    InvalidObjHasArguments,
    /// A complaint of the parser about an imported file.
    Parse(ParseMessage),
}

/// Why an evaluation stopped before its end.
#[derive(Debug, PartialEq)]
pub enum Stop {
    /// The evaluation went deeper, or looped longer, than its fuel allows.
    OutOfFuel,
    /// The answer to this floating-point question is not known yet.
    NeedFloat(FloatOp),
    /// Whether this file exists, and what it holds, is not known yet.
    NeedFile(String),
    /// An imported file holds a comment that runs to its end.
    ParseStuck,
    /// An index held in a value names nothing in memory.
    Corrupted,
}

pub enum SpecFloatOp {
    FromLiteral(SpecNumber),
    FromCount(usize),
    Add(u64, u64),
    ToIndex(u64),
    ToText(u64),
}

pub enum SpecFloatAnswer {
    Bits(u64),
    Index(usize),
    Text(Seq<char>),
}

pub enum SpecOutput {
    Line(Seq<char>),
    CannotFindIdentifier(Seq<char>),
    CannotFindField(Seq<char>),
    FieldOfNonObject,
    SetFieldOfNonObject,
    IndexOutOfBounds,
    IndexNonList,
    SetIndexNonList,
    IndexWithNonNumber,
    SetIndexWithNonNumber,
    CallNonFunction,
    InvalidArguments,
    ImportNotFound(Seq<char>),
    FieldNotFound(Seq<char>),
    InvalidNumberOfArguments,
    InvalidArgumentTypes,
    InvalidObjHasArguments,
    Parse(SpecParseMessage),
}

pub enum SpecStop {
    OutOfFuel,
    NeedFloat(SpecFloatOp),
    NeedFile(Seq<char>),
    ParseStuck,
    Corrupted,
}

impl View for FloatOp {
    type V = SpecFloatOp;

    open spec fn view(&self) -> SpecFloatOp {
        match self {
            FloatOp::FromLiteral(n) => SpecFloatOp::FromLiteral(n@),
            FloatOp::FromCount(c) => SpecFloatOp::FromCount(*c),
            FloatOp::Add(a, b) => SpecFloatOp::Add(*a, *b),
            FloatOp::ToIndex(b) => SpecFloatOp::ToIndex(*b),
            FloatOp::ToText(b) => SpecFloatOp::ToText(*b),
        }
    }
}

impl View for FloatAnswer {
    type V = SpecFloatAnswer;

    open spec fn view(&self) -> SpecFloatAnswer {
        match self {
            FloatAnswer::Bits(b) => SpecFloatAnswer::Bits(*b),
            FloatAnswer::Index(i) => SpecFloatAnswer::Index(*i),
            FloatAnswer::Text(t) => SpecFloatAnswer::Text(t@),
        }
    }
}

impl View for Output {
    type V = SpecOutput;

    open spec fn view(&self) -> SpecOutput {
        match self {
            Output::Line(s) => SpecOutput::Line(s@),
            Output::CannotFindIdentifier(s) => SpecOutput::CannotFindIdentifier(s@),
            Output::CannotFindField(s) => SpecOutput::CannotFindField(s@),
            Output::FieldOfNonObject => SpecOutput::FieldOfNonObject,
            Output::SetFieldOfNonObject => SpecOutput::SetFieldOfNonObject,
            Output::IndexOutOfBounds => SpecOutput::IndexOutOfBounds,
            Output::IndexNonList => SpecOutput::IndexNonList,
            Output::SetIndexNonList => SpecOutput::SetIndexNonList,
            Output::IndexWithNonNumber => SpecOutput::IndexWithNonNumber,
            Output::SetIndexWithNonNumber => SpecOutput::SetIndexWithNonNumber,
            Output::CallNonFunction => SpecOutput::CallNonFunction,
            Output::InvalidArguments => SpecOutput::InvalidArguments,
            Output::ImportNotFound(s) => SpecOutput::ImportNotFound(s@),
            Output::FieldNotFound(s) => SpecOutput::FieldNotFound(s@),
            Output::InvalidNumberOfArguments => SpecOutput::InvalidNumberOfArguments,
            Output::InvalidArgumentTypes => SpecOutput::InvalidArgumentTypes,
            Output::InvalidObjHasArguments => SpecOutput::InvalidObjHasArguments,
            Output::Parse(m) => SpecOutput::Parse(m@),
        }
    }
}

impl View for Stop {
    type V = SpecStop;

    open spec fn view(&self) -> SpecStop {
        match self {
            Stop::OutOfFuel => SpecStop::OutOfFuel,
            Stop::NeedFloat(op) => SpecStop::NeedFloat(op@),
            Stop::NeedFile(s) => SpecStop::NeedFile(s@),
            Stop::ParseStuck => SpecStop::ParseStuck,
            Stop::Corrupted => SpecStop::Corrupted,
        }
    }
}

/// Whether a double is non-zero: any bit but the sign is set.
pub open spec fn number_is_true(bits: u64) -> bool {
    bits & 0x7fff_ffff_ffff_ffffu64 != 0
}

fn chars_eq(a: &Vec<char>, b: &Vec<char>) -> (r: bool)
    ensures
        r == (a@ == b@),
{
    if a.len() != b.len() {
        return false;
    }
    let mut i: usize = 0;
    while i < a.len()
        invariant
            a@.len() == b@.len(),
            i <= a@.len(),
            forall|j: int| 0 <= j < i ==> a@[j] == b@[j],
        decreases a@.len() - i,
    {
        if a[i] != b[i] {
            return false;
        }
        i = i + 1;
    }
    assert(a@ =~= b@);
    true
}

/// Whether two floating-point questions are the same.
pub fn float_op_eq(a: &FloatOp, b: &FloatOp) -> (r: bool)
    ensures
        r == (a@ == b@),
{
    match (a, b) {
        (FloatOp::FromLiteral(x), FloatOp::FromLiteral(y)) => {
            x.negative == y.negative && chars_eq(&x.int_digits, &y.int_digits) && chars_eq(&x.frac_digits, &y.frac_digits)
        },
        (FloatOp::FromCount(x), FloatOp::FromCount(y)) => *x == *y,
        (FloatOp::Add(x1, x2), FloatOp::Add(y1, y2)) => *x1 == *y1 && *x2 == *y2,
        (FloatOp::ToIndex(x), FloatOp::ToIndex(y)) => *x == *y,
        (FloatOp::ToText(x), FloatOp::ToText(y)) => *x == *y,
        _ => false,
    }
}

} // verus!
