//! What evaluating an expression does: a function from the interpreter's
//! state, an expression and an amount of fuel to the new state and the
//! value, or the reason the evaluation stopped.
//!
//! Fuel bounds how deep evaluation goes and how often a loop turns; each
//! nested evaluation and each turn of a `while` uses one unit.
use vstd::prelude::*;
use crate::assoc::{assoc_get, assoc_set, key_pos};
use crate::ast::{SpecExpr, SpecParseMessage, SpecTarget};
use crate::parser::{parse_at, parse_msgs, stops_in_comment};
use crate::value::{
    Module, NativeFunction, SpecFloatAnswer, SpecFloatOp, SpecOutput, SpecStop, Value,
    number_is_true,
};

verus! {

/// Mathematical model of a function value.
pub struct SpecFunction {
    pub args: Seq<Seq<char>>,
    pub value: SpecExpr,
    pub closure: Seq<(Seq<char>, Value)>,
    pub reflection: bool,
}

/// Mathematical model of the interpreter's state.
pub struct RState {
    pub loadables: Seq<(Seq<char>, Module)>,
    pub strings: Seq<Seq<char>>,
    pub lists: Seq<Seq<Value>>,
    pub objects: Seq<Seq<(Seq<char>, Value)>>,
    pub functions: Seq<SpecFunction>,
    pub scopes: Seq<Seq<(Seq<char>, Value)>>,
    pub globals: Seq<(Seq<char>, Value)>,
    pub output: Seq<SpecOutput>,
    pub floats: Seq<(SpecFloatOp, SpecFloatAnswer)>,
    pub files: Seq<(Seq<char>, Option<Seq<char>>)>,
}

pub type Step = (RState, Result<Value, SpecStop>);

pub open spec fn emit(st: RState, o: SpecOutput) -> RState {
    RState { output: st.output.push(o), ..st }
}

/// The innermost scope; the globals when no function is running.
pub open spec fn scope(st: RState) -> Seq<(Seq<char>, Value)> {
    if st.scopes.len() > 0 {
        st.scopes.last()
    } else {
        st.globals
    }
}

pub open spec fn with_scope(st: RState, sc: Seq<(Seq<char>, Value)>) -> RState {
    if st.scopes.len() > 0 {
        RState { scopes: st.scopes.update(st.scopes.len() - 1, sc), ..st }
    } else {
        RState { globals: sc, ..st }
    }
}

/// Assigns a variable: where the innermost scope binds it, else where the
/// globals bind it, else in the innermost scope.
pub open spec fn assign_var(st: RState, name: Seq<char>, v: Value) -> RState {
    if key_pos(scope(st), name, 0) is Some {
        with_scope(st, assoc_set(scope(st), name, v))
    } else if key_pos(st.globals, name, 0) is Some {
        RState { globals: assoc_set(st.globals, name, v), ..st }
    } else {
        with_scope(st, assoc_set(scope(st), name, v))
    }
}

/// Reads a variable from the innermost scope, else from the globals.
pub open spec fn read_var(st: RState, name: Seq<char>) -> (RState, Value) {
    match assoc_get(scope(st), name) {
        Some(v) => (st, v),
        None => match assoc_get(st.globals, name) {
            Some(v) => (st, v),
            None => (emit(st, SpecOutput::CannotFindIdentifier(name)), Value::Nil),
        },
    }
}

pub open spec fn float_bits(st: RState, op: SpecFloatOp) -> Option<u64> {
    match assoc_get(st.floats, op) {
        Some(SpecFloatAnswer::Bits(b)) => Some(b),
        _ => None,
    }
}

pub open spec fn float_index(st: RState, bits: u64) -> Option<usize> {
    match assoc_get(st.floats, SpecFloatOp::ToIndex(bits)) {
        Some(SpecFloatAnswer::Index(i)) => Some(i),
        _ => None,
    }
}

pub open spec fn float_text(st: RState, bits: u64) -> Option<Seq<char>> {
    match assoc_get(st.floats, SpecFloatOp::ToText(bits)) {
        Some(SpecFloatAnswer::Text(t)) => Some(t),
        _ => None,
    }
}

/// Whether a value counts as true in a condition.
pub open spec fn truthy(st: RState, v: Value) -> Result<bool, SpecStop> {
    match v {
        Value::Nil => Ok(false),
        Value::Bool(b) => Ok(b),
        Value::Number(x) => Ok(number_is_true(x)),
        Value::Str(id) => if id < st.strings.len() {
            Ok(st.strings[id as int].len() > 0)
        } else {
            Err(SpecStop::Corrupted)
        },
        Value::List(id) => if id < st.lists.len() {
            Ok(st.lists[id as int].len() > 0)
        } else {
            Err(SpecStop::Corrupted)
        },
        Value::Object(id) => if id < st.objects.len() {
            Ok(st.objects[id as int].len() > 0)
        } else {
            Err(SpecStop::Corrupted)
        },
        _ => Ok(true),
    }
}

/// What a field of a built-in module holds.
pub open spec fn native_get(st: RState, m: Module, field: Seq<char>) -> (RState, Value) {
    match m {
        Module::Io => if field == "print"@ {
            (st, Value::NativeFunction(NativeFunction::Print))
        } else {
            (emit(st, SpecOutput::FieldNotFound(field)), Value::Nil)
        },
        Module::List => if field == "push"@ {
            (st, Value::NativeFunction(NativeFunction::Push))
        } else if field == "len"@ {
            (st, Value::NativeFunction(NativeFunction::Len))
        } else {
            (emit(st, SpecOutput::FieldNotFound(field)), Value::Nil)
        },
        Module::Math => if field == "add"@ {
            (st, Value::NativeFunction(NativeFunction::Add))
        } else {
            (emit(st, SpecOutput::FieldNotFound(field)), Value::Nil)
        },
    }
}

pub open spec fn file_source(st: RState, name: Seq<char>) -> Option<Option<Seq<char>>> {
    assoc_get(st.files, name)
}

/// Evaluates `e` with `fuel`.
pub open spec fn spec_eval(st: RState, e: SpecExpr, fuel: nat) -> Step
    decreases fuel, 0nat, 0nat,
{
    if fuel == 0 {
        (st, Err(SpecStop::OutOfFuel))
    } else {
        let f = (fuel - 1) as nat;
        match e {
            SpecExpr::Nil => (st, Ok(Value::Nil)),
            SpecExpr::Number(n) => match float_bits(st, SpecFloatOp::FromLiteral(n)) {
                Some(b) => (st, Ok(Value::Number(b))),
                None => (st, Err(SpecStop::NeedFloat(SpecFloatOp::FromLiteral(n)))),
            },
            SpecExpr::Str(s) => (RState { strings: st.strings.push(s), ..st }, Ok(Value::Str(st.strings.len() as usize))),
            SpecExpr::Object(fields) => {
                let (st1, r) = spec_eval_fields(st, fields, 0, Seq::empty(), f);
                match r {
                    Ok(o) => (
                        RState { objects: st1.objects.push(o), ..st1 },
                        Ok(Value::Object(st1.objects.len() as usize)),
                    ),
                    Err(x) => (st1, Err(x)),
                }
            },
            SpecExpr::List(items) => {
                let (st1, r) = spec_eval_items(st, items, 0, Seq::empty(), f);
                match r {
                    Ok(vs) => (RState { lists: st1.lists.push(vs), ..st1 }, Ok(Value::List(st1.lists.len() as usize))),
                    Err(x) => (st1, Err(x)),
                }
            },
            SpecExpr::Function { args, value, closure, reflection } => {
                let (st1, r) = spec_capture(st, closure, 0, Seq::empty(), f);
                match r {
                    Ok(closed) => (
                        RState {
                            functions: st1.functions.push(
                                SpecFunction { args, value: *value, closure: closed, reflection },
                            ),
                            ..st1
                        },
                        Ok(Value::Function(st1.functions.len() as usize)),
                    ),
                    Err(x) => (st1, Err(x)),
                }
            },
            SpecExpr::If { cond, value, else_value } => {
                let (st1, r) = spec_eval(st, *cond, f);
                match r {
                    Ok(c) => match truthy(st1, c) {
                        Ok(true) => spec_eval(st1, *value, f),
                        Ok(false) => spec_eval(st1, *else_value, f),
                        Err(x) => (st1, Err(x)),
                    },
                    Err(x) => (st1, Err(x)),
                }
            },
            SpecExpr::While { cond, value, else_value } => spec_while(st, *cond, *value, *else_value, f, false, Value::Nil),
            SpecExpr::Binding { target, value } => {
                let (st1, r) = spec_eval(st, *value, f);
                match r {
                    Ok(v) => {
                        let (st2, r2) = spec_set_val(st1, target, v, f);
                        match r2 {
                            Ok(_) => (st2, Ok(v)),
                            Err(x) => (st2, Err(x)),
                        }
                    },
                    Err(x) => (st1, Err(x)),
                }
            },
            SpecExpr::Chain(exprs) => spec_chain(st, exprs, 0, Value::Nil, f),
            SpecExpr::Access(t) => spec_get_val(st, t, f),
            SpecExpr::Identifier(name) => spec_get_val(st, SpecTarget::Var(name), f),
            SpecExpr::FuncCall { func, args } => {
                let (st1, r) = spec_eval_items(st, args, 0, Seq::empty(), f);
                match r {
                    Ok(argv) => match *func {
                        SpecExpr::Access(SpecTarget::Field { var, field }) => {
                            let (st2, r2) = spec_eval(st1, *var, f);
                            match r2 {
                                Ok(Value::Object(id)) => if id < st2.objects.len() {
                                    match assoc_get(st2.objects[id as int], field) {
                                        Some(fv) => spec_call(st2, fv, argv, Some(Value::Object(id)), f),
                                        None => (emit(st2, SpecOutput::CannotFindField(field)), Ok(Value::Nil)),
                                    }
                                } else {
                                    (st2, Err(SpecStop::Corrupted))
                                },
                                Ok(Value::NativeObject(m)) => {
                                    let (st3, fv) = native_get(st2, m, field);
                                    spec_call(st3, fv, argv, None, f)
                                },
                                Ok(_) => (emit(st2, SpecOutput::FieldOfNonObject), Ok(Value::Nil)),
                                Err(x) => (st2, Err(x)),
                            }
                        },
                        _ => {
                            let (st2, r2) = spec_eval(st1, *func, f);
                            match r2 {
                                Ok(fv) => spec_call(st2, fv, argv, None, f),
                                Err(x) => (st2, Err(x)),
                            }
                        },
                    },
                    Err(x) => (st1, Err(x)),
                }
            },
        }
    }
}

/// A `while` loop with `lf` fuel left for its turns; `res` is the value of
/// the last turn, `turned` whether there was one.
pub open spec fn spec_while(st: RState, cond: SpecExpr, value: SpecExpr, else_value: SpecExpr, lf: nat, turned: bool, res: Value) -> Step
    decreases lf, 1nat, 0nat,
{
    if lf == 0 {
        (st, Err(SpecStop::OutOfFuel))
    } else {
        let f = (lf - 1) as nat;
        let (st1, r) = spec_eval(st, cond, f);
        match r {
            Ok(c) => match truthy(st1, c) {
                Ok(true) => {
                    let (st2, r2) = spec_eval(st1, value, f);
                    match r2 {
                        Ok(v) => spec_while(st2, cond, value, else_value, f, true, v),
                        Err(x) => (st2, Err(x)),
                    }
                },
                Ok(false) => if turned {
                    (st1, Ok(res))
                } else {
                    spec_eval(st1, else_value, f)
                },
                Err(x) => (st1, Err(x)),
            },
            Err(x) => (st1, Err(x)),
        }
    }
}

/// The expressions of a chain from index `i` on; `res` is the value of the
/// last one evaluated.
pub open spec fn spec_chain(st: RState, exprs: Seq<SpecExpr>, i: int, res: Value, f: nat) -> Step
    decreases f, 1nat, exprs.len() - i,
{
    if i < 0 || i >= exprs.len() {
        (st, Ok(res))
    } else {
        let (st1, r) = spec_eval(st, exprs[i], f);
        match r {
            Ok(v) => spec_chain(st1, exprs, i + 1, v, f),
            Err(x) => (st1, Err(x)),
        }
    }
}

/// The values of the expressions from index `i` on, after `acc`.
pub open spec fn spec_eval_items(st: RState, exprs: Seq<SpecExpr>, i: int, acc: Seq<Value>, f: nat) -> (RState, Result<Seq<Value>, SpecStop>)
    decreases f, 1nat, exprs.len() - i,
{
    if i < 0 || i >= exprs.len() {
        (st, Ok(acc))
    } else {
        let (st1, r) = spec_eval(st, exprs[i], f);
        match r {
            Ok(v) => spec_eval_items(st1, exprs, i + 1, acc.push(v), f),
            Err(x) => (st1, Err(x)),
        }
    }
}

/// The fields of an object literal from index `i` on, bound after `acc`.
pub open spec fn spec_eval_fields(st: RState, fields: Seq<(Seq<char>, SpecExpr)>, i: int, acc: Seq<(Seq<char>, Value)>, f: nat) -> (RState, Result<Seq<(Seq<char>, Value)>, SpecStop>)
    decreases f, 1nat, fields.len() - i,
{
    if i < 0 || i >= fields.len() {
        (st, Ok(acc))
    } else {
        let (st1, r) = spec_eval(st, fields[i].1, f);
        match r {
            Ok(v) => spec_eval_fields(st1, fields, i + 1, assoc_set(acc, fields[i].0, v), f),
            Err(x) => (st1, Err(x)),
        }
    }
}

/// The values that a function definition captures, from index `i` on.
pub open spec fn spec_capture(st: RState, names: Seq<Seq<char>>, i: int, acc: Seq<(Seq<char>, Value)>, f: nat) -> (RState, Result<Seq<(Seq<char>, Value)>, SpecStop>)
    decreases f, 1nat, names.len() - i,
{
    if i < 0 || i >= names.len() {
        (st, Ok(acc))
    } else {
        let (st1, r) = spec_eval(st, SpecExpr::Access(SpecTarget::Var(names[i])), f);
        match r {
            Ok(v) => spec_capture(st1, names, i + 1, assoc_set(acc, names[i], v), f),
            Err(x) => (st1, Err(x)),
        }
    }
}

/// Reads a target.
pub open spec fn spec_get_val(st: RState, t: SpecTarget, f: nat) -> Step
    decreases f, 1nat, 0nat,
{
    match t {
        SpecTarget::Var(name) => {
            let (st1, v) = read_var(st, name);
            (st1, Ok(v))
        },
        SpecTarget::Field { var, field } => {
            let (st1, r) = spec_eval(st, *var, f);
            match r {
                Ok(Value::Object(id)) => if id < st1.objects.len() {
                    match assoc_get(st1.objects[id as int], field) {
                        Some(v) => (st1, Ok(v)),
                        None => (emit(st1, SpecOutput::CannotFindField(field)), Ok(Value::Nil)),
                    }
                } else {
                    (st1, Err(SpecStop::Corrupted))
                },
                Ok(Value::NativeObject(m)) => {
                    let (st2, v) = native_get(st1, m, field);
                    (st2, Ok(v))
                },
                Ok(_) => (emit(st1, SpecOutput::FieldOfNonObject), Ok(Value::Nil)),
                Err(x) => (st1, Err(x)),
            }
        },
        SpecTarget::Index { var, index } => {
            let (st1, r) = spec_eval(st, *index, f);
            match r {
                Ok(Value::Number(b)) => {
                    let (st2, r2) = spec_eval(st1, *var, f);
                    match r2 {
                        Ok(Value::List(id)) => if id < st2.lists.len() {
                            match float_index(st2, b) {
                                Some(i) => if i < st2.lists[id as int].len() {
                                    (st2, Ok(st2.lists[id as int][i as int]))
                                } else {
                                    (emit(st2, SpecOutput::IndexOutOfBounds), Ok(Value::Nil))
                                },
                                None => (st2, Err(SpecStop::NeedFloat(SpecFloatOp::ToIndex(b)))),
                            }
                        } else {
                            (st2, Err(SpecStop::Corrupted))
                        },
                        Ok(_) => (emit(st2, SpecOutput::IndexNonList), Ok(Value::Nil)),
                        Err(x) => (st2, Err(x)),
                    }
                },
                Ok(_) => (emit(st1, SpecOutput::IndexWithNonNumber), Ok(Value::Nil)),
                Err(x) => (st1, Err(x)),
            }
        },
    }
}

/// Writes `v` to a target.
pub open spec fn spec_set_val(st: RState, t: SpecTarget, v: Value, f: nat) -> Step
    decreases f, 1nat, 0nat,
{
    match t {
        SpecTarget::Var(name) => (assign_var(st, name, v), Ok(Value::Nil)),
        SpecTarget::Field { var, field } => {
            let (st1, r) = spec_eval(st, *var, f);
            match r {
                Ok(Value::Object(id)) => if id < st1.objects.len() {
                    (
                        RState {
                            objects: st1.objects.update(id as int, assoc_set(st1.objects[id as int], field, v)),
                            ..st1
                        },
                        Ok(Value::Nil),
                    )
                } else {
                    (st1, Err(SpecStop::Corrupted))
                },
                Ok(_) => (emit(st1, SpecOutput::SetFieldOfNonObject), Ok(Value::Nil)),
                Err(x) => (st1, Err(x)),
            }
        },
        SpecTarget::Index { var, index } => {
            let (st1, r) = spec_eval(st, *index, f);
            match r {
                Ok(Value::Number(b)) => {
                    let (st2, r2) = spec_eval(st1, *var, f);
                    match r2 {
                        Ok(Value::List(id)) => if id < st2.lists.len() {
                            match float_index(st2, b) {
                                Some(i) => if i < st2.lists[id as int].len() {
                                    (
                                        RState {
                                            lists: st2.lists.update(id as int, st2.lists[id as int].update(i as int, v)),
                                            ..st2
                                        },
                                        Ok(Value::Nil),
                                    )
                                } else {
                                    (emit(st2, SpecOutput::IndexOutOfBounds), Ok(Value::Nil))
                                },
                                None => (st2, Err(SpecStop::NeedFloat(SpecFloatOp::ToIndex(b)))),
                            }
                        } else {
                            (st2, Err(SpecStop::Corrupted))
                        },
                        Ok(_) => (emit(st2, SpecOutput::SetIndexNonList), Ok(Value::Nil)),
                        Err(x) => (st2, Err(x)),
                    }
                },
                Ok(_) => (emit(st1, SpecOutput::SetIndexWithNonNumber), Ok(Value::Nil)),
                Err(x) => (st1, Err(x)),
            }
        },
    }
}

/// Binds the parameters of a function to the arguments from index `i` on;
/// missing arguments are `nil`.
pub open spec fn bind_args(st: RState, names: Seq<Seq<char>>, args: Seq<Value>, i: int) -> RState
    decreases names.len() - i,
{
    if i < 0 || i >= names.len() {
        st
    } else {
        let v = if i < args.len() {
            args[i]
        } else {
            Value::Nil
        };
        bind_args(assign_var(st, names[i], v), names, args, i + 1)
    }
}

/// Assigns the captured values of a function, from index `i` on.
pub open spec fn bind_closure(st: RState, closure: Seq<(Seq<char>, Value)>, i: int) -> RState
    decreases closure.len() - i,
{
    if i < 0 || i >= closure.len() {
        st
    } else {
        bind_closure(assign_var(st, closure[i].0, closure[i].1), closure, i + 1)
    }
}

/// The scope in which a function's body runs, before it runs.
pub open spec fn enter(st: RState, fun: SpecFunction, args: Seq<Value>, refl: Option<Value>) -> RState {
    let st1 = RState { scopes: st.scopes.push(Seq::empty()), ..st };
    let st2 = bind_closure(st1, fun.closure, 0);
    let st3 = bind_args(st2, fun.args, args, 0);
    if fun.reflection && refl is Some {
        assign_var(st3, "self"@, refl.unwrap())
    } else {
        st3
    }
}

/// Drops the innermost scope, if there is one.
pub open spec fn leave(st: RState) -> RState {
    if st.scopes.len() > 0 {
        RState { scopes: st.scopes.drop_last(), ..st }
    } else {
        st
    }
}

/// Calls a value with arguments; `refl` is the object that it was read from.
pub open spec fn spec_call(st: RState, fv: Value, args: Seq<Value>, refl: Option<Value>, f: nat) -> Step
    decreases f, 2nat, 0nat,
{
    match fv {
        Value::Function(id) => if id < st.functions.len() {
            let fun = st.functions[id as int];
            let (st1, r) = spec_eval(enter(st, fun, args, refl), fun.value, f);
            match r {
                Ok(v) => (leave(st1), Ok(v)),
                Err(x) => (st1, Err(x)),
            }
        } else {
            (st, Err(SpecStop::Corrupted))
        },
        Value::NativeFunction(nf) => spec_native(st, nf, args, f),
        _ => (emit(st, SpecOutput::CallNonFunction), Ok(Value::Nil)),
    }
}

/// Runs a built-in function.
pub open spec fn spec_native(st: RState, nf: NativeFunction, args: Seq<Value>, f: nat) -> Step
    decreases f, 1nat, 0nat,
{
    match nf {
        NativeFunction::Import => if args.len() < 1 {
            (emit(st, SpecOutput::InvalidArguments), Ok(Value::Nil))
        } else {
            match args[0] {
                Value::Str(id) => if id < st.strings.len() {
                    let name = st.strings[id as int];
                    match assoc_get(st.loadables, name) {
                        Some(m) => (st, Ok(Value::NativeObject(m))),
                        None => match file_source(st, name) {
                            None => (st, Err(SpecStop::NeedFile(name))),
                            Some(None) => (emit(st, SpecOutput::ImportNotFound(name)), Ok(Value::Nil)),
                            Some(Some(src)) => if src.len() >= usize::MAX {
                                (st, Err(SpecStop::Corrupted))
                            } else if stops_in_comment(src, 0) {
                                (after_parse(st, src), Err(SpecStop::ParseStuck))
                            } else {
                                spec_eval(after_parse(st, src), parse_at(src, 0).0, f)
                            },
                        },
                    }
                } else {
                    (st, Err(SpecStop::Corrupted))
                },
                _ => (emit(st, SpecOutput::InvalidArguments), Ok(Value::Nil)),
            }
        },
        NativeFunction::Print => match spec_print_line(st, args, 0, Seq::empty(), f) {
            Ok(line) => (emit(st, SpecOutput::Line(line)), Ok(Value::Nil)),
            Err(x) => (st, Err(x)),
        },
        NativeFunction::Push => if args.len() < 2 {
            (emit(st, SpecOutput::InvalidArguments), Ok(Value::Nil))
        } else {
            match args[0] {
                Value::List(id) => if id < st.lists.len() {
                    (RState { lists: st.lists.update(id as int, st.lists[id as int].push(args[1])), ..st }, Ok(Value::Nil))
                } else {
                    (st, Err(SpecStop::Corrupted))
                },
                _ => (emit(st, SpecOutput::InvalidArguments), Ok(Value::Nil)),
            }
        },
        NativeFunction::Len => if args.len() < 1 {
            (emit(st, SpecOutput::InvalidArguments), Ok(Value::Nil))
        } else {
            match args[0] {
                Value::List(id) => if id < st.lists.len() {
                    let n = st.lists[id as int].len() as usize;
                    match float_bits(st, SpecFloatOp::FromCount(n)) {
                        Some(b) => (st, Ok(Value::Number(b))),
                        None => (st, Err(SpecStop::NeedFloat(SpecFloatOp::FromCount(n)))),
                    }
                } else {
                    (st, Err(SpecStop::Corrupted))
                },
                _ => (emit(st, SpecOutput::InvalidArguments), Ok(Value::Nil)),
            }
        },
        NativeFunction::Add => if args.len() < 2 {
            (emit(st, SpecOutput::InvalidNumberOfArguments), Ok(Value::Nil))
        } else {
            match (args[0], args[1]) {
                (Value::Number(x), Value::Number(y)) => match float_bits(st, SpecFloatOp::Add(x, y)) {
                    Some(b) => (st, Ok(Value::Number(b))),
                    None => (st, Err(SpecStop::NeedFloat(SpecFloatOp::Add(x, y)))),
                },
                _ => (emit(st, SpecOutput::InvalidArgumentTypes), Ok(Value::Nil)),
            }
        },
    }
}

/// The parser's complaints, as lines of output.
pub open spec fn parse_outputs(ms: Seq<SpecParseMessage>) -> Seq<SpecOutput> {
    ms.map_values(|m: SpecParseMessage| SpecOutput::Parse(m))
}

/// The state after the text of an imported file was read: what the parser
/// complained of is output, up to where it stopped.
pub open spec fn after_parse(st: RState, src: Seq<char>) -> RState {
    RState { output: st.output + parse_outputs(parse_msgs(src, 0)), ..st }
}

/// What `Obj.has` gives: whether an object has a field of the given name.
pub open spec fn spec_obj_has(st: RState, args: Seq<Value>) -> Step {
    if args.len() != 2 {
        (emit(st, SpecOutput::InvalidObjHasArguments), Ok(Value::Nil))
    } else {
        match (args[0], args[1]) {
            (Value::Object(id), Value::Str(sid)) => if id < st.objects.len() && sid < st.strings.len() {
                (st, Ok(Value::Bool(key_pos(st.objects[id as int], st.strings[sid as int], 0) is Some)))
            } else {
                (st, Err(SpecStop::Corrupted))
            },
            _ => (emit(st, SpecOutput::InvalidObjHasArguments), Ok(Value::Nil)),
        }
    }
}

/// The module registry: each built-in module under its name.
pub open spec fn registered(m: Seq<(Seq<char>, Module)>) -> Seq<(Seq<char>, Module)> {
    assoc_set(assoc_set(assoc_set(m, "math"@, Module::Math), "io"@, Module::Io), "list"@, Module::List)
}

/// The globals of a new interpreter.
pub open spec fn base_globals() -> Seq<(Seq<char>, Value)> {
    assoc_set(
        assoc_set(
            assoc_set(assoc_set(Seq::empty(), "nil"@, Value::Nil), "true"@, Value::Bool(true)),
            "false"@,
            Value::Bool(false),
        ),
        "import"@,
        Value::NativeFunction(NativeFunction::Import),
    )
}

/// The state of a new interpreter.
pub open spec fn initial_state() -> RState {
    RState {
        loadables: registered(Seq::empty()),
        strings: Seq::empty(),
        lists: Seq::empty(),
        objects: Seq::empty(),
        functions: Seq::empty(),
        scopes: Seq::empty(),
        globals: base_globals(),
        output: Seq::empty(),
        floats: Seq::empty(),
        files: Seq::empty(),
    }
}

/// `parts` joined with `sep` between them.
pub open spec fn join(parts: Seq<Seq<char>>, sep: Seq<char>) -> Seq<char>
    decreases parts.len(),
{
    if parts.len() == 0 {
        Seq::empty()
    } else if parts.len() == 1 {
        parts[0]
    } else {
        join(parts.drop_last(), sep) + sep + parts.last()
    }
}

/// The text of a value; lists and objects nest at most `f` deep.
pub open spec fn spec_repr(st: RState, v: Value, f: nat) -> Result<Seq<char>, SpecStop>
    decreases f, 0nat, 0nat,
{
    if f == 0 {
        Err(SpecStop::OutOfFuel)
    } else {
        let g = (f - 1) as nat;
        match v {
            Value::Nil => Ok("nil"@),
            Value::Bool(b) => Ok(if b { "true"@ } else { "false"@ }),
            Value::Number(bits) => match float_text(st, bits) {
                Some(t) => Ok(t),
                None => Err(SpecStop::NeedFloat(SpecFloatOp::ToText(bits))),
            },
            Value::Str(id) => if id < st.strings.len() {
                Ok(st.strings[id as int])
            } else {
                Err(SpecStop::Corrupted)
            },
            Value::List(id) => if id < st.lists.len() {
                match spec_repr_items(st, st.lists[id as int], 0, Seq::empty(), g) {
                    Ok(parts) => Ok("<"@ + join(parts, "; "@) + ">"@),
                    Err(x) => Err(x),
                }
            } else {
                Err(SpecStop::Corrupted)
            },
            Value::Object(id) => if id < st.objects.len() {
                match spec_repr_fields(st, st.objects[id as int], 0, Seq::empty(), g) {
                    Ok(parts) => Ok("["@ + join(parts, "; "@) + "]"@),
                    Err(x) => Err(x),
                }
            } else {
                Err(SpecStop::Corrupted)
            },
            Value::Function(_) => Ok("<Function>"@),
            Value::NativeObject(_) => Ok("<NativeObject> (to be implemented)"@),
            Value::NativeFunction(_) => Ok("<NativeFunction>"@),
        }
    }
}

pub open spec fn spec_repr_items(st: RState, items: Seq<Value>, i: int, acc: Seq<Seq<char>>, f: nat) -> Result<Seq<Seq<char>>, SpecStop>
    decreases f, 1nat, items.len() - i,
{
    if i < 0 || i >= items.len() {
        Ok(acc)
    } else {
        match spec_repr(st, items[i], f) {
            Ok(t) => spec_repr_items(st, items, i + 1, acc.push(t), f),
            Err(x) => Err(x),
        }
    }
}

pub open spec fn spec_repr_fields(st: RState, fields: Seq<(Seq<char>, Value)>, i: int, acc: Seq<Seq<char>>, f: nat) -> Result<Seq<Seq<char>>, SpecStop>
    decreases f, 1nat, fields.len() - i,
{
    if i < 0 || i >= fields.len() {
        Ok(acc)
    } else {
        match spec_repr(st, fields[i].1, f) {
            Ok(t) => spec_repr_fields(st, fields, i + 1, acc.push(fields[i].0 + ": "@ + t), f),
            Err(x) => Err(x),
        }
    }
}

/// The line that `io.print` writes: each argument's text followed by a blank.
pub open spec fn spec_print_line(st: RState, args: Seq<Value>, i: int, acc: Seq<char>, f: nat) -> Result<Seq<char>, SpecStop>
    decreases args.len() - i,
{
    if i < 0 || i >= args.len() {
        Ok(acc)
    } else {
        match spec_repr(st, args[i], f) {
            Ok(t) => spec_print_line(st, args, i + 1, acc + t + " "@, f),
            Err(x) => Err(x),
        }
    }
}

} // verus!
