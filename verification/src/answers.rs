//! Evaluating again with more answers about numbers and files: the law that
//! lets a caller answer the interpreter's questions one by one and start
//! over each time.
use vstd::prelude::*;
use crate::assoc::{assoc_get, key_pos, lemma_key_pos};
use crate::ast::{SpecExpr, SpecTarget};
use crate::laws::{
    grows, is_prefix, kept, law_eval_grows, lemma_eval_keeps, lemma_set_keeps, lemma_while_keeps,
    lemma_chain_keeps, lemma_items_keeps, lemma_fields_keeps, lemma_capture_keeps,
    lemma_call_keeps, lemma_native_get_keeps,
};
use crate::parser::parse_at;
use crate::semantics::{
    RState, after_parse, assign_var, bind_args, bind_closure, enter, file_source, float_bits,
    float_index, float_text, native_get, spec_call, spec_capture, spec_chain, spec_eval,
    spec_eval_fields, spec_eval_items, spec_get_val, spec_native, spec_print_line, spec_repr,
    spec_repr_fields, spec_repr_items, spec_set_val, spec_while, emit,
};
use crate::value::{NativeFunction, SpecFloatOp, SpecOutput, SpecStop, Value};

verus! {

/// `b` is `a` with more answers: every other part is the same, and the
/// answers about numbers and files of `b` start with those of `a`.
pub open spec fn more_answers(a: RState, b: RState) -> bool {
    &&& b.loadables == a.loadables
    &&& b.strings == a.strings
    &&& b.lists == a.lists
    &&& b.objects == a.objects
    &&& b.functions == a.functions
    &&& b.scopes == a.scopes
    &&& b.globals == a.globals
    &&& b.output == a.output
    &&& is_prefix(a.floats, b.floats)
    &&& is_prefix(a.files, b.files)
}

/// Whether a result is a question: a number or a file that is not known.
pub open spec fn asks<T>(r: Result<T, SpecStop>) -> bool {
    r matches Err(SpecStop::NeedFloat(_)) || r matches Err(SpecStop::NeedFile(_))
}

/// How a run from a state compares with a run from the same state with more
/// answers: where the first asked nothing, both end alike; where it asked,
/// the second printed at least what the first printed.
pub open spec fn agrees<T>(a: RState, ra: Result<T, SpecStop>, b: RState, rb: Result<T, SpecStop>) -> bool {
    &&& !asks(ra) ==> rb == ra && more_answers(a, b)
    &&& asks(ra) ==> is_prefix(a.output, b.output)
}

/// A key found in a table is found alike in any table that starts with it.
proof fn lemma_prefix_lookup<K, V>(m1: Seq<(K, V)>, m2: Seq<(K, V)>, k: K)
    requires
        is_prefix(m1, m2),
        key_pos(m1, k, 0) is Some,
    ensures
        assoc_get(m2, k) == assoc_get(m1, k),
{
    lemma_key_pos(m1, k, 0);
    lemma_key_pos(m2, k, 0);
    let t = key_pos(m1, k, 0).unwrap();
    assert(m2[t] == m1[t]);
    match key_pos(m2, k, 0) {
        Some(u) => {
            if u < t {
                assert(m2[u] == m1[u]);
            }
        },
        None => {},
    }
}

proof fn lemma_float_bits(a: RState, b: RState, q: SpecFloatOp)
    requires
        more_answers(a, b),
        float_bits(a, q) is Some,
    ensures
        float_bits(b, q) == float_bits(a, q),
{
    lemma_key_pos(a.floats, q, 0);
    if key_pos(a.floats, q, 0) is Some {
        lemma_prefix_lookup(a.floats, b.floats, q);
    }
}

proof fn lemma_float_index(a: RState, b: RState, bits: u64)
    requires
        more_answers(a, b),
        float_index(a, bits) is Some,
    ensures
        float_index(b, bits) == float_index(a, bits),
{
    lemma_prefix_lookup(a.floats, b.floats, SpecFloatOp::ToIndex(bits));
}

proof fn lemma_file_source(a: RState, b: RState, name: Seq<char>)
    requires
        more_answers(a, b),
        file_source(a, name) is Some,
    ensures
        file_source(b, name) == file_source(a, name),
{
    lemma_prefix_lookup(a.files, b.files, name);
}

proof fn lemma_assign_answers(a: RState, b: RState, name: Seq<char>, v: Value)
    requires
        more_answers(a, b),
    ensures
        more_answers(assign_var(a, name, v), assign_var(b, name, v)),
{
}

proof fn lemma_bind_args_answers(a: RState, b: RState, names: Seq<Seq<char>>, args: Seq<Value>, i: int)
    requires
        more_answers(a, b),
    ensures
        more_answers(bind_args(a, names, args, i), bind_args(b, names, args, i)),
    decreases names.len() - i,
{
    if 0 <= i < names.len() {
        let v = if i < args.len() { args[i] } else { Value::Nil };
        lemma_bind_args_answers(assign_var(a, names[i], v), assign_var(b, names[i], v), names, args, i + 1);
    }
}

proof fn lemma_bind_closure_answers(a: RState, b: RState, closure: Seq<(Seq<char>, Value)>, i: int)
    requires
        more_answers(a, b),
    ensures
        more_answers(bind_closure(a, closure, i), bind_closure(b, closure, i)),
    decreases closure.len() - i,
{
    if 0 <= i < closure.len() {
        lemma_bind_closure_answers(
            assign_var(a, closure[i].0, closure[i].1),
            assign_var(b, closure[i].0, closure[i].1),
            closure,
            i + 1,
        );
    }
}

proof fn lemma_repr_answers(a: RState, b: RState, v: Value, f: nat)
    requires
        more_answers(a, b),
        !asks(spec_repr(a, v, f)),
    ensures
        spec_repr(b, v, f) == spec_repr(a, v, f),
    decreases f, 0nat, 0nat,
{
    if f > 0 {
        let g = (f - 1) as nat;
        match v {
            Value::Number(bits) => {
                lemma_float_bits_text(a, b, bits);
            },
            Value::List(id) => {
                if id < a.lists.len() {
                    lemma_repr_items_answers(a, b, a.lists[id as int], 0, Seq::empty(), g);
                }
            },
            Value::Object(id) => {
                if id < a.objects.len() {
                    lemma_repr_fields_answers(a, b, a.objects[id as int], 0, Seq::empty(), g);
                }
            },
            _ => {},
        }
    }
}

proof fn lemma_float_bits_text(a: RState, b: RState, bits: u64)
    requires
        more_answers(a, b),
    ensures
        float_text(a, bits) is Some ==> float_text(b, bits) == float_text(a, bits),
{
    lemma_key_pos(a.floats, SpecFloatOp::ToText(bits), 0);
    if key_pos(a.floats, SpecFloatOp::ToText(bits), 0) is Some {
        lemma_prefix_lookup(a.floats, b.floats, SpecFloatOp::ToText(bits));
    }
}

proof fn lemma_repr_items_answers(a: RState, b: RState, items: Seq<Value>, i: int, acc: Seq<Seq<char>>, f: nat)
    requires
        more_answers(a, b),
        !asks(spec_repr_items(a, items, i, acc, f)),
    ensures
        spec_repr_items(b, items, i, acc, f) == spec_repr_items(a, items, i, acc, f),
    decreases f, 1nat, items.len() - i,
{
    if 0 <= i < items.len() {
        if !asks(spec_repr(a, items[i], f)) {
            lemma_repr_answers(a, b, items[i], f);
            if let Ok(t) = spec_repr(a, items[i], f) {
                lemma_repr_items_answers(a, b, items, i + 1, acc.push(t), f);
            }
        }
    }
}

proof fn lemma_repr_fields_answers(a: RState, b: RState, fields: Seq<(Seq<char>, Value)>, i: int, acc: Seq<Seq<char>>, f: nat)
    requires
        more_answers(a, b),
        !asks(spec_repr_fields(a, fields, i, acc, f)),
    ensures
        spec_repr_fields(b, fields, i, acc, f) == spec_repr_fields(a, fields, i, acc, f),
    decreases f, 1nat, fields.len() - i,
{
    if 0 <= i < fields.len() {
        if !asks(spec_repr(a, fields[i].1, f)) {
            lemma_repr_answers(a, b, fields[i].1, f);
            if let Ok(t) = spec_repr(a, fields[i].1, f) {
                lemma_repr_fields_answers(a, b, fields, i + 1, acc.push(fields[i].0 + ": "@ + t), f);
            }
        }
    }
}

proof fn lemma_print_line_answers(a: RState, b: RState, args: Seq<Value>, i: int, acc: Seq<char>, f: nat)
    requires
        more_answers(a, b),
        !asks(spec_print_line(a, args, i, acc, f)),
    ensures
        spec_print_line(b, args, i, acc, f) == spec_print_line(a, args, i, acc, f),
    decreases args.len() - i,
{
    if 0 <= i < args.len() {
        if !asks(spec_repr(a, args[i], f)) {
            lemma_repr_answers(a, b, args[i], f);
            if let Ok(t) = spec_repr(a, args[i], f) {
                lemma_print_line_answers(a, b, args, i + 1, acc + t + " "@, f);
            }
        }
    }
}

proof fn lemma_enter_answers(a: RState, b: RState, fun: crate::semantics::SpecFunction, args: Seq<Value>, refl: Option<Value>)
    requires
        more_answers(a, b),
    ensures
        more_answers(enter(a, fun, args, refl), enter(b, fun, args, refl)),
{
    let a1 = RState { scopes: a.scopes.push(Seq::empty()), ..a };
    let b1 = RState { scopes: b.scopes.push(Seq::empty()), ..b };
    lemma_bind_closure_answers(a1, b1, fun.closure, 0);
    let a2 = bind_closure(a1, fun.closure, 0);
    let b2 = bind_closure(b1, fun.closure, 0);
    lemma_bind_args_answers(a2, b2, fun.args, args, 0);
}

/// What a call expression does once its arguments are evaluated: the
/// callee is found, then called.
pub open spec fn call_tail(st1: RState, func: SpecExpr, argv: Seq<Value>, f: nat) -> (RState, Result<Value, SpecStop>) {
    match func {
        SpecExpr::Access(SpecTarget::Field { var, field }) => {
            let (st2, r2) = spec_eval(st1, *var, f);
            match r2 {
                Ok(Value::Object(id)) => if id < st2.objects.len() {
                    match assoc_get(st2.objects[id as int], field) {
                        Some(fv) => spec_call(st2, fv, argv, Some(Value::Object(id)), f),
                        None => (emit(st2, SpecOutput::CannotFindField(field)), Ok(Value::Nil)),
                    }
                } else {
                    (st2, Err(SpecStop::Corrupted))
                },
                Ok(Value::NativeObject(m)) => {
                    let (st3, fv) = native_get(st2, m, field);
                    spec_call(st3, fv, argv, None, f)
                },
                Ok(_) => (emit(st2, SpecOutput::FieldOfNonObject), Ok(Value::Nil)),
                Err(x) => (st2, Err(x)),
            }
        },
        _ => {
            let (st2, r2) = spec_eval(st1, func, f);
            match r2 {
                Ok(fv) => spec_call(st2, fv, argv, None, f),
                Err(x) => (st2, Err(x)),
            }
        },
    }
}

proof fn lemma_call_tail_keeps(st1: RState, func: SpecExpr, argv: Seq<Value>, f: nat)
    ensures
        kept(st1, call_tail(st1, func, argv, f).0, call_tail(st1, func, argv, f).1),
{
    match func {
        SpecExpr::Access(SpecTarget::Field { var, field }) => {
            lemma_eval_keeps(st1, *var, f);
            let (st2, r2) = spec_eval(st1, *var, f);
            match r2 {
                Ok(Value::Object(id)) => {
                    if id < st2.objects.len() {
                        if let Some(fv) = assoc_get(st2.objects[id as int], field) {
                            lemma_call_keeps(st2, fv, argv, Some(Value::Object(id)), f);
                        }
                    }
                },
                Ok(Value::NativeObject(m)) => {
                    lemma_native_get_keeps(st2, m, field);
                    let (st3, fv) = native_get(st2, m, field);
                    lemma_call_keeps(st3, fv, argv, None, f);
                },
                _ => {},
            }
        },
        _ => {
            lemma_eval_keeps(st1, func, f);
            let (st2, r2) = spec_eval(st1, func, f);
            if let Ok(fv) = r2 {
                lemma_call_keeps(st2, fv, argv, None, f);
            }
        },
    }
}

proof fn lemma_eval_answers(a: RState, b: RState, e: SpecExpr, fuel: nat)
    requires
        more_answers(a, b),
    ensures
        agrees(spec_eval(a, e, fuel).0, spec_eval(a, e, fuel).1, spec_eval(b, e, fuel).0, spec_eval(b, e, fuel).1),
    decreases fuel, 0nat, 0nat,
{
    if fuel > 0 {
        let f = (fuel - 1) as nat;
        match e {
            SpecExpr::Number(n) => {
                if float_bits(a, SpecFloatOp::FromLiteral(n)) is Some {
                    lemma_float_bits(a, b, SpecFloatOp::FromLiteral(n));
                }
            },
            SpecExpr::Object(fields) => {
                lemma_fields_answers(a, b, fields, 0, Seq::empty(), f);
            },
            SpecExpr::List(items) => {
                lemma_items_answers(a, b, items, 0, Seq::empty(), f);
            },
            SpecExpr::Function { args, value, closure, reflection } => {
                lemma_capture_answers(a, b, closure, 0, Seq::empty(), f);
            },
            SpecExpr::If { cond, value, else_value } => {
                lemma_eval_answers(a, b, *cond, f);
                let (a1, ra) = spec_eval(a, *cond, f);
                let (b1, rb) = spec_eval(b, *cond, f);
                if !asks(ra) {
                    if let Ok(c) = ra {
                        lemma_eval_answers(a1, b1, *value, f);
                        lemma_eval_answers(a1, b1, *else_value, f);
                    }
                } else {
                    if let Ok(c) = rb {
                        lemma_eval_keeps(b1, *value, f);
                        lemma_eval_keeps(b1, *else_value, f);
                    }
                }
            },
            SpecExpr::While { cond, value, else_value } => {
                lemma_while_answers(a, b, *cond, *value, *else_value, f, false, Value::Nil);
            },
            SpecExpr::Binding { target, value } => {
                lemma_eval_answers(a, b, *value, f);
                let (a1, ra) = spec_eval(a, *value, f);
                let (b1, rb) = spec_eval(b, *value, f);
                if !asks(ra) {
                    if let Ok(v) = ra {
                        lemma_set_answers(a1, b1, target, v, f);
                    }
                } else {
                    if let Ok(v) = rb {
                        lemma_set_keeps(b1, target, v, f);
                    }
                }
            },
            SpecExpr::Chain(exprs) => {
                lemma_chain_answers(a, b, exprs, 0, Value::Nil, f);
            },
            SpecExpr::Access(t) => {
                lemma_get_answers(a, b, t, f);
            },
            SpecExpr::Identifier(name) => {
                lemma_get_answers(a, b, SpecTarget::Var(name), f);
            },
            SpecExpr::FuncCall { func, args } => {
                lemma_call_expr_answers(a, b, *func, args, f);
            },
            _ => {},
        }
    }
}

proof fn lemma_call_expr_answers(a: RState, b: RState, func: SpecExpr, args: Seq<SpecExpr>, f: nat)
    requires
        more_answers(a, b),
    ensures
        ({
            let e = SpecExpr::FuncCall { func: Box::new(func), args };
            agrees(spec_eval(a, e, f + 1).0, spec_eval(a, e, f + 1).1, spec_eval(b, e, f + 1).0, spec_eval(b, e, f + 1).1)
        }),
    decreases f, 4nat, 0nat,
{
    let e = SpecExpr::FuncCall { func: Box::new(func), args };
    lemma_items_answers(a, b, args, 0, Seq::empty(), f);
    let (a1, ra) = spec_eval_items(a, args, 0, Seq::empty(), f);
    let (b1, rb) = spec_eval_items(b, args, 0, Seq::empty(), f);
    if let Ok(argv) = ra {
        assert(spec_eval(a, e, f + 1) == call_tail(a1, func, argv, f));
        assert(spec_eval(b, e, f + 1) == call_tail(b1, func, argv, f));
        lemma_call_tail_answers(a1, b1, func, argv, f);
    } else if asks(ra) {
        if let Ok(argv) = rb {
            assert(spec_eval(b, e, f + 1) == call_tail(b1, func, argv, f));
            lemma_call_tail_keeps(b1, func, argv, f);
        }
    }
}

proof fn lemma_call_tail_answers(a: RState, b: RState, func: SpecExpr, argv: Seq<Value>, f: nat)
    requires
        more_answers(a, b),
    ensures
        agrees(call_tail(a, func, argv, f).0, call_tail(a, func, argv, f).1, call_tail(b, func, argv, f).0, call_tail(b, func, argv, f).1),
    decreases f, 3nat, 0nat,
{
    match func {
        SpecExpr::Access(SpecTarget::Field { var, field }) => {
            lemma_eval_answers(a, b, *var, f);
            let (a2, ra) = spec_eval(a, *var, f);
            let (b2, rb) = spec_eval(b, *var, f);
            if !asks(ra) {
                match ra {
                    Ok(Value::Object(id)) => {
                        if id < a2.objects.len() {
                            if let Some(fv) = assoc_get(a2.objects[id as int], field) {
                                lemma_call_answers(a2, b2, fv, argv, Some(Value::Object(id)), f);
                            }
                        }
                    },
                    Ok(Value::NativeObject(m)) => {
                        let (a3, fv) = native_get(a2, m, field);
                        let (b3, gv) = native_get(b2, m, field);
                        lemma_call_answers(a3, b3, fv, argv, None, f);
                    },
                    _ => {},
                }
            } else {
                match rb {
                    Ok(Value::Object(id)) => {
                        if id < b2.objects.len() {
                            if let Some(fv) = assoc_get(b2.objects[id as int], field) {
                                lemma_call_keeps(b2, fv, argv, Some(Value::Object(id)), f);
                            }
                        }
                    },
                    Ok(Value::NativeObject(m)) => {
                        lemma_native_get_keeps(b2, m, field);
                        let (b3, fv) = native_get(b2, m, field);
                        lemma_call_keeps(b3, fv, argv, None, f);
                    },
                    _ => {},
                }
            }
        },
        _ => {
            lemma_eval_answers(a, b, func, f);
            let (a2, ra) = spec_eval(a, func, f);
            let (b2, rb) = spec_eval(b, func, f);
            if !asks(ra) {
                if let Ok(fv) = ra {
                    lemma_call_answers(a2, b2, fv, argv, None, f);
                }
            } else {
                if let Ok(fv) = rb {
                    lemma_call_keeps(b2, fv, argv, None, f);
                }
            }
        },
    }
}

proof fn lemma_while_answers(a: RState, b: RState, cond: SpecExpr, value: SpecExpr, else_value: SpecExpr, lf: nat, turned: bool, res: Value)
    requires
        more_answers(a, b),
    ensures
        agrees(
            spec_while(a, cond, value, else_value, lf, turned, res).0,
            spec_while(a, cond, value, else_value, lf, turned, res).1,
            spec_while(b, cond, value, else_value, lf, turned, res).0,
            spec_while(b, cond, value, else_value, lf, turned, res).1,
        ),
    decreases lf, 1nat, 0nat,
{
    if lf > 0 {
        let f = (lf - 1) as nat;
        lemma_eval_answers(a, b, cond, f);
        let (a1, ra) = spec_eval(a, cond, f);
        let (b1, rb) = spec_eval(b, cond, f);
        if !asks(ra) {
            if let Ok(c) = ra {
                lemma_eval_answers(a1, b1, value, f);
                lemma_eval_answers(a1, b1, else_value, f);
                let (a2, ra2) = spec_eval(a1, value, f);
                let (b2, rb2) = spec_eval(b1, value, f);
                if !asks(ra2) {
                    if let Ok(v) = ra2 {
                        lemma_while_answers(a2, b2, cond, value, else_value, f, true, v);
                    }
                } else {
                    if let Ok(v) = rb2 {
                        lemma_while_keeps(b2, cond, value, else_value, f, true, v);
                    }
                }
            }
        } else {
            if let Ok(c) = rb {
                lemma_eval_keeps(b1, value, f);
                lemma_eval_keeps(b1, else_value, f);
                let (b2, rb2) = spec_eval(b1, value, f);
                if let Ok(v) = rb2 {
                    lemma_while_keeps(b2, cond, value, else_value, f, true, v);
                }
            }
        }
    }
}

proof fn lemma_chain_answers(a: RState, b: RState, exprs: Seq<SpecExpr>, i: int, res: Value, f: nat)
    requires
        more_answers(a, b),
    ensures
        agrees(spec_chain(a, exprs, i, res, f).0, spec_chain(a, exprs, i, res, f).1, spec_chain(b, exprs, i, res, f).0, spec_chain(b, exprs, i, res, f).1),
    decreases f, 1nat, exprs.len() - i,
{
    if 0 <= i < exprs.len() {
        lemma_eval_answers(a, b, exprs[i], f);
        let (a1, ra) = spec_eval(a, exprs[i], f);
        let (b1, rb) = spec_eval(b, exprs[i], f);
        if !asks(ra) {
            if let Ok(v) = ra {
                lemma_chain_answers(a1, b1, exprs, i + 1, v, f);
            }
        } else {
            if let Ok(v) = rb {
                lemma_chain_keeps(b1, exprs, i + 1, v, f);
            }
        }
    }
}

proof fn lemma_items_answers(a: RState, b: RState, exprs: Seq<SpecExpr>, i: int, acc: Seq<Value>, f: nat)
    requires
        more_answers(a, b),
    ensures
        agrees(spec_eval_items(a, exprs, i, acc, f).0, spec_eval_items(a, exprs, i, acc, f).1, spec_eval_items(b, exprs, i, acc, f).0, spec_eval_items(b, exprs, i, acc, f).1),
    decreases f, 1nat, exprs.len() - i,
{
    if 0 <= i < exprs.len() {
        lemma_eval_answers(a, b, exprs[i], f);
        let (a1, ra) = spec_eval(a, exprs[i], f);
        let (b1, rb) = spec_eval(b, exprs[i], f);
        if !asks(ra) {
            if let Ok(v) = ra {
                lemma_items_answers(a1, b1, exprs, i + 1, acc.push(v), f);
            }
        } else {
            if let Ok(v) = rb {
                lemma_items_keeps(b1, exprs, i + 1, acc.push(v), f);
            }
        }
    }
}

proof fn lemma_fields_answers(a: RState, b: RState, fields: Seq<(Seq<char>, SpecExpr)>, i: int, acc: Seq<(Seq<char>, Value)>, f: nat)
    requires
        more_answers(a, b),
    ensures
        agrees(spec_eval_fields(a, fields, i, acc, f).0, spec_eval_fields(a, fields, i, acc, f).1, spec_eval_fields(b, fields, i, acc, f).0, spec_eval_fields(b, fields, i, acc, f).1),
    decreases f, 1nat, fields.len() - i,
{
    if 0 <= i < fields.len() {
        lemma_eval_answers(a, b, fields[i].1, f);
        let (a1, ra) = spec_eval(a, fields[i].1, f);
        let (b1, rb) = spec_eval(b, fields[i].1, f);
        if !asks(ra) {
            if let Ok(v) = ra {
                lemma_fields_answers(a1, b1, fields, i + 1, crate::assoc::assoc_set(acc, fields[i].0, v), f);
            }
        } else {
            if let Ok(v) = rb {
                lemma_fields_keeps(b1, fields, i + 1, crate::assoc::assoc_set(acc, fields[i].0, v), f);
            }
        }
    }
}

proof fn lemma_capture_answers(a: RState, b: RState, names: Seq<Seq<char>>, i: int, acc: Seq<(Seq<char>, Value)>, f: nat)
    requires
        more_answers(a, b),
    ensures
        agrees(spec_capture(a, names, i, acc, f).0, spec_capture(a, names, i, acc, f).1, spec_capture(b, names, i, acc, f).0, spec_capture(b, names, i, acc, f).1),
    decreases f, 1nat, names.len() - i,
{
    if 0 <= i < names.len() {
        let e = SpecExpr::Access(SpecTarget::Var(names[i]));
        lemma_eval_answers(a, b, e, f);
        let (a1, ra) = spec_eval(a, e, f);
        let (b1, rb) = spec_eval(b, e, f);
        if !asks(ra) {
            if let Ok(v) = ra {
                lemma_capture_answers(a1, b1, names, i + 1, crate::assoc::assoc_set(acc, names[i], v), f);
            }
        } else {
            if let Ok(v) = rb {
                lemma_capture_keeps(b1, names, i + 1, crate::assoc::assoc_set(acc, names[i], v), f);
            }
        }
    }
}

proof fn lemma_get_answers(a: RState, b: RState, t: SpecTarget, f: nat)
    requires
        more_answers(a, b),
    ensures
        agrees(spec_get_val(a, t, f).0, spec_get_val(a, t, f).1, spec_get_val(b, t, f).0, spec_get_val(b, t, f).1),
    decreases f, 1nat, 0nat,
{
    match t {
        SpecTarget::Var(name) => {},
        SpecTarget::Field { var, field } => {
            lemma_eval_answers(a, b, *var, f);
            let (a1, ra) = spec_eval(a, *var, f);
            let (b1, rb) = spec_eval(b, *var, f);
            if asks(ra) {
                if let Ok(Value::NativeObject(m)) = rb {
                    lemma_native_get_keeps(b1, m, field);
                }
            }
        },
        SpecTarget::Index { var, index } => {
            lemma_eval_answers(a, b, *index, f);
            let (a1, ra) = spec_eval(a, *index, f);
            let (b1, rb) = spec_eval(b, *index, f);
            if !asks(ra) {
                if let Ok(Value::Number(bits)) = ra {
                    lemma_eval_answers(a1, b1, *var, f);
                    let (a2, ra2) = spec_eval(a1, *var, f);
                    if float_index(a2, bits) is Some {
                        let b2 = spec_eval(b1, *var, f).0;
                        if !asks(ra2) {
                            lemma_float_index(a2, b2, bits);
                        }
                    }
                }
            } else {
                if let Ok(Value::Number(bits)) = rb {
                    lemma_eval_keeps(b1, *var, f);
                }
            }
        },
    }
}

proof fn lemma_set_answers(a: RState, b: RState, t: SpecTarget, v: Value, f: nat)
    requires
        more_answers(a, b),
    ensures
        agrees(spec_set_val(a, t, v, f).0, spec_set_val(a, t, v, f).1, spec_set_val(b, t, v, f).0, spec_set_val(b, t, v, f).1),
    decreases f, 1nat, 0nat,
{
    match t {
        SpecTarget::Var(name) => {
            lemma_assign_answers(a, b, name, v);
        },
        SpecTarget::Field { var, field } => {
            lemma_eval_answers(a, b, *var, f);
        },
        SpecTarget::Index { var, index } => {
            lemma_eval_answers(a, b, *index, f);
            let (a1, ra) = spec_eval(a, *index, f);
            let (b1, rb) = spec_eval(b, *index, f);
            if !asks(ra) {
                if let Ok(Value::Number(bits)) = ra {
                    lemma_eval_answers(a1, b1, *var, f);
                    let (a2, ra2) = spec_eval(a1, *var, f);
                    if float_index(a2, bits) is Some {
                        let b2 = spec_eval(b1, *var, f).0;
                        if !asks(ra2) {
                            lemma_float_index(a2, b2, bits);
                        }
                    }
                }
            } else {
                if let Ok(Value::Number(bits)) = rb {
                    lemma_eval_keeps(b1, *var, f);
                }
            }
        },
    }
}

proof fn lemma_call_answers(a: RState, b: RState, fv: Value, args: Seq<Value>, refl: Option<Value>, f: nat)
    requires
        more_answers(a, b),
    ensures
        agrees(spec_call(a, fv, args, refl, f).0, spec_call(a, fv, args, refl, f).1, spec_call(b, fv, args, refl, f).0, spec_call(b, fv, args, refl, f).1),
    decreases f, 2nat, 0nat,
{
    match fv {
        Value::Function(id) => {
            if id < a.functions.len() {
                let fun = a.functions[id as int];
                lemma_enter_answers(a, b, fun, args, refl);
                lemma_eval_answers(enter(a, fun, args, refl), enter(b, fun, args, refl), fun.value, f);
            }
        },
        Value::NativeFunction(nf) => {
            lemma_native_answers(a, b, nf, args, f);
        },
        _ => {},
    }
}

proof fn lemma_native_answers(a: RState, b: RState, nf: NativeFunction, args: Seq<Value>, f: nat)
    requires
        more_answers(a, b),
    ensures
        agrees(spec_native(a, nf, args, f).0, spec_native(a, nf, args, f).1, spec_native(b, nf, args, f).0, spec_native(b, nf, args, f).1),
    decreases f, 1nat, 0nat,
{
    match nf {
        NativeFunction::Import => {
            if args.len() >= 1 {
                if let Value::Str(id) = args[0] {
                    if id < a.strings.len() {
                        let name = a.strings[id as int];
                        if assoc_get(a.loadables, name) is None {
                            if file_source(a, name) is Some {
                                lemma_file_source(a, b, name);
                                if let Some(Some(src)) = file_source(a, name) {
                                    lemma_eval_answers(after_parse(a, src), after_parse(b, src), parse_at(src, 0).0, f);
                                }
                            } else {
                                if let Some(Some(src)) = file_source(b, name) {
                                    assert(grows(b, after_parse(b, src)));
                                    law_eval_grows(after_parse(b, src), parse_at(src, 0).0, f);
                                }
                            }
                        }
                    }
                }
            }
        },
        NativeFunction::Print => {
            if !asks(spec_print_line(a, args, 0, Seq::empty(), f)) {
                lemma_print_line_answers(a, b, args, 0, Seq::empty(), f);
            }
        },
        NativeFunction::Len => {
            if args.len() >= 1 {
                if let Value::List(id) = args[0] {
                    if id < a.lists.len() {
                        let n = a.lists[id as int].len() as usize;
                        if float_bits(a, SpecFloatOp::FromCount(n)) is Some {
                            lemma_float_bits(a, b, SpecFloatOp::FromCount(n));
                        }
                    }
                }
            }
        },
        NativeFunction::Add => {
            if args.len() >= 2 {
                if let (Value::Number(x), Value::Number(y)) = (args[0], args[1]) {
                    if float_bits(a, SpecFloatOp::Add(x, y)) is Some {
                        lemma_float_bits(a, b, SpecFloatOp::Add(x, y));
                    }
                }
            }
        },
        _ => {},
    }
}

/// Answers given after the fact change only what waited for them. From a
/// state with more answers about numbers and files, an evaluation that asked
/// no question ends in the same state, up to those answers, with the same
/// result; one that asked has, by the end, printed all that it printed
/// before it asked, and in the same order.
pub proof fn law_more_answers(a: RState, b: RState, e: SpecExpr, f: nat)
    requires
        more_answers(a, b),
    ensures
        agrees(spec_eval(a, e, f).0, spec_eval(a, e, f).1, spec_eval(b, e, f).0, spec_eval(b, e, f).1),
{
    lemma_eval_answers(a, b, e, f);
}

} // verus!
