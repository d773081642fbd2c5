//! Properties of the language that hold of every program and every state.
use vstd::prelude::*;
use crate::assoc::{assoc_get, assoc_set, key_pos, lemma_key_pos};
use crate::ast::{SpecExpr, SpecTarget};
use crate::semantics::{
    RState, SpecFunction, assign_var, bind_args, bind_closure, enter, file_source, float_index,
    native_get, read_var, scope, spec_call, spec_capture, spec_chain, spec_eval, spec_eval_fields,
    spec_eval_items, spec_get_val, spec_native, spec_print_line, spec_repr, spec_repr_fields,
    after_parse, spec_obj_has, spec_repr_items, spec_set_val, spec_while, truthy, float_bits,
};
use crate::parser::parse_at;
use crate::grammar::{ident_end, is_ident_char, spec_identifier, spec_keyword, spec_trim};
use crate::value::{Module, NativeFunction, SpecFloatOp, SpecStop, Value};

verus! {

/// Looking up a key just bound gives the value it was bound to.
pub proof fn law_assoc_get_set<K, V>(m: Seq<(K, V)>, k: K, v: V)
    ensures
        assoc_get(assoc_set(m, k, v), k) == Some(v),
{
    lemma_key_pos(m, k, 0);
    let m2 = assoc_set(m, k, v);
    lemma_key_pos(m2, k, 0);
    match key_pos(m, k, 0) {
        Some(t) => {
            assert(m2 == m.update(t, (k, v)));
            assert(m2[t].0 == k);
            if key_pos(m2, k, 0) != Some(t) {
                match key_pos(m2, k, 0) {
                    Some(u) => {
                        if u < t {
                            assert(m2[u] == m[u]);
                        }
                    },
                    None => {},
                }
            }
        },
        None => {
            assert(m2 == m.push((k, v)));
            let n = m.len() as int;
            assert(m2[n].0 == k);
            match key_pos(m2, k, 0) {
                Some(u) => {
                    if u < n {
                        assert(m2[u] == m[u]);
                    }
                },
                None => {},
            }
        },
    }
}

/// Binding one key leaves what every other key finds unchanged.
pub proof fn law_assoc_get_other<K, V>(m: Seq<(K, V)>, k: K, v: V, j: K)
    requires
        j != k,
    ensures
        assoc_get(assoc_set(m, k, v), j) == assoc_get(m, j),
{
    lemma_key_pos(m, k, 0);
    lemma_key_pos(m, j, 0);
    let m2 = assoc_set(m, k, v);
    lemma_key_pos(m2, j, 0);
    assert(m2.len() >= m.len());
    assert(forall|w: int| 0 <= w < m.len() ==> #[trigger] m2[w].0 == m[w].0);
    assert(forall|w: int| 0 <= w < m.len() && m2[w].0 == j ==> #[trigger] m2[w] == m[w]);
    if m2.len() > m.len() {
        assert(m2[m.len() as int].0 == k);
    }
    match (key_pos(m, j, 0), key_pos(m2, j, 0)) {
        (Some(a), Some(b)) => {
            if a < b {
                assert(m2[a].0 == j);
            } else if b < a {
                assert(m[b].0 == j);
            }
        },
        (Some(a), None) => {
            assert(m2[a].0 == j);
        },
        (None, Some(b)) => {
            assert(b < m.len());
            assert(m[b].0 == j);
        },
        (None, None) => {},
    }
}

/// A variable read right after it is assigned gives the assigned value,
/// and the read changes nothing.
pub proof fn law_read_after_assign(st: RState, name: Seq<char>, v: Value)
    ensures
        read_var(assign_var(st, name, v), name) == (assign_var(st, name, v), v),
{
    let st2 = assign_var(st, name, v);
    lemma_key_pos(scope(st), name, 0);
    law_assoc_get_set(scope(st), name, v);
    law_assoc_get_set(st.globals, name, v);
    if key_pos(scope(st), name, 0) is Some {
        assert(scope(st2) == assoc_set(scope(st), name, v));
    } else if key_pos(st.globals, name, 0) is Some {
        assert(st.scopes.len() > 0);
        assert(scope(st2) == scope(st));
        assert(assoc_get(scope(st2), name) is None);
    } else {
        assert(scope(st2) == assoc_set(scope(st), name, v));
    }
}

/// Assigning one variable leaves what every other variable reads unchanged.
pub proof fn law_assign_other(st: RState, name: Seq<char>, v: Value, other: Seq<char>)
    requires
        other != name,
    ensures
        read_var(assign_var(st, name, v), other).1 == read_var(st, other).1,
{
    let st2 = assign_var(st, name, v);
    law_assoc_get_other(scope(st), name, v, other);
    law_assoc_get_other(st.globals, name, v, other);
    if key_pos(scope(st), name, 0) is Some {
        assert(scope(st2) == assoc_set(scope(st), name, v));
    } else if key_pos(st.globals, name, 0) is Some {
        assert(st.scopes.len() > 0);
        assert(scope(st2) == scope(st));
    } else {
        assert(scope(st2) == assoc_set(scope(st), name, v));
    }
}

/// `let x = e` evaluates to the value of `e`, and afterwards `x` reads as
/// that value.
pub proof fn law_binding(st: RState, name: Seq<char>, e: SpecExpr, f: nat)
    requires
        f >= 1,
    ensures
        ({
            let b = SpecExpr::Binding { target: SpecTarget::Var(name), value: Box::new(e) };
            let (s2, r) = spec_eval(st, b, f);
            &&& r == spec_eval(st, e, (f - 1) as nat).1
            &&& r matches Ok(v) ==> read_var(s2, name) == (s2, v)
        }),
{
    let b = SpecExpr::Binding { target: SpecTarget::Var(name), value: Box::new(e) };
    let (s1, r1) = spec_eval(st, e, (f - 1) as nat);
    if let Ok(v) = r1 {
        assert(spec_set_val(s1, SpecTarget::Var(name), v, (f - 1) as nat) == (assign_var(s1, name, v), Ok::<Value, SpecStop>(Value::Nil)));
        assert(spec_eval(st, b, f) == (assign_var(s1, name, v), Ok::<Value, SpecStop>(v)));
        law_read_after_assign(s1, name, v);
    } else {
        assert(spec_eval(st, b, f) == (s1, r1));
    }
}

/// The target `var.field`, with the object read from a variable.
pub open spec fn field_of(var: Seq<char>, field: Seq<char>) -> SpecTarget {
    SpecTarget::Field { var: Box::new(SpecExpr::Access(SpecTarget::Var(var))), field }
}

/// The target `var<index>`, with the list and the index read from variables.
pub open spec fn item_of(var: Seq<char>, index: Seq<char>) -> SpecTarget {
    SpecTarget::Index {
        var: Box::new(SpecExpr::Access(SpecTarget::Var(var))),
        index: Box::new(SpecExpr::Access(SpecTarget::Var(index))),
    }
}

/// Writing a field of an object and reading it back gives the value written.
pub proof fn law_field_read_after_write(st: RState, var: Seq<char>, field: Seq<char>, v: Value, f: nat)
    requires
        f >= 1,
        read_var(st, var).1 matches Value::Object(id) && id < st.objects.len(),
    ensures
        ({
            let (s1, r1) = spec_set_val(st, field_of(var, field), v, f);
            &&& r1 == Ok::<Value, SpecStop>(Value::Nil)
            &&& spec_get_val(s1, field_of(var, field), f) == (s1, Ok::<Value, SpecStop>(v))
        }),
{
    let id = read_var(st, var).1->Object_0;
    let t = field_of(var, field);
    let acc = SpecExpr::Access(SpecTarget::Var(var));
    assert(read_var(st, var).0 == st);
    assert(spec_get_val(st, SpecTarget::Var(var), (f - 1) as nat) == (st, Ok::<Value, SpecStop>(Value::Object(id))));
    assert(spec_eval(st, acc, f) == (st, Ok::<Value, SpecStop>(Value::Object(id))));
    let o2 = assoc_set(st.objects[id as int], field, v);
    let s1 = RState { objects: st.objects.update(id as int, o2), ..st };
    assert(spec_set_val(st, t, v, f) == (s1, Ok::<Value, SpecStop>(Value::Nil)));
    assert(read_var(s1, var) == (s1, Value::Object(id)));
    assert(spec_get_val(s1, SpecTarget::Var(var), (f - 1) as nat) == (s1, Ok::<Value, SpecStop>(Value::Object(id))));
    assert(spec_eval(s1, acc, f) == (s1, Ok::<Value, SpecStop>(Value::Object(id))));
    law_assoc_get_set(st.objects[id as int], field, v);
    assert(s1.objects[id as int] == o2);
}

/// Writing an item of a list and reading it back gives the value written.
pub proof fn law_item_read_after_write(st: RState, var: Seq<char>, index: Seq<char>, v: Value, f: nat)
    requires
        f >= 1,
        read_var(st, var).1 matches Value::List(id) && id < st.lists.len(),
        read_var(st, index).1 matches Value::Number(b)
            && float_index(st, b) matches Some(i)
            && i < st.lists[read_var(st, var).1->List_0 as int].len(),
    ensures
        ({
            let (s1, r1) = spec_set_val(st, item_of(var, index), v, f);
            &&& r1 == Ok::<Value, SpecStop>(Value::Nil)
            &&& spec_get_val(s1, item_of(var, index), f) == (s1, Ok::<Value, SpecStop>(v))
        }),
{
    let id = read_var(st, var).1->List_0;
    let b = read_var(st, index).1->Number_0;
    let i = float_index(st, b).unwrap();
    let t = item_of(var, index);
    let la = SpecExpr::Access(SpecTarget::Var(var));
    let ia = SpecExpr::Access(SpecTarget::Var(index));
    assert(read_var(st, var).0 == st);
    assert(read_var(st, index).0 == st);
    assert(spec_get_val(st, SpecTarget::Var(index), (f - 1) as nat) == (st, Ok::<Value, SpecStop>(Value::Number(b))));
    assert(spec_get_val(st, SpecTarget::Var(var), (f - 1) as nat) == (st, Ok::<Value, SpecStop>(Value::List(id))));
    assert(spec_eval(st, ia, f) == (st, Ok::<Value, SpecStop>(Value::Number(b))));
    assert(spec_eval(st, la, f) == (st, Ok::<Value, SpecStop>(Value::List(id))));
    let s1 = RState { lists: st.lists.update(id as int, st.lists[id as int].update(i as int, v)), ..st };
    assert(spec_set_val(st, t, v, f) == (s1, Ok::<Value, SpecStop>(Value::Nil)));
    assert(read_var(s1, var) == (s1, Value::List(id)));
    assert(read_var(s1, index) == (s1, Value::Number(b)));
    assert(spec_get_val(s1, SpecTarget::Var(index), (f - 1) as nat) == (s1, Ok::<Value, SpecStop>(Value::Number(b))));
    assert(spec_get_val(s1, SpecTarget::Var(var), (f - 1) as nat) == (s1, Ok::<Value, SpecStop>(Value::List(id))));
    assert(spec_eval(s1, ia, f) == (s1, Ok::<Value, SpecStop>(Value::Number(b))));
    assert(spec_eval(s1, la, f) == (s1, Ok::<Value, SpecStop>(Value::List(id))));
    assert(float_index(s1, b) == Some(i));
    assert(s1.lists[id as int][i as int] == v);
}

/// The function `fn(a) a` gives back its argument, and the call leaves the
/// stack of scopes as it found it.
pub proof fn law_identity_call(st: RState, id: usize, a: Seq<char>, x: Value, f: nat)
    requires
        f >= 1,
        id < st.functions.len(),
        st.functions[id as int] == (SpecFunction {
            args: seq![a],
            value: SpecExpr::Access(SpecTarget::Var(a)),
            closure: Seq::empty(),
            reflection: false,
        }),
    ensures
        spec_call(st, Value::Function(id), seq![x], None, f).1 == Ok::<Value, SpecStop>(x),
        spec_call(st, Value::Function(id), seq![x], None, f).0.scopes == st.scopes,
{
    let fun = st.functions[id as int];
    let st1 = RState { scopes: st.scopes.push(Seq::empty()), ..st };
    assert(bind_closure(st1, fun.closure, 0) == st1);
    let st3 = assign_var(st1, a, x);
    assert(bind_args(st3, fun.args, seq![x], 1) == st3);
    assert(bind_args(st1, fun.args, seq![x], 0) == st3);
    assert(enter(st, fun, seq![x], None) == st3);
    law_read_after_assign(st1, a, x);
    assert(spec_get_val(st3, SpecTarget::Var(a), (f - 1) as nat) == (st3, Ok::<Value, SpecStop>(x)));
    assert(spec_eval(st3, fun.value, f) == (st3, Ok::<Value, SpecStop>(x)));
    assert(st3.scopes.len() == st.scopes.len() + 1);
    assert(st3.scopes.drop_last() =~= st.scopes);
}

/// `if (c) a else b` evaluates `a` when `c` holds and `b` when it does not.
pub proof fn law_if(st: RState, c: SpecExpr, a: SpecExpr, b: SpecExpr, f: nat)
    requires
        f >= 1,
    ensures
        ({
            let e = SpecExpr::If { cond: Box::new(c), value: Box::new(a), else_value: Box::new(b) };
            let g = (f - 1) as nat;
            let (s1, r) = spec_eval(st, c, g);
            r matches Ok(cv) ==> spec_eval(st, e, f) == match truthy(s1, cv) {
                Ok(true) => spec_eval(s1, a, g),
                Ok(false) => spec_eval(s1, b, g),
                Err(x) => (s1, Err(x)),
            }
        }),
{
}

/// The turns of a loop after its first one: the test, then the body, for
/// as long as the test holds; the value is that of the last body evaluated,
/// `last` when the test fails at once. No `else` takes part.
pub open spec fn loop_turns(st: RState, c: SpecExpr, body: SpecExpr, lf: nat, last: Value) -> (RState, Result<Value, SpecStop>)
    decreases lf,
{
    if lf == 0 {
        (st, Err(SpecStop::OutOfFuel))
    } else {
        let f = (lf - 1) as nat;
        let (s1, r) = spec_eval(st, c, f);
        match r {
            Ok(cv) => match truthy(s1, cv) {
                Ok(true) => {
                    let (s2, r2) = spec_eval(s1, body, f);
                    match r2 {
                        Ok(v) => loop_turns(s2, c, body, f, v),
                        Err(x) => (s2, Err(x)),
                    }
                },
                Ok(false) => (s1, Ok(last)),
                Err(x) => (s1, Err(x)),
            },
            Err(x) => (s1, Err(x)),
        }
    }
}

proof fn lemma_loop_turns(st: RState, c: SpecExpr, body: SpecExpr, b: SpecExpr, lf: nat, last: Value)
    ensures
        spec_while(st, c, body, b, lf, true, last) == loop_turns(st, c, body, lf, last),
    decreases lf,
{
    if lf > 0 {
        let f = (lf - 1) as nat;
        let (s1, r) = spec_eval(st, c, f);
        if let Ok(cv) = r {
            if truthy(s1, cv) == Ok::<bool, SpecStop>(true) {
                let (s2, r2) = spec_eval(s1, body, f);
                if let Ok(v) = r2 {
                    lemma_loop_turns(s2, c, body, b, f, v);
                }
            }
        }
    }
}

/// `while (c) body else b`: when the first test fails, the loop is its
/// `else` branch and `body` is never evaluated; when it holds, the `else`
/// branch is never evaluated, and the loop gives the value of the last
/// evaluation of `body`, the test being evaluated again before each turn.
pub proof fn law_while(st: RState, c: SpecExpr, body: SpecExpr, b: SpecExpr, f: nat)
    requires
        f >= 2,
    ensures
        ({
            let e = SpecExpr::While { cond: Box::new(c), value: Box::new(body), else_value: Box::new(b) };
            let g = (f - 2) as nat;
            let (s1, r) = spec_eval(st, c, g);
            &&& (r matches Ok(cv) && truthy(s1, cv) == Ok::<bool, SpecStop>(false))
                ==> spec_eval(st, e, f) == spec_eval(s1, b, g)
            &&& (r matches Ok(cv) && truthy(s1, cv) == Ok::<bool, SpecStop>(true))
                ==> spec_eval(st, e, f) == match spec_eval(s1, body, g) {
                    (s2, Ok(v)) => loop_turns(s2, c, body, g, v),
                    (s2, Err(x)) => (s2, Err(x)),
                }
        }),
{
    let e = SpecExpr::While { cond: Box::new(c), value: Box::new(body), else_value: Box::new(b) };
    let g = (f - 2) as nat;
    assert(spec_eval(st, e, f) == spec_while(st, c, body, b, (f - 1) as nat, false, Value::Nil));
    let (s1, r) = spec_eval(st, c, g);
    let (s2, r2) = spec_eval(s1, body, g);
    if let Ok(v) = r2 {
        lemma_loop_turns(s2, c, body, b, g, v);
    }
}

proof fn lemma_chain_push(st: RState, es: Seq<SpecExpr>, e: SpecExpr, i: int, res: Value, f: nat)
    requires
        0 <= i <= es.len(),
    ensures
        spec_chain(st, es.push(e), i, res, f) == match spec_chain(st, es, i, res, f) {
            (s1, Ok(_)) => spec_eval(s1, e, f),
            (s1, Err(x)) => (s1, Err(x)),
        },
    decreases es.len() - i,
{
    let es2 = es.push(e);
    if i < es.len() {
        assert(es2[i] == es[i]);
        let (st1, r) = spec_eval(st, es[i], f);
        if let Ok(v) = r {
            lemma_chain_push(st1, es, e, i + 1, v, f);
        }
    } else {
        assert(es2[i] == e);
        let (st1, r) = spec_eval(st, e, f);
        if let Ok(v) = r {
            assert(spec_chain(st1, es2, i + 1, v, f) == (st1, Ok::<Value, SpecStop>(v)));
        }
    }
}

/// A chain evaluates its expressions in order and has the value of the
/// last: a chain with one more expression at the end is the shorter chain,
/// then that expression.
pub proof fn law_chain(st: RState, es: Seq<SpecExpr>, e: SpecExpr, f: nat)
    requires
        f >= 1,
    ensures
        spec_eval(st, SpecExpr::Chain(es.push(e)), f) == match spec_eval(st, SpecExpr::Chain(es), f) {
            (s1, Ok(_)) => spec_eval(s1, e, (f - 1) as nat),
            (s1, Err(x)) => (s1, Err(x)),
        },
{
    lemma_chain_push(st, es, e, 0, Value::Nil, (f - 1) as nat);
}

/// `a` is `b` with possibly more at the end.
pub open spec fn is_prefix<T>(a: Seq<T>, b: Seq<T>) -> bool {
    a.len() <= b.len() && forall|i: int| 0 <= i < a.len() ==> #[trigger] b[i] == a[i]
}

/// What evaluation may do to a state: the built-in modules, the answers
/// about numbers and the file contents stay as they are; strings and
/// output are only added to; lists, objects and functions are never
/// removed.
pub open spec fn grows(a: RState, b: RState) -> bool {
    &&& b.loadables == a.loadables
    &&& b.floats == a.floats
    &&& b.files == a.files
    &&& is_prefix(a.strings, b.strings)
    &&& a.lists.len() <= b.lists.len()
    &&& a.objects.len() <= b.objects.len()
    &&& a.functions.len() <= b.functions.len()
    &&& is_prefix(a.output, b.output)
}

/// What an evaluation step from `a` that ended in `b` with result `r`
/// keeps: `b` grows from `a`, and on success the stack of scopes has its
/// height again.
pub open spec fn kept<T>(a: RState, b: RState, r: Result<T, SpecStop>) -> bool {
    &&& grows(a, b)
    &&& r is Ok ==> b.scopes.len() == a.scopes.len()
}

proof fn lemma_assign_keeps(st: RState, name: Seq<char>, v: Value)
    ensures
        grows(st, assign_var(st, name, v)),
        assign_var(st, name, v).scopes.len() == st.scopes.len(),
        assign_var(st, name, v).output == st.output,
{
}

proof fn lemma_bind_args_keeps(st: RState, names: Seq<Seq<char>>, args: Seq<Value>, i: int)
    ensures
        grows(st, bind_args(st, names, args, i)),
        bind_args(st, names, args, i).scopes.len() == st.scopes.len(),
    decreases names.len() - i,
{
    if 0 <= i < names.len() {
        let v = if i < args.len() { args[i] } else { Value::Nil };
        lemma_assign_keeps(st, names[i], v);
        lemma_bind_args_keeps(assign_var(st, names[i], v), names, args, i + 1);
    }
}

proof fn lemma_bind_closure_keeps(st: RState, closure: Seq<(Seq<char>, Value)>, i: int)
    ensures
        grows(st, bind_closure(st, closure, i)),
        bind_closure(st, closure, i).scopes.len() == st.scopes.len(),
    decreases closure.len() - i,
{
    if 0 <= i < closure.len() {
        lemma_assign_keeps(st, closure[i].0, closure[i].1);
        lemma_bind_closure_keeps(assign_var(st, closure[i].0, closure[i].1), closure, i + 1);
    }
}

pub(crate) proof fn lemma_enter_keeps(st: RState, fun: SpecFunction, args: Seq<Value>, refl: Option<Value>)
    ensures
        grows(st, enter(st, fun, args, refl)),
        enter(st, fun, args, refl).scopes.len() == st.scopes.len() + 1,
{
    let st1 = RState { scopes: st.scopes.push(Seq::empty()), ..st };
    lemma_bind_closure_keeps(st1, fun.closure, 0);
    let st2 = bind_closure(st1, fun.closure, 0);
    lemma_bind_args_keeps(st2, fun.args, args, 0);
    let st3 = bind_args(st2, fun.args, args, 0);
    lemma_assign_keeps(st3, "self"@, Value::Nil);
    if refl is Some {
        lemma_assign_keeps(st3, "self"@, refl.unwrap());
    }
}

pub(crate) proof fn lemma_native_get_keeps(st: RState, m: Module, field: Seq<char>)
    ensures
        grows(st, native_get(st, m, field).0),
        native_get(st, m, field).0.scopes == st.scopes,
{
}

pub(crate) proof fn lemma_eval_keeps(st: RState, e: SpecExpr, fuel: nat)
    ensures
        kept(st, spec_eval(st, e, fuel).0, spec_eval(st, e, fuel).1),
    decreases fuel, 0nat, 0nat,
{
    if fuel > 0 {
        let f = (fuel - 1) as nat;
        match e {
            SpecExpr::Object(fields) => {
                lemma_fields_keeps(st, fields, 0, Seq::empty(), f);
            },
            SpecExpr::List(items) => {
                lemma_items_keeps(st, items, 0, Seq::empty(), f);
            },
            SpecExpr::Function { args, value, closure, reflection } => {
                lemma_capture_keeps(st, closure, 0, Seq::empty(), f);
            },
            SpecExpr::If { cond, value, else_value } => {
                lemma_eval_keeps(st, *cond, f);
                let (st1, r) = spec_eval(st, *cond, f);
                if let Ok(c) = r {
                    lemma_eval_keeps(st1, *value, f);
                    lemma_eval_keeps(st1, *else_value, f);
                }
            },
            SpecExpr::While { cond, value, else_value } => {
                lemma_while_keeps(st, *cond, *value, *else_value, f, false, Value::Nil);
            },
            SpecExpr::Binding { target, value } => {
                lemma_eval_keeps(st, *value, f);
                let (st1, r) = spec_eval(st, *value, f);
                if let Ok(v) = r {
                    lemma_set_keeps(st1, target, v, f);
                }
            },
            SpecExpr::Chain(exprs) => {
                lemma_chain_keeps(st, exprs, 0, Value::Nil, f);
            },
            SpecExpr::Access(t) => {
                lemma_get_keeps(st, t, f);
            },
            SpecExpr::Identifier(name) => {
                lemma_get_keeps(st, SpecTarget::Var(name), f);
            },
            SpecExpr::FuncCall { func, args } => {
                lemma_call_expr_keeps(st, *func, args, f);
            },
            _ => {},
        }
    }
}

proof fn lemma_call_expr_keeps(st: RState, func: SpecExpr, args: Seq<SpecExpr>, f: nat)
    ensures
        ({
            let (s2, r) = spec_eval(st, SpecExpr::FuncCall { func: Box::new(func), args }, f + 1);
            kept(st, s2, r)
        }),
    decreases f, 3nat, 0nat,
{
    lemma_items_keeps(st, args, 0, Seq::empty(), f);
    let (st1, r) = spec_eval_items(st, args, 0, Seq::empty(), f);
    if let Ok(argv) = r {
        match func {
            SpecExpr::Access(SpecTarget::Field { var, field }) => {
                lemma_eval_keeps(st1, *var, f);
                let (st2, r2) = spec_eval(st1, *var, f);
                match r2 {
                    Ok(Value::Object(id)) => {
                        if id < st2.objects.len() {
                            if let Some(fv) = assoc_get(st2.objects[id as int], field) {
                                lemma_call_keeps(st2, fv, argv, Some(Value::Object(id)), f);
                            }
                        }
                    },
                    Ok(Value::NativeObject(m)) => {
                        lemma_native_get_keeps(st2, m, field);
                        let (st3, fv) = native_get(st2, m, field);
                        lemma_call_keeps(st3, fv, argv, None, f);
                    },
                    _ => {},
                }
            },
            _ => {
                lemma_eval_keeps(st1, func, f);
                let (st2, r2) = spec_eval(st1, func, f);
                if let Ok(fv) = r2 {
                    lemma_call_keeps(st2, fv, argv, None, f);
                }
            },
        }
    }
}

pub(crate) proof fn lemma_while_keeps(st: RState, cond: SpecExpr, value: SpecExpr, else_value: SpecExpr, lf: nat, turned: bool, res: Value)
    ensures
        kept(st, spec_while(st, cond, value, else_value, lf, turned, res).0, spec_while(st, cond, value, else_value, lf, turned, res).1),
    decreases lf, 1nat, 0nat,
{
    if lf > 0 {
        let f = (lf - 1) as nat;
        lemma_eval_keeps(st, cond, f);
        let (st1, r) = spec_eval(st, cond, f);
        if let Ok(c) = r {
            lemma_eval_keeps(st1, value, f);
            lemma_eval_keeps(st1, else_value, f);
            let (st2, r2) = spec_eval(st1, value, f);
            if let Ok(v) = r2 {
                lemma_while_keeps(st2, cond, value, else_value, f, true, v);
            }
        }
    }
}

pub(crate) proof fn lemma_chain_keeps(st: RState, exprs: Seq<SpecExpr>, i: int, res: Value, f: nat)
    ensures
        kept(st, spec_chain(st, exprs, i, res, f).0, spec_chain(st, exprs, i, res, f).1),
    decreases f, 1nat, exprs.len() - i,
{
    if 0 <= i < exprs.len() {
        lemma_eval_keeps(st, exprs[i], f);
        let (st1, r) = spec_eval(st, exprs[i], f);
        if let Ok(v) = r {
            lemma_chain_keeps(st1, exprs, i + 1, v, f);
        }
    }
}

pub(crate) proof fn lemma_items_keeps(st: RState, exprs: Seq<SpecExpr>, i: int, acc: Seq<Value>, f: nat)
    ensures
        kept(st, spec_eval_items(st, exprs, i, acc, f).0, spec_eval_items(st, exprs, i, acc, f).1),
    decreases f, 1nat, exprs.len() - i,
{
    if 0 <= i < exprs.len() {
        lemma_eval_keeps(st, exprs[i], f);
        let (st1, r) = spec_eval(st, exprs[i], f);
        if let Ok(v) = r {
            lemma_items_keeps(st1, exprs, i + 1, acc.push(v), f);
        }
    }
}

pub(crate) proof fn lemma_fields_keeps(st: RState, fields: Seq<(Seq<char>, SpecExpr)>, i: int, acc: Seq<(Seq<char>, Value)>, f: nat)
    ensures
        kept(st, spec_eval_fields(st, fields, i, acc, f).0, spec_eval_fields(st, fields, i, acc, f).1),
    decreases f, 1nat, fields.len() - i,
{
    if 0 <= i < fields.len() {
        lemma_eval_keeps(st, fields[i].1, f);
        let (st1, r) = spec_eval(st, fields[i].1, f);
        if let Ok(v) = r {
            lemma_fields_keeps(st1, fields, i + 1, assoc_set(acc, fields[i].0, v), f);
        }
    }
}

pub(crate) proof fn lemma_capture_keeps(st: RState, names: Seq<Seq<char>>, i: int, acc: Seq<(Seq<char>, Value)>, f: nat)
    ensures
        kept(st, spec_capture(st, names, i, acc, f).0, spec_capture(st, names, i, acc, f).1),
    decreases f, 1nat, names.len() - i,
{
    if 0 <= i < names.len() {
        let e = SpecExpr::Access(SpecTarget::Var(names[i]));
        lemma_eval_keeps(st, e, f);
        let (st1, r) = spec_eval(st, e, f);
        if let Ok(v) = r {
            lemma_capture_keeps(st1, names, i + 1, assoc_set(acc, names[i], v), f);
        }
    }
}

pub(crate) proof fn lemma_get_keeps(st: RState, t: SpecTarget, f: nat)
    ensures
        kept(st, spec_get_val(st, t, f).0, spec_get_val(st, t, f).1),
    decreases f, 1nat, 0nat,
{
    match t {
        SpecTarget::Var(name) => {},
        SpecTarget::Field { var, field } => {
            lemma_eval_keeps(st, *var, f);
            let (st1, r) = spec_eval(st, *var, f);
            if let Ok(Value::NativeObject(m)) = r {
                lemma_native_get_keeps(st1, m, field);
            }
        },
        SpecTarget::Index { var, index } => {
            lemma_eval_keeps(st, *index, f);
            let (st1, r) = spec_eval(st, *index, f);
            lemma_eval_keeps(st1, *var, f);
        },
    }
}

pub(crate) proof fn lemma_set_keeps(st: RState, t: SpecTarget, v: Value, f: nat)
    ensures
        kept(st, spec_set_val(st, t, v, f).0, spec_set_val(st, t, v, f).1),
    decreases f, 1nat, 0nat,
{
    match t {
        SpecTarget::Var(name) => {
            lemma_assign_keeps(st, name, v);
        },
        SpecTarget::Field { var, field } => {
            lemma_eval_keeps(st, *var, f);
        },
        SpecTarget::Index { var, index } => {
            lemma_eval_keeps(st, *index, f);
            let (st1, r) = spec_eval(st, *index, f);
            lemma_eval_keeps(st1, *var, f);
        },
    }
}

pub(crate) proof fn lemma_call_keeps(st: RState, fv: Value, args: Seq<Value>, refl: Option<Value>, f: nat)
    ensures
        kept(st, spec_call(st, fv, args, refl, f).0, spec_call(st, fv, args, refl, f).1),
    decreases f, 2nat, 0nat,
{
    match fv {
        Value::Function(id) => {
            if id < st.functions.len() {
                let fun = st.functions[id as int];
                lemma_enter_keeps(st, fun, args, refl);
                lemma_eval_keeps(enter(st, fun, args, refl), fun.value, f);
            }
        },
        Value::NativeFunction(nf) => {
            lemma_native_keeps(st, nf, args, f);
        },
        _ => {},
    }
}

pub(crate) proof fn lemma_native_keeps(st: RState, nf: NativeFunction, args: Seq<Value>, f: nat)
    ensures
        kept(st, spec_native(st, nf, args, f).0, spec_native(st, nf, args, f).1),
    decreases f, 1nat, 0nat,
{
    if nf == NativeFunction::Import && args.len() >= 1 {
        if let Value::Str(id) = args[0] {
            if id < st.strings.len() {
                let name = st.strings[id as int];
                if let Some(Some(src)) = file_source(st, name) {
                    let st1 = after_parse(st, src);
                    assert(grows(st, st1));
                    lemma_eval_keeps(st1, parse_at(src, 0).0, f);
                }
            }
        }
    }
}

/// Evaluation only ever adds: whatever an expression does, the built-in
/// modules, the answers about numbers and the file contents are left as
/// they are, strings and output lines are only appended, no list, object
/// or function disappears, and an evaluation that succeeds leaves the
/// stack of scopes at the height it found it.
pub proof fn law_eval_grows(st: RState, e: SpecExpr, fuel: nat)
    ensures
        grows(st, spec_eval(st, e, fuel).0),
        spec_eval(st, e, fuel).1 is Ok ==> spec_eval(st, e, fuel).0.scopes.len() == st.scopes.len(),
{
    lemma_eval_keeps(st, e, fuel);
}

/// A list literal makes a new list: its items are evaluated first, and the
/// list takes the id one past every list that existed then, so it holds
/// the items' values and leaves every earlier list as the items left it.
pub proof fn law_list_literal_new(st: RState, items: Seq<SpecExpr>, f: nat)
    ensures
        ({
            let (st1, ri) = spec_eval_items(st, items, 0, Seq::empty(), f);
            let (st2, r) = spec_eval(st, SpecExpr::List(items), f + 1);
            &&& st.lists.len() <= st1.lists.len()
            &&& ri matches Ok(vs) ==> r == Ok::<Value, SpecStop>(Value::List(st1.lists.len() as usize))
                && st2.lists == st1.lists.push(vs)
            &&& ri is Err ==> r is Err
        }),
{
    lemma_items_keeps(st, items, 0, Seq::empty(), f);
}

/// An object literal makes a new object in the same way: its fields are
/// evaluated first, and the object takes the id one past every object that
/// existed then.
pub proof fn law_object_literal_new(st: RState, fields: Seq<(Seq<char>, SpecExpr)>, f: nat)
    ensures
        ({
            let (st1, ro) = spec_eval_fields(st, fields, 0, Seq::empty(), f);
            let (st2, r) = spec_eval(st, SpecExpr::Object(fields), f + 1);
            &&& st.objects.len() <= st1.objects.len()
            &&& ro matches Ok(o) ==> r == Ok::<Value, SpecStop>(Value::Object(st1.objects.len() as usize))
                && st2.objects == st1.objects.push(o)
            &&& ro is Err ==> r is Err
        }),
{
    lemma_fields_keeps(st, fields, 0, Seq::empty(), f);
}

/// Whether a result is the stop for want of fuel.
pub open spec fn ran_out<T>(r: Result<T, SpecStop>) -> bool {
    r matches Err(SpecStop::OutOfFuel)
}

proof fn lemma_repr_fuel(st: RState, v: Value, f: nat, g: nat)
    requires
        f <= g,
        !ran_out(spec_repr(st, v, f)),
    ensures
        spec_repr(st, v, g) == spec_repr(st, v, f),
    decreases f, 0nat, 0nat,
{
    let f1 = (f - 1) as nat;
    let g1 = (g - 1) as nat;
    match v {
        Value::List(id) => {
            if id < st.lists.len() && !ran_out(spec_repr_items(st, st.lists[id as int], 0, Seq::empty(), f1)) {
                lemma_repr_items_fuel(st, st.lists[id as int], 0, Seq::empty(), f1, g1);
            }
        },
        Value::Object(id) => {
            if id < st.objects.len() && !ran_out(spec_repr_fields(st, st.objects[id as int], 0, Seq::empty(), f1)) {
                lemma_repr_fields_fuel(st, st.objects[id as int], 0, Seq::empty(), f1, g1);
            }
        },
        _ => {},
    }
}

proof fn lemma_repr_items_fuel(st: RState, items: Seq<Value>, i: int, acc: Seq<Seq<char>>, f: nat, g: nat)
    requires
        f <= g,
        !ran_out(spec_repr_items(st, items, i, acc, f)),
    ensures
        spec_repr_items(st, items, i, acc, g) == spec_repr_items(st, items, i, acc, f),
    decreases f, 1nat, items.len() - i,
{
    if 0 <= i < items.len() {
        if !ran_out(spec_repr(st, items[i], f)) {
            lemma_repr_fuel(st, items[i], f, g);
            if let Ok(t) = spec_repr(st, items[i], f) {
                lemma_repr_items_fuel(st, items, i + 1, acc.push(t), f, g);
            }
        }
    }
}

proof fn lemma_repr_fields_fuel(st: RState, fields: Seq<(Seq<char>, Value)>, i: int, acc: Seq<Seq<char>>, f: nat, g: nat)
    requires
        f <= g,
        !ran_out(spec_repr_fields(st, fields, i, acc, f)),
    ensures
        spec_repr_fields(st, fields, i, acc, g) == spec_repr_fields(st, fields, i, acc, f),
    decreases f, 1nat, fields.len() - i,
{
    if 0 <= i < fields.len() {
        if !ran_out(spec_repr(st, fields[i].1, f)) {
            lemma_repr_fuel(st, fields[i].1, f, g);
            if let Ok(t) = spec_repr(st, fields[i].1, f) {
                lemma_repr_fields_fuel(st, fields, i + 1, acc.push(fields[i].0 + ": "@ + t), f, g);
            }
        }
    }
}

proof fn lemma_print_line_fuel(st: RState, args: Seq<Value>, i: int, acc: Seq<char>, f: nat, g: nat)
    requires
        f <= g,
        !ran_out(spec_print_line(st, args, i, acc, f)),
    ensures
        spec_print_line(st, args, i, acc, g) == spec_print_line(st, args, i, acc, f),
    decreases args.len() - i,
{
    if 0 <= i < args.len() {
        if !ran_out(spec_repr(st, args[i], f)) {
            lemma_repr_fuel(st, args[i], f, g);
            if let Ok(t) = spec_repr(st, args[i], f) {
                lemma_print_line_fuel(st, args, i + 1, acc + t + " "@, f, g);
            }
        }
    }
}

proof fn lemma_eval_fuel(st: RState, e: SpecExpr, f: nat, g: nat)
    requires
        f <= g,
        !ran_out(spec_eval(st, e, f).1),
    ensures
        spec_eval(st, e, g) == spec_eval(st, e, f),
    decreases f, 0nat, 0nat,
{
    let f1 = (f - 1) as nat;
    let g1 = (g - 1) as nat;
    match e {
        SpecExpr::Object(fields) => {
            if !ran_out(spec_eval_fields(st, fields, 0, Seq::empty(), f1).1) {
                lemma_fields_fuel(st, fields, 0, Seq::empty(), f1, g1);
            }
        },
        SpecExpr::List(items) => {
            if !ran_out(spec_eval_items(st, items, 0, Seq::empty(), f1).1) {
                lemma_items_fuel(st, items, 0, Seq::empty(), f1, g1);
            }
        },
        SpecExpr::Function { args, value, closure, reflection } => {
            if !ran_out(spec_capture(st, closure, 0, Seq::empty(), f1).1) {
                lemma_capture_fuel(st, closure, 0, Seq::empty(), f1, g1);
            }
        },
        SpecExpr::If { cond, value, else_value } => {
            let (st1, r) = spec_eval(st, *cond, f1);
            if !ran_out(r) {
                lemma_eval_fuel(st, *cond, f1, g1);
                if !ran_out(spec_eval(st1, *value, f1).1) {
                    lemma_eval_fuel(st1, *value, f1, g1);
                }
                if !ran_out(spec_eval(st1, *else_value, f1).1) {
                    lemma_eval_fuel(st1, *else_value, f1, g1);
                }
            }
        },
        SpecExpr::While { cond, value, else_value } => {
            if !ran_out(spec_while(st, *cond, *value, *else_value, f1, false, Value::Nil).1) {
                lemma_while_fuel(st, *cond, *value, *else_value, f1, g1, false, Value::Nil);
            }
        },
        SpecExpr::Binding { target, value } => {
            let (st1, r) = spec_eval(st, *value, f1);
            if !ran_out(r) {
                lemma_eval_fuel(st, *value, f1, g1);
                if let Ok(v) = r {
                    if !ran_out(spec_set_val(st1, target, v, f1).1) {
                        lemma_set_fuel(st1, target, v, f1, g1);
                    }
                }
            }
        },
        SpecExpr::Chain(exprs) => {
            if !ran_out(spec_chain(st, exprs, 0, Value::Nil, f1).1) {
                lemma_chain_fuel(st, exprs, 0, Value::Nil, f1, g1);
            }
        },
        SpecExpr::Access(t) => {
            if !ran_out(spec_get_val(st, t, f1).1) {
                lemma_get_fuel(st, t, f1, g1);
            }
        },
        SpecExpr::Identifier(name) => {
            if !ran_out(spec_get_val(st, SpecTarget::Var(name), f1).1) {
                lemma_get_fuel(st, SpecTarget::Var(name), f1, g1);
            }
        },
        SpecExpr::FuncCall { func, args } => {
            lemma_call_expr_fuel(st, *func, args, f1, g1);
        },
        _ => {},
    }
}

proof fn lemma_call_expr_fuel(st: RState, func: SpecExpr, args: Seq<SpecExpr>, f: nat, g: nat)
    requires
        f <= g,
        !ran_out(spec_eval(st, SpecExpr::FuncCall { func: Box::new(func), args }, f + 1).1),
    ensures
        spec_eval(st, SpecExpr::FuncCall { func: Box::new(func), args }, g + 1)
            == spec_eval(st, SpecExpr::FuncCall { func: Box::new(func), args }, f + 1),
    decreases f, 3nat, 0nat,
{
    let (st1, r) = spec_eval_items(st, args, 0, Seq::empty(), f);
    if !ran_out(r) {
        lemma_items_fuel(st, args, 0, Seq::empty(), f, g);
        if let Ok(argv) = r {
            match func {
                SpecExpr::Access(SpecTarget::Field { var, field }) => {
                    let (st2, r2) = spec_eval(st1, *var, f);
                    if !ran_out(r2) {
                        lemma_eval_fuel(st1, *var, f, g);
                        match r2 {
                            Ok(Value::Object(id)) => {
                                if id < st2.objects.len() {
                                    if let Some(fv) = assoc_get(st2.objects[id as int], field) {
                                        if !ran_out(spec_call(st2, fv, argv, Some(Value::Object(id)), f).1) {
                                            lemma_call_fuel(st2, fv, argv, Some(Value::Object(id)), f, g);
                                        }
                                    }
                                }
                            },
                            Ok(Value::NativeObject(m)) => {
                                let (st3, fv) = native_get(st2, m, field);
                                if !ran_out(spec_call(st3, fv, argv, None, f).1) {
                                    lemma_call_fuel(st3, fv, argv, None, f, g);
                                }
                            },
                            _ => {},
                        }
                    }
                },
                _ => {
                    let (st2, r2) = spec_eval(st1, func, f);
                    if !ran_out(r2) {
                        lemma_eval_fuel(st1, func, f, g);
                        if let Ok(fv) = r2 {
                            if !ran_out(spec_call(st2, fv, argv, None, f).1) {
                                lemma_call_fuel(st2, fv, argv, None, f, g);
                            }
                        }
                    }
                },
            }
        }
    }
}

proof fn lemma_while_fuel(st: RState, cond: SpecExpr, value: SpecExpr, else_value: SpecExpr, lf: nat, lg: nat, turned: bool, res: Value)
    requires
        lf <= lg,
        !ran_out(spec_while(st, cond, value, else_value, lf, turned, res).1),
    ensures
        spec_while(st, cond, value, else_value, lg, turned, res) == spec_while(st, cond, value, else_value, lf, turned, res),
    decreases lf, 1nat, 0nat,
{
    let f = (lf - 1) as nat;
    let g = (lg - 1) as nat;
    let (st1, r) = spec_eval(st, cond, f);
    if !ran_out(r) {
        lemma_eval_fuel(st, cond, f, g);
        if let Ok(c) = r {
            let (st2, r2) = spec_eval(st1, value, f);
            if !ran_out(r2) {
                lemma_eval_fuel(st1, value, f, g);
                if let Ok(v) = r2 {
                    if !ran_out(spec_while(st2, cond, value, else_value, f, true, v).1) {
                        lemma_while_fuel(st2, cond, value, else_value, f, g, true, v);
                    }
                }
            }
            if !ran_out(spec_eval(st1, else_value, f).1) {
                lemma_eval_fuel(st1, else_value, f, g);
            }
        }
    }
}

proof fn lemma_chain_fuel(st: RState, exprs: Seq<SpecExpr>, i: int, res: Value, f: nat, g: nat)
    requires
        f <= g,
        !ran_out(spec_chain(st, exprs, i, res, f).1),
    ensures
        spec_chain(st, exprs, i, res, g) == spec_chain(st, exprs, i, res, f),
    decreases f, 1nat, exprs.len() - i,
{
    if 0 <= i < exprs.len() {
        let (st1, r) = spec_eval(st, exprs[i], f);
        if !ran_out(r) {
            lemma_eval_fuel(st, exprs[i], f, g);
            if let Ok(v) = r {
                lemma_chain_fuel(st1, exprs, i + 1, v, f, g);
            }
        }
    }
}

proof fn lemma_items_fuel(st: RState, exprs: Seq<SpecExpr>, i: int, acc: Seq<Value>, f: nat, g: nat)
    requires
        f <= g,
        !ran_out(spec_eval_items(st, exprs, i, acc, f).1),
    ensures
        spec_eval_items(st, exprs, i, acc, g) == spec_eval_items(st, exprs, i, acc, f),
    decreases f, 1nat, exprs.len() - i,
{
    if 0 <= i < exprs.len() {
        let (st1, r) = spec_eval(st, exprs[i], f);
        if !ran_out(r) {
            lemma_eval_fuel(st, exprs[i], f, g);
            if let Ok(v) = r {
                lemma_items_fuel(st1, exprs, i + 1, acc.push(v), f, g);
            }
        }
    }
}

proof fn lemma_fields_fuel(st: RState, fields: Seq<(Seq<char>, SpecExpr)>, i: int, acc: Seq<(Seq<char>, Value)>, f: nat, g: nat)
    requires
        f <= g,
        !ran_out(spec_eval_fields(st, fields, i, acc, f).1),
    ensures
        spec_eval_fields(st, fields, i, acc, g) == spec_eval_fields(st, fields, i, acc, f),
    decreases f, 1nat, fields.len() - i,
{
    if 0 <= i < fields.len() {
        let (st1, r) = spec_eval(st, fields[i].1, f);
        if !ran_out(r) {
            lemma_eval_fuel(st, fields[i].1, f, g);
            if let Ok(v) = r {
                lemma_fields_fuel(st1, fields, i + 1, assoc_set(acc, fields[i].0, v), f, g);
            }
        }
    }
}

proof fn lemma_capture_fuel(st: RState, names: Seq<Seq<char>>, i: int, acc: Seq<(Seq<char>, Value)>, f: nat, g: nat)
    requires
        f <= g,
        !ran_out(spec_capture(st, names, i, acc, f).1),
    ensures
        spec_capture(st, names, i, acc, g) == spec_capture(st, names, i, acc, f),
    decreases f, 1nat, names.len() - i,
{
    if 0 <= i < names.len() {
        let e = SpecExpr::Access(SpecTarget::Var(names[i]));
        let (st1, r) = spec_eval(st, e, f);
        if !ran_out(r) {
            lemma_eval_fuel(st, e, f, g);
            if let Ok(v) = r {
                lemma_capture_fuel(st1, names, i + 1, assoc_set(acc, names[i], v), f, g);
            }
        }
    }
}

proof fn lemma_get_fuel(st: RState, t: SpecTarget, f: nat, g: nat)
    requires
        f <= g,
        !ran_out(spec_get_val(st, t, f).1),
    ensures
        spec_get_val(st, t, g) == spec_get_val(st, t, f),
    decreases f, 1nat, 0nat,
{
    match t {
        SpecTarget::Var(name) => {},
        SpecTarget::Field { var, field } => {
            if !ran_out(spec_eval(st, *var, f).1) {
                lemma_eval_fuel(st, *var, f, g);
            }
        },
        SpecTarget::Index { var, index } => {
            let (st1, r) = spec_eval(st, *index, f);
            if !ran_out(r) {
                lemma_eval_fuel(st, *index, f, g);
                if !ran_out(spec_eval(st1, *var, f).1) {
                    lemma_eval_fuel(st1, *var, f, g);
                }
            }
        },
    }
}

proof fn lemma_set_fuel(st: RState, t: SpecTarget, v: Value, f: nat, g: nat)
    requires
        f <= g,
        !ran_out(spec_set_val(st, t, v, f).1),
    ensures
        spec_set_val(st, t, v, g) == spec_set_val(st, t, v, f),
    decreases f, 1nat, 0nat,
{
    match t {
        SpecTarget::Var(name) => {},
        SpecTarget::Field { var, field } => {
            if !ran_out(spec_eval(st, *var, f).1) {
                lemma_eval_fuel(st, *var, f, g);
            }
        },
        SpecTarget::Index { var, index } => {
            let (st1, r) = spec_eval(st, *index, f);
            if !ran_out(r) {
                lemma_eval_fuel(st, *index, f, g);
                if !ran_out(spec_eval(st1, *var, f).1) {
                    lemma_eval_fuel(st1, *var, f, g);
                }
            }
        },
    }
}

proof fn lemma_call_fuel(st: RState, fv: Value, args: Seq<Value>, refl: Option<Value>, f: nat, g: nat)
    requires
        f <= g,
        !ran_out(spec_call(st, fv, args, refl, f).1),
    ensures
        spec_call(st, fv, args, refl, g) == spec_call(st, fv, args, refl, f),
    decreases f, 2nat, 0nat,
{
    match fv {
        Value::Function(id) => {
            if id < st.functions.len() {
                let fun = st.functions[id as int];
                if !ran_out(spec_eval(enter(st, fun, args, refl), fun.value, f).1) {
                    lemma_eval_fuel(enter(st, fun, args, refl), fun.value, f, g);
                }
            }
        },
        Value::NativeFunction(nf) => {
            if !ran_out(spec_native(st, nf, args, f).1) {
                lemma_native_fuel(st, nf, args, f, g);
            }
        },
        _ => {},
    }
}

proof fn lemma_native_fuel(st: RState, nf: NativeFunction, args: Seq<Value>, f: nat, g: nat)
    requires
        f <= g,
        !ran_out(spec_native(st, nf, args, f).1),
    ensures
        spec_native(st, nf, args, g) == spec_native(st, nf, args, f),
    decreases f, 1nat, 0nat,
{
    if nf == NativeFunction::Import && args.len() >= 1 {
        if let Value::Str(id) = args[0] {
            if id < st.strings.len() {
                let name = st.strings[id as int];
                if let Some(Some(src)) = file_source(st, name) {
                    let st1 = after_parse(st, src);
                    if !ran_out(spec_eval(st1, parse_at(src, 0).0, f).1) {
                        lemma_eval_fuel(st1, parse_at(src, 0).0, f, g);
                    }
                }
            }
        }
    }
    if nf == NativeFunction::Print && !ran_out(spec_print_line(st, args, 0, Seq::empty(), f)) {
        lemma_print_line_fuel(st, args, 0, Seq::empty(), f, g);
    }
}

/// Fuel only bounds the work: an evaluation that did not stop for want of
/// fuel ends in the same state with the same result given any more fuel.
pub proof fn law_fuel_suffices(st: RState, e: SpecExpr, f: nat, g: nat)
    requires
        f <= g,
        !ran_out(spec_eval(st, e, f).1),
    ensures
        spec_eval(st, e, g) == spec_eval(st, e, f),
{
    lemma_eval_fuel(st, e, f, g);
}

/// `list.push(l, x)` puts `x` at the end of `l`, and `list.len(l)` then
/// gives the old length plus one.
pub proof fn law_push_then_len(st: RState, id: usize, x: Value, f: nat)
    requires
        id < st.lists.len(),
        st.lists[id as int].len() + 1 <= usize::MAX,
    ensures
        ({
            let (s1, r1) = spec_native(st, NativeFunction::Push, seq![Value::List(id), x], f);
            let n = (st.lists[id as int].len() + 1) as usize;
            &&& r1 == Ok::<Value, SpecStop>(Value::Nil)
            &&& s1.lists[id as int] == st.lists[id as int].push(x)
            &&& spec_native(s1, NativeFunction::Len, seq![Value::List(id)], f).1 == match float_bits(st, SpecFloatOp::FromCount(n)) {
                Some(b) => Ok(Value::Number(b)),
                None => Err(SpecStop::NeedFloat(SpecFloatOp::FromCount(n))),
            }
        }),
{
}

/// After a field is written, `Obj.has` finds it.
pub proof fn law_has_after_field_write(st: RState, var: Seq<char>, field: Seq<char>, v: Value, sid: usize, f: nat)
    requires
        f >= 1,
        read_var(st, var).1 matches Value::Object(id) && id < st.objects.len(),
        sid < st.strings.len(),
        st.strings[sid as int] == field,
    ensures
        ({
            let id = read_var(st, var).1->Object_0;
            let s1 = spec_set_val(st, field_of(var, field), v, f).0;
            spec_obj_has(s1, seq![Value::Object(id), Value::Str(sid)]) == (s1, Ok::<Value, SpecStop>(Value::Bool(true)))
        }),
{
    let id = read_var(st, var).1->Object_0;
    law_field_read_after_write(st, var, field, v, f);
    let s1 = spec_set_val(st, field_of(var, field), v, f).0;
    let acc = SpecExpr::Access(SpecTarget::Var(var));
    assert(read_var(st, var).0 == st);
    assert(spec_get_val(st, SpecTarget::Var(var), (f - 1) as nat) == (st, Ok::<Value, SpecStop>(Value::Object(id))));
    assert(spec_eval(st, acc, f) == (st, Ok::<Value, SpecStop>(Value::Object(id))));
    assert(s1.objects[id as int] == assoc_set(st.objects[id as int], field, v));
    law_assoc_get_set(st.objects[id as int], field, v);
}

/// Where a binding stores its value: in the current scope when the name
/// is bound there or nowhere, and in the globals when only the globals bind
/// it. No other scope is touched.
pub proof fn law_binding_scope(st: RState, name: Seq<char>, v: Value)
    ensures
        (key_pos(scope(st), name, 0) is Some || key_pos(st.globals, name, 0) is None) ==> ({
            &&& scope(assign_var(st, name, v)) == assoc_set(scope(st), name, v)
            &&& assign_var(st, name, v).scopes.len() == st.scopes.len()
            &&& forall|i: int| 0 <= i < st.scopes.len() - 1 ==> #[trigger] assign_var(st, name, v).scopes[i] == st.scopes[i]
            &&& st.scopes.len() > 0 ==> assign_var(st, name, v).globals == st.globals
        }),
        (key_pos(scope(st), name, 0) is None && key_pos(st.globals, name, 0) is Some) ==> ({
            &&& assign_var(st, name, v).globals == assoc_set(st.globals, name, v)
            &&& assign_var(st, name, v).scopes == st.scopes
        }),
{
}

/// A number is true in a condition exactly when it is not zero: any bit
/// but the sign bit set. Negative numbers are true, and `-0` is false.
pub proof fn law_number_truth(st: RState, x: u64)
    ensures
        truthy(st, Value::Number(x)) == Ok::<bool, SpecStop>(x & 0x7fff_ffff_ffff_ffffu64 != 0),
        x == 0 ==> truthy(st, Value::Number(x)) == Ok::<bool, SpecStop>(false),
{
    assert(x == 0 ==> x & 0x7fff_ffff_ffff_ffffu64 == 0) by (bit_vector);
}

/// A number and its negation (the same bits with the sign bit flipped) are
/// equally true.
pub proof fn law_negation_keeps_truth(st: RState, x: u64)
    ensures
        truthy(st, Value::Number(x ^ 0x8000_0000_0000_0000u64)) == truthy(st, Value::Number(x)),
{
    assert((x ^ 0x8000_0000_0000_0000u64) & 0x7fff_ffff_ffff_ffffu64 == x & 0x7fff_ffff_ffff_ffffu64) by (bit_vector);
}

/// A string, list or object in memory is true exactly when it is not
/// empty; `nil` is false, a boolean is itself, and functions and modules
/// are true.
pub proof fn law_container_truth(st: RState, v: Value)
    ensures
        v is Nil ==> truthy(st, v) == Ok::<bool, SpecStop>(false),
        v matches Value::Bool(b) ==> truthy(st, v) == Ok::<bool, SpecStop>(b),
        v matches Value::Str(id) ==> id < st.strings.len()
            ==> truthy(st, v) == Ok::<bool, SpecStop>(st.strings[id as int].len() > 0),
        v matches Value::List(id) ==> id < st.lists.len()
            ==> truthy(st, v) == Ok::<bool, SpecStop>(st.lists[id as int].len() > 0),
        v matches Value::Object(id) ==> id < st.objects.len()
            ==> truthy(st, v) == Ok::<bool, SpecStop>(st.objects[id as int].len() > 0),
        (v is Function || v is NativeFunction || v is NativeObject) ==> truthy(st, v) == Ok::<bool, SpecStop>(true),
{
}

/// An object with at least one field is true, and one with none is false.
pub proof fn law_object_truth(st: RState, id: usize, field: Seq<char>, x: Value)
    requires
        id < st.objects.len(),
    ensures
        truthy(st, Value::Object(id)) == Ok::<bool, SpecStop>(st.objects[id as int] != Seq::<(Seq<char>, Value)>::empty()),
        ({
            let st2 = RState { objects: st.objects.update(id as int, assoc_set(st.objects[id as int], field, x)), ..st };
            truthy(st2, Value::Object(id)) == Ok::<bool, SpecStop>(true)
        }),
{
    if st.objects[id as int].len() == 0 {
        assert(st.objects[id as int] =~= Seq::<(Seq<char>, Value)>::empty());
    }
    law_assoc_get_set(st.objects[id as int], field, x);
    let st2 = RState { objects: st.objects.update(id as int, assoc_set(st.objects[id as int], field, x)), ..st };
    assert(st2.objects[id as int] == assoc_set(st.objects[id as int], field, x));
    if st2.objects[id as int].len() == 0 {
        assert(assoc_get(st2.objects[id as int], field) is None);
    }
}

/// What the `i`-th parameter of a call receives: the `i`-th argument, or
/// `nil` where fewer arguments were given.
pub open spec fn argument_for(args: Seq<Value>, i: int) -> Value {
    if 0 <= i < args.len() {
        args[i]
    } else {
        Value::Nil
    }
}

/// Whether no name occurs twice in `names`.
pub open spec fn distinct_names(names: Seq<Seq<char>>) -> bool {
    forall|i: int, j: int| 0 <= i < j < names.len() ==> names[i] != names[j]
}

proof fn lemma_bind_args_reads(st: RState, names: Seq<Seq<char>>, args: Seq<Value>, i: int, k: int)
    requires
        0 <= i,
        0 <= k < names.len(),
        distinct_names(names),
    ensures
        k >= i ==> read_var(bind_args(st, names, args, i), names[k]).1 == argument_for(args, k),
        k < i ==> read_var(bind_args(st, names, args, i), names[k]).1 == read_var(st, names[k]).1,
    decreases names.len() - i,
{
    if i < names.len() {
        let v = argument_for(args, i);
        let st1 = assign_var(st, names[i], v);
        assert(bind_args(st, names, args, i) == bind_args(st1, names, args, i + 1));
        lemma_bind_args_reads(st1, names, args, i + 1, k);
        if k == i {
            law_read_after_assign(st, names[i], v);
        } else if k < i {
            law_assign_other(st, names[i], v, names[k]);
        }
    }
}

/// When a function is called, each of its parameters (named all
/// differently) reads, in the scope where its body runs, as the argument in
/// the same position, and as `nil` where no argument was given for it.
pub proof fn law_call_binds_parameters(st: RState, fun: SpecFunction, args: Seq<Value>, k: int)
    requires
        0 <= k < fun.args.len(),
        distinct_names(fun.args),
    ensures
        read_var(enter(st, fun, args, None), fun.args[k]).1 == argument_for(args, k),
        k < args.len() ==> read_var(enter(st, fun, args, None), fun.args[k]).1 == args[k],
        k >= args.len() ==> read_var(enter(st, fun, args, None), fun.args[k]).1 == Value::Nil,
{
    let st1 = RState { scopes: st.scopes.push(Seq::empty()), ..st };
    let st2 = bind_closure(st1, fun.closure, 0);
    lemma_bind_args_reads(st2, fun.args, args, 0, k);
}

/// A name standing alone reads the variable it names: from the innermost
/// scope where that scope binds it, else from the globals, exactly as a
/// variable access does.
pub proof fn law_identifier_reads_variable(st: RState, name: Seq<char>, f: nat)
    requires
        f >= 1,
    ensures
        spec_eval(st, SpecExpr::Identifier(name), f) == spec_eval(st, SpecExpr::Access(SpecTarget::Var(name)), f),
        spec_eval(st, SpecExpr::Identifier(name), f) == (read_var(st, name).0, Ok::<Value, SpecStop>(read_var(st, name).1)),
        assoc_get(scope(st), name) matches Some(v)
            ==> spec_eval(st, SpecExpr::Identifier(name), f) == (st, Ok::<Value, SpecStop>(v)),
{
    let g = (f - 1) as nat;
    assert(spec_get_val(st, SpecTarget::Var(name), g) == (read_var(st, name).0, Ok::<Value, SpecStop>(read_var(st, name).1)));
    assert(spec_eval(st, SpecExpr::Identifier(name), f) == spec_get_val(st, SpecTarget::Var(name), g));
}

/// The target `name.field`, with the object named by a bare name.
pub open spec fn field_of_name(name: Seq<char>, field: Seq<char>) -> SpecTarget {
    SpecTarget::Field { var: Box::new(SpecExpr::Identifier(name)), field }
}

/// Writing a field of the object that a name holds, inside a function's
/// scope or outside it, and reading it back gives the value written.
pub proof fn law_field_write_through_name(st: RState, name: Seq<char>, field: Seq<char>, v: Value, f: nat)
    requires
        f >= 1,
        read_var(st, name).1 matches Value::Object(id) && id < st.objects.len(),
    ensures
        ({
            let id = read_var(st, name).1->Object_0;
            let (s1, r1) = spec_set_val(st, field_of_name(name, field), v, f);
            &&& r1 == Ok::<Value, SpecStop>(Value::Nil)
            &&& assoc_get(s1.objects[id as int], field) == Some(v)
            &&& spec_get_val(s1, field_of_name(name, field), f) == (s1, Ok::<Value, SpecStop>(v))
        }),
{
    let id = read_var(st, name).1->Object_0;
    let t = field_of_name(name, field);
    let idt = SpecExpr::Identifier(name);
    assert(read_var(st, name).0 == st);
    law_identifier_reads_variable(st, name, f);
    assert(spec_eval(st, idt, f) == (st, Ok::<Value, SpecStop>(Value::Object(id))));
    let o2 = assoc_set(st.objects[id as int], field, v);
    let s1 = RState { objects: st.objects.update(id as int, o2), ..st };
    assert(spec_set_val(st, t, v, f) == (s1, Ok::<Value, SpecStop>(Value::Nil)));
    assert(read_var(s1, name) == (s1, Value::Object(id)));
    law_identifier_reads_variable(s1, name, f);
    assert(spec_eval(s1, idt, f) == (s1, Ok::<Value, SpecStop>(Value::Object(id))));
    law_assoc_get_set(st.objects[id as int], field, v);
    assert(s1.objects[id as int] == o2);
}

/// Whether a character may stand in a name: a letter of either case, a
/// digit or `_`.
pub open spec fn name_char(c: char) -> bool {
    ('a' <= c && c <= 'z') || ('A' <= c && c <= 'Z') || ('0' <= c && c <= '9') || c == '_'
}

/// Whether every character of `s` from `i` up to `k` may stand in a name.
pub open spec fn name_run(s: Seq<char>, i: nat, k: nat) -> bool {
    forall|m: int| i <= m < k ==> #[trigger] name_char(s[m])
}

proof fn lemma_ident_end_run(s: Seq<char>, j: nat, k: nat)
    requires
        j <= k <= s.len(),
        name_run(s, j, k),
        k == s.len() || !name_char(s[k as int]),
    ensures
        ident_end(s, j) == k,
    decreases k - j,
{
    if j < k {
        assert(name_char(s[j as int]));
        lemma_ident_end_run(s, j + 1, k);
    }
}

/// The characters a name is made of: letters of either case, digits and
/// `_`, and nothing else.
pub proof fn law_name_chars(c: char)
    ensures
        is_ident_char(c) == name_char(c),
        'A' <= c && c <= 'Z' ==> is_ident_char(c),
{
}

/// Where a run of letters (of either case), digits and `_` starts, a name
/// is read: the whole run, up to the first character that cannot stand in
/// a name.
pub proof fn law_identifier_reads_name_run(s: Seq<char>, i: nat, k: nat)
    requires
        i < k <= s.len(),
        name_run(s, i, k),
        k == s.len() || !name_char(s[k as int]),
    ensures
        spec_identifier(s, i) == (Some(s.subrange(i as int, k as int)), k),
{
    assert(name_char(s[i as int]));
    assert(spec_trim(s, i) == i);
    lemma_ident_end_run(s, i, k);
}

/// A keyword followed at once by a letter, a digit or `_` is not read as
/// that keyword: it only begins a longer name.
pub proof fn law_keyword_needs_an_end(s: Seq<char>, i: nat, kw: Seq<char>)
    requires
        kw.len() > 0,
        i + kw.len() < s.len(),
        s.subrange(i as int, (i + kw.len()) as int) == kw,
        name_char(s[i as int]),
        name_char(s[(i + kw.len()) as int]),
    ensures
        !spec_keyword(s, i, kw).0,
        spec_keyword(s, i, kw).1 == i,
{
    assert(spec_trim(s, i) == i);
}

} // verus!
