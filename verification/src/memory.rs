//! The interpreter's memory holds no dangling reference: every string,
//! list, object and function that a stored value names exists, and
//! evaluation keeps it so.
use vstd::prelude::*;
use crate::assoc::{assoc_get, assoc_set, key_pos, lemma_key_pos};
use crate::ast::{SpecExpr, SpecTarget};
use crate::laws::{
    grows, lemma_eval_keeps, lemma_set_keeps, lemma_items_keeps, lemma_fields_keeps,
    lemma_capture_keeps, lemma_enter_keeps,
};
use crate::parser::parse_at;
use crate::semantics::{
    RState, SpecFunction, after_parse, assign_var, bind_args, bind_closure, emit, enter,
    file_source, initial_state, leave, native_get, read_var, scope, spec_call, spec_capture,
    spec_chain, spec_eval, spec_eval_fields, spec_eval_items, spec_get_val, spec_native,
    spec_print_line, spec_repr, spec_repr_fields, spec_repr_items, spec_set_val, spec_while,
    base_globals, with_scope,
};
use crate::value::{Module, NativeFunction, SpecOutput, SpecStop, Value};

verus! {

/// Whether the memory that a value names exists.
pub open spec fn valid(st: RState, v: Value) -> bool {
    match v {
        Value::Str(id) => id < st.strings.len(),
        Value::List(id) => id < st.lists.len(),
        Value::Object(id) => id < st.objects.len(),
        Value::Function(id) => id < st.functions.len(),
        _ => true,
    }
}

pub open spec fn valid_values(st: RState, vs: Seq<Value>) -> bool {
    forall|j: int| 0 <= j < vs.len() ==> valid(st, #[trigger] vs[j])
}

pub open spec fn valid_pairs(st: RState, m: Seq<(Seq<char>, Value)>) -> bool {
    forall|j: int| 0 <= j < m.len() ==> valid(st, (#[trigger] m[j]).1)
}

/// Well-formed memory: the items of lists, the fields of objects, what
/// functions captured, and the variables of every scope name only what
/// exists.
pub open spec fn wf(st: RState) -> bool {
    &&& forall|i: int| 0 <= i < st.lists.len() ==> valid_values(st, #[trigger] st.lists[i])
    &&& forall|i: int| 0 <= i < st.objects.len() ==> valid_pairs(st, #[trigger] st.objects[i])
    &&& forall|i: int| 0 <= i < st.functions.len() ==> valid_pairs(st, (#[trigger] st.functions[i]).closure)
    &&& forall|i: int| 0 <= i < st.scopes.len() ==> valid_pairs(st, #[trigger] st.scopes[i])
    &&& valid_pairs(st, st.globals)
}

/// Every file text that the answers hold fits in memory.
pub open spec fn files_fit(st: RState) -> bool {
    forall|i: int| 0 <= i < st.files.len() ==> ((#[trigger] st.files[i]).1 matches Some(src) ==> src.len() < usize::MAX)
}

/// `b`'s memory is at least as large as `a`'s.
pub open spec fn larger(a: RState, b: RState) -> bool {
    &&& a.strings.len() <= b.strings.len()
    &&& a.lists.len() <= b.lists.len()
    &&& a.objects.len() <= b.objects.len()
    &&& a.functions.len() <= b.functions.len()
}

proof fn lemma_values_larger(a: RState, b: RState, vs: Seq<Value>)
    requires
        larger(a, b),
        valid_values(a, vs),
    ensures
        valid_values(b, vs),
{
    assert forall|j: int| 0 <= j < vs.len() implies valid(b, #[trigger] vs[j]) by {
        assert(valid(a, vs[j]));
    }
}

proof fn lemma_pairs_larger(a: RState, b: RState, m: Seq<(Seq<char>, Value)>)
    requires
        larger(a, b),
        valid_pairs(a, m),
    ensures
        valid_pairs(b, m),
{
    assert forall|j: int| 0 <= j < m.len() implies valid(b, (#[trigger] m[j]).1) by {
        assert(valid(a, m[j].1));
    }
}

/// Memory that only grew keeps every value of it valid.
proof fn lemma_wf_larger(a: RState, b: RState)
    requires
        wf(a),
        larger(a, b),
        b.lists == a.lists,
        b.objects == a.objects,
        b.functions == a.functions,
        b.scopes == a.scopes,
        b.globals == a.globals,
    ensures
        wf(b),
{
    assert forall|i: int| 0 <= i < b.lists.len() implies valid_values(b, #[trigger] b.lists[i]) by {
        lemma_values_larger(a, b, a.lists[i]);
    }
    assert forall|i: int| 0 <= i < b.objects.len() implies valid_pairs(b, #[trigger] b.objects[i]) by {
        lemma_pairs_larger(a, b, a.objects[i]);
    }
    assert forall|i: int| 0 <= i < b.functions.len() implies valid_pairs(b, (#[trigger] b.functions[i]).closure) by {
        lemma_pairs_larger(a, b, a.functions[i].closure);
    }
    assert forall|i: int| 0 <= i < b.scopes.len() implies valid_pairs(b, #[trigger] b.scopes[i]) by {
        lemma_pairs_larger(a, b, a.scopes[i]);
    }
    lemma_pairs_larger(a, b, a.globals);
}

proof fn lemma_larger_of_grows(a: RState, b: RState)
    requires
        grows(a, b),
    ensures
        larger(a, b),
{
}

proof fn lemma_pairs_get(st: RState, m: Seq<(Seq<char>, Value)>, k: Seq<char>)
    requires
        valid_pairs(st, m),
    ensures
        assoc_get(m, k) matches Some(v) ==> valid(st, v),
{
    lemma_key_pos(m, k, 0);
    if let Some(t) = key_pos(m, k, 0) {
        assert(valid(st, m[t].1));
    }
}

proof fn lemma_pairs_set(st: RState, m: Seq<(Seq<char>, Value)>, k: Seq<char>, v: Value)
    requires
        valid_pairs(st, m),
        valid(st, v),
    ensures
        valid_pairs(st, assoc_set(m, k, v)),
{
    let m2 = assoc_set(m, k, v);
    lemma_key_pos(m, k, 0);
    assert forall|j: int| 0 <= j < m2.len() implies valid(st, (#[trigger] m2[j]).1) by {
        match key_pos(m, k, 0) {
            Some(t) => {
                if j != t {
                    assert(m2[j] == m[j]);
                    assert(valid(st, m[j].1));
                }
            },
            None => {
                if j < m.len() {
                    assert(m2[j] == m[j]);
                    assert(valid(st, m[j].1));
                }
            },
        }
    }
}

proof fn lemma_scope_valid(st: RState)
    requires
        wf(st),
    ensures
        valid_pairs(st, scope(st)),
{
    if st.scopes.len() > 0 {
        assert(valid_pairs(st, st.scopes[st.scopes.len() - 1]));
    }
}

proof fn lemma_with_scope_wf(st: RState, sc: Seq<(Seq<char>, Value)>)
    requires
        wf(st),
        valid_pairs(st, sc),
    ensures
        wf(with_scope(st, sc)),
{
    let st2 = with_scope(st, sc);
    assert(larger(st, st2));
    assert forall|i: int| 0 <= i < st2.scopes.len() implies valid_pairs(st2, #[trigger] st2.scopes[i]) by {
        if st.scopes.len() > 0 && i == st.scopes.len() - 1 {
            assert(st2.scopes[i] == sc);
        } else {
            assert(st2.scopes[i] == st.scopes[i]);
        }
    }
}

proof fn lemma_assign_wf(st: RState, name: Seq<char>, v: Value)
    requires
        wf(st),
        valid(st, v),
    ensures
        wf(assign_var(st, name, v)),
        larger(st, assign_var(st, name, v)),
{
    lemma_scope_valid(st);
    lemma_pairs_set(st, scope(st), name, v);
    lemma_pairs_set(st, st.globals, name, v);
    lemma_with_scope_wf(st, assoc_set(scope(st), name, v));
}

proof fn lemma_bind_args_wf(st: RState, names: Seq<Seq<char>>, args: Seq<Value>, i: int)
    requires
        wf(st),
        valid_values(st, args),
    ensures
        wf(bind_args(st, names, args, i)),
        larger(st, bind_args(st, names, args, i)),
    decreases names.len() - i,
{
    if 0 <= i < names.len() {
        let v = if i < args.len() { args[i] } else { Value::Nil };
        lemma_assign_wf(st, names[i], v);
        let st2 = assign_var(st, names[i], v);
        lemma_values_larger(st, st2, args);
        lemma_bind_args_wf(st2, names, args, i + 1);
    }
}

proof fn lemma_bind_closure_wf(st: RState, closure: Seq<(Seq<char>, Value)>, i: int)
    requires
        wf(st),
        valid_pairs(st, closure),
    ensures
        wf(bind_closure(st, closure, i)),
        larger(st, bind_closure(st, closure, i)),
    decreases closure.len() - i,
{
    if 0 <= i < closure.len() {
        assert(valid(st, closure[i].1));
        lemma_assign_wf(st, closure[i].0, closure[i].1);
        let st2 = assign_var(st, closure[i].0, closure[i].1);
        lemma_pairs_larger(st, st2, closure);
        lemma_bind_closure_wf(st2, closure, i + 1);
    }
}

proof fn lemma_enter_wf(st: RState, fun: SpecFunction, args: Seq<Value>, refl: Option<Value>)
    requires
        wf(st),
        valid_pairs(st, fun.closure),
        valid_values(st, args),
        refl matches Some(o) ==> valid(st, o),
    ensures
        wf(enter(st, fun, args, refl)),
        larger(st, enter(st, fun, args, refl)),
{
    let st1 = RState { scopes: st.scopes.push(Seq::empty()), ..st };
    assert forall|i: int| 0 <= i < st1.scopes.len() implies valid_pairs(st1, #[trigger] st1.scopes[i]) by {
        if i < st.scopes.len() {
            assert(st1.scopes[i] == st.scopes[i]);
        }
    }
    assert(wf(st1));
    lemma_bind_closure_wf(st1, fun.closure, 0);
    let st2 = bind_closure(st1, fun.closure, 0);
    lemma_values_larger(st1, st2, args);
    lemma_bind_args_wf(st2, fun.args, args, 0);
    let st3 = bind_args(st2, fun.args, args, 0);
    if fun.reflection && refl is Some {
        lemma_assign_wf(st3, "self"@, refl.unwrap());
    }
}

proof fn lemma_leave_wf(st: RState)
    requires
        wf(st),
    ensures
        wf(leave(st)),
        larger(st, leave(st)),
{
    let st2 = leave(st);
    assert forall|i: int| 0 <= i < st2.scopes.len() implies valid_pairs(st2, #[trigger] st2.scopes[i]) by {
        assert(st2.scopes[i] == st.scopes[i]);
    }
}

proof fn lemma_repr_safe(st: RState, v: Value, f: nat)
    requires
        wf(st),
        valid(st, v),
    ensures
        !(spec_repr(st, v, f) matches Err(SpecStop::Corrupted)),
    decreases f, 0nat, 0nat,
{
    if f > 0 {
        let g = (f - 1) as nat;
        match v {
            Value::List(id) => {
                lemma_repr_items_safe(st, st.lists[id as int], 0, Seq::empty(), g);
            },
            Value::Object(id) => {
                lemma_repr_fields_safe(st, st.objects[id as int], 0, Seq::empty(), g);
            },
            _ => {},
        }
    }
}

proof fn lemma_repr_items_safe(st: RState, items: Seq<Value>, i: int, acc: Seq<Seq<char>>, f: nat)
    requires
        wf(st),
        valid_values(st, items),
    ensures
        !(spec_repr_items(st, items, i, acc, f) matches Err(SpecStop::Corrupted)),
    decreases f, 1nat, items.len() - i,
{
    if 0 <= i < items.len() {
        lemma_repr_safe(st, items[i], f);
        if let Ok(t) = spec_repr(st, items[i], f) {
            lemma_repr_items_safe(st, items, i + 1, acc.push(t), f);
        }
    }
}

proof fn lemma_repr_fields_safe(st: RState, fields: Seq<(Seq<char>, Value)>, i: int, acc: Seq<Seq<char>>, f: nat)
    requires
        wf(st),
        valid_pairs(st, fields),
    ensures
        !(spec_repr_fields(st, fields, i, acc, f) matches Err(SpecStop::Corrupted)),
    decreases f, 1nat, fields.len() - i,
{
    if 0 <= i < fields.len() {
        assert(valid(st, fields[i].1));
        lemma_repr_safe(st, fields[i].1, f);
        if let Ok(t) = spec_repr(st, fields[i].1, f) {
            lemma_repr_fields_safe(st, fields, i + 1, acc.push(fields[i].0 + ": "@ + t), f);
        }
    }
}

proof fn lemma_print_line_safe(st: RState, args: Seq<Value>, i: int, acc: Seq<char>, f: nat)
    requires
        wf(st),
        valid_values(st, args),
    ensures
        !(spec_print_line(st, args, i, acc, f) matches Err(SpecStop::Corrupted)),
    decreases args.len() - i,
{
    if 0 <= i < args.len() {
        lemma_repr_safe(st, args[i], f);
        if let Ok(t) = spec_repr(st, args[i], f) {
            lemma_print_line_safe(st, args, i + 1, acc + t + " "@, f);
        }
    }
}

/// A new interpreter's memory is well formed.
pub proof fn law_new_runner_wf()
    ensures
        wf(initial_state()),
        files_fit(initial_state()),
{
    let g = base_globals();
    let st = initial_state();
    let e = Seq::<(Seq<char>, Value)>::empty();
    lemma_pairs_set(st, e, "nil"@, Value::Nil);
    let g1 = assoc_set(e, "nil"@, Value::Nil);
    lemma_pairs_set(st, g1, "true"@, Value::Bool(true));
    let g2 = assoc_set(g1, "true"@, Value::Bool(true));
    lemma_pairs_set(st, g2, "false"@, Value::Bool(false));
    let g3 = assoc_set(g2, "false"@, Value::Bool(false));
    lemma_pairs_set(st, g3, "import"@, Value::NativeFunction(NativeFunction::Import));
}

/// `x` stored at `id`: in place of what is there, or as a new last entry.
spec fn place<T>(s: Seq<T>, id: int, x: T) -> Seq<T> {
    if 0 <= id < s.len() {
        s.update(id, x)
    } else {
        s.push(x)
    }
}

proof fn lemma_emit_wf(st: RState, o: SpecOutput)
    requires
        wf(st),
    ensures
        wf(emit(st, o)),
        larger(st, emit(st, o)),
{
    lemma_wf_larger(st, emit(st, o));
}

proof fn lemma_objects_put_wf(st: RState, id: int, o: Seq<(Seq<char>, Value)>)
    requires
        wf(st),
        valid_pairs(st, o),
        0 <= id <= st.objects.len(),
    ensures
        wf(RState { objects: place(st.objects, id, o), ..st }),
        larger(st, RState { objects: place(st.objects, id, o), ..st }),
        id < place(st.objects, id, o).len(),
{
    let st2 = RState { objects: place(st.objects, id, o), ..st };
    assert(larger(st, st2));
    assert forall|i: int| 0 <= i < st2.lists.len() implies valid_values(st2, #[trigger] st2.lists[i]) by {
        lemma_values_larger(st, st2, st.lists[i]);
    }
    assert forall|i: int| 0 <= i < st2.objects.len() implies valid_pairs(st2, #[trigger] st2.objects[i]) by {
        if i == id {
            lemma_pairs_larger(st, st2, o);
        } else {
            lemma_pairs_larger(st, st2, st.objects[i]);
        }
    }
    assert forall|i: int| 0 <= i < st2.functions.len() implies valid_pairs(st2, (#[trigger] st2.functions[i]).closure) by {
        lemma_pairs_larger(st, st2, st.functions[i].closure);
    }
    assert forall|i: int| 0 <= i < st2.scopes.len() implies valid_pairs(st2, #[trigger] st2.scopes[i]) by {
        lemma_pairs_larger(st, st2, st.scopes[i]);
    }
    lemma_pairs_larger(st, st2, st.globals);
}

proof fn lemma_lists_put_wf(st: RState, id: int, vs: Seq<Value>)
    requires
        wf(st),
        valid_values(st, vs),
        0 <= id <= st.lists.len(),
    ensures
        wf(RState { lists: place(st.lists, id, vs), ..st }),
        larger(st, RState { lists: place(st.lists, id, vs), ..st }),
        id < place(st.lists, id, vs).len(),
{
    let st2 = RState { lists: place(st.lists, id, vs), ..st };
    assert(larger(st, st2));
    assert forall|i: int| 0 <= i < st2.lists.len() implies valid_values(st2, #[trigger] st2.lists[i]) by {
        if i == id {
            lemma_values_larger(st, st2, vs);
        } else {
            lemma_values_larger(st, st2, st.lists[i]);
        }
    }
    assert forall|i: int| 0 <= i < st2.objects.len() implies valid_pairs(st2, #[trigger] st2.objects[i]) by {
        lemma_pairs_larger(st, st2, st.objects[i]);
    }
    assert forall|i: int| 0 <= i < st2.functions.len() implies valid_pairs(st2, (#[trigger] st2.functions[i]).closure) by {
        lemma_pairs_larger(st, st2, st.functions[i].closure);
    }
    assert forall|i: int| 0 <= i < st2.scopes.len() implies valid_pairs(st2, #[trigger] st2.scopes[i]) by {
        lemma_pairs_larger(st, st2, st.scopes[i]);
    }
    lemma_pairs_larger(st, st2, st.globals);
}

proof fn lemma_functions_put_wf(st: RState, id: int, fun: SpecFunction)
    requires
        wf(st),
        valid_pairs(st, fun.closure),
        0 <= id <= st.functions.len(),
    ensures
        wf(RState { functions: place(st.functions, id, fun), ..st }),
        larger(st, RState { functions: place(st.functions, id, fun), ..st }),
        id < place(st.functions, id, fun).len(),
{
    let st2 = RState { functions: place(st.functions, id, fun), ..st };
    assert(larger(st, st2));
    assert forall|i: int| 0 <= i < st2.lists.len() implies valid_values(st2, #[trigger] st2.lists[i]) by {
        lemma_values_larger(st, st2, st.lists[i]);
    }
    assert forall|i: int| 0 <= i < st2.objects.len() implies valid_pairs(st2, #[trigger] st2.objects[i]) by {
        lemma_pairs_larger(st, st2, st.objects[i]);
    }
    assert forall|i: int| 0 <= i < st2.functions.len() implies valid_pairs(st2, (#[trigger] st2.functions[i]).closure) by {
        if i == id {
            lemma_pairs_larger(st, st2, fun.closure);
        } else {
            lemma_pairs_larger(st, st2, st.functions[i].closure);
        }
    }
    assert forall|i: int| 0 <= i < st2.scopes.len() implies valid_pairs(st2, #[trigger] st2.scopes[i]) by {
        lemma_pairs_larger(st, st2, st.scopes[i]);
    }
    lemma_pairs_larger(st, st2, st.globals);
}

proof fn lemma_values_push(st: RState, vs: Seq<Value>, v: Value)
    requires
        valid_values(st, vs),
        valid(st, v),
    ensures
        valid_values(st, vs.push(v)),
{
    assert forall|j: int| 0 <= j < vs.push(v).len() implies valid(st, #[trigger] vs.push(v)[j]) by {
        if j < vs.len() {
            assert(vs.push(v)[j] == vs[j]);
        }
    }
}

proof fn lemma_values_update(st: RState, vs: Seq<Value>, i: int, v: Value)
    requires
        valid_values(st, vs),
        valid(st, v),
        0 <= i < vs.len(),
    ensures
        valid_values(st, vs.update(i, v)),
{
    assert forall|j: int| 0 <= j < vs.update(i, v).len() implies valid(st, #[trigger] vs.update(i, v)[j]) by {
        if j != i {
            assert(vs.update(i, v)[j] == vs[j]);
        }
    }
}

proof fn lemma_read_var_wf(st: RState, name: Seq<char>)
    requires
        wf(st),
    ensures
        wf(read_var(st, name).0),
        larger(st, read_var(st, name).0),
        valid(read_var(st, name).0, read_var(st, name).1),
{
    lemma_scope_valid(st);
    lemma_pairs_get(st, scope(st), name);
    lemma_pairs_get(st, st.globals, name);
    lemma_emit_wf(st, SpecOutput::CannotFindIdentifier(name));
}

proof fn lemma_native_get_wf(st: RState, m: Module, field: Seq<char>)
    requires
        wf(st),
    ensures
        wf(native_get(st, m, field).0),
        larger(st, native_get(st, m, field).0),
        valid(native_get(st, m, field).0, native_get(st, m, field).1),
{
    lemma_emit_wf(st, SpecOutput::FieldNotFound(field));
}

/// A step that ended in state `b` with result `r` left memory well formed,
/// gave a value that names existing memory, and found nothing corrupted.
pub open spec fn safe(b: RState, r: Result<Value, SpecStop>) -> bool {
    &&& wf(b)
    &&& r matches Ok(v) ==> valid(b, v)
    &&& !(r matches Err(SpecStop::Corrupted))
}

proof fn lemma_eval_wf(st: RState, e: SpecExpr, fuel: nat)
    requires
        wf(st),
        files_fit(st),
    ensures
        safe(spec_eval(st, e, fuel).0, spec_eval(st, e, fuel).1),
    decreases fuel, 0nat, 0nat,
{
    if fuel > 0 {
        let f = (fuel - 1) as nat;
        match e {
            SpecExpr::Str(t) => {
                lemma_wf_larger(st, RState { strings: st.strings.push(t), ..st });
            },
            SpecExpr::Object(fields) => {
                lemma_fields_wf(st, fields, 0, Seq::empty(), f);
                lemma_fields_keeps(st, fields, 0, Seq::empty(), f);
                let (st1, r) = spec_eval_fields(st, fields, 0, Seq::empty(), f);
                if let Ok(o) = r {
                    lemma_objects_put_wf(st1, st1.objects.len() as int, o);
                }
            },
            SpecExpr::List(items) => {
                lemma_items_wf(st, items, 0, Seq::empty(), f);
                lemma_items_keeps(st, items, 0, Seq::empty(), f);
                let (st1, r) = spec_eval_items(st, items, 0, Seq::empty(), f);
                if let Ok(vs) = r {
                    lemma_lists_put_wf(st1, st1.lists.len() as int, vs);
                }
            },
            SpecExpr::Function { args, value, closure, reflection } => {
                lemma_capture_wf(st, closure, 0, Seq::empty(), f);
                lemma_capture_keeps(st, closure, 0, Seq::empty(), f);
                let (st1, r) = spec_capture(st, closure, 0, Seq::empty(), f);
                if let Ok(closed) = r {
                    lemma_functions_put_wf(
                        st1,
                        st1.functions.len() as int,
                        SpecFunction { args, value: *value, closure: closed, reflection },
                    );
                }
            },
            SpecExpr::If { cond, value, else_value } => {
                lemma_eval_wf(st, *cond, f);
                lemma_eval_keeps(st, *cond, f);
                let (st1, r) = spec_eval(st, *cond, f);
                if let Ok(c) = r {
                    lemma_eval_wf(st1, *value, f);
                    lemma_eval_wf(st1, *else_value, f);
                }
            },
            SpecExpr::While { cond, value, else_value } => {
                lemma_while_wf(st, *cond, *value, *else_value, f, false, Value::Nil);
            },
            SpecExpr::Binding { target, value } => {
                lemma_eval_wf(st, *value, f);
                lemma_eval_keeps(st, *value, f);
                let (st1, r) = spec_eval(st, *value, f);
                if let Ok(v) = r {
                    lemma_set_wf(st1, target, v, f);
                    lemma_set_keeps(st1, target, v, f);
                }
            },
            SpecExpr::Chain(exprs) => {
                lemma_chain_wf(st, exprs, 0, Value::Nil, f);
            },
            SpecExpr::Access(t) => {
                lemma_get_wf(st, t, f);
            },
            SpecExpr::Identifier(name) => {
                lemma_get_wf(st, SpecTarget::Var(name), f);
            },
            SpecExpr::FuncCall { func, args } => {
                lemma_call_expr_wf(st, *func, args, f);
            },
            _ => {},
        }
    }
}

proof fn lemma_call_expr_wf(st: RState, func: SpecExpr, args: Seq<SpecExpr>, f: nat)
    requires
        wf(st),
        files_fit(st),
    ensures
        ({
            let e = SpecExpr::FuncCall { func: Box::new(func), args };
            safe(spec_eval(st, e, f + 1).0, spec_eval(st, e, f + 1).1)
        }),
    decreases f, 3nat, 0nat,
{
    lemma_items_wf(st, args, 0, Seq::empty(), f);
    lemma_items_keeps(st, args, 0, Seq::empty(), f);
    let (st1, r) = spec_eval_items(st, args, 0, Seq::empty(), f);
    if let Ok(argv) = r {
        match func {
            SpecExpr::Access(SpecTarget::Field { var, field }) => {
                lemma_eval_wf(st1, *var, f);
                lemma_eval_keeps(st1, *var, f);
                let (st2, r2) = spec_eval(st1, *var, f);
                lemma_values_larger(st1, st2, argv);
                match r2 {
                    Ok(Value::Object(id)) => {
                        assert(valid_pairs(st2, st2.objects[id as int]));
                        lemma_pairs_get(st2, st2.objects[id as int], field);
                        if let Some(fv) = assoc_get(st2.objects[id as int], field) {
                            lemma_call_wf(st2, fv, argv, Some(Value::Object(id)), f);
                        } else {
                            lemma_emit_wf(st2, SpecOutput::CannotFindField(field));
                        }
                    },
                    Ok(Value::NativeObject(m)) => {
                        lemma_native_get_wf(st2, m, field);
                        let (st3, fv) = native_get(st2, m, field);
                        lemma_values_larger(st2, st3, argv);
                        lemma_call_wf(st3, fv, argv, None, f);
                    },
                    Ok(_) => {
                        lemma_emit_wf(st2, SpecOutput::FieldOfNonObject);
                    },
                    Err(_) => {},
                }
            },
            _ => {
                lemma_eval_wf(st1, func, f);
                lemma_eval_keeps(st1, func, f);
                let (st2, r2) = spec_eval(st1, func, f);
                lemma_values_larger(st1, st2, argv);
                if let Ok(fv) = r2 {
                    lemma_call_wf(st2, fv, argv, None, f);
                }
            },
        }
    }
}

proof fn lemma_while_wf(st: RState, cond: SpecExpr, value: SpecExpr, else_value: SpecExpr, lf: nat, turned: bool, res: Value)
    requires
        wf(st),
        files_fit(st),
        valid(st, res),
    ensures
        safe(spec_while(st, cond, value, else_value, lf, turned, res).0, spec_while(st, cond, value, else_value, lf, turned, res).1),
    decreases lf, 1nat, 0nat,
{
    if lf > 0 {
        let f = (lf - 1) as nat;
        lemma_eval_wf(st, cond, f);
        lemma_eval_keeps(st, cond, f);
        let (st1, r) = spec_eval(st, cond, f);
        if let Ok(c) = r {
            lemma_eval_wf(st1, value, f);
            lemma_eval_wf(st1, else_value, f);
            lemma_eval_keeps(st1, value, f);
            let (st2, r2) = spec_eval(st1, value, f);
            if let Ok(v) = r2 {
                lemma_while_wf(st2, cond, value, else_value, f, true, v);
            }
        }
    }
}

proof fn lemma_chain_wf(st: RState, exprs: Seq<SpecExpr>, i: int, res: Value, f: nat)
    requires
        wf(st),
        files_fit(st),
        valid(st, res),
    ensures
        safe(spec_chain(st, exprs, i, res, f).0, spec_chain(st, exprs, i, res, f).1),
    decreases f, 1nat, exprs.len() - i,
{
    if 0 <= i < exprs.len() {
        lemma_eval_wf(st, exprs[i], f);
        lemma_eval_keeps(st, exprs[i], f);
        let (st1, r) = spec_eval(st, exprs[i], f);
        if let Ok(v) = r {
            lemma_chain_wf(st1, exprs, i + 1, v, f);
        }
    }
}

proof fn lemma_items_wf(st: RState, exprs: Seq<SpecExpr>, i: int, acc: Seq<Value>, f: nat)
    requires
        wf(st),
        files_fit(st),
        valid_values(st, acc),
    ensures
        wf(spec_eval_items(st, exprs, i, acc, f).0),
        spec_eval_items(st, exprs, i, acc, f).1 matches Ok(vs) ==> valid_values(spec_eval_items(st, exprs, i, acc, f).0, vs),
        !(spec_eval_items(st, exprs, i, acc, f).1 matches Err(SpecStop::Corrupted)),
    decreases f, 1nat, exprs.len() - i,
{
    if 0 <= i < exprs.len() {
        lemma_eval_wf(st, exprs[i], f);
        lemma_eval_keeps(st, exprs[i], f);
        let (st1, r) = spec_eval(st, exprs[i], f);
        if let Ok(v) = r {
            lemma_values_larger(st, st1, acc);
            lemma_values_push(st1, acc, v);
            lemma_items_wf(st1, exprs, i + 1, acc.push(v), f);
        }
    }
}

proof fn lemma_fields_wf(st: RState, fields: Seq<(Seq<char>, SpecExpr)>, i: int, acc: Seq<(Seq<char>, Value)>, f: nat)
    requires
        wf(st),
        files_fit(st),
        valid_pairs(st, acc),
    ensures
        wf(spec_eval_fields(st, fields, i, acc, f).0),
        spec_eval_fields(st, fields, i, acc, f).1 matches Ok(o) ==> valid_pairs(spec_eval_fields(st, fields, i, acc, f).0, o),
        !(spec_eval_fields(st, fields, i, acc, f).1 matches Err(SpecStop::Corrupted)),
    decreases f, 1nat, fields.len() - i,
{
    if 0 <= i < fields.len() {
        lemma_eval_wf(st, fields[i].1, f);
        lemma_eval_keeps(st, fields[i].1, f);
        let (st1, r) = spec_eval(st, fields[i].1, f);
        if let Ok(v) = r {
            lemma_pairs_larger(st, st1, acc);
            lemma_pairs_set(st1, acc, fields[i].0, v);
            lemma_fields_wf(st1, fields, i + 1, assoc_set(acc, fields[i].0, v), f);
        }
    }
}

proof fn lemma_capture_wf(st: RState, names: Seq<Seq<char>>, i: int, acc: Seq<(Seq<char>, Value)>, f: nat)
    requires
        wf(st),
        files_fit(st),
        valid_pairs(st, acc),
    ensures
        wf(spec_capture(st, names, i, acc, f).0),
        spec_capture(st, names, i, acc, f).1 matches Ok(o) ==> valid_pairs(spec_capture(st, names, i, acc, f).0, o),
        !(spec_capture(st, names, i, acc, f).1 matches Err(SpecStop::Corrupted)),
    decreases f, 1nat, names.len() - i,
{
    if 0 <= i < names.len() {
        let e = SpecExpr::Access(SpecTarget::Var(names[i]));
        lemma_eval_wf(st, e, f);
        lemma_eval_keeps(st, e, f);
        let (st1, r) = spec_eval(st, e, f);
        if let Ok(v) = r {
            lemma_pairs_larger(st, st1, acc);
            lemma_pairs_set(st1, acc, names[i], v);
            lemma_capture_wf(st1, names, i + 1, assoc_set(acc, names[i], v), f);
        }
    }
}

proof fn lemma_get_wf(st: RState, t: SpecTarget, f: nat)
    requires
        wf(st),
        files_fit(st),
    ensures
        safe(spec_get_val(st, t, f).0, spec_get_val(st, t, f).1),
    decreases f, 1nat, 0nat,
{
    match t {
        SpecTarget::Var(name) => {
            lemma_read_var_wf(st, name);
        },
        SpecTarget::Field { var, field } => {
            lemma_eval_wf(st, *var, f);
            let (st1, r) = spec_eval(st, *var, f);
            match r {
                Ok(Value::Object(id)) => {
                    assert(valid_pairs(st1, st1.objects[id as int]));
                    lemma_pairs_get(st1, st1.objects[id as int], field);
                    lemma_emit_wf(st1, SpecOutput::CannotFindField(field));
                },
                Ok(Value::NativeObject(m)) => {
                    lemma_native_get_wf(st1, m, field);
                },
                Ok(_) => {
                    lemma_emit_wf(st1, SpecOutput::FieldOfNonObject);
                },
                Err(_) => {},
            }
        },
        SpecTarget::Index { var, index } => {
            lemma_eval_wf(st, *index, f);
            lemma_eval_keeps(st, *index, f);
            let (st1, r) = spec_eval(st, *index, f);
            match r {
                Ok(Value::Number(b)) => {
                    lemma_eval_wf(st1, *var, f);
                    let (st2, r2) = spec_eval(st1, *var, f);
                    match r2 {
                        Ok(Value::List(id)) => {
                            assert(valid_values(st2, st2.lists[id as int]));
                            lemma_emit_wf(st2, SpecOutput::IndexOutOfBounds);
                        },
                        Ok(_) => {
                            lemma_emit_wf(st2, SpecOutput::IndexNonList);
                        },
                        Err(_) => {},
                    }
                },
                Ok(_) => {
                    lemma_emit_wf(st1, SpecOutput::IndexWithNonNumber);
                },
                Err(_) => {},
            }
        },
    }
}

proof fn lemma_set_wf(st: RState, t: SpecTarget, v: Value, f: nat)
    requires
        wf(st),
        files_fit(st),
        valid(st, v),
    ensures
        safe(spec_set_val(st, t, v, f).0, spec_set_val(st, t, v, f).1),
    decreases f, 1nat, 0nat,
{
    match t {
        SpecTarget::Var(name) => {
            lemma_assign_wf(st, name, v);
        },
        SpecTarget::Field { var, field } => {
            lemma_eval_wf(st, *var, f);
            lemma_eval_keeps(st, *var, f);
            let (st1, r) = spec_eval(st, *var, f);
            match r {
                Ok(Value::Object(id)) => {
                    assert(valid_pairs(st1, st1.objects[id as int]));
                    lemma_pairs_set(st1, st1.objects[id as int], field, v);
                    lemma_objects_put_wf(st1, id as int, assoc_set(st1.objects[id as int], field, v));
                },
                Ok(_) => {
                    lemma_emit_wf(st1, SpecOutput::SetFieldOfNonObject);
                },
                Err(_) => {},
            }
        },
        SpecTarget::Index { var, index } => {
            lemma_eval_wf(st, *index, f);
            lemma_eval_keeps(st, *index, f);
            let (st1, r) = spec_eval(st, *index, f);
            match r {
                Ok(Value::Number(b)) => {
                    lemma_eval_wf(st1, *var, f);
                    lemma_eval_keeps(st1, *var, f);
                    let (st2, r2) = spec_eval(st1, *var, f);
                    match r2 {
                        Ok(Value::List(id)) => {
                            let l = st2.lists[id as int];
                            assert(valid_values(st2, l));
                            if let Some(i) = crate::semantics::float_index(st2, b) {
                                if i < l.len() {
                                    lemma_values_update(st2, l, i as int, v);
                                    lemma_lists_put_wf(st2, id as int, l.update(i as int, v));
                                }
                            }
                            lemma_emit_wf(st2, SpecOutput::IndexOutOfBounds);
                        },
                        Ok(_) => {
                            lemma_emit_wf(st2, SpecOutput::SetIndexNonList);
                        },
                        Err(_) => {},
                    }
                },
                Ok(_) => {
                    lemma_emit_wf(st1, SpecOutput::SetIndexWithNonNumber);
                },
                Err(_) => {},
            }
        },
    }
}

proof fn lemma_call_wf(st: RState, fv: Value, args: Seq<Value>, refl: Option<Value>, f: nat)
    requires
        wf(st),
        files_fit(st),
        valid(st, fv),
        valid_values(st, args),
        refl matches Some(o) ==> valid(st, o),
    ensures
        safe(spec_call(st, fv, args, refl, f).0, spec_call(st, fv, args, refl, f).1),
    decreases f, 2nat, 0nat,
{
    match fv {
        Value::Function(id) => {
            let fun = st.functions[id as int];
            assert(valid_pairs(st, fun.closure));
            lemma_enter_wf(st, fun, args, refl);
            lemma_enter_keeps(st, fun, args, refl);
            let st1 = enter(st, fun, args, refl);
            lemma_eval_wf(st1, fun.value, f);
            let (st2, r) = spec_eval(st1, fun.value, f);
            lemma_leave_wf(st2);
        },
        Value::NativeFunction(nf) => {
            lemma_native_wf(st, nf, args, f);
        },
        _ => {
            lemma_emit_wf(st, SpecOutput::CallNonFunction);
        },
    }
}

proof fn lemma_native_wf(st: RState, nf: NativeFunction, args: Seq<Value>, f: nat)
    requires
        wf(st),
        files_fit(st),
        valid_values(st, args),
    ensures
        safe(spec_native(st, nf, args, f).0, spec_native(st, nf, args, f).1),
    decreases f, 1nat, 0nat,
{
    match nf {
        NativeFunction::Import => {
            lemma_emit_wf(st, SpecOutput::InvalidArguments);
            if args.len() >= 1 {
                assert(valid(st, args[0]));
                if let Value::Str(id) = args[0] {
                    let name = st.strings[id as int];
                    lemma_emit_wf(st, SpecOutput::ImportNotFound(name));
                    lemma_key_pos(st.files, name, 0);
                    if let Some(Some(src)) = file_source(st, name) {
                        let t = key_pos(st.files, name, 0).unwrap();
                        assert(st.files[t].1 == Some(src));
                        let st1 = after_parse(st, src);
                        lemma_wf_larger(st, st1);
                        lemma_eval_wf(st1, parse_at(src, 0).0, f);
                    }
                }
            }
        },
        NativeFunction::Print => {
            lemma_print_line_safe(st, args, 0, Seq::empty(), f);
            if let Ok(line) = spec_print_line(st, args, 0, Seq::empty(), f) {
                lemma_emit_wf(st, SpecOutput::Line(line));
            }
        },
        NativeFunction::Push => {
            lemma_emit_wf(st, SpecOutput::InvalidArguments);
            if args.len() >= 2 {
                assert(valid(st, args[0]));
                assert(valid(st, args[1]));
                if let Value::List(id) = args[0] {
                    let l = st.lists[id as int];
                    assert(valid_values(st, l));
                    lemma_values_push(st, l, args[1]);
                    lemma_lists_put_wf(st, id as int, l.push(args[1]));
                }
            }
        },
        NativeFunction::Len => {
            lemma_emit_wf(st, SpecOutput::InvalidArguments);
            if args.len() >= 1 {
                assert(valid(st, args[0]));
            }
        },
        NativeFunction::Add => {
            lemma_emit_wf(st, SpecOutput::InvalidNumberOfArguments);
            lemma_emit_wf(st, SpecOutput::InvalidArgumentTypes);
        },
    }
}

/// No dangling reference. From a state whose stored values all name
/// existing strings, lists, objects and functions, and whose file texts fit
/// in memory, evaluation keeps every stored value so, gives a value that
/// names existing memory, and never finds memory corrupted.
pub proof fn law_no_dangling(st: RState, e: SpecExpr, f: nat)
    requires
        wf(st),
        files_fit(st),
    ensures
        wf(spec_eval(st, e, f).0),
        spec_eval(st, e, f).1 matches Ok(v) ==> valid(spec_eval(st, e, f).0, v),
        spec_eval(st, e, f).1 != Err::<Value, SpecStop>(SpecStop::Corrupted),
{
    lemma_eval_wf(st, e, f);
}

} // verus!
