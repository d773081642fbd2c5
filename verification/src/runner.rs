//! The interpreter. Its contracts equate what each method does with the
//! functions of `semantics`.
use vstd::prelude::*;
use crate::assoc::{assoc_set, key_pos, lemma_key_pos, view_pairs, find_key, set_key, has_key};
use crate::ast::{Expr, ParseMessage, SpecExpr, Target, view_strings, view_opt_string};
use crate::parser::Parser;
use crate::modules::{Io, List, Math, register_modules};
use crate::semantics::{
    RState, SpecFunction, emit, scope, assign_var, read_var, float_bits, float_index, float_text,
    truthy, native_get, file_source, spec_eval, spec_while, spec_chain, spec_eval_items,
    spec_eval_fields, spec_capture, spec_get_val, spec_set_val, spec_call, spec_native, enter,
    leave, bind_args, bind_closure, spec_repr, spec_repr_items, spec_repr_fields, spec_print_line,
    join, initial_state, registered, parse_outputs,
};
use crate::ast::{
    view_expr, view_exprs, view_fields, lemma_view_exprs, lemma_view_fields, lemma_view_access,
    clone_strings, lemma_view_var,
};
use crate::value::{
    StrId, ListId, ObjectId, FunctionId, FloatAnswer, FloatOp, Module, NativeFunction, Output,
    SpecOutput, SpecStop, SpecFloatOp, SpecFloatAnswer, Stop, Value, float_op_eq,
};

verus! {

/// A function value: its parameters, its body, what it captured when it
/// was defined, and whether it sees the object it is called on as `self`.
pub struct Function {
    pub args: Vec<String>,
    pub value: Expr,
    pub closure: Vec<(String, Value)>,
    pub reflection: bool,
}

impl View for Function {
    type V = SpecFunction;

    open spec fn view(&self) -> SpecFunction {
        SpecFunction {
            args: view_strings(self.args@),
            value: self.value@,
            closure: view_pairs(self.closure@),
            reflection: self.reflection,
        }
    }
}

/// The interpreter: its memory of strings, lists, objects and functions,
/// its scopes, what it printed, and the answers it was given to
/// floating-point questions and about files.
pub struct Runner {
    pub loadables: Vec<(String, Module)>,
    pub strings: Vec<String>,
    pub lists: Vec<Vec<Value>>,
    pub objects: Vec<Vec<(String, Value)>>,
    pub functions: Vec<Function>,
    pub scopes: Vec<Vec<(String, Value)>>,
    pub globals: Vec<(String, Value)>,
    pub output: Vec<Output>,
    pub floats: Vec<(FloatOp, FloatAnswer)>,
    pub files: Vec<(String, Option<String>)>,
}

impl View for Runner {
    type V = RState;

    open spec fn view(&self) -> RState {
        RState {
            loadables: view_pairs(self.loadables@),
            strings: self.strings@.map_values(|s: String| s@),
            lists: self.lists@.map_values(|l: Vec<Value>| l@),
            objects: self.objects@.map_values(|o: Vec<(String, Value)>| view_pairs(o@)),
            functions: self.functions@.map_values(|g: Function| g@),
            scopes: self.scopes@.map_values(|o: Vec<(String, Value)>| view_pairs(o@)),
            globals: view_pairs(self.globals@),
            output: self.output@.map_values(|o: Output| o@),
            floats: self.floats@.map_values(|p: (FloatOp, FloatAnswer)| (p.0@, p.1@)),
            files: self.files@.map_values(|p: (String, Option<String>)| (p.0@, view_opt_string(p.1))),
        }
    }
}

pub open spec fn view_result(r: Result<Value, Stop>) -> Result<Value, SpecStop> {
    match r {
        Ok(v) => Ok(v),
        Err(x) => Err(x@),
    }
}

/// A string with the characters of a literal.
pub(crate) fn text(s: &str) -> (r: String)
    ensures
        r@ == s@,
{
    String::from_str(s)
}

fn clone_pairs(v: &Vec<(String, Value)>) -> (r: Vec<(String, Value)>)
    ensures
        view_pairs(r@) == view_pairs(v@),
{
    let mut r: Vec<(String, Value)> = Vec::new();
    let mut i: usize = 0;
    while i < v.len()
        invariant
            i <= v@.len(),
            view_pairs(r@) =~= view_pairs(v@).subrange(0, i as int),
        decreases v@.len() - i,
    {
        let ghost old_r = r@;
        r.push((v[i].0.clone(), v[i].1));
        assert(view_pairs(r@) =~= view_pairs(old_r).push((v@[i as int].0@, v@[i as int].1)));
        i = i + 1;
    }
    r
}

impl Value {
    /// The text of a value, as `io.print` writes it; lists and objects nest
    /// at most `fuel` deep.
    pub fn repr(&self, r: &Runner, fuel: u64) -> (res: Result<String, Stop>)
        ensures
            match res {
                Ok(s) => spec_repr(r@, *self, fuel as nat) == Ok::<Seq<char>, SpecStop>(s@),
                Err(x) => spec_repr(r@, *self, fuel as nat) == Err::<Seq<char>, SpecStop>(x@),
            },
        decreases fuel, 0nat, 0nat,
    {
        if fuel == 0 {
            return Err(Stop::OutOfFuel);
        }
        let g = fuel - 1;
        match *self {
            Value::Nil => Ok(text("nil")),
            Value::Bool(b) => Ok(if b { text("true") } else { text("false") }),
            Value::Number(bits) => r.float_text(bits),
            Value::Str(id) => {
                if id < r.strings.len() {
                    Ok(r.strings[id].clone())
                } else {
                    Err(Stop::Corrupted)
                }
            },
            Value::List(id) => {
                if id < r.lists.len() {
                    let items = &r.lists[id];
                    let mut res = text("<");
                    let ghost mut parts: Seq<Seq<char>> = Seq::empty();
                    let mut i: usize = 0;
                    while i < items.len()
                        invariant
                            i <= items@.len(),
                            g == fuel - 1,
                            *self == Value::List(id),
                            id < r@.lists.len(),
                            id < r.lists@.len(),
                            *items == r.lists@[id as int],
                            items@ == r@.lists[id as int],
                            res@ == "<"@ + join(parts, "; "@),
                            parts.len() == i,
                            spec_repr_items(r@, items@, i as int, parts, g as nat) == spec_repr_items(r@, items@, 0, Seq::empty(), g as nat),
                        decreases items@.len() - i,
                    {
                        let t = items[i].repr(r, g)?;
                        if i > 0 {
                            res.append("; ");
                        }
                        res.append(t.as_str());
                        proof {
                            assert(parts.push(t@).drop_last() =~= parts);
                            parts = parts.push(t@);
                        }
                        i = i + 1;
                    }
                    res.append(">");
                    Ok(res)
                } else {
                    Err(Stop::Corrupted)
                }
            },
            Value::Object(id) => {
                if id < r.objects.len() {
                    let fields = &r.objects[id];
                    let mut res = text("[");
                    let ghost mut parts: Seq<Seq<char>> = Seq::empty();
                    let mut i: usize = 0;
                    while i < fields.len()
                        invariant
                            i <= fields@.len(),
                            g == fuel - 1,
                            *self == Value::Object(id),
                            id < r@.objects.len(),
                            id < r.objects@.len(),
                            *fields == r.objects@[id as int],
                            view_pairs(fields@) == r@.objects[id as int],
                            res@ == "["@ + join(parts, "; "@),
                            parts.len() == i,
                            spec_repr_fields(r@, view_pairs(fields@), i as int, parts, g as nat) == spec_repr_fields(r@, view_pairs(fields@), 0, Seq::empty(), g as nat),
                        decreases fields@.len() - i,
                    {
                        assert(view_pairs(fields@)[i as int] == (fields@[i as int].0@, fields@[i as int].1));
                        let t = fields[i].1.repr(r, g)?;
                        if i > 0 {
                            res.append("; ");
                        }
                        res.append(fields[i].0.as_str());
                        res.append(": ");
                        res.append(t.as_str());
                        proof {
                            let piece = fields@[i as int].0@ + ": "@ + t@;
                            assert(parts.push(piece).drop_last() =~= parts);
                            parts = parts.push(piece);
                        }
                        i = i + 1;
                    }
                    res.append("]");
                    Ok(res)
                } else {
                    Err(Stop::Corrupted)
                }
            },
            Value::Function(_) => Ok(text("<Function>")),
            Value::NativeObject(_) => Ok(text("<NativeObject> (to be implemented)")),
            Value::NativeFunction(_) => Ok(text("<NativeFunction>")),
        }
    }
}

impl Runner {
    fn find_float(&self, op: &FloatOp) -> (r: Option<usize>)
        ensures
            r matches Some(t) ==> key_pos(self@.floats, op@, 0) == Some(t as int) && t < self.floats@.len(),
            r is None ==> key_pos(self@.floats, op@, 0) is None,
    {
        let ghost v = self@.floats;
        proof {
            lemma_key_pos(v, op@, 0);
        }
        let mut t: usize = 0;
        while t < self.floats.len()
            invariant
                v == self@.floats,
                v.len() == self.floats@.len(),
                t <= v.len(),
                forall|u: int| 0 <= u < t ==> v[u].0 != op@,
                key_pos(v, op@, 0) matches Some(u) ==> t <= u < v.len() && v[u].0 == op@,
                key_pos(v, op@, 0) matches Some(u) ==> forall|w: int| 0 <= w < u ==> v[w].0 != op@,
                key_pos(v, op@, 0) is None ==> forall|u: int| 0 <= u < v.len() ==> v[u].0 != op@,
            decreases v.len() - t,
        {
            assert(v[t as int] == (self.floats@[t as int].0@, self.floats@[t as int].1@));
            if float_op_eq(&self.floats[t].0, op) {
                return Some(t);
            }
            t = t + 1;
        }
        None
    }

    /// The double that the answers give for `op`.
    pub(crate) fn float_bits(&self, op: FloatOp) -> (r: Result<u64, Stop>)
        ensures
            r matches Ok(b) ==> float_bits(self@, op@) == Some(b),
            r matches Err(x) ==> float_bits(self@, op@) is None && x@ == SpecStop::NeedFloat(op@),
    {
        match self.find_float(&op) {
            Some(t) => {
                assert(self@.floats[t as int] == (self.floats@[t as int].0@, self.floats@[t as int].1@));
                match &self.floats[t].1 {
                    FloatAnswer::Bits(b) => Ok(*b),
                    _ => Err(Stop::NeedFloat(op)),
                }
            },
            None => Err(Stop::NeedFloat(op)),
        }
    }

    /// The index that the answers give for a double.
    fn float_index(&self, bits: u64) -> (r: Result<usize, Stop>)
        ensures
            r matches Ok(i) ==> float_index(self@, bits) == Some(i),
            r matches Err(x) ==> float_index(self@, bits) is None && x@ == SpecStop::NeedFloat(SpecFloatOp::ToIndex(bits)),
    {
        let op = FloatOp::ToIndex(bits);
        match self.find_float(&op) {
            Some(t) => {
                assert(self@.floats[t as int] == (self.floats@[t as int].0@, self.floats@[t as int].1@));
                match &self.floats[t].1 {
                    FloatAnswer::Index(i) => Ok(*i),
                    _ => Err(Stop::NeedFloat(op)),
                }
            },
            None => Err(Stop::NeedFloat(op)),
        }
    }

    /// The text that the answers give for a double.
    fn float_text(&self, bits: u64) -> (r: Result<String, Stop>)
        ensures
            r matches Ok(s) ==> float_text(self@, bits) == Some(s@),
            r matches Err(x) ==> float_text(self@, bits) is None && x@ == SpecStop::NeedFloat(SpecFloatOp::ToText(bits)),
    {
        let op = FloatOp::ToText(bits);
        match self.find_float(&op) {
            Some(t) => {
                assert(self@.floats[t as int] == (self.floats@[t as int].0@, self.floats@[t as int].1@));
                match &self.floats[t].1 {
                    FloatAnswer::Text(s) => Ok(s.clone()),
                    _ => Err(Stop::NeedFloat(op)),
                }
            },
            None => Err(Stop::NeedFloat(op)),
        }
    }

    /// What the answers say of a file: `None` when nothing is known,
    /// `Some(None)` when it cannot be read, `Some(Some(text))` otherwise.
    fn file_source(&self, name: &String) -> (r: Option<Option<String>>)
        ensures
            match r {
                Some(Some(t)) => file_source(self@, name@) == Some(Some(t@)),
                Some(None) => file_source(self@, name@) == Some(None::<Seq<char>>),
                None => file_source(self@, name@) is None,
            },
    {
        let ghost v = self@.files;
        proof {
            lemma_key_pos(v, name@, 0);
        }
        let mut t: usize = 0;
        while t < self.files.len()
            invariant
                v == self@.files,
                v.len() == self.files@.len(),
                t <= v.len(),
                forall|u: int| 0 <= u < t ==> v[u].0 != name@,
                key_pos(v, name@, 0) matches Some(u) ==> t <= u < v.len() && v[u].0 == name@,
                key_pos(v, name@, 0) matches Some(u) ==> forall|w: int| 0 <= w < u ==> v[w].0 != name@,
                key_pos(v, name@, 0) is None ==> forall|u: int| 0 <= u < v.len() ==> v[u].0 != name@,
            decreases v.len() - t,
        {
            assert(v[t as int] == (self.files@[t as int].0@, view_opt_string(self.files@[t as int].1)));
            if self.files[t].0 == *name {
                return match &self.files[t].1 {
                    Some(src) => Some(Some(src.clone())),
                    None => Some(None),
                };
            }
            t = t + 1;
        }
        None
    }

    /// Reads a variable.
    pub(crate) fn read_var(&mut self, name: &String) -> (r: Value)
        ensures
            (final(self)@, r) == read_var(old(self)@, name@),
    {
        let ghost st = self@;
        let n = self.scopes.len();
        let found = if n > 0 {
            assert(scope(st) == view_pairs(self.scopes@[n - 1]@));
            find_key(&self.scopes[n - 1], name)
        } else {
            find_key(&self.globals, name)
        };
        proof {
            lemma_key_pos(scope(st), name@, 0);
            lemma_key_pos(st.globals, name@, 0);
        }
        match found {
            Some(t) => {
                if n > 0 {
                    assert(scope(st)[t as int] == (self.scopes@[n - 1]@[t as int].0@, self.scopes@[n - 1]@[t as int].1));
                    self.scopes[n - 1][t].1
                } else {
                    assert(scope(st)[t as int] == (self.globals@[t as int].0@, self.globals@[t as int].1));
                    self.globals[t].1
                }
            },
            None => {
                match find_key(&self.globals, name) {
                    Some(t) => {
                        assert(st.globals[t as int] == (self.globals@[t as int].0@, self.globals@[t as int].1));
                        self.globals[t].1
                    },
                    None => {
                        self.emit(Output::CannotFindIdentifier(name.clone()));
                        Value::Nil
                    },
                }
            },
        }
    }

    /// Whether a value counts as true in a condition.
    fn truthy(&self, v: Value) -> (r: Result<bool, Stop>)
        ensures
            match r {
                Ok(b) => truthy(self@, v) == Ok::<bool, SpecStop>(b),
                Err(x) => truthy(self@, v) == Err::<bool, SpecStop>(x@),
            },
    {
        match v {
            Value::Nil => Ok(false),
            Value::Bool(b) => Ok(b),
            Value::Number(x) => Ok(x & 0x7fff_ffff_ffff_ffffu64 != 0),
            Value::Str(id) => if id < self.strings.len() {
                Ok(!self.strings[id].as_str().is_empty())
            } else {
                Err(Stop::Corrupted)
            },
            Value::List(id) => if id < self.lists.len() {
                Ok(self.lists[id].len() > 0)
            } else {
                Err(Stop::Corrupted)
            },
            Value::Object(id) => if id < self.objects.len() {
                Ok(self.objects[id].len() > 0)
            } else {
                Err(Stop::Corrupted)
            },
            _ => Ok(true),
        }
    }

    /// What a field of a built-in module holds.
    fn native_get(&mut self, m: Module, field: &String) -> (r: Value)
        ensures
            (final(self)@, r) == native_get(old(self)@, m, field@),
    {
        let is_print = *field == text("print");
        let is_push = *field == text("push");
        let is_len = *field == text("len");
        let is_add = *field == text("add");
        match m {
            Module::Io => if is_print {
                Value::NativeFunction(NativeFunction::Print)
            } else {
                self.emit(Output::FieldNotFound(field.clone()));
                Value::Nil
            },
            Module::List => if is_push {
                Value::NativeFunction(NativeFunction::Push)
            } else if is_len {
                Value::NativeFunction(NativeFunction::Len)
            } else {
                self.emit(Output::FieldNotFound(field.clone()));
                Value::Nil
            },
            Module::Math => if is_add {
                Value::NativeFunction(NativeFunction::Add)
            } else {
                self.emit(Output::FieldNotFound(field.clone()));
                Value::Nil
            },
        }
    }

    /// Writes a line of output.
    pub(crate) fn emit(&mut self, o: Output)
        ensures
            final(self)@ == emit(old(self)@, o@),
    {
        let ghost v = o@;
        self.output.push(o);
        assert(self@.output =~= old(self)@.output.push(v));
        assert(self@ =~= emit(old(self)@, v));
    }

    /// Records the parser's complaints, in order, as lines of output.
    fn emit_parse_messages(&mut self, msgs: Vec<ParseMessage>)
        ensures
            final(self)@ == (RState {
                output: old(self)@.output + parse_outputs(msgs@.map_values(|m: ParseMessage| m@)),
                ..old(self)@
            }),
    {
        let mut msgs = msgs;
        let ghost all = msgs@.map_values(|m: ParseMessage| m@);
        let ghost st = self@;
        let ghost n = msgs@.len();
        while msgs.len() > 0
            invariant
                n == all.len(),
                msgs@.len() <= n,
                msgs@.map_values(|m: ParseMessage| m@) == all.subrange(n - msgs@.len(), n as int),
                self@ == (RState { output: st.output + parse_outputs(all.subrange(0, n - msgs@.len())), ..st }),
            decreases msgs@.len(),
        {
            let ghost before = msgs@;
            let ghost done = n - msgs@.len();
            assert(before.map_values(|m: ParseMessage| m@)[0] == all[done]);
            let m = msgs.remove(0);
            assert(m == before[0]);
            assert(m@ == all[done]);
            assert(msgs@ =~= before.subrange(1, before.len() as int));
            let ghost mv = msgs@.map_values(|x: ParseMessage| x@);
            let ghost bv = before.map_values(|x: ParseMessage| x@);
            assert forall|i: int| 0 <= i < mv.len() implies #[trigger] mv[i] == all.subrange(n - msgs@.len(), n as int)[i] by {
                assert(msgs@[i] == before[i + 1]);
                assert(bv[i + 1] == all.subrange(done, n as int)[i + 1]);
            }
            assert(msgs@.map_values(|m: ParseMessage| m@) =~= all.subrange(n - msgs@.len(), n as int));
            self.emit(Output::Parse(m));
            assert(parse_outputs(all.subrange(0, done + 1)) =~= parse_outputs(all.subrange(0, done)).push(SpecOutput::Parse(all[done])));
            assert(self@.output =~= st.output + parse_outputs(all.subrange(0, n - msgs@.len())));
        }
        assert(all.subrange(0, n as int) =~= all);
    }

    /// Assigns a variable.
    pub(crate) fn assign_var(&mut self, name: String, v: Value)
        ensures
            final(self)@ == assign_var(old(self)@, name@, v),
    {
        let ghost st = self@;
        let ghost nv = name@;
        let n = self.scopes.len();
        if n > 0 {
            assert(scope(st) == view_pairs(self.scopes@[n - 1]@));
            if has_key(&self.scopes[n - 1], &name) {
                set_key(&mut self.scopes[n - 1], name, v);
                assert(self@.scopes =~= st.scopes.update(n - 1, assoc_set(scope(st), nv, v)));
                assert(self@ =~= assign_var(st, nv, v));
                return;
            }
        } else {
            if has_key(&self.globals, &name) {
                set_key(&mut self.globals, name, v);
                assert(self@ =~= assign_var(st, nv, v));
                return;
            }
        }
        if has_key(&self.globals, &name) {
            set_key(&mut self.globals, name, v);
            assert(self@ =~= assign_var(st, nv, v));
        } else if n > 0 {
            set_key(&mut self.scopes[n - 1], name, v);
            assert(self@.scopes =~= st.scopes.update(n - 1, assoc_set(scope(st), nv, v)));
            assert(self@ =~= assign_var(st, nv, v));
        } else {
            set_key(&mut self.globals, name, v);
            assert(self@ =~= assign_var(st, nv, v));
        }
    }

    /// Evaluates an expression with `fuel`.
    pub fn eval(&mut self, e: &Expr, fuel: u64) -> (r: Result<Value, Stop>)
        ensures
            (final(self)@, view_result(r)) == spec_eval(old(self)@, e@, fuel as nat),
        decreases fuel, 0nat, 0nat,
    {
        if fuel == 0 {
            return Err(Stop::OutOfFuel);
        }
        let f = fuel - 1;
        proof {
            reveal_with_fuel(view_expr, 2);
        }
        match e {
            Expr::Nil => Ok(Value::Nil),
            Expr::Number(n) => {
                let b = self.float_bits(FloatOp::FromLiteral(n.deep_clone()))?;
                Ok(Value::Number(b))
            },
            Expr::Str(s) => {
                let id = self.strings.len();
                let ghost sv = s@;
                self.strings.push(s.clone());
                assert(self@.strings =~= old(self)@.strings.push(sv));
                assert(self@ =~= RState { strings: old(self)@.strings.push(sv), ..old(self)@ });
                Ok(Value::Str(id))
            },
            Expr::Object(fields) => self.eval_object(fields, f),
            Expr::List(items) => self.eval_list(items, f),
            Expr::Function { args, value, closure, reflection } => self.eval_function(args, value, closure, *reflection, f),
            Expr::If { cond, value, else_value } => self.eval_if(cond, value, else_value, f),
            Expr::While { cond, value, else_value } => self.eval_while(cond, value, else_value, f),
            Expr::Binding { target, value } => self.eval_binding(target, value, f),
            Expr::Chain(exprs) => self.eval_chain(exprs, f),
            Expr::Access(t) => self.get_val(t, f),
            Expr::Identifier(name) => {
                let t = Target::Var(name.clone());
                self.get_val(&t, f)
            },
            Expr::FuncCall { func, args } => self.eval_call(func, args, f),
        }
    }

    fn eval_object(&mut self, fields: &Vec<(String, Expr)>, f: u64) -> (r: Result<Value, Stop>)
        requires
            f < u64::MAX,
        ensures
            (final(self)@, view_result(r)) == spec_eval(old(self)@, SpecExpr::Object(view_fields(fields@)), (f + 1) as nat),
        decreases f, 4nat, 0nat,
    {
        let o = self.eval_fields(fields, f)?;
        let ghost st1 = self@;
        let ghost ov = view_pairs(o@);
        let id = self.objects.len();
        self.objects.push(o);
        assert(self@.objects =~= st1.objects.push(ov));
        assert(self@ =~= RState { objects: st1.objects.push(ov), ..st1 });
        Ok(Value::Object(id))
    }

    fn eval_list(&mut self, items: &Vec<Expr>, f: u64) -> (r: Result<Value, Stop>)
        requires
            f < u64::MAX,
        ensures
            (final(self)@, view_result(r)) == spec_eval(old(self)@, SpecExpr::List(view_exprs(items@)), (f + 1) as nat),
        decreases f, 4nat, 0nat,
    {
        let vs = self.eval_items(items, f)?;
        let ghost st1 = self@;
        let ghost vv = vs@;
        let id = self.lists.len();
        self.lists.push(vs);
        assert(self@.lists =~= st1.lists.push(vv));
        assert(self@ =~= RState { lists: st1.lists.push(vv), ..st1 });
        Ok(Value::List(id))
    }

    fn eval_function(&mut self, args: &Vec<String>, value: &Expr, closure: &Vec<String>, reflection: bool, f: u64) -> (r: Result<Value, Stop>)
        requires
            f < u64::MAX,
        ensures
            (final(self)@, view_result(r)) == spec_eval(
                old(self)@,
                SpecExpr::Function {
                    args: view_strings(args@),
                    value: Box::new(value@),
                    closure: view_strings(closure@),
                    reflection,
                },
                (f + 1) as nat,
            ),
        decreases f, 4nat, 0nat,
    {
        let closed = self.capture(closure, f)?;
        let fun = Function { args: clone_strings(args), value: value.deep_clone(), closure: closed, reflection };
        let ghost st1 = self@;
        let ghost fv = fun@;
        let id = self.functions.len();
        self.functions.push(fun);
        assert(self@.functions =~= st1.functions.push(fv));
        assert(self@ =~= RState { functions: st1.functions.push(fv), ..st1 });
        Ok(Value::Function(id))
    }

    fn eval_if(&mut self, cond: &Expr, value: &Expr, else_value: &Expr, f: u64) -> (r: Result<Value, Stop>)
        requires
            f < u64::MAX,
        ensures
            (final(self)@, view_result(r)) == spec_eval(
                old(self)@,
                SpecExpr::If { cond: Box::new(cond@), value: Box::new(value@), else_value: Box::new(else_value@) },
                (f + 1) as nat,
            ),
        decreases f, 4nat, 0nat,
    {
        let c = self.eval(cond, f)?;
        if self.truthy(c)? {
            self.eval(value, f)
        } else {
            self.eval(else_value, f)
        }
    }

    fn eval_binding(&mut self, target: &Target, value: &Expr, f: u64) -> (r: Result<Value, Stop>)
        requires
            f < u64::MAX,
        ensures
            (final(self)@, view_result(r)) == spec_eval(
                old(self)@,
                SpecExpr::Binding { target: target@, value: Box::new(value@) },
                (f + 1) as nat,
            ),
        decreases f, 4nat, 0nat,
    {
        let v = self.eval(value, f)?;
        self.set_val(target, v, f)?;
        Ok(v)
    }

    /// A `while` loop with `fuel` for its turns.
    fn eval_while(&mut self, cond: &Expr, value: &Expr, else_value: &Expr, fuel: u64) -> (r: Result<Value, Stop>)
        ensures
            (final(self)@, view_result(r)) == spec_while(old(self)@, cond@, value@, else_value@, fuel as nat, false, Value::Nil),
        decreases fuel, 1nat, 0nat,
    {
        let mut lf = fuel;
        let mut turned = false;
        let mut res = Value::Nil;
        loop
            invariant
                lf <= fuel,
                spec_while(self@, cond@, value@, else_value@, lf as nat, turned, res)
                    == spec_while(old(self)@, cond@, value@, else_value@, fuel as nat, false, Value::Nil),
            decreases lf,
        {
            if lf == 0 {
                return Err(Stop::OutOfFuel);
            }
            let g = lf - 1;
            let c = self.eval(cond, g)?;
            if self.truthy(c)? {
                res = self.eval(value, g)?;
                turned = true;
                lf = g;
            } else {
                if turned {
                    return Ok(res);
                } else {
                    return self.eval(else_value, g);
                }
            }
        }
    }

    fn eval_chain(&mut self, exprs: &Vec<Expr>, f: u64) -> (r: Result<Value, Stop>)
        ensures
            (final(self)@, view_result(r)) == spec_chain(old(self)@, view_exprs(exprs@), 0, Value::Nil, f as nat),
        decreases f, 1nat, 0nat,
    {
        let ghost ev = view_exprs(exprs@);
        proof {
            lemma_view_exprs(exprs@);
        }
        let mut res = Value::Nil;
        let mut i: usize = 0;
        while i < exprs.len()
            invariant
                i <= exprs@.len(),
                ev == view_exprs(exprs@),
                ev.len() == exprs@.len(),
                forall|k: int| 0 <= k < exprs@.len() ==> #[trigger] ev[k] == view_expr(exprs@[k]),
                spec_chain(self@, ev, i as int, res, f as nat) == spec_chain(old(self)@, ev, 0, Value::Nil, f as nat),
            decreases exprs@.len() - i,
        {
            res = self.eval(&exprs[i], f)?;
            i = i + 1;
        }
        Ok(res)
    }

    fn eval_items(&mut self, exprs: &Vec<Expr>, f: u64) -> (r: Result<Vec<Value>, Stop>)
        ensures
            match r {
                Ok(vs) => (final(self)@, Ok::<Seq<Value>, SpecStop>(vs@)) == spec_eval_items(old(self)@, view_exprs(exprs@), 0, Seq::empty(), f as nat),
                Err(x) => (final(self)@, Err::<Seq<Value>, SpecStop>(x@)) == spec_eval_items(old(self)@, view_exprs(exprs@), 0, Seq::empty(), f as nat),
            },
        decreases f, 1nat, 0nat,
    {
        let ghost ev = view_exprs(exprs@);
        proof {
            lemma_view_exprs(exprs@);
        }
        let mut acc: Vec<Value> = Vec::new();
        let mut i: usize = 0;
        while i < exprs.len()
            invariant
                i <= exprs@.len(),
                ev == view_exprs(exprs@),
                ev.len() == exprs@.len(),
                forall|k: int| 0 <= k < exprs@.len() ==> #[trigger] ev[k] == view_expr(exprs@[k]),
                spec_eval_items(self@, ev, i as int, acc@, f as nat) == spec_eval_items(old(self)@, ev, 0, Seq::empty(), f as nat),
            decreases exprs@.len() - i,
        {
            let v = self.eval(&exprs[i], f)?;
            acc.push(v);
            i = i + 1;
        }
        Ok(acc)
    }

    fn eval_fields(&mut self, fields: &Vec<(String, Expr)>, f: u64) -> (r: Result<Vec<(String, Value)>, Stop>)
        ensures
            match r {
                Ok(o) => (final(self)@, Ok::<Seq<(Seq<char>, Value)>, SpecStop>(view_pairs(o@))) == spec_eval_fields(old(self)@, view_fields(fields@), 0, Seq::empty(), f as nat),
                Err(x) => (final(self)@, Err::<Seq<(Seq<char>, Value)>, SpecStop>(x@)) == spec_eval_fields(old(self)@, view_fields(fields@), 0, Seq::empty(), f as nat),
            },
        decreases f, 1nat, 0nat,
    {
        let ghost fv = view_fields(fields@);
        proof {
            lemma_view_fields(fields@);
        }
        let mut acc: Vec<(String, Value)> = Vec::new();
        assert(view_pairs(acc@) =~= Seq::<(Seq<char>, Value)>::empty());
        let mut i: usize = 0;
        while i < fields.len()
            invariant
                i <= fields@.len(),
                fv == view_fields(fields@),
                fv.len() == fields@.len(),
                forall|k: int| 0 <= k < fields@.len() ==> #[trigger] fv[k] == (fields@[k].0@, view_expr(fields@[k].1)),
                spec_eval_fields(self@, fv, i as int, view_pairs(acc@), f as nat) == spec_eval_fields(old(self)@, fv, 0, Seq::empty(), f as nat),
            decreases fields@.len() - i,
        {
            let v = self.eval(&fields[i].1, f)?;
            set_key(&mut acc, fields[i].0.clone(), v);
            i = i + 1;
        }
        Ok(acc)
    }

    fn capture(&mut self, names: &Vec<String>, f: u64) -> (r: Result<Vec<(String, Value)>, Stop>)
        ensures
            match r {
                Ok(o) => (final(self)@, Ok::<Seq<(Seq<char>, Value)>, SpecStop>(view_pairs(o@))) == spec_capture(old(self)@, view_strings(names@), 0, Seq::empty(), f as nat),
                Err(x) => (final(self)@, Err::<Seq<(Seq<char>, Value)>, SpecStop>(x@)) == spec_capture(old(self)@, view_strings(names@), 0, Seq::empty(), f as nat),
            },
        decreases f, 1nat, 0nat,
    {
        let ghost nv = view_strings(names@);
        let mut acc: Vec<(String, Value)> = Vec::new();
        assert(view_pairs(acc@) =~= Seq::<(Seq<char>, Value)>::empty());
        let mut i: usize = 0;
        while i < names.len()
            invariant
                i <= names@.len(),
                nv == view_strings(names@),
                spec_capture(self@, nv, i as int, view_pairs(acc@), f as nat) == spec_capture(old(self)@, nv, 0, Seq::empty(), f as nat),
            decreases names@.len() - i,
        {
            let e = Expr::Access(Target::Var(names[i].clone()));
            proof {
                lemma_view_var(names@[i as int]);
            }
            let v = self.eval(&e, f)?;
            set_key(&mut acc, names[i].clone(), v);
            i = i + 1;
        }
        Ok(acc)
    }

    /// Reads a target.
    pub fn get_val(&mut self, t: &Target, f: u64) -> (r: Result<Value, Stop>)
        ensures
            (final(self)@, view_result(r)) == spec_get_val(old(self)@, t@, f as nat),
        decreases f, 1nat, 0nat,
    {
        match t {
            Target::Var(name) => Ok(self.read_var(name)),
            Target::Field { var, field } => {
                let ov = self.eval(var, f)?;
                match ov {
                    Value::Object(id) => {
                        if id < self.objects.len() {
                            let ghost o = self@.objects[id as int];
                            assert(o == view_pairs(self.objects@[id as int]@));
                            proof {
                                lemma_key_pos(o, field@, 0);
                            }
                            match find_key(&self.objects[id], field) {
                                Some(k) => {
                                    assert(o[k as int] == (self.objects@[id as int]@[k as int].0@, self.objects@[id as int]@[k as int].1));
                                    Ok(self.objects[id][k].1)
                                },
                                None => {
                                    self.emit(Output::CannotFindField(field.clone()));
                                    Ok(Value::Nil)
                                },
                            }
                        } else {
                            Err(Stop::Corrupted)
                        }
                    },
                    Value::NativeObject(m) => Ok(self.native_get(m, field)),
                    _ => {
                        self.emit(Output::FieldOfNonObject);
                        Ok(Value::Nil)
                    },
                }
            },
            Target::Index { var, index } => {
                let iv = self.eval(index, f)?;
                match iv {
                    Value::Number(b) => {
                        let lv = self.eval(var, f)?;
                        match lv {
                            Value::List(id) => {
                                if id < self.lists.len() {
                                    let i = self.float_index(b)?;
                                    if i < self.lists[id].len() {
                                        Ok(self.lists[id][i])
                                    } else {
                                        self.emit(Output::IndexOutOfBounds);
                                        Ok(Value::Nil)
                                    }
                                } else {
                                    Err(Stop::Corrupted)
                                }
                            },
                            _ => {
                                self.emit(Output::IndexNonList);
                                Ok(Value::Nil)
                            },
                        }
                    },
                    _ => {
                        self.emit(Output::IndexWithNonNumber);
                        Ok(Value::Nil)
                    },
                }
            },
        }
    }

    /// Writes `v` to a target.
    pub fn set_val(&mut self, t: &Target, v: Value, f: u64) -> (r: Result<Value, Stop>)
        ensures
            (final(self)@, view_result(r)) == spec_set_val(old(self)@, t@, v, f as nat),
        decreases f, 1nat, 0nat,
    {
        match t {
            Target::Var(name) => {
                self.assign_var(name.clone(), v);
                Ok(Value::Nil)
            },
            Target::Field { var, field } => {
                let ov = self.eval(var, f)?;
                match ov {
                    Value::Object(id) => {
                        if id < self.objects.len() {
                            let ghost st1 = self@;
                            let ghost fv = field@;
                            set_key(&mut self.objects[id], field.clone(), v);
                            assert(self@.objects =~= st1.objects.update(id as int, assoc_set(st1.objects[id as int], fv, v)));
                            assert(self@ =~= RState { objects: st1.objects.update(id as int, assoc_set(st1.objects[id as int], fv, v)), ..st1 });
                            Ok(Value::Nil)
                        } else {
                            Err(Stop::Corrupted)
                        }
                    },
                    _ => {
                        self.emit(Output::SetFieldOfNonObject);
                        Ok(Value::Nil)
                    },
                }
            },
            Target::Index { var, index } => {
                let iv = self.eval(index, f)?;
                match iv {
                    Value::Number(b) => {
                        let lv = self.eval(var, f)?;
                        match lv {
                            Value::List(id) => {
                                if id < self.lists.len() {
                                    let i = self.float_index(b)?;
                                    if i < self.lists[id].len() {
                                        let ghost st2 = self@;
                                        self.lists[id].set(i, v);
                                        assert(self@.lists =~= st2.lists.update(id as int, st2.lists[id as int].update(i as int, v)));
                                        assert(self@ =~= RState { lists: st2.lists.update(id as int, st2.lists[id as int].update(i as int, v)), ..st2 });
                                        Ok(Value::Nil)
                                    } else {
                                        self.emit(Output::IndexOutOfBounds);
                                        Ok(Value::Nil)
                                    }
                                } else {
                                    Err(Stop::Corrupted)
                                }
                            },
                            _ => {
                                self.emit(Output::SetIndexNonList);
                                Ok(Value::Nil)
                            },
                        }
                    },
                    _ => {
                        self.emit(Output::SetIndexWithNonNumber);
                        Ok(Value::Nil)
                    },
                }
            },
        }
    }

    fn eval_call(&mut self, func: &Expr, args: &Vec<Expr>, f: u64) -> (r: Result<Value, Stop>)
        requires
            f < u64::MAX,
        ensures
            (final(self)@, view_result(r)) == spec_eval(
                old(self)@,
                SpecExpr::FuncCall { func: Box::new(func@), args: view_exprs(args@) },
                (f + 1) as nat,
            ),
        decreases f, 4nat, 0nat,
    {
        let argv = self.eval_items(args, f)?;
        match func {
            Expr::Access(Target::Field { var, field }) => {
                proof {
                    lemma_view_access(Target::Field { var: *var, field: *field });
                }
                let ov = self.eval(var, f)?;
                match ov {
                    Value::Object(id) => {
                        if id < self.objects.len() {
                            let ghost o = self@.objects[id as int];
                            assert(o == view_pairs(self.objects@[id as int]@));
                            proof {
                                lemma_key_pos(o, field@, 0);
                            }
                            match find_key(&self.objects[id], field) {
                                Some(k) => {
                                    assert(o[k as int] == (self.objects@[id as int]@[k as int].0@, self.objects@[id as int]@[k as int].1));
                                    let fv = self.objects[id][k].1;
                                    self.call_func(fv, &argv, Some(Value::Object(id)), f)
                                },
                                None => {
                                    self.emit(Output::CannotFindField(field.clone()));
                                    Ok(Value::Nil)
                                },
                            }
                        } else {
                            Err(Stop::Corrupted)
                        }
                    },
                    Value::NativeObject(m) => {
                        let fv = self.native_get(m, field);
                        self.call_func(fv, &argv, None, f)
                    },
                    _ => {
                        self.emit(Output::FieldOfNonObject);
                        Ok(Value::Nil)
                    },
                }
            },
            _ => {
                proof {
                    reveal_with_fuel(view_expr, 2);
                }
                let fv = self.eval(func, f)?;
                self.call_func(fv, &argv, None, f)
            },
        }
    }

    /// Calls a value with arguments; `refl` is the object it was read from.
    pub fn call_func(&mut self, fv: Value, args: &Vec<Value>, refl: Option<Value>, f: u64) -> (r: Result<Value, Stop>)
        ensures
            (final(self)@, view_result(r)) == spec_call(old(self)@, fv, args@, refl, f as nat),
        decreases f, 3nat, 0nat,
    {
        match fv {
            Value::Function(id) => {
                if id < self.functions.len() {
                    let ghost fun = self@.functions[id as int];
                    assert(fun == self.functions@[id as int]@);
                    let names = clone_strings(&self.functions[id].args);
                    let body = self.functions[id].value.deep_clone();
                    let closure = clone_pairs(&self.functions[id].closure);
                    let reflection = self.functions[id].reflection;
                    let ghost st0 = self@;
                    let fresh: Vec<(String, Value)> = Vec::new();
                    assert(view_pairs(fresh@) =~= Seq::<(Seq<char>, Value)>::empty());
                    self.scopes.push(fresh);
                    assert(self@.scopes =~= st0.scopes.push(Seq::empty()));
                    assert(self@ =~= RState { scopes: st0.scopes.push(Seq::empty()), ..st0 });
                    let ghost st1 = self@;
                    let ghost cl = view_pairs(closure@);
                    let mut k: usize = 0;
                    while k < closure.len()
                        invariant
                            k <= closure@.len(),
                            cl == view_pairs(closure@),
                            cl.len() == closure@.len(),
                            bind_closure(self@, cl, k as int) == bind_closure(st1, cl, 0),
                        decreases closure@.len() - k,
                    {
                        assert(cl[k as int] == (closure@[k as int].0@, closure@[k as int].1));
                        self.assign_var(closure[k].0.clone(), closure[k].1);
                        k = k + 1;
                    }
                    let ghost st2 = self@;
                    let ghost nv = view_strings(names@);
                    let mut k: usize = 0;
                    while k < names.len()
                        invariant
                            k <= names@.len(),
                            nv == view_strings(names@),
                            nv.len() == names@.len(),
                            bind_args(self@, nv, args@, k as int) == bind_args(st2, nv, args@, 0),
                        decreases names@.len() - k,
                    {
                        let v = if k < args.len() {
                            args[k]
                        } else {
                            Value::Nil
                        };
                        self.assign_var(names[k].clone(), v);
                        k = k + 1;
                    }
                    if reflection && refl.is_some() {
                        self.assign_var(text("self"), refl.unwrap());
                    }
                    assert(self@ == enter(st0, fun, args@, refl));
                    let res = self.eval(&body, f)?;
                    let ghost st3 = self@;
                    self.scopes.pop();
                    proof {
                        if st3.scopes.len() > 0 {
                            assert(self@.scopes =~= st3.scopes.drop_last());
                        } else {
                            assert(self@.scopes =~= st3.scopes);
                        }
                    }
                    assert(self@ =~= leave(st3));
                    Ok(res)
                } else {
                    Err(Stop::Corrupted)
                }
            },
            Value::NativeFunction(nf) => self.native(nf, args, f),
            _ => {
                self.emit(Output::CallNonFunction);
                Ok(Value::Nil)
            },
        }
    }

    /// Runs a built-in function.
    fn native(&mut self, nf: NativeFunction, args: &Vec<Value>, f: u64) -> (r: Result<Value, Stop>)
        ensures
            (final(self)@, view_result(r)) == spec_native(old(self)@, nf, args@, f as nat),
        decreases f, 2nat, 0nat,
    {
        match nf {
            NativeFunction::Import => Runner::import(self, args, f),
            NativeFunction::Print => Io::print(self, args, f),
            NativeFunction::Push => List::push(self, args),
            NativeFunction::Len => List::len(self, args),
            NativeFunction::Add => Math::add(self, args),
        }
    }

    /// The line that `io.print` writes for `args`.
    pub(crate) fn print_line(&self, args: &[Value], f: u64) -> (r: Result<String, Stop>)
        ensures
            match r {
                Ok(s) => spec_print_line(self@, args@, 0, Seq::empty(), f as nat) == Ok::<Seq<char>, SpecStop>(s@),
                Err(x) => spec_print_line(self@, args@, 0, Seq::empty(), f as nat) == Err::<Seq<char>, SpecStop>(x@),
            },
    {
        let mut line = String::new();
        let mut i: usize = 0;
        while i < args.len()
            invariant
                i <= args@.len(),
                spec_print_line(self@, args@, i as int, line@, f as nat) == spec_print_line(self@, args@, 0, Seq::empty(), f as nat),
            decreases args@.len() - i,
        {
            let t = args[i].repr(self, f)?;
            line.append(t.as_str());
            line.append(" ");
            i = i + 1;
        }
        Ok(line)
    }

    /// Loads a built-in module, or runs the program in a file, named by the
    /// first argument.
    pub fn import(r: &mut Runner, args: &[Value], f: u64) -> (res: Result<Value, Stop>)
        ensures
            (final(r)@, view_result(res)) == spec_native(old(r)@, NativeFunction::Import, args@, f as nat),
        decreases f, 1nat, 0nat,
    {
        if args.len() < 1 {
            r.emit(Output::InvalidArguments);
            return Ok(Value::Nil);
        }
        match args[0] {
            Value::Str(id) => {
                if id < r.strings.len() {
                    let name = r.strings[id].clone();
                    proof {
                        lemma_key_pos(r@.loadables, name@, 0);
                    }
                    match find_key(&r.loadables, &name) {
                        Some(k) => {
                            assert(r@.loadables[k as int] == (r.loadables@[k as int].0@, r.loadables@[k as int].1));
                            Ok(Value::NativeObject(r.loadables[k].1))
                        },
                        None => match r.file_source(&name) {
                            None => Err(Stop::NeedFile(name)),
                            Some(None) => {
                                r.emit(Output::ImportNotFound(name));
                                Ok(Value::Nil)
                            },
                            Some(Some(src)) => {
                                let mut p = Parser::new(src.as_str());
                                if p.source_len() == usize::MAX {
                                    return Err(Stop::Corrupted);
                                }
                                let parsed = p.try_expr();
                                let msgs = p.take_messages();
                                r.emit_parse_messages(msgs);
                                match parsed {
                                    None => Err(Stop::ParseStuck),
                                    Some(e) => r.eval(&e, f),
                                }
                            },
                        },
                    }
                } else {
                    Err(Stop::Corrupted)
                }
            },
            _ => {
                r.emit(Output::InvalidArguments);
                Ok(Value::Nil)
            },
        }
    
    }

    /// A new interpreter: the built-in modules registered, and `nil`,
    /// `true`, `false` and `import` bound globally.
    pub fn new() -> (r: Runner)
        ensures
            r@ == initial_state(),
    {
        let mut loadables: Vec<(String, Module)> = Vec::new();
        assert(view_pairs(loadables@) =~= Seq::<(Seq<char>, Module)>::empty());
        register_modules(&mut loadables);
        let mut globals: Vec<(String, Value)> = Vec::new();
        assert(view_pairs(globals@) =~= Seq::<(Seq<char>, Value)>::empty());
        set_key(&mut globals, text("nil"), Value::Nil);
        set_key(&mut globals, text("true"), Value::Bool(true));
        set_key(&mut globals, text("false"), Value::Bool(false));
        set_key(&mut globals, text("import"), Value::NativeFunction(NativeFunction::Import));
        let r = Runner {
            loadables,
            strings: Vec::new(),
            lists: Vec::new(),
            objects: Vec::new(),
            functions: Vec::new(),
            scopes: Vec::new(),
            globals,
            output: Vec::new(),
            floats: Vec::new(),
            files: Vec::new(),
        };
        assert(r@.strings =~= Seq::<Seq<char>>::empty());
        assert(r@.lists =~= Seq::<Seq<Value>>::empty());
        assert(r@.objects =~= Seq::<Seq<(Seq<char>, Value)>>::empty());
        assert(r@.functions =~= Seq::<SpecFunction>::empty());
        assert(r@.scopes =~= Seq::<Seq<(Seq<char>, Value)>>::empty());
        assert(r@.output =~= Seq::<SpecOutput>::empty());
        assert(r@.floats =~= Seq::<(SpecFloatOp, SpecFloatAnswer)>::empty());
        assert(r@.files =~= Seq::<(Seq<char>, Option<Seq<char>>)>::empty());
        assert(r@ =~= initial_state());
        r
    }

    /// The string at `id`.
    pub fn get_str(&self, id: StrId) -> (s: &str)
        requires
            id < self.strings@.len(),
        ensures
            s@ == self@.strings[id as int],
    {
        self.strings[id].as_str()
    }

    /// The list at `id`.
    pub fn get_list(&self, id: ListId) -> (l: &Vec<Value>)
        requires
            id < self.lists@.len(),
        ensures
            l@ == self@.lists[id as int],
    {
        &self.lists[id]
    }

    /// The object at `id`.
    pub fn get_object(&self, id: ObjectId) -> (o: &Vec<(String, Value)>)
        requires
            id < self.objects@.len(),
        ensures
            view_pairs(o@) == self@.objects[id as int],
    {
        &self.objects[id]
    }

    /// The function at `id`.
    pub fn get_func(&self, id: FunctionId) -> (g: &Function)
        requires
            id < self.functions@.len(),
        ensures
            g@ == self@.functions[id as int],
    {
        &self.functions[id]
    }

    /// The string at `id`, to change it.
    pub fn get_str_mut(&mut self, id: StrId) -> (s: &mut String)
        requires
            id < old(self).strings@.len(),
        ensures
            *s == old(self).strings@[id as int],
            final(self).strings@ == old(self).strings@.update(id as int, *final(s)),
            final(self).lists == old(self).lists,
            final(self).objects == old(self).objects,
            final(self).functions == old(self).functions,
            final(self).scopes == old(self).scopes,
            final(self).globals == old(self).globals,
            final(self).loadables == old(self).loadables,
            final(self).output == old(self).output,
            final(self).floats == old(self).floats,
            final(self).files == old(self).files,
    {
        &mut self.strings[id]
    }

    /// The list at `id`, to change it.
    pub fn get_list_mut(&mut self, id: ListId) -> (l: &mut Vec<Value>)
        requires
            id < old(self).lists@.len(),
        ensures
            *l == old(self).lists@[id as int],
            final(self).lists@ == old(self).lists@.update(id as int, *final(l)),
            final(self).strings == old(self).strings,
            final(self).objects == old(self).objects,
            final(self).functions == old(self).functions,
            final(self).scopes == old(self).scopes,
            final(self).globals == old(self).globals,
            final(self).loadables == old(self).loadables,
            final(self).output == old(self).output,
            final(self).floats == old(self).floats,
            final(self).files == old(self).files,
    {
        &mut self.lists[id]
    }

    /// The object at `id`, to change it.
    pub fn get_object_mut(&mut self, id: ObjectId) -> (o: &mut Vec<(String, Value)>)
        requires
            id < old(self).objects@.len(),
        ensures
            *o == old(self).objects@[id as int],
            final(self).objects@ == old(self).objects@.update(id as int, *final(o)),
            final(self).strings == old(self).strings,
            final(self).lists == old(self).lists,
            final(self).functions == old(self).functions,
            final(self).scopes == old(self).scopes,
            final(self).globals == old(self).globals,
            final(self).loadables == old(self).loadables,
            final(self).output == old(self).output,
            final(self).floats == old(self).floats,
            final(self).files == old(self).files,
    {
        &mut self.objects[id]
    }

    /// The function at `id`, to change it.
    pub fn get_func_mut(&mut self, id: FunctionId) -> (g: &mut Function)
        requires
            id < old(self).functions@.len(),
        ensures
            *g == old(self).functions@[id as int],
            final(self).functions@ == old(self).functions@.update(id as int, *final(g)),
            final(self).strings == old(self).strings,
            final(self).lists == old(self).lists,
            final(self).objects == old(self).objects,
            final(self).scopes == old(self).scopes,
            final(self).globals == old(self).globals,
            final(self).loadables == old(self).loadables,
            final(self).output == old(self).output,
            final(self).floats == old(self).floats,
            final(self).files == old(self).files,
    {
        &mut self.functions[id]
    }

    /// The innermost scope, to change it; the globals when no function is
    /// running.
    pub fn get_scope(&mut self) -> (sc: &mut Vec<(String, Value)>)
        ensures
            old(self).scopes@.len() > 0 ==> ({
                &&& *sc == old(self).scopes@.last()
                &&& final(self).scopes@ == old(self).scopes@.update(old(self).scopes@.len() - 1, *final(sc))
                &&& final(self).globals == old(self).globals
            }),
            old(self).scopes@.len() == 0 ==> ({
                &&& *sc == old(self).globals
                &&& final(self).globals == *final(sc)
                &&& final(self).scopes == old(self).scopes
            }),
            final(self).strings == old(self).strings,
            final(self).lists == old(self).lists,
            final(self).objects == old(self).objects,
            final(self).functions == old(self).functions,
            final(self).loadables == old(self).loadables,
            final(self).output == old(self).output,
            final(self).floats == old(self).floats,
            final(self).files == old(self).files,
    {
        if self.scopes.len() > 0 {
            let n = self.scopes.len() - 1;
            &mut self.scopes[n]
        } else {
            &mut self.globals
        }
    }
}

} // verus!
