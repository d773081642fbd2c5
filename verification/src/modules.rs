//! The built-in modules that `import` loads: `io`, `list` and `math`, and
//! the object helper `Obj`.
use vstd::prelude::*;
use crate::assoc::{view_pairs, set_key, has_key};
use crate::runner::{Runner, text, view_result};
use crate::semantics::{spec_native, spec_obj_has, registered, emit};
use crate::value::{FloatOp, Module, NativeFunction, Output, Stop, Value};

verus! {

/// The `io` module: `print`.
pub struct Io {}

/// The `list` module: `push` and `len`.
pub struct List {}

/// The `math` module: `add`.
pub struct Math;

/// Helpers on objects: `has`.
pub struct Obj;

impl Io {
    pub fn new() -> (io: Io) {
        Io {}
    }

    /// The name under which `import` finds the module.
    pub fn name() -> (s: String)
        ensures
            s@ == "io"@,
    {
        text("io")
    }

    /// The value that `import("io")` gives.
    pub fn load(_r: &Runner) -> (v: Value)
        ensures
            v == Value::NativeObject(Module::Io),
    {
        Value::NativeObject(Module::Io)
    }

    /// Prints its arguments' texts on one line, each followed by a blank.
    pub fn print(r: &mut Runner, args: &[Value], fuel: u64) -> (res: Result<Value, Stop>)
        ensures
            (final(r)@, view_result(res)) == spec_native(old(r)@, NativeFunction::Print, args@, fuel as nat),
    {
        let line = r.print_line(args, fuel)?;
        r.emit(Output::Line(line));
        Ok(Value::Nil)
    }
}

impl List {
    pub fn new() -> (l: List) {
        List {}
    }

    /// The name under which `import` finds the module.
    pub fn name() -> (s: String)
        ensures
            s@ == "list"@,
    {
        text("list")
    }

    /// The value that `import("list")` gives.
    pub fn load(_r: &Runner) -> (v: Value)
        ensures
            v == Value::NativeObject(Module::List),
    {
        Value::NativeObject(Module::List)
    }

    /// Appends the second argument to the list given first.
    pub fn push(r: &mut Runner, args: &[Value]) -> (res: Result<Value, Stop>)
        ensures
            forall|f: nat| (final(r)@, view_result(res)) == #[trigger] spec_native(old(r)@, NativeFunction::Push, args@, f),
    {
        if args.len() < 2 {
            r.emit(Output::InvalidArguments);
            return Ok(Value::Nil);
        }
        match args[0] {
            Value::List(id) => {
                if id < r.lists.len() {
                    let ghost st = r@;
                    r.lists[id].push(args[1]);
                    assert(r@.lists =~= st.lists.update(id as int, st.lists[id as int].push(args@[1])));
                    assert(r@ =~= (crate::semantics::RState { lists: st.lists.update(id as int, st.lists[id as int].push(args@[1])), ..st }));
                    Ok(Value::Nil)
                } else {
                    Err(Stop::Corrupted)
                }
            },
            _ => {
                r.emit(Output::InvalidArguments);
                Ok(Value::Nil)
            },
        }
    }

    /// The length of the list given as argument, as a number.
    pub fn len(r: &mut Runner, args: &[Value]) -> (res: Result<Value, Stop>)
        ensures
            forall|f: nat| (final(r)@, view_result(res)) == #[trigger] spec_native(old(r)@, NativeFunction::Len, args@, f),
    {
        if args.len() < 1 {
            r.emit(Output::InvalidArguments);
            return Ok(Value::Nil);
        }
        match args[0] {
            Value::List(id) => {
                if id < r.lists.len() {
                    let n = r.lists[id].len();
                    let b = r.float_bits(FloatOp::FromCount(n))?;
                    Ok(Value::Number(b))
                } else {
                    Err(Stop::Corrupted)
                }
            },
            _ => {
                r.emit(Output::InvalidArguments);
                Ok(Value::Nil)
            },
        }
    }
}

impl Math {
    /// The name under which `import` finds the module.
    pub fn name() -> (s: String)
        ensures
            s@ == "math"@,
    {
        text("math")
    }

    /// The value that `import("math")` gives.
    pub fn load(_r: &Runner) -> (v: Value)
        ensures
            v == Value::NativeObject(Module::Math),
    {
        Value::NativeObject(Module::Math)
    }

    /// The sum of two numbers.
    pub fn add(r: &mut Runner, args: &Vec<Value>) -> (res: Result<Value, Stop>)
        ensures
            forall|f: nat| (final(r)@, view_result(res)) == #[trigger] spec_native(old(r)@, NativeFunction::Add, args@, f),
    {
        if args.len() < 2 {
            r.emit(Output::InvalidNumberOfArguments);
            return Ok(Value::Nil);
        }
        match (args[0], args[1]) {
            (Value::Number(x), Value::Number(y)) => {
                let b = r.float_bits(FloatOp::Add(x, y))?;
                Ok(Value::Number(b))
            },
            _ => {
                r.emit(Output::InvalidArgumentTypes);
                Ok(Value::Nil)
            },
        }
    }
}

impl Obj {
    /// The name of the helper.
    pub fn name() -> (s: String)
        ensures
            s@ == "obj"@,
    {
        text("obj")
    }

    /// Whether the object given first has a field named by the string given
    /// second. The object a method is called on plays no part.
    pub fn has(r: &mut Runner, args: &Vec<Value>, _reflection: Option<Value>) -> (res: Result<Value, Stop>)
        ensures
            (final(r)@, view_result(res)) == spec_obj_has(old(r)@, args@),
    {
        if args.len() != 2 {
            r.emit(Output::InvalidObjHasArguments);
            return Ok(Value::Nil);
        }
        match (args[0], args[1]) {
            (Value::Object(id), Value::Str(sid)) => {
                if id < r.objects.len() && sid < r.strings.len() {
                    assert(r@.objects[id as int] == view_pairs(r.objects@[id as int]@));
                    Ok(Value::Bool(has_key(&r.objects[id], &r.strings[sid])))
                } else {
                    Err(Stop::Corrupted)
                }
            },
            _ => {
                r.emit(Output::InvalidObjHasArguments);
                Ok(Value::Nil)
            },
        }
    }
}

/// Registers the built-in modules under their names.
pub fn register_modules(table: &mut Vec<(String, Module)>)
    ensures
        view_pairs(final(table)@) == registered(view_pairs(old(table)@)),
{
    set_key(table, Math::name(), Module::Math);
    set_key(table, Io::name(), Module::Io);
    set_key(table, List::name(), Module::List);
}

} // verus!
