use lib::ast::{NumberLiteral, ParseMessage, Target};
use lib::modules::{Io, List, Math, Obj, register_modules};
use lib::parser::Parser;
use lib::runner::Runner;
use lib::value::{FloatAnswer, FloatOp, Module, NativeFunction, Output, Stop, Value};

fn literal_value(n: &NumberLiteral) -> f64 {
    let mut res = 0.0;
    for c in &n.int_digits {
        res = res * 10.0 + (*c as u32 - '0' as u32) as f64;
    }
    let mut power_of_10 = 0.1;
    for c in &n.frac_digits {
        res += power_of_10 * (*c as u32 - '0' as u32) as f64;
        power_of_10 /= 10.0;
    }
    if n.negative {
        res *= -1.0;
    }
    res
}

fn answer(op: &FloatOp) -> FloatAnswer {
    match op {
        FloatOp::FromLiteral(n) => FloatAnswer::Bits(literal_value(n).to_bits()),
        FloatOp::FromCount(c) => FloatAnswer::Bits((*c as f64).to_bits()),
        FloatOp::Add(a, b) => FloatAnswer::Bits((f64::from_bits(*a) + f64::from_bits(*b)).to_bits()),
        FloatOp::ToIndex(b) => FloatAnswer::Index(f64::from_bits(*b) as usize),
        FloatOp::ToText(b) => {
            let x = f64::from_bits(*b);
            FloatAnswer::Text(format!("{}", (x * 10000.0).round() / 10000.0))
        },
    }
}

fn num(x: f64) -> Value {
    Value::Number(x.to_bits())
}

/// Runs `src` from a new interpreter, answering its questions about
/// numbers and giving it `files`, until it ends.
fn run_with_files(src: &str, files: &[(&str, Option<&str>)]) -> (Runner, Result<Value, Stop>) {
    let mut floats: Vec<(FloatOp, FloatAnswer)> = Vec::new();
    let mut fuel: u64 = 16;
    loop {
        let mut p = Parser::new(src);
        let e = p.try_expr().expect("the source holds no unterminated comment");
        let mut r = Runner::new();
        r.floats = std::mem::take(&mut floats);
        r.files = files.iter().map(|(n, c)| (n.to_string(), c.map(|s| s.to_string()))).collect();
        let res = r.eval(&e, fuel);
        match res {
            Err(Stop::NeedFloat(op)) => {
                floats = std::mem::take(&mut r.floats);
                let a = answer(&op);
                floats.push((op, a));
            },
            Err(Stop::OutOfFuel) if fuel < (1 << 20) => {
                floats = std::mem::take(&mut r.floats);
                fuel *= 2;
            },
            other => return (r, other),
        }
    }
}

fn run(src: &str) -> (Runner, Result<Value, Stop>) {
    run_with_files(src, &[])
}

fn text_of(r: &Runner, v: Value) -> String {
    let mut floats: Vec<(FloatOp, FloatAnswer)> = Vec::new();
    loop {
        let mut probe = Runner::new();
        probe.strings = r.strings.clone();
        probe.lists = r.lists.clone();
        probe.objects = r.objects.clone();
        probe.floats = std::mem::take(&mut floats);
        match v.repr(&probe, 64) {
            Err(Stop::NeedFloat(op)) => {
                floats = std::mem::take(&mut probe.floats);
                let a = answer(&op);
                floats.push((op, a));
            },
            Ok(s) => return s,
            Err(x) => panic!("{:?}", x),
        }
    }
}

fn line(s: &str) -> Output {
    Output::Line(s.to_string())
}

#[test]
fn binding_evaluates_to_its_value() {
    let (r, res) = run("let x = 5");
    assert_eq!(res, Ok(num(5.0)));
    assert!(r.globals.iter().any(|(k, v)| k == "x" && *v == num(5.0)));
}

#[test]
fn identifier_reads_binding() {
    assert_eq!(run("{let x = 3; x}").1, Ok(num(3.0)));
}

#[test]
fn assigning_one_variable_keeps_another() {
    assert_eq!(run("{let x = 1; let y = 2; x}").1, Ok(num(1.0)));
}

#[test]
fn rebinding_replaces_value() {
    assert_eq!(run("{let x = 1; let x = 2; x}").1, Ok(num(2.0)));
}

#[test]
fn unknown_identifier_is_nil_with_message() {
    let (r, res) = run("y");
    assert_eq!(res, Ok(Value::Nil));
    assert_eq!(r.output, vec![Output::CannotFindIdentifier("y".to_string())]);
}

#[test]
fn literals_evaluate() {
    assert_eq!(run("nil").1, Ok(Value::Nil));
    assert_eq!(run("true").1, Ok(Value::Bool(true)));
    assert_eq!(run("false").1, Ok(Value::Bool(false)));
    assert_eq!(run("-1.5").1, Ok(num(-1.5)));
    assert_eq!(run("3.25").1, Ok(num(3.25)));
    let (r, res) = run("\"hi\"");
    assert_eq!(res, Ok(Value::Str(0)));
    assert_eq!(r.strings, vec!["hi".to_string()]);
}

#[test]
fn chain_has_value_of_last() {
    assert_eq!(run("{1; 2; 3}").1, Ok(num(3.0)));
    assert_eq!(run("{}").1, Ok(Value::Nil));
}

#[test]
fn if_picks_branch() {
    assert_eq!(run("if (true) 1 else 2").1, Ok(num(1.0)));
    assert_eq!(run("if (false) 1 else 2").1, Ok(num(2.0)));
    assert_eq!(run("if (0) 1 else 2").1, Ok(num(2.0)));
    assert_eq!(run("if (-0) 1 else 2").1, Ok(num(2.0)));
    assert_eq!(run("if (0.5) 1 else 2").1, Ok(num(1.0)));
    assert_eq!(run("if (nil) 1 else 2").1, Ok(num(2.0)));
    assert_eq!(run("if (\"\") 1 else 2").1, Ok(num(2.0)));
    assert_eq!(run("if (\"a\") 1 else 2").1, Ok(num(1.0)));
    assert_eq!(run("if (<>) 1 else 2").1, Ok(num(2.0)));
    assert_eq!(run("if (<0>) 1 else 2").1, Ok(num(1.0)));
    assert_eq!(run("if ([]) 1 else 2").1, Ok(num(2.0)));
    assert_eq!(run("if (fn() 1) 1 else 2").1, Ok(num(1.0)));
    assert_eq!(run("if (false) 1").1, Ok(Value::Nil));
}

#[test]
fn while_without_turn_gives_else() {
    assert_eq!(run("while (false) 1 else 2").1, Ok(num(2.0)));
    assert_eq!(run("while (false) 1").1, Ok(Value::Nil));
}

#[test]
fn while_after_turn_gives_last_value() {
    assert_eq!(run("{let n = true; while (n) {let n = false; 5} else 9}").1, Ok(num(5.0)));
}

#[test]
fn while_loops_until_condition_fails() {
    let src = "{let l = import(\"list\"); let xs = <>; \
               while (if (l.len(xs)) false else true) l.push(xs, 1); l.len(xs)}";
    assert_eq!(run(src).1, Ok(num(1.0)));
    let src2 = "{let l = import(\"list\"); let m = import(\"math\"); let xs = <>; let i = 3; \
                while (i) {l.push(xs, i); let i = m.add(i, -1)}; l.len(xs)}";
    assert_eq!(run(src2).1, Ok(num(3.0)));
}

#[test]
fn identity_function_returns_argument() {
    let (r, res) = run("{let id = fn(a) a; id(7)}");
    assert_eq!(res, Ok(num(7.0)));
    assert!(r.scopes.is_empty());
}

#[test]
fn missing_arguments_are_nil() {
    assert_eq!(run("{let f = fn(a, b) b; f(1)}").1, Ok(Value::Nil));
}

#[test]
fn parameter_named_like_a_global_writes_the_global() {
    let (r, res) = run("{let a = 1; let f = fn(a) a; f(2); a}");
    assert_eq!(res, Ok(num(2.0)));
    assert!(r.scopes.is_empty());
}

#[test]
fn method_is_called_on_object() {
    assert_eq!(run("{let o = [f: fn(x) x]; o.f(3)}").1, Ok(num(3.0)));
}

#[test]
fn calling_missing_method_is_nil_with_message() {
    let (r, res) = run("{let o = []; o.g(3)}");
    assert_eq!(res, Ok(Value::Nil));
    assert_eq!(r.output, vec![Output::CannotFindField("g".to_string())]);
}

#[test]
fn calling_non_function_is_nil_with_message() {
    let (r, res) = run("{let x = 1; x()}");
    assert_eq!(res, Ok(Value::Nil));
    assert_eq!(r.output, vec![Output::CallNonFunction]);
}

#[test]
fn method_of_non_object_is_nil_with_message() {
    let (r, res) = run("{let x = 1; x.g()}");
    assert_eq!(res, Ok(Value::Nil));
    assert_eq!(r.output, vec![Output::FieldOfNonObject]);
}

#[test]
fn list_item_reads() {
    assert_eq!(run("{let l = <1; 2; 3>; l<1>}").1, Ok(num(2.0)));
    assert_eq!(run("{let l = <1; 2; 3>; l<1.9>}").1, Ok(num(2.0)));
}

#[test]
fn list_item_read_after_write() {
    assert_eq!(run("{let l = <1; 2>; let i = 0; let l<i> = 5; l<i>}").1, Ok(num(5.0)));
}

#[test]
fn list_index_out_of_bounds() {
    let (r, res) = run("{let l = <1>; l<3>}");
    assert_eq!(res, Ok(Value::Nil));
    assert_eq!(r.output, vec![Output::IndexOutOfBounds]);
    let (r2, res2) = run("{let l = <1>; let l<3> = 2}");
    assert_eq!(res2, Ok(num(2.0)));
    assert_eq!(r2.output, vec![Output::IndexOutOfBounds]);
}

#[test]
fn indexing_errors_give_messages() {
    let (r, _) = run("{let x = 1; x<0>}");
    assert_eq!(r.output, vec![Output::IndexNonList]);
    let (r, _) = run("{let x = 1; let x<0> = 1}");
    assert_eq!(r.output, vec![Output::SetIndexNonList]);
    let (r, _) = run("{let l = <1>; l<\"a\">}");
    assert_eq!(r.output, vec![Output::IndexWithNonNumber]);
    let (r, _) = run("{let l = <1>; let l<\"a\"> = 1}");
    assert_eq!(r.output, vec![Output::SetIndexWithNonNumber]);
}

#[test]
fn field_read_after_write() {
    assert_eq!(run("{let o = [a: 1]; let o.a = 2; o.a}").1, Ok(num(2.0)));
    assert_eq!(run("{let o = []; let o.b = 4; o.b}").1, Ok(num(4.0)));
}

#[test]
fn field_errors_give_messages() {
    let (r, res) = run("{let o = [a: 1]; o.b}");
    assert_eq!(res, Ok(Value::Nil));
    assert_eq!(r.output, vec![Output::CannotFindField("b".to_string())]);
    let (r, _) = run("{let x = 1; x.a}");
    assert_eq!(r.output, vec![Output::FieldOfNonObject]);
    let (r, _) = run("{let x = 1; let x.a = 1}");
    assert_eq!(r.output, vec![Output::SetFieldOfNonObject]);
}

#[test]
fn print_writes_texts_followed_by_blanks() {
    let (r, res) = run("{let io = import(\"io\"); io.print(1, \"a\", nil, true, 3.14159)}");
    assert_eq!(res, Ok(Value::Nil));
    assert_eq!(r.output, vec![line("1 a nil true 3.1416 ")]);
}

#[test]
fn print_writes_lists_and_objects() {
    let (r, _) = run("{let io = import(\"io\"); io.print(<1; 2>, [a: 1; b: \"x\"], <>, [])}");
    assert_eq!(r.output, vec![line("<1; 2> [a: 1; b: x] <> [] ")]);
}

#[test]
fn print_writes_functions_and_modules() {
    let (r, _) = run("{let io = import(\"io\"); io.print(fn() 1, io, io.print)}");
    assert_eq!(r.output, vec![line("<Function> <NativeObject> (to be implemented) <NativeFunction> ")]);
}

#[test]
fn print_with_no_argument_prints_empty_line() {
    let (r, _) = run("{let io = import(\"io\"); io.print()}");
    assert_eq!(r.output, vec![line("")]);
}

#[test]
fn unknown_module_field_gives_message() {
    let (r, res) = run("{let io = import(\"io\"); io.write}");
    assert_eq!(res, Ok(Value::Nil));
    assert_eq!(r.output, vec![Output::FieldNotFound("write".to_string())]);
}

#[test]
fn math_add_sums() {
    assert_eq!(run("{let m = import(\"math\"); m.add(1.5, 2)}").1, Ok(num(3.5)));
}

#[test]
fn math_add_errors() {
    let (r, res) = run("{let m = import(\"math\"); m.add(1)}");
    assert_eq!(res, Ok(Value::Nil));
    assert_eq!(r.output, vec![Output::InvalidNumberOfArguments]);
    let (r, _) = run("{let m = import(\"math\"); m.add(1, \"a\")}");
    assert_eq!(r.output, vec![Output::InvalidArgumentTypes]);
}

#[test]
fn list_push_then_len() {
    let (r, res) = run("{let l = import(\"list\"); let xs = <1>; l.push(xs, 9); l.len(xs)}");
    assert_eq!(res, Ok(num(2.0)));
    assert_eq!(r.lists[0], vec![num(1.0), num(9.0)]);
}

#[test]
fn list_module_errors() {
    let (r, _) = run("{let l = import(\"list\"); l.push(<>)}");
    assert_eq!(r.output, vec![Output::InvalidArguments]);
    let (r, _) = run("{let l = import(\"list\"); l.len(1)}");
    assert_eq!(r.output, vec![Output::InvalidArguments]);
}

#[test]
fn import_reads_file() {
    let (_, res) = run_with_files("import(\"lib.flyp\")", &[("lib.flyp", Some("{let z = 4; z}"))]);
    assert_eq!(res, Ok(num(4.0)));
}

#[test]
fn import_of_missing_file_gives_message() {
    let (r, res) = run_with_files("import(\"nope\")", &[("nope", None)]);
    assert_eq!(res, Ok(Value::Nil));
    assert_eq!(r.output, vec![Output::ImportNotFound("nope".to_string())]);
}

#[test]
fn import_asks_for_unknown_file() {
    let mut r = Runner::new();
    let mut p = Parser::new("import(\"x\")");
    let e = p.expr();
    assert_eq!(r.eval(&e, 10), Err(Stop::NeedFile("x".to_string())));
}

#[test]
fn import_with_bad_argument_gives_message() {
    let (r, _) = run("import(1)");
    assert_eq!(r.output, vec![Output::InvalidArguments]);
    let (r, _) = run("import()");
    assert_eq!(r.output, vec![Output::InvalidArguments]);
}

#[test]
fn import_of_file_with_unterminated_comment_stops() {
    let (_, res) = run_with_files("import(\"c\")", &[("c", Some("# open"))]);
    assert_eq!(res, Err(Stop::ParseStuck));
}

#[test]
fn evaluation_asks_for_numbers() {
    let mut r = Runner::new();
    let mut p = Parser::new("12");
    let e = p.expr();
    match r.eval(&e, 10) {
        Err(Stop::NeedFloat(FloatOp::FromLiteral(n))) => {
            assert_eq!(n.int_digits, vec!['1', '2']);
            assert!(!n.negative);
        },
        other => panic!("{:?}", other),
    }
    r.floats.push((
        FloatOp::FromLiteral(NumberLiteral { negative: false, int_digits: vec!['1', '2'], frac_digits: vec![] }),
        FloatAnswer::Bits(12.0f64.to_bits()),
    ));
    assert_eq!(r.eval(&e, 10), Ok(num(12.0)));
}

#[test]
fn too_little_fuel_stops() {
    let mut r = Runner::new();
    let mut p = Parser::new("{{{nil}}}");
    let e = p.expr();
    assert_eq!(r.eval(&e, 3), Err(Stop::OutOfFuel));
    assert_eq!(r.eval(&e, 0), Err(Stop::OutOfFuel));
}

#[test]
fn more_fuel_changes_nothing() {
    let mut p = Parser::new("{let f = fn(a) [v: a]; f(true).v}");
    let e = p.expr();
    let mut r1 = Runner::new();
    let mut r2 = Runner::new();
    assert_eq!(r1.eval(&e, 8), Ok(Value::Bool(true)));
    assert_eq!(r2.eval(&e, 1000), Ok(Value::Bool(true)));
    assert_eq!(r1.globals, r2.globals);
    assert_eq!(r1.objects, r2.objects);
}

#[test]
fn evaluation_only_appends() {
    let (r, _) = run("{let io = import(\"io\"); io.print(1); x; io.print(2)}");
    assert_eq!(
        r.output,
        vec![line("1 "), Output::CannotFindIdentifier("x".to_string()), line("2 ")]
    );
    assert_eq!(r.loadables.len(), 3);
    assert!(r.scopes.is_empty());
}

#[test]
fn new_runner_has_globals_and_modules() {
    let mut r = Runner::new();
    assert_eq!(
        r.globals,
        vec![
            ("nil".to_string(), Value::Nil),
            ("true".to_string(), Value::Bool(true)),
            ("false".to_string(), Value::Bool(false)),
            ("import".to_string(), Value::NativeFunction(NativeFunction::Import)),
        ]
    );
    assert_eq!(
        r.loadables,
        vec![
            ("math".to_string(), Module::Math),
            ("io".to_string(), Module::Io),
            ("list".to_string(), Module::List),
        ]
    );
    assert!(r.output.is_empty());
    assert!(r.get_scope().len() == 4);
}

#[test]
fn register_modules_replaces_in_place() {
    let mut t = vec![("io".to_string(), Module::Math)];
    register_modules(&mut t);
    assert_eq!(
        t,
        vec![("io".to_string(), Module::Io), ("math".to_string(), Module::Math), ("list".to_string(), Module::List)]
    );
}

#[test]
fn module_names_and_loads() {
    let r = Runner::new();
    assert_eq!(Io::name(), "io");
    assert_eq!(List::name(), "list");
    assert_eq!(Math::name(), "math");
    assert_eq!(Obj::name(), "obj");
    assert_eq!(Io::load(&r), Value::NativeObject(Module::Io));
    assert_eq!(List::load(&r), Value::NativeObject(Module::List));
    assert_eq!(Math::load(&r), Value::NativeObject(Module::Math));
    let _ = Io::new();
    let _ = List::new();
}

#[test]
fn module_functions_called_directly() {
    let mut r = Runner::new();
    r.lists.push(vec![]);
    assert_eq!(List::push(&mut r, &vec![Value::List(0), Value::Bool(true)]), Ok(Value::Nil));
    assert_eq!(r.lists[0], vec![Value::Bool(true)]);
    r.floats.push((FloatOp::FromCount(1), FloatAnswer::Bits(1.0f64.to_bits())));
    assert_eq!(List::len(&mut r, &vec![Value::List(0)]), Ok(num(1.0)));
    r.floats.push((FloatOp::Add(1.0f64.to_bits(), 2.0f64.to_bits()), FloatAnswer::Bits(3.0f64.to_bits())));
    assert_eq!(Math::add(&mut r, &vec![num(1.0), num(2.0)]), Ok(num(3.0)));
    assert_eq!(Math::add(&mut r, &vec![num(1.0), num(5.0)]), Err(Stop::NeedFloat(FloatOp::Add(1.0f64.to_bits(), 5.0f64.to_bits()))));
    r.strings.push("ab".to_string());
    r.floats.push((FloatOp::ToText(1.0f64.to_bits()), FloatAnswer::Text("1".to_string())));
    assert_eq!(Io::print(&mut r, &vec![Value::Str(0), num(1.0)], 4), Ok(Value::Nil));
    assert_eq!(r.output, vec![line("ab 1 ")]);
}

#[test]
fn obj_has_finds_fields() {
    let (mut r, res) = run("[a: 1]");
    assert_eq!(res, Ok(Value::Object(0)));
    r.strings.push("a".to_string());
    r.strings.push("b".to_string());
    assert_eq!(Obj::has(&mut r, &vec![Value::Object(0), Value::Str(0)], None), Ok(Value::Bool(true)));
    assert_eq!(Obj::has(&mut r, &vec![Value::Object(0), Value::Str(1)], None), Ok(Value::Bool(false)));
    assert_eq!(Obj::has(&mut r, &vec![Value::Object(0)], None), Ok(Value::Nil));
    assert_eq!(Obj::has(&mut r, &vec![Value::Str(0), Value::Str(0)], None), Ok(Value::Nil));
    assert_eq!(r.output, vec![Output::InvalidObjHasArguments, Output::InvalidObjHasArguments]);
}

#[test]
fn obj_has_after_field_write() {
    let (mut r, _) = run("{let o = []; let o.k = 1; o}");
    r.strings.push("k".to_string());
    let sid = r.strings.len() - 1;
    assert_eq!(Obj::has(&mut r, &vec![Value::Object(0), Value::Str(sid)], None), Ok(Value::Bool(true)));
}

#[test]
fn texts_of_values() {
    let (r, res) = run("<1; \"s\"; [k: nil]>");
    let v = res.unwrap();
    assert_eq!(text_of(&r, v), "<1; s; [k: nil]>");
    assert_eq!(text_of(&r, num(2.5)), "2.5");
    assert_eq!(text_of(&r, num(1.0 / 3.0)), "0.3333");
    assert_eq!(text_of(&r, Value::Bool(false)), "false");
    assert_eq!(text_of(&r, Value::NativeFunction(NativeFunction::Print)), "<NativeFunction>");
}

#[test]
fn name_that_starts_with_a_keyword_binds_and_reads_back() {
    let (_, res) = run("{let fname = 3; let letter = fname; letter}");
    assert_eq!(res, Ok(num(3.0)));
    let (_, res) = run("{let iffy = true; if (iffy) 1 else 2}");
    assert_eq!(res, Ok(num(1.0)));
}

#[test]
fn nested_literal_gets_an_id_of_its_own() {
    let (r, res) = run("<<1>>");
    assert_eq!(res, Ok(Value::List(1)));
    assert_eq!(r.lists, vec![vec![num(1.0)], vec![Value::List(0)]]);
    let (r, res) = run("[a: [b: true]]");
    assert_eq!(res, Ok(Value::Object(1)));
    assert_eq!(r.objects[0], vec![("b".to_string(), Value::Bool(true))]);
    assert_eq!(r.objects[1], vec![("a".to_string(), Value::Object(0))]);
}

#[test]
fn nested_literals_keep_earlier_entries() {
    let (r, res) = run("{let a = <false>; let b = <<true>; a>; b}");
    assert_eq!(res, Ok(Value::List(2)));
    assert_eq!(r.lists[0], vec![Value::Bool(false)]);
    assert_eq!(r.lists[1], vec![Value::Bool(true)]);
    assert_eq!(r.lists[2], vec![Value::List(1), Value::List(0)]);
}

#[test]
fn nested_list_text_needs_fuel_per_level() {
    let (r, res) = run("<<true>>");
    let v = res.unwrap();
    assert_eq!(v.repr(&r, 2), Err(Stop::OutOfFuel));
    assert_eq!(v.repr(&r, 3), Ok("<<true>>".to_string()));
    let (r, res) = run("<<1>; [a: [b: 2]]>");
    assert_eq!(text_of(&r, res.unwrap()), "<<1>; [a: [b: 2]]>");
}

#[test]
fn runner_getters_read_memory() {
    let (mut r, _) = run("{let s = \"w\"; let l = <true>; let o = [p: false]; let f = fn() 1}");
    assert_eq!(r.get_str(0), "w");
    assert_eq!(r.get_list(0), &vec![Value::Bool(true)]);
    assert_eq!(r.get_object(0), &vec![("p".to_string(), Value::Bool(false))]);
    assert_eq!(r.get_func(0).args.len(), 0);
    assert_eq!(r.get_scope().len(), 8);
}

#[test]
fn mutable_getters_change_memory() {
    let (mut r, _) = run("{let s = \"w\"; let l = <true>; let o = [p: false]; let f = fn() 1}");
    r.get_str_mut(0).push('x');
    assert_eq!(r.strings[0], "wx");
    r.get_list_mut(0).push(Value::Nil);
    assert_eq!(r.lists[0], vec![Value::Bool(true), Value::Nil]);
    r.get_object_mut(0).push(("q".to_string(), Value::Nil));
    assert_eq!(r.objects[0].len(), 2);
    r.get_func_mut(0).reflection = true;
    assert!(r.functions[0].reflection);
    r.get_scope().push(("z".to_string(), Value::Bool(true)));
    assert_eq!(r.globals.len(), 9);
}

#[test]
fn get_and_set_val_directly() {
    let mut r = Runner::new();
    let t = Target::Var("q".to_string());
    assert_eq!(r.set_val(&t, Value::Bool(true), 4), Ok(Value::Nil));
    assert_eq!(r.get_val(&t, 4), Ok(Value::Bool(true)));
}

#[test]
fn call_func_directly() {
    let (mut r, res) = run("fn(a, b) a");
    let f = res.unwrap();
    assert_eq!(r.call_func(f, &vec![Value::Bool(false), Value::Nil], None, 4), Ok(Value::Bool(false)));
    assert!(r.scopes.is_empty());
    assert_eq!(r.call_func(Value::Nil, &vec![], None, 4), Ok(Value::Nil));
    assert_eq!(r.output, vec![Output::CallNonFunction]);
}

#[test]
fn import_directly() {
    let mut r = Runner::new();
    r.strings.push("math".to_string());
    assert_eq!(Runner::import(&mut r, &vec![Value::Str(0)], 4), Ok(Value::NativeObject(Module::Math)));
}

#[test]
fn import_outputs_parser_messages() {
    let (r, res) = run_with_files("import(\"bad\")", &[("bad", Some("<1"))]);
    assert_eq!(res, Ok(Value::Nil));
    assert_eq!(r.output, vec![Output::Parse(ParseMessage::UnterminatedList)]);
}

#[test]
fn answering_a_question_keeps_what_was_printed() {
    let mut p = Parser::new("{let io = import(\"io\"); io.print(\"a\"); io.print(1)}");
    let e = p.expr();
    let mut r = Runner::new();
    let first = r.eval(&e, 100);
    let op = match first {
        Err(Stop::NeedFloat(op)) => op,
        other => panic!("{:?}", other),
    };
    assert_eq!(r.output, vec![line("a ")]);
    let mut floats = std::mem::take(&mut r.floats);
    let a = answer(&op);
    floats.push((op, a));
    let mut r2 = Runner::new();
    r2.floats = floats;
    let second = r2.eval(&e, 100);
    assert!(matches!(second, Err(Stop::NeedFloat(FloatOp::ToText(_)))));
    assert_eq!(r2.output[0], line("a "));
    let (r3, res) = run("{let io = import(\"io\"); io.print(\"a\"); io.print(1)}");
    assert_eq!(res, Ok(Value::Nil));
    assert_eq!(r3.output, vec![line("a "), line("1 ")]);
}

#[test]
fn import_of_stuck_file_outputs_messages_first() {
    let (r, res) = run_with_files("import(\"c\")", &[("c", Some("{x.; # open"))]);
    assert_eq!(res, Err(Stop::ParseStuck));
    assert_eq!(r.output, vec![Output::Parse(ParseMessage::ExpectedFieldIdentifier)]);
}

#[test]
fn values_name_existing_memory() {
    let (r, res) = run("{let f = fn(a) [k: <a; \"s\">]; let o = f(1); o.k}");
    let v = res.unwrap();
    match v {
        Value::List(id) => {
            assert!(id < r.lists.len());
            for item in &r.lists[id] {
                if let Value::Str(s) = item {
                    assert!(*s < r.strings.len());
                }
            }
        },
        other => panic!("{:?}", other),
    }
    for (_, g) in &r.globals {
        match g {
            Value::Object(id) => assert!(*id < r.objects.len()),
            Value::Function(id) => assert!(*id < r.functions.len()),
            _ => {},
        }
    }
}
