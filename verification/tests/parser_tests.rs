use lib::ast::{Expr, NumberLiteral, ParseMessage, Target};
use lib::parser::Parser;

fn parse(src: &str) -> Expr {
    let mut p = Parser::new(src);
    p.try_expr().expect("the source holds no unterminated comment")
}

fn number(negative: bool, int_digits: &str, frac_digits: &str) -> Expr {
    Expr::Number(NumberLiteral {
        negative,
        int_digits: int_digits.chars().collect(),
        frac_digits: frac_digits.chars().collect(),
    })
}

fn var(name: &str) -> Expr {
    Expr::Access(Target::Var(name.to_string()))
}

fn boxed(e: Expr) -> Box<Expr> {
    Box::new(e)
}

#[test]
fn parses_nil_as_a_variable() {
    assert_eq!(parse("nil"), var("nil"));
}

#[test]
fn parses_integer() {
    assert_eq!(parse("42"), number(false, "42", ""));
}

#[test]
fn parses_negative_decimal() {
    assert_eq!(parse("-1.382374"), number(true, "1", "382374"));
}

#[test]
fn parses_decimal_point_without_digits() {
    assert_eq!(parse("3."), number(false, "3", ""));
}

#[test]
fn parses_lone_minus_as_number() {
    assert_eq!(parse("-"), number(true, "", ""));
}

#[test]
fn parses_string() {
    assert_eq!(parse("\"hello, world\""), Expr::Str("hello, world".to_string()));
}

#[test]
fn unterminated_string_is_nil() {
    assert_eq!(parse("\"abc"), Expr::Nil);
}

#[test]
fn empty_source_is_nil() {
    assert_eq!(parse(""), Expr::Nil);
    assert_eq!(parse("   \n\t"), Expr::Nil);
}

#[test]
fn parses_binding() {
    assert_eq!(
        parse("let x = 5"),
        Expr::Binding { target: Target::Var("x".to_string()), value: boxed(number(false, "5", "")) }
    );
}

#[test]
fn parses_field_binding() {
    assert_eq!(
        parse("let o.f = 1"),
        Expr::Binding {
            target: Target::Field { var: boxed(Expr::Identifier("o".to_string())), field: "f".to_string() },
            value: boxed(number(false, "1", "")),
        }
    );
}

#[test]
fn parses_index_binding() {
    assert_eq!(
        parse("let l<0> = 2"),
        Expr::Binding {
            target: Target::Index { var: boxed(Expr::Identifier("l".to_string())), index: boxed(number(false, "0", "")) },
            value: boxed(number(false, "2", "")),
        }
    );
}

#[test]
fn binding_without_equals_is_nil() {
    let mut p = Parser::new("let x 5");
    assert_eq!(p.try_expr(), Some(Expr::Nil));
    assert_eq!(p.state.index, 0);
}

#[test]
fn name_that_starts_with_a_keyword_is_a_name() {
    assert_eq!(parse("letter"), Expr::Access(Target::Var("letter".to_string())));
    assert_eq!(
        parse("letter = 1"),
        Expr::Access(Target::Var("letter".to_string()))
    );
    assert_eq!(parse("fnord"), Expr::Access(Target::Var("fnord".to_string())));
    assert_eq!(parse("fname"), Expr::Access(Target::Var("fname".to_string())));
    assert_eq!(parse("iffy"), Expr::Access(Target::Var("iffy".to_string())));
    assert_eq!(parse("while_x"), Expr::Access(Target::Var("while_x".to_string())));
    assert_eq!(parse("let2"), Expr::Access(Target::Var("let2".to_string())));
}

#[test]
fn keyword_followed_by_a_non_name_character_is_a_keyword() {
    assert_eq!(
        parse("let letter = 1"),
        Expr::Binding { target: Target::Var("letter".to_string()), value: boxed(number(false, "1", "")) }
    );
    assert_eq!(
        parse("let#c#x = 1"),
        Expr::Binding { target: Target::Var("x".to_string()), value: boxed(number(false, "1", "")) }
    );
}

#[test]
fn parses_list() {
    assert_eq!(
        parse("<1; 2; 3>"),
        Expr::List(vec![number(false, "1", ""), number(false, "2", ""), number(false, "3", "")])
    );
    assert_eq!(parse("<>"), Expr::List(vec![]));
}

#[test]
fn unterminated_list_is_nil() {
    assert_eq!(parse("<1; 2"), Expr::Nil);
}

#[test]
fn parses_object() {
    assert_eq!(
        parse("[ name: \"Yaakin\"; score: 10 ]"),
        Expr::Object(vec![
            ("name".to_string(), Expr::Str("Yaakin".to_string())),
            ("score".to_string(), number(false, "10", "")),
        ])
    );
}

#[test]
fn repeated_field_keeps_last_value() {
    assert_eq!(parse("[a: 1; a: 2]"), Expr::Object(vec![("a".to_string(), number(false, "2", ""))]));
}

#[test]
fn object_without_colon_is_nil() {
    assert_eq!(parse("[a 1]"), Expr::Nil);
}

#[test]
fn parses_function() {
    assert_eq!(
        parse("fn(a, b) a"),
        Expr::Function {
            args: vec!["a".to_string(), "b".to_string()],
            value: boxed(var("a")),
            closure: vec![],
            reflection: false,
        }
    );
    assert_eq!(
        parse("fn() 1"),
        Expr::Function { args: vec![], value: boxed(number(false, "1", "")), closure: vec![], reflection: false }
    );
}

#[test]
fn function_without_parenthesis_is_nil() {
    assert_eq!(parse("fn a"), Expr::Nil);
}

#[test]
fn parses_if_else() {
    assert_eq!(
        parse("if (x) 1 else 2"),
        Expr::If { cond: boxed(var("x")), value: boxed(number(false, "1", "")), else_value: boxed(number(false, "2", "")) }
    );
    assert_eq!(
        parse("if (x) 1"),
        Expr::If { cond: boxed(var("x")), value: boxed(number(false, "1", "")), else_value: boxed(Expr::Nil) }
    );
    let mut p = Parser::new("if (x) 1 elsewhere");
    assert_eq!(
        p.try_expr(),
        Some(Expr::If { cond: boxed(var("x")), value: boxed(number(false, "1", "")), else_value: boxed(Expr::Nil) })
    );
    assert_eq!(p.state.index, 9);
}

#[test]
fn parses_while_else() {
    assert_eq!(
        parse("while (x) 1 else 2"),
        Expr::While { cond: boxed(var("x")), value: boxed(number(false, "1", "")), else_value: boxed(number(false, "2", "")) }
    );
}

#[test]
fn parses_chain() {
    assert_eq!(parse("{1; x}"), Expr::Chain(vec![number(false, "1", ""), var("x")]));
    assert_eq!(parse("{}"), Expr::Chain(vec![]));
}

#[test]
fn chain_with_bad_separator_is_nil() {
    assert_eq!(parse("{1, 2}"), Expr::Nil);
}

#[test]
fn parses_call_field_and_index() {
    assert_eq!(
        parse("f(1, 2)"),
        Expr::FuncCall { func: boxed(var("f")), args: vec![number(false, "1", ""), number(false, "2", "")] }
    );
    assert_eq!(
        parse("o.name"),
        Expr::Access(Target::Field { var: boxed(var("o")), field: "name".to_string() })
    );
    assert_eq!(
        parse("l<0>"),
        Expr::Access(Target::Index { var: boxed(var("l")), index: boxed(number(false, "0", "")) })
    );
}

#[test]
fn modifiers_chain_left_to_right() {
    let call = Expr::FuncCall {
        func: boxed(Expr::Access(Target::Field { var: boxed(var("x")), field: "y".to_string() })),
        args: vec![number(false, "1", "")],
    };
    assert_eq!(
        parse("x.y(1)<0>"),
        Expr::Access(Target::Index { var: boxed(call), index: boxed(number(false, "0", "")) })
    );
}

#[test]
fn skips_comments_and_blanks() {
    assert_eq!(parse("# a comment # 5"), number(false, "5", ""));
    assert_eq!(parse("// a line\n7"), number(false, "7", ""));
    assert_eq!(parse("  \t\n 8"), number(false, "8", ""));
}

#[test]
fn reads_only_the_first_expression() {
    let mut p = Parser::new("1 2 3");
    assert_eq!(p.try_expr(), Some(number(false, "1", "")));
    assert_eq!(p.state.index, 2);
}

#[test]
fn unterminated_comment_gives_none() {
    let mut p = Parser::new("# never closed");
    assert_eq!(p.try_expr(), None);
    let mut q = Parser::new("{1; # never closed");
    assert_eq!(q.try_expr(), None);
}

#[test]
fn expr_agrees_with_try_expr() {
    let mut p = Parser::new("<1; [a: 2]>");
    let mut q = Parser::new("<1; [a: 2]>");
    assert_eq!(Some(p.expr()), q.try_expr());
    assert_eq!(p.state.index, q.state.index);
    assert_eq!(p.source_len(), 11);
}

fn messages(src: &str) -> Vec<ParseMessage> {
    let mut p = Parser::new(src);
    p.try_expr().expect("the source holds no unterminated comment");
    p.messages
}

fn unexpected(found: char, expected: char) -> ParseMessage {
    ParseMessage::UnexpectedCharacter { found, expected }
}

#[test]
fn well_formed_source_gives_no_message() {
    assert!(messages("{let f = fn(a, b) [x: <a; b>]; if (f(1, 2).x<0>) 1 else while (nil) 2}").is_empty());
}

#[test]
fn messages_about_strings_and_bindings() {
    assert_eq!(messages("\"abc"), vec![ParseMessage::UnterminatedString]);
    assert_eq!(messages("let x 5"), vec![ParseMessage::ExpectedEquals]);
    assert_eq!(
        messages("let = 1"),
        vec![ParseMessage::ExpectedIdentifier, ParseMessage::ExpectedBindingIdentifier(None)]
    );
    assert_eq!(
        messages("let f(x) = 1"),
        vec![ParseMessage::ExpectedBindingIdentifier(Some(Expr::FuncCall {
            func: boxed(Expr::Identifier("f".to_string())),
            args: vec![var("x")],
        }))]
    );
}

#[test]
fn messages_about_functions_and_conditions() {
    assert_eq!(messages("fn a"), vec![ParseMessage::ExpectedParenForArguments]);
    assert_eq!(messages("fn(a b) a"), vec![unexpected('b', ',')]);
    assert_eq!(messages("fn(+) a"), vec![ParseMessage::ExpectedArgument]);
    assert_eq!(messages("fn(a"), vec![ParseMessage::UnterminatedArguments]);
    assert_eq!(messages("if x"), vec![ParseMessage::ExpectedParenForCondition]);
    assert_eq!(messages("while (x 1"), vec![ParseMessage::ExpectedParenForCondition]);
}

#[test]
fn messages_about_chains_lists_and_objects() {
    assert_eq!(messages("{1, 2}"), vec![unexpected(',', ';')]);
    assert_eq!(messages("{1; 2"), vec![ParseMessage::UnterminatedChain]);
    assert_eq!(messages("<1"), vec![ParseMessage::UnterminatedList]);
    assert_eq!(messages("[a: 1"), vec![ParseMessage::UnterminatedChain]);
    assert_eq!(messages("[a 1]"), vec![ParseMessage::ExpectedColon]);
    assert_eq!(messages("[+]"), vec![ParseMessage::ExpectedFieldName]);
    assert_eq!(messages("[a: 1, b: 2]"), vec![unexpected(',', ';')]);
}

#[test]
fn messages_about_modifiers() {
    assert_eq!(messages("f(1 2)"), vec![unexpected('2', ',')]);
    assert_eq!(messages("f(1"), vec![ParseMessage::UnterminatedArguments]);
    assert_eq!(messages("x."), vec![ParseMessage::ExpectedFieldIdentifier]);
    assert_eq!(messages("l<1"), vec![ParseMessage::UnterminatedIndex]);
}

#[test]
fn message_about_unreadable_character() {
    assert_eq!(messages("+"), vec![ParseMessage::CouldNotParse { found: '+', at: 0 }]);
    assert_eq!(messages("  )"), vec![ParseMessage::CouldNotParse { found: ')', at: 2 }]);
}

#[test]
fn messages_come_in_reading_order() {
    assert_eq!(
        messages("<1; +>"),
        vec![ParseMessage::CouldNotParse { found: '+', at: 4 }, unexpected('+', ';')]
    );
}

#[test]
fn take_messages_empties_the_parser() {
    let mut p = Parser::new("<1");
    let _ = p.try_expr();
    assert_eq!(p.take_messages(), vec![ParseMessage::UnterminatedList]);
    assert!(p.messages.is_empty());
}

#[test]
fn messages_stop_where_a_comment_never_ends() {
    let mut p = Parser::new("{x.; # open");
    assert_eq!(p.try_expr(), None);
    assert_eq!(p.messages, vec![ParseMessage::ExpectedFieldIdentifier]);
}
