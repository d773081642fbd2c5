use vstd::prelude::*;

verus! {

/// A number literal as it was written: its sign, the digits before the
/// decimal point and the digits after it.
#[derive(Debug, PartialEq)]
pub struct NumberLiteral {
    pub negative: bool,
    pub int_digits: Vec<char>,
    pub frac_digits: Vec<char>,
}

/// The place that a binding writes to, or that an access reads.
#[derive(Debug, PartialEq)]
pub enum Target {
    Var(String),
    Field { var: Box<Expr>, field: String },
    Index { var: Box<Expr>, index: Box<Expr> },
}

/// An expression of the language.
#[derive(Debug, PartialEq)]
pub enum Expr {
    Nil,
    Number(NumberLiteral),
    Str(String),
    Function { args: Vec<String>, value: Box<Expr>, closure: Vec<String>, reflection: bool },
    Object(Vec<(String, Expr)>),
    List(Vec<Expr>),
    Identifier(String),
    Access(Target),
    FuncCall { func: Box<Expr>, args: Vec<Expr> },
    If { cond: Box<Expr>, value: Box<Expr>, else_value: Box<Expr> },
    While { cond: Box<Expr>, value: Box<Expr>, else_value: Box<Expr> },
    Binding { target: Target, value: Box<Expr> },
    Chain(Vec<Expr>),
}

/// Mathematical model of a number literal.
pub struct SpecNumber {
    pub negative: bool,
    pub int_digits: Seq<char>,
    pub frac_digits: Seq<char>,
}

/// Mathematical model of a target.
pub enum SpecTarget {
    Var(Seq<char>),
    Field { var: Box<SpecExpr>, field: Seq<char> },
    Index { var: Box<SpecExpr>, index: Box<SpecExpr> },
}

/// Mathematical model of an expression: the same tree, with sequences in
/// place of vectors and strings.
pub enum SpecExpr {
    Nil,
    Number(SpecNumber),
    Str(Seq<char>),
    Function { args: Seq<Seq<char>>, value: Box<SpecExpr>, closure: Seq<Seq<char>>, reflection: bool },
    Object(Seq<(Seq<char>, SpecExpr)>),
    List(Seq<SpecExpr>),
    Identifier(Seq<char>),
    Access(SpecTarget),
    FuncCall { func: Box<SpecExpr>, args: Seq<SpecExpr> },
    If { cond: Box<SpecExpr>, value: Box<SpecExpr>, else_value: Box<SpecExpr> },
    While { cond: Box<SpecExpr>, value: Box<SpecExpr>, else_value: Box<SpecExpr> },
    Binding { target: SpecTarget, value: Box<SpecExpr> },
    Chain(Seq<SpecExpr>),
}

pub open spec fn view_strings(s: Seq<String>) -> Seq<Seq<char>> {
    s.map_values(|x: String| x@)
}

impl View for NumberLiteral {
    type V = SpecNumber;

    open spec fn view(&self) -> SpecNumber {
        SpecNumber { negative: self.negative, int_digits: self.int_digits@, frac_digits: self.frac_digits@ }
    }
}

pub open spec fn view_expr(e: Expr) -> SpecExpr
    decreases e,
{
    match e {
        Expr::Nil => SpecExpr::Nil,
        Expr::Number(n) => SpecExpr::Number(n@),
        Expr::Str(s) => SpecExpr::Str(s@),
        Expr::Function { args, value, closure, reflection } => SpecExpr::Function {
            args: view_strings(args@),
            value: Box::new(view_expr(*value)),
            closure: view_strings(closure@),
            reflection,
        },
        Expr::Object(fields) => SpecExpr::Object(view_fields(fields@)),
        Expr::List(items) => SpecExpr::List(view_exprs(items@)),
        Expr::Identifier(s) => SpecExpr::Identifier(s@),
        Expr::Access(t) => SpecExpr::Access(view_target(t)),
        Expr::FuncCall { func, args } => SpecExpr::FuncCall {
            func: Box::new(view_expr(*func)),
            args: view_exprs(args@),
        },
        Expr::If { cond, value, else_value } => SpecExpr::If {
            cond: Box::new(view_expr(*cond)),
            value: Box::new(view_expr(*value)),
            else_value: Box::new(view_expr(*else_value)),
        },
        Expr::While { cond, value, else_value } => SpecExpr::While {
            cond: Box::new(view_expr(*cond)),
            value: Box::new(view_expr(*value)),
            else_value: Box::new(view_expr(*else_value)),
        },
        Expr::Binding { target, value } => SpecExpr::Binding {
            target: view_target(target),
            value: Box::new(view_expr(*value)),
        },
        Expr::Chain(items) => SpecExpr::Chain(view_exprs(items@)),
    }
}

pub open spec fn view_target(t: Target) -> SpecTarget
    decreases t,
{
    match t {
        Target::Var(s) => SpecTarget::Var(s@),
        Target::Field { var, field } => SpecTarget::Field { var: Box::new(view_expr(*var)), field: field@ },
        Target::Index { var, index } => SpecTarget::Index {
            var: Box::new(view_expr(*var)),
            index: Box::new(view_expr(*index)),
        },
    }
}

pub open spec fn view_exprs(s: Seq<Expr>) -> Seq<SpecExpr>
    decreases s,
{
    if s.len() == 0 {
        Seq::empty()
    } else {
        view_exprs(s.drop_last()).push(view_expr(s.last()))
    }
}

pub open spec fn view_fields(s: Seq<(String, Expr)>) -> Seq<(Seq<char>, SpecExpr)>
    decreases s,
{
    if s.len() == 0 {
        Seq::empty()
    } else {
        view_fields(s.drop_last()).push((s.last().0@, view_expr(s.last().1)))
    }
}

pub proof fn lemma_view_exprs(s: Seq<Expr>)
    ensures
        view_exprs(s).len() == s.len(),
        forall|k: int| 0 <= k < s.len() ==> #[trigger] view_exprs(s)[k] == view_expr(s[k]),
    decreases s.len(),
{
    if s.len() > 0 {
        lemma_view_exprs(s.drop_last());
    }
}

pub proof fn lemma_view_exprs_push(s: Seq<Expr>, e: Expr)
    ensures
        view_exprs(s.push(e)) == view_exprs(s).push(view_expr(e)),
{
    assert(s.push(e).drop_last() =~= s);
}

pub proof fn lemma_view_fields(s: Seq<(String, Expr)>)
    ensures
        view_fields(s).len() == s.len(),
        forall|k: int| 0 <= k < s.len() ==> #[trigger] view_fields(s)[k] == (s[k].0@, view_expr(s[k].1)),
    decreases s.len(),
{
    if s.len() > 0 {
        lemma_view_fields(s.drop_last());
    }
}

pub proof fn lemma_view_fields_push(s: Seq<(String, Expr)>, f: (String, Expr))
    ensures
        view_fields(s.push(f)) == view_fields(s).push((f.0@, view_expr(f.1))),
{
    assert(s.push(f).drop_last() =~= s);
}

pub proof fn lemma_view_fields_update(s: Seq<(String, Expr)>, t: int, f: (String, Expr))
    requires
        0 <= t < s.len(),
    ensures
        view_fields(s.update(t, f)) == view_fields(s).update(t, (f.0@, view_expr(f.1))),
{
    lemma_view_fields(s);
    lemma_view_fields(s.update(t, f));
    assert(view_fields(s.update(t, f)) =~= view_fields(s).update(t, (f.0@, view_expr(f.1))));
}

pub open spec fn view_opt_string(o: Option<String>) -> Option<Seq<char>> {
    match o {
        Some(x) => Some(x@),
        None => None,
    }
}

pub open spec fn view_opt_expr(o: Option<Expr>) -> Option<SpecExpr> {
    match o {
        Some(x) => Some(view_expr(x)),
        None => None,
    }
}

impl View for Expr {
    type V = SpecExpr;

    open spec fn view(&self) -> SpecExpr {
        view_expr(*self)
    }
}

impl View for Target {
    type V = SpecTarget;

    open spec fn view(&self) -> SpecTarget {
        view_target(*self)
    }
}

/// A complaint of the parser about a malformed construct. Parsing goes on
/// after each one.
#[derive(Debug, PartialEq)]
pub enum ParseMessage {
    /// A string literal has no closing `"`.
    UnterminatedString,
    /// A `.` is not followed by a field name.
    ExpectedFieldIdentifier,
    /// Another character stands where a separator was expected.
    UnexpectedCharacter { found: char, expected: char },
    /// The arguments of a call, or the parameters of a function, run to the
    /// end of the text.
    UnterminatedArguments,
    /// An index has no closing `>`.
    UnterminatedIndex,
    /// The left side of a binding does not start with a name.
    ExpectedIdentifier,
    /// A binding has no `=`.
    ExpectedEquals,
    /// The left side of a binding is neither a name, a field nor an item;
    /// it holds what was read there.
    ExpectedBindingIdentifier(Option<Expr>),
    /// A parameter of a function definition is not a name.
    ExpectedArgument,
    /// `fn` is not followed by `(`.
    ExpectedParenForArguments,
    /// The condition of an `if` or a `while` is not in parentheses.
    ExpectedParenForCondition,
    /// A chain, or an object, runs to the end of the text.
    UnterminatedChain,
    /// A list runs to the end of the text.
    UnterminatedList,
    /// A field name is not followed by `:`.
    ExpectedColon,
    /// An object holds something other than a field name where one was expected.
    ExpectedFieldName,
    /// No expression starts at this character; `at` is its position.
    CouldNotParse { found: char, at: usize },
}

/// Mathematical model of a parser message.
pub enum SpecParseMessage {
    UnterminatedString,
    ExpectedFieldIdentifier,
    UnexpectedCharacter { found: char, expected: char },
    UnterminatedArguments,
    UnterminatedIndex,
    ExpectedIdentifier,
    ExpectedEquals,
    ExpectedBindingIdentifier(Option<SpecExpr>),
    ExpectedArgument,
    ExpectedParenForArguments,
    ExpectedParenForCondition,
    UnterminatedChain,
    UnterminatedList,
    ExpectedColon,
    ExpectedFieldName,
    CouldNotParse { found: char, at: nat },
}

impl View for ParseMessage {
    type V = SpecParseMessage;

    open spec fn view(&self) -> SpecParseMessage {
        match self {
            ParseMessage::UnterminatedString => SpecParseMessage::UnterminatedString,
            ParseMessage::ExpectedFieldIdentifier => SpecParseMessage::ExpectedFieldIdentifier,
            ParseMessage::UnexpectedCharacter { found, expected } => SpecParseMessage::UnexpectedCharacter {
                found: *found,
                expected: *expected,
            },
            ParseMessage::UnterminatedArguments => SpecParseMessage::UnterminatedArguments,
            ParseMessage::UnterminatedIndex => SpecParseMessage::UnterminatedIndex,
            ParseMessage::ExpectedIdentifier => SpecParseMessage::ExpectedIdentifier,
            ParseMessage::ExpectedEquals => SpecParseMessage::ExpectedEquals,
            ParseMessage::ExpectedBindingIdentifier(t) => SpecParseMessage::ExpectedBindingIdentifier(view_opt_expr(*t)),
            ParseMessage::ExpectedArgument => SpecParseMessage::ExpectedArgument,
            ParseMessage::ExpectedParenForArguments => SpecParseMessage::ExpectedParenForArguments,
            ParseMessage::ExpectedParenForCondition => SpecParseMessage::ExpectedParenForCondition,
            ParseMessage::UnterminatedChain => SpecParseMessage::UnterminatedChain,
            ParseMessage::UnterminatedList => SpecParseMessage::UnterminatedList,
            ParseMessage::ExpectedColon => SpecParseMessage::ExpectedColon,
            ParseMessage::ExpectedFieldName => SpecParseMessage::ExpectedFieldName,
            ParseMessage::CouldNotParse { found, at } => SpecParseMessage::CouldNotParse { found: *found, at: *at as nat },
        }
    }
}

} // verus!

verus! {

pub proof fn lemma_view_field(var: Expr, field: String)
    ensures
        view_expr(Expr::Access(Target::Field { var: Box::new(var), field })) == SpecExpr::Access(
            SpecTarget::Field { var: Box::new(view_expr(var)), field: field@ },
        ),
{
    reveal_with_fuel(view_expr, 2);
}

pub proof fn lemma_view_index(var: Expr, index: Expr)
    ensures
        view_expr(Expr::Access(Target::Index { var: Box::new(var), index: Box::new(index) })) == SpecExpr::Access(
            SpecTarget::Index { var: Box::new(view_expr(var)), index: Box::new(view_expr(index)) },
        ),
{
    reveal_with_fuel(view_expr, 2);
}

pub proof fn lemma_view_var(name: String)
    ensures
        view_expr(Expr::Access(Target::Var(name))) == SpecExpr::Access(SpecTarget::Var(name@)),
{
    reveal_with_fuel(view_expr, 2);
}

pub proof fn lemma_view_access(t: Target)
    ensures
        view_expr(Expr::Access(t)) == SpecExpr::Access(view_target(t)),
{
    reveal_with_fuel(view_expr, 2);
}

pub proof fn lemma_view_binding(target: Target, value: Expr)
    ensures
        view_expr(Expr::Binding { target, value: Box::new(value) }) == (SpecExpr::Binding {
            target: view_target(target),
            value: Box::new(view_expr(value)),
        }),
{
    reveal_with_fuel(view_expr, 2);
}

} // verus!

verus! {

fn clone_chars(v: &Vec<char>) -> (r: Vec<char>)
    ensures
        r@ == v@,
{
    let mut r: Vec<char> = Vec::new();
    let mut i: usize = 0;
    while i < v.len()
        invariant
            i <= v@.len(),
            r@ =~= v@.subrange(0, i as int),
        decreases v@.len() - i,
    {
        r.push(v[i]);
        i = i + 1;
    }
    assert(r@ =~= v@);
    r
}

pub fn clone_strings(v: &Vec<String>) -> (r: Vec<String>)
    ensures
        view_strings(r@) == view_strings(v@),
{
    let mut r: Vec<String> = Vec::new();
    let mut i: usize = 0;
    while i < v.len()
        invariant
            i <= v@.len(),
            r@.len() == i,
            forall|k: int| 0 <= k < i ==> #[trigger] r@[k]@ == v@[k]@,
        decreases v@.len() - i,
    {
        r.push(v[i].clone());
        i = i + 1;
    }
    assert(view_strings(r@) =~= view_strings(v@));
    r
}

impl NumberLiteral {
    pub fn deep_clone(&self) -> (r: NumberLiteral)
        ensures
            r@ == self@,
    {
        NumberLiteral {
            negative: self.negative,
            int_digits: clone_chars(&self.int_digits),
            frac_digits: clone_chars(&self.frac_digits),
        }
    }
}

impl Target {
    pub fn deep_clone(&self) -> (r: Target)
        ensures
            r@ == self@,
        decreases self,
    {
        match self {
            Target::Var(s) => Target::Var(s.clone()),
            Target::Field { var, field } => {
                let v = (**var).deep_clone();
                Target::Field { var: Box::new(v), field: field.clone() }
            },
            Target::Index { var, index } => {
                let v = (**var).deep_clone();
                let i = (**index).deep_clone();
                Target::Index { var: Box::new(v), index: Box::new(i) }
            },
        }
    }
}

fn clone_exprs(v: &Vec<Expr>) -> (r: Vec<Expr>)
    ensures
        view_exprs(r@) == view_exprs(v@),
    decreases v,
{
    let mut r: Vec<Expr> = Vec::new();
    let mut i: usize = 0;
    proof {
        lemma_view_exprs(v@);
        lemma_view_exprs(r@);
    }
    while i < v.len()
        invariant
            i <= v@.len(),
            view_exprs(r@) =~= view_exprs(v@).subrange(0, i as int),
            view_exprs(v@).len() == v@.len(),
            forall|k: int| 0 <= k < v@.len() ==> #[trigger] view_exprs(v@)[k] == view_expr(v@[k]),
        decreases v@.len() - i,
    {
        let e = v[i].deep_clone();
        proof {
            lemma_view_exprs_push(r@, e);
        }
        r.push(e);
        i = i + 1;
    }
    r
}

fn clone_fields(v: &Vec<(String, Expr)>) -> (r: Vec<(String, Expr)>)
    ensures
        view_fields(r@) == view_fields(v@),
    decreases v,
{
    let mut r: Vec<(String, Expr)> = Vec::new();
    let mut i: usize = 0;
    proof {
        lemma_view_fields(v@);
    }
    while i < v.len()
        invariant
            i <= v@.len(),
            view_fields(r@) =~= view_fields(v@).subrange(0, i as int),
            view_fields(v@).len() == v@.len(),
            forall|k: int| 0 <= k < v@.len() ==> #[trigger] view_fields(v@)[k] == (v@[k].0@, view_expr(v@[k].1)),
        decreases v@.len() - i,
    {
        let e = v[i].1.deep_clone();
        let name = v[i].0.clone();
        proof {
            lemma_view_fields_push(r@, (name, e));
        }
        r.push((name, e));
        i = i + 1;
    }
    r
}

impl Expr {
    /// A copy of the expression.
    pub fn deep_clone(&self) -> (r: Expr)
        ensures
            r@ == self@,
        decreases self,
    {
        proof {
            reveal_with_fuel(view_expr, 2);
        }
        match self {
            Expr::Nil => Expr::Nil,
            Expr::Number(n) => Expr::Number(n.deep_clone()),
            Expr::Str(s) => Expr::Str(s.clone()),
            Expr::Function { args, value, closure, reflection } => {
                let v = (**value).deep_clone();
                Expr::Function {
                    args: clone_strings(args),
                    value: Box::new(v),
                    closure: clone_strings(closure),
                    reflection: *reflection,
                }
            },
            Expr::Object(fields) => Expr::Object(clone_fields(fields)),
            Expr::List(items) => Expr::List(clone_exprs(items)),
            Expr::Identifier(s) => Expr::Identifier(s.clone()),
            Expr::Access(t) => Expr::Access(t.deep_clone()),
            Expr::FuncCall { func, args } => {
                let f = (**func).deep_clone();
                Expr::FuncCall { func: Box::new(f), args: clone_exprs(args) }
            },
            Expr::If { cond, value, else_value } => {
                let c = (**cond).deep_clone();
                let v = (**value).deep_clone();
                let e = (**else_value).deep_clone();
                Expr::If { cond: Box::new(c), value: Box::new(v), else_value: Box::new(e) }
            },
            Expr::While { cond, value, else_value } => {
                let c = (**cond).deep_clone();
                let v = (**value).deep_clone();
                let e = (**else_value).deep_clone();
                Expr::While { cond: Box::new(c), value: Box::new(v), else_value: Box::new(e) }
            },
            Expr::Binding { target, value } => {
                let t = target.deep_clone();
                let v = (**value).deep_clone();
                Expr::Binding { target: t, value: Box::new(v) }
            },
            Expr::Chain(items) => Expr::Chain(clone_exprs(items)),
        }
    }
}

} // verus!
