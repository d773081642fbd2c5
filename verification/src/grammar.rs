//! The grammar of the language, as functions from a source text and a
//! position to what is read there and the position after it.
//!
//! Every function mirrors one step of the recursive-descent parser. The
//! position `s.len() + 1` stands for a parse that stopped in a comment that
//! runs to the end of the text: the parser gives up there.
use vstd::prelude::*;
use crate::ast::{SpecExpr, SpecNumber, SpecParseMessage, SpecTarget};

verus! {

pub open spec fn char_at(s: Seq<char>, i: nat) -> Option<char> {
    if i < s.len() {
        Some(s[i as int])
    } else {
        None
    }
}

/// What is left to read from position `i`: the measure that every step reduces.
pub open spec fn rem(s: Seq<char>, i: nat) -> nat {
    if i <= s.len() + 1 {
        (s.len() + 1 - i) as nat
    } else {
        0
    }
}

/// The position at which a run-away comment leaves the parser.
pub open spec fn stuck(s: Seq<char>) -> nat {
    s.len() + 1
}

/// Where the parser goes back to `r` after a malformed construct. A parser
/// that is stuck stays stuck.
pub open spec fn back(s: Seq<char>, cur: nat, r: nat) -> nat {
    if cur == stuck(s) {
        cur
    } else {
        r
    }
}

/// The first position at or after `i` that holds `c`.
pub open spec fn find_char(s: Seq<char>, i: nat, c: char) -> Option<nat>
    decreases s.len() - i,
{
    if i >= s.len() {
        None
    } else if s[i as int] == c {
        Some(i)
    } else {
        find_char(s, i + 1, c)
    }
}

pub proof fn lemma_find_char(s: Seq<char>, i: nat, c: char)
    ensures
        find_char(s, i, c) matches Some(k) ==> i <= k < s.len() && s[k as int] == c,
        find_char(s, i, c) is None ==> forall|k: int| i <= k < s.len() ==> s[k] != c,
        find_char(s, i, c) matches Some(k) ==> forall|t: int| i <= t < k ==> s[t] != c,
    decreases s.len() - i,
{
    if i < s.len() && s[i as int] != c {
        lemma_find_char(s, i + 1, c);
    }
}

pub open spec fn is_blank(c: char) -> bool {
    c == ' ' || c == '\t' || c == '\n'
}

/// Skips blanks, `# ... #` comments and `// ...` line comments.
pub open spec fn spec_trim(s: Seq<char>, i: nat) -> nat
    decreases s.len() - i,
{
    if i >= s.len() {
        i
    } else {
        let c = s[i as int];
        if is_blank(c) {
            spec_trim(s, i + 1)
        } else if c == '#' {
            match find_char(s, i + 1, '#') {
                Some(k) => {
                    proof {
                        lemma_find_char(s, i + 1, '#');
                    }
                    spec_trim(s, k + 1)
                },
                None => stuck(s),
            }
        } else if c == '/' && i + 1 < s.len() && s[i + 1 as int] == '/' {
            match find_char(s, i, '\n') {
                Some(k) => {
                    proof {
                        lemma_find_char(s, i, '\n');
                    }
                    spec_trim(s, k + 1)
                },
                None => stuck(s),
            }
        } else {
            i
        }
    }
}

pub proof fn lemma_trim(s: Seq<char>, i: nat)
    ensures
        i <= spec_trim(s, i),
        spec_trim(s, i) <= s.len() + 1 || spec_trim(s, i) == i,
        i <= s.len() ==> spec_trim(s, i) <= s.len() + 1,
        spec_trim(s, i) == i ==> (i >= s.len() || !is_blank(s[i as int])),
    decreases s.len() - i,
{
    if i < s.len() {
        let c = s[i as int];
        if is_blank(c) {
            lemma_trim(s, i + 1);
        } else if c == '#' {
            lemma_find_char(s, i + 1, '#');
            if let Some(k) = find_char(s, i + 1, '#') {
                lemma_trim(s, k + 1);
            }
        } else if c == '/' && i + 1 < s.len() && s[i + 1 as int] == '/' {
            lemma_find_char(s, i, '\n');
            if let Some(k) = find_char(s, i, '\n') {
                lemma_trim(s, k + 1);
            }
        }
    }
}

/// Whether skipping blanks and comments from `i` runs into a comment that
/// is never closed: a `#` with no `#` after it, or a `//` with no line
/// break after it.
pub open spec fn open_comment_ahead(s: Seq<char>, i: nat) -> bool
    decreases s.len() - i,
{
    if i >= s.len() {
        false
    } else {
        let c = s[i as int];
        if is_blank(c) {
            open_comment_ahead(s, i + 1)
        } else if c == '#' {
            match find_char(s, i + 1, '#') {
                Some(k) => {
                    proof {
                        lemma_find_char(s, i + 1, '#');
                    }
                    open_comment_ahead(s, k + 1)
                },
                None => true,
            }
        } else if c == '/' && i + 1 < s.len() && s[i + 1 as int] == '/' {
            match find_char(s, i, '\n') {
                Some(k) => {
                    proof {
                        lemma_find_char(s, i, '\n');
                    }
                    open_comment_ahead(s, k + 1)
                },
                None => true,
            }
        } else {
            false
        }
    }
}

/// Skipping ends one past the end of the text exactly where a comment is
/// never closed.
pub proof fn lemma_trim_stuck(s: Seq<char>, i: nat)
    requires
        i <= s.len(),
    ensures
        (spec_trim(s, i) == stuck(s)) <==> open_comment_ahead(s, i),
    decreases s.len() - i,
{
    if i < s.len() {
        let c = s[i as int];
        if is_blank(c) {
            lemma_trim_stuck(s, i + 1);
        } else if c == '#' {
            lemma_find_char(s, i + 1, '#');
            if let Some(k) = find_char(s, i + 1, '#') {
                lemma_trim_stuck(s, k + 1);
            }
        } else if c == '/' && i + 1 < s.len() && s[i + 1 as int] == '/' {
            lemma_find_char(s, i, '\n');
            if let Some(k) = find_char(s, i, '\n') {
                lemma_trim_stuck(s, k + 1);
            }
        }
    }
}

pub open spec fn lit_matches(s: Seq<char>, j: nat, lit: Seq<char>) -> bool {
    j + lit.len() <= s.len() && s.subrange(j as int, (j + lit.len()) as int) == lit
}

/// Skips blanks, then reads `lit` if it comes next.
pub open spec fn spec_litteral(s: Seq<char>, i: nat, lit: Seq<char>) -> (bool, nat) {
    let j = spec_trim(s, i);
    if lit_matches(s, j, lit) {
        (true, j + lit.len())
    } else {
        (false, j)
    }
}

pub proof fn lemma_litteral(s: Seq<char>, i: nat, lit: Seq<char>)
    ensures
        i <= spec_litteral(s, i, lit).1,
        i <= s.len() + 1 ==> spec_litteral(s, i, lit).1 <= s.len() + 1,
        spec_litteral(s, i, lit).0 ==> spec_litteral(s, i, lit).1 <= s.len(),
        spec_litteral(s, i, lit).0 && lit.len() > 0 ==> i < spec_litteral(s, i, lit).1,
        !spec_litteral(s, i, lit).0 ==> spec_litteral(s, i, lit).1 == spec_trim(s, i),
{
    lemma_trim(s, i);
}

/// Skips blanks, then reads the keyword `kw` if it comes next and is not
/// the start of a longer name: no letter, digit or `_` may follow it.
pub open spec fn spec_keyword(s: Seq<char>, i: nat, kw: Seq<char>) -> (bool, nat) {
    let (ok, j) = spec_litteral(s, i, kw);
    if ok && !(char_at(s, j) matches Some(c) && is_ident_char(c)) {
        (true, j)
    } else {
        (false, spec_trim(s, i))
    }
}

pub proof fn lemma_keyword(s: Seq<char>, i: nat, kw: Seq<char>)
    ensures
        i <= spec_keyword(s, i, kw).1,
        i <= s.len() + 1 ==> spec_keyword(s, i, kw).1 <= s.len() + 1,
        spec_keyword(s, i, kw).0 ==> spec_keyword(s, i, kw).1 <= s.len(),
        spec_keyword(s, i, kw).0 && kw.len() > 0 ==> i < spec_keyword(s, i, kw).1,
        !spec_keyword(s, i, kw).0 ==> spec_keyword(s, i, kw).1 == spec_trim(s, i),
{
    lemma_litteral(s, i, kw);
    lemma_trim(s, i);
}

pub open spec fn is_ident_char(c: char) -> bool {
    ('a' <= c && c <= 'z') || ('A' <= c && c <= 'Z') || c == '_' || ('0' <= c && c <= '9')
}

pub open spec fn is_digit(c: char) -> bool {
    '0' <= c && c <= '9'
}

/// The end of the run of identifier characters that starts at `j`.
pub open spec fn ident_end(s: Seq<char>, j: nat) -> nat
    decreases s.len() - j,
{
    if j < s.len() && is_ident_char(s[j as int]) {
        ident_end(s, j + 1)
    } else {
        j
    }
}

/// The end of the run of digits that starts at `j`.
pub open spec fn digits_end(s: Seq<char>, j: nat) -> nat
    decreases s.len() - j,
{
    if j < s.len() && is_digit(s[j as int]) {
        digits_end(s, j + 1)
    } else {
        j
    }
}

pub proof fn lemma_ident_end(s: Seq<char>, j: nat)
    ensures
        j <= ident_end(s, j),
        j <= s.len() ==> ident_end(s, j) <= s.len(),
        ident_end(s, j) > j ==> ident_end(s, j) <= s.len(),
        forall|t: int| j <= t < ident_end(s, j) ==> is_ident_char(#[trigger] s[t]),
        ident_end(s, j) < s.len() ==> !is_ident_char(s[ident_end(s, j) as int]),
    decreases s.len() - j,
{
    if j < s.len() && is_ident_char(s[j as int]) {
        lemma_ident_end(s, j + 1);
    }
}

pub proof fn lemma_digits_end(s: Seq<char>, j: nat)
    ensures
        j <= digits_end(s, j),
        j <= s.len() ==> digits_end(s, j) <= s.len(),
        digits_end(s, j) > j ==> digits_end(s, j) <= s.len(),
        forall|t: int| j <= t < digits_end(s, j) ==> is_digit(#[trigger] s[t]),
        digits_end(s, j) < s.len() ==> !is_digit(s[digits_end(s, j) as int]),
    decreases s.len() - j,
{
    if j < s.len() && is_digit(s[j as int]) {
        lemma_digits_end(s, j + 1);
    }
}

/// Skips blanks, then reads a non-empty run of letters, digits and `_`.
pub open spec fn spec_identifier(s: Seq<char>, i: nat) -> (Option<Seq<char>>, nat) {
    let j = spec_trim(s, i);
    let k = ident_end(s, j);
    if k > j {
        (Some(s.subrange(j as int, k as int)), k)
    } else {
        (None, j)
    }
}

pub proof fn lemma_identifier(s: Seq<char>, i: nat)
    ensures
        i <= spec_identifier(s, i).1,
        i <= s.len() + 1 ==> spec_identifier(s, i).1 <= s.len() + 1,
        spec_identifier(s, i).0 is Some ==> i < spec_identifier(s, i).1 <= s.len(),
{
    lemma_trim(s, i);
    lemma_ident_end(s, spec_trim(s, i));
}

/// Reads a number literal at `i` (no blanks are skipped): an optional `-`,
/// digits, and, after a `.`, more digits. Nothing is read unless the first
/// character is `-` or a digit.
pub open spec fn spec_num(s: Seq<char>, i: nat) -> (Option<SpecNumber>, nat) {
    match char_at(s, i) {
        Some(c) => if c == '-' || is_digit(c) {
            let p: nat = if c == '-' { i + 1 } else { i };
            let q = digits_end(s, p);
            if char_at(s, q) == Some('.') {
                let r = digits_end(s, q + 1);
                (Some(SpecNumber {
                    negative: c == '-',
                    int_digits: s.subrange(p as int, q as int),
                    frac_digits: s.subrange((q + 1) as int, r as int),
                }), r)
            } else {
                (Some(SpecNumber {
                    negative: c == '-',
                    int_digits: s.subrange(p as int, q as int),
                    frac_digits: Seq::empty(),
                }), q)
            }
        } else {
            (None, i)
        },
        None => (None, i),
    }
}

pub proof fn lemma_num(s: Seq<char>, i: nat)
    ensures
        i <= spec_num(s, i).1,
        i <= s.len() + 1 ==> spec_num(s, i).1 <= s.len() + 1,
        spec_num(s, i).0 is None ==> spec_num(s, i).1 == i,
{
    if i < s.len() {
        let c = s[i as int];
        if c == '-' || is_digit(c) {
            let p: nat = if c == '-' { i + 1 } else { i };
            lemma_digits_end(s, p);
            let q = digits_end(s, p);
            lemma_digits_end(s, q + 1);
        }
    }
}

pub open spec fn quote() -> Seq<char> {
    seq!['"']
}

/// Reads a string literal: a `"`, then everything up to the next `"`.
/// Without a closing `"` the whole rest of the text is read and no string
/// comes out.
pub open spec fn spec_str(s: Seq<char>, i: nat) -> (Option<Seq<char>>, nat) {
    let (ok, j) = spec_litteral(s, i, quote());
    if ok {
        match find_char(s, j, '"') {
            Some(k) => (Some(s.subrange(j as int, k as int)), k + 1),
            None => (None, s.len()),
        }
    } else {
        (None, j)
    }
}

pub proof fn lemma_str(s: Seq<char>, i: nat)
    ensures
        i <= spec_str(s, i).1,
        i <= s.len() + 1 ==> spec_str(s, i).1 <= s.len() + 1,
{
    lemma_litteral(s, i, quote());
    let (ok, j) = spec_litteral(s, i, quote());
    if ok {
        lemma_find_char(s, j, '"');
    }
}

/// Reads the parameter names of a function definition, after its `(`, up to
/// the closing `)`. `None` when the list is malformed; the position is then
/// `r`, where the definition started.
pub open spec fn spec_fn_args(s: Seq<char>, k: nat, r: nat, acc: Seq<Seq<char>>) -> (Option<Seq<Seq<char>>>, nat)
    decreases rem(s, k),
{
    let (close, k1) = spec_litteral(s, k, seq![')']);
    if close {
        (Some(acc), k1)
    } else {
        let (id, k2) = spec_identifier(s, k1);
        match id {
            None => (None, back(s, k2, r)),
            Some(a) => {
                let k3 = spec_trim(s, k2);
                match char_at(s, k3) {
                    Some(c) => if c == ',' {
                        proof {
                            lemma_litteral(s, k, seq![')']);
                            lemma_identifier(s, k1);
                            lemma_trim(s, k2);
                        }
                        spec_fn_args(s, k3 + 1, r, acc.push(a))
                    } else if c == ')' {
                        (Some(acc.push(a)), k3 + 1)
                    } else {
                        (None, back(s, k3, r))
                    },
                    None => (None, back(s, k3, r)),
                }
            },
        }
    }
}

pub proof fn lemma_fn_args(s: Seq<char>, k: nat, r: nat, acc: Seq<Seq<char>>)
    ensures
        spec_fn_args(s, k, r, acc).0 is Some ==> k <= spec_fn_args(s, k, r, acc).1 <= s.len() + 1,
        spec_fn_args(s, k, r, acc).0 is None ==> spec_fn_args(s, k, r, acc).1 == r
            || spec_fn_args(s, k, r, acc).1 == stuck(s),
    decreases rem(s, k),
{
    lemma_litteral(s, k, seq![')']);
    let (close, k1) = spec_litteral(s, k, seq![')']);
    if !close {
        lemma_identifier(s, k1);
        let (id, k2) = spec_identifier(s, k1);
        if id is Some {
            lemma_trim(s, k2);
            let k3 = spec_trim(s, k2);
            if k3 < s.len() && s[k3 as int] == ',' {
                lemma_fn_args(s, k3 + 1, r, acc.push(id.unwrap()));
            }
        }
    }
}

/// The fields of an object after a binding of `name`: a field of that name
/// gets the new value in place, any other name is added at the end.
pub open spec fn insert_field(fields: Seq<(Seq<char>, SpecExpr)>, name: Seq<char>, e: SpecExpr) -> Seq<(Seq<char>, SpecExpr)> {
    match field_pos(fields, name, 0) {
        Some(t) => fields.update(t, (name, e)),
        None => fields.push((name, e)),
    }
}

/// The first index at or after `t` of a field named `name`.
pub open spec fn field_pos<V>(fields: Seq<(Seq<char>, V)>, name: Seq<char>, t: int) -> Option<int>
    decreases fields.len() - t,
{
    if t < 0 || t >= fields.len() {
        None
    } else if fields[t].0 == name {
        Some(t)
    } else {
        field_pos(fields, name, t + 1)
    }
}

pub proof fn lemma_field_pos<V>(fields: Seq<(Seq<char>, V)>, name: Seq<char>, t: int)
    requires
        0 <= t,
    ensures
        field_pos(fields, name, t) matches Some(u) ==> t <= u < fields.len() && fields[u].0 == name,
        field_pos(fields, name, t) matches Some(u) ==> forall|w: int| t <= w < u ==> fields[w].0 != name,
        field_pos(fields, name, t) is None ==> forall|u: int| t <= u < fields.len() ==> fields[u].0 != name,
    decreases fields.len() - t,
{
    if t < fields.len() && fields[t].0 != name {
        lemma_field_pos(fields, name, t + 1);
    }
}

/// Reads an expression at `i`: blanks first, then a primary expression, then
/// any number of field accesses, calls and indexings after it.
#[verifier::opaque]
pub open spec fn spec_expr(s: Seq<char>, i: nat) -> (SpecExpr, nat)
    decreases rem(s, i), 5nat,
{
    let p = spec_trim(s, i);
    proof {
        lemma_trim(s, i);
    }
    let (e, k, more) = spec_primary(s, p);
    if more {
        if k >= i {
            spec_modifiers_loop(s, k, e)
        } else {
            (e, k)
        }
    } else {
        (SpecExpr::Nil, k)
    }
}

/// The primary expression at `p`, where blanks were skipped. The flag says
/// whether modifiers may follow; it is false where the parser abandons a
/// malformed list, chain, object or function definition.
#[verifier::opaque]
pub open spec fn spec_primary(s: Seq<char>, p: nat) -> (SpecExpr, nat, bool)
    decreases rem(s, p), 4nat,
{
    if char_at(s, p) == Some('"') {
        let (c, k) = spec_str(s, p);
        (
            match c {
                Some(x) => SpecExpr::Str(x),
                None => SpecExpr::Nil,
            },
            k,
            true,
        )
    } else {
        proof {
            lemma_keyword(s, p, seq!['l', 'e', 't']);
        }
        let (is_let, a1) = spec_keyword(s, p, seq!['l', 'e', 't']);
        if is_let {
            spec_let(s, p, a1)
        } else {
            proof {
                lemma_keyword(s, a1, seq!['f', 'n']);
            }
            let (is_fn, a2) = spec_keyword(s, a1, seq!['f', 'n']);
            if is_fn {
                spec_fn_def(s, a1, a2)
            } else {
                proof {
                    lemma_keyword(s, a2, seq!['i', 'f']);
                }
                let (is_if, a3) = spec_keyword(s, a2, seq!['i', 'f']);
                if is_if {
                    spec_cond(s, a2, a3, true)
                } else {
                    proof {
                        lemma_keyword(s, a3, seq!['w', 'h', 'i', 'l', 'e']);
                    }
                    let (is_while, a4) = spec_keyword(s, a3, seq!['w', 'h', 'i', 'l', 'e']);
                    if is_while {
                        spec_cond(s, a3, a4, false)
                    } else {
                        proof {
                            lemma_litteral(s, a4, seq!['{']);
                        }
                        let (is_chain, a5) = spec_litteral(s, a4, seq!['{']);
                        if is_chain {
                            match spec_items(s, a5, a4, Seq::empty(), ';', '}') {
                                (Some(xs), k) => (SpecExpr::Chain(xs), k, true),
                                (None, k) => (SpecExpr::Nil, k, false),
                            }
                        } else {
                            proof {
                                lemma_litteral(s, a5, seq!['<']);
                            }
                            let (is_list, a6) = spec_litteral(s, a5, seq!['<']);
                            if is_list {
                                match spec_items(s, a6, a5, Seq::empty(), ';', '>') {
                                    (Some(xs), k) => (SpecExpr::List(xs), k, true),
                                    (None, k) => (SpecExpr::Nil, k, false),
                                }
                            } else {
                                proof {
                                    lemma_litteral(s, a6, seq!['[']);
                                }
                                let (is_object, a7) = spec_litteral(s, a6, seq!['[']);
                                if is_object {
                                    match spec_fields(s, a7, a6, Seq::empty()) {
                                        (Some(fs), k) => (SpecExpr::Object(fs), k, true),
                                        (None, k) => (SpecExpr::Nil, k, false),
                                    }
                                } else {
                                    let (n, a8) = spec_num(s, a7);
                                    match n {
                                        Some(x) => (SpecExpr::Number(x), a8, true),
                                        None => {
                                            let (id, a9) = spec_identifier(s, a8);
                                            match id {
                                                Some(name) => (SpecExpr::Access(SpecTarget::Var(name)), a9, true),
                                                None => (SpecExpr::Nil, a9, true),
                                            }
                                        },
                                    }
                                }
                            }
                        }
                    }
                }
            }
        }
    }
}

/// A binding, after `let` was read at `r` and the parser stands at `a`.
#[verifier::opaque]
pub open spec fn spec_let(s: Seq<char>, r: nat, a: nat) -> (SpecExpr, nat, bool)
    decreases rem(s, a), 7nat,
{
    let (t, k) = spec_target(s, a);
    let (eq, k2) = spec_litteral(s, k, seq!['=']);
    match t {
        Some(SpecExpr::Access(target)) => if eq && k2 > a {
            let (v, k3) = spec_expr(s, k2);
            (SpecExpr::Binding { target, value: Box::new(v) }, k3, true)
        } else {
            (SpecExpr::Nil, back(s, k2, r), true)
        },
        Some(SpecExpr::Identifier(name)) => if eq && k2 > a {
            let (v, k3) = spec_expr(s, k2);
            (SpecExpr::Binding { target: SpecTarget::Var(name), value: Box::new(v) }, k3, true)
        } else {
            (SpecExpr::Nil, back(s, k2, r), true)
        },
        _ => (SpecExpr::Nil, back(s, k, r), true),
    }
}

/// A function definition, after `fn` was read at `r` and the parser stands at `a`.
#[verifier::opaque]
pub open spec fn spec_fn_def(s: Seq<char>, r: nat, a: nat) -> (SpecExpr, nat, bool)
    decreases rem(s, a), 7nat,
{
    let (open, b) = spec_litteral(s, a, seq!['(']);
    if open {
        proof {
            lemma_litteral(s, a, seq!['(']);
            lemma_fn_args(s, b, r, Seq::empty());
        }
        match spec_fn_args(s, b, r, Seq::empty()) {
            (Some(args), k) => {
                let (v, k2) = spec_expr(s, k);
                (
                    SpecExpr::Function {
                        args,
                        value: Box::new(v),
                        closure: Seq::empty(),
                        reflection: false,
                    },
                    k2,
                    true,
                )
            },
            (None, k) => (SpecExpr::Nil, k, false),
        }
    } else {
        (SpecExpr::Nil, back(s, b, r), true)
    }
}

/// An `if` (when `is_if`) or a `while`, after its keyword was read at `r`
/// and the parser stands at `a`.
#[verifier::opaque]
pub open spec fn spec_cond(s: Seq<char>, r: nat, a: nat, is_if: bool) -> (SpecExpr, nat, bool)
    decreases rem(s, a), 7nat,
{
    let (open, b) = spec_litteral(s, a, seq!['(']);
    if open {
        proof {
            lemma_litteral(s, a, seq!['(']);
        }
        let (cond, k) = spec_expr(s, b);
        let (close, k2) = spec_litteral(s, k, seq![')']);
        if close && k2 > a {
            let (value, k3) = spec_expr(s, k2);
            let (has_else, k4) = spec_keyword(s, k3, seq!['e', 'l', 's', 'e']);
            if has_else && k4 > a {
                let (else_value, k5) = spec_expr(s, k4);
                (spec_cond_expr(is_if, cond, value, else_value), k5, true)
            } else {
                (spec_cond_expr(is_if, cond, value, SpecExpr::Nil), k4, true)
            }
        } else {
            (SpecExpr::Nil, back(s, k2, r), true)
        }
    } else {
        (SpecExpr::Nil, back(s, b, r), true)
    }
}

pub open spec fn spec_cond_expr(is_if: bool, cond: SpecExpr, value: SpecExpr, else_value: SpecExpr) -> SpecExpr {
    if is_if {
        SpecExpr::If { cond: Box::new(cond), value: Box::new(value), else_value: Box::new(else_value) }
    } else {
        SpecExpr::While { cond: Box::new(cond), value: Box::new(value), else_value: Box::new(else_value) }
    }
}

/// The items of a list, a chain or the arguments of a call, after the
/// opening bracket: expressions separated by `sep`, up to `close`. `None`
/// when malformed; the position is then `r`.
#[verifier::opaque]
pub open spec fn spec_items(s: Seq<char>, k: nat, r: nat, acc: Seq<SpecExpr>, sep: char, close: char) -> (Option<Seq<SpecExpr>>, nat)
    decreases rem(s, k), 6nat,
{
    proof {
        lemma_litteral(s, k, seq![close]);
    }
    let (done, k1) = spec_litteral(s, k, seq![close]);
    if done {
        (Some(acc), k1)
    } else {
        let (e, k2) = spec_expr(s, k1);
        let k3 = spec_trim(s, k2);
        match char_at(s, k3) {
            Some(c) => if c == sep {
                if k3 + 1 > k {
                    spec_items(s, k3 + 1, r, acc.push(e), sep, close)
                } else {
                    (None, back(s, k3, r))
                }
            } else if c == close {
                (Some(acc.push(e)), k3 + 1)
            } else {
                (None, back(s, k3, r))
            },
            None => (None, back(s, k3, r)),
        }
    }
}

/// The fields of an object, after its `[`: `name: value` separated by `;`,
/// up to `]`. `None` when malformed; the position is then `r`.
#[verifier::opaque]
pub open spec fn spec_fields(s: Seq<char>, k: nat, r: nat, acc: Seq<(Seq<char>, SpecExpr)>) -> (Option<Seq<(Seq<char>, SpecExpr)>>, nat)
    decreases rem(s, k), 6nat,
{
    proof {
        lemma_litteral(s, k, seq![']']);
    }
    let (done, k1) = spec_litteral(s, k, seq![']']);
    if done {
        (Some(acc), k1)
    } else {
        proof {
            lemma_identifier(s, k1);
        }
        let (id, k2) = spec_identifier(s, k1);
        match id {
            None => (None, back(s, k2, r)),
            Some(name) => {
                proof {
                    lemma_litteral(s, k2, seq![':']);
                }
                let (colon, k3) = spec_litteral(s, k2, seq![':']);
                if !colon {
                    (None, back(s, k3, r))
                } else {
                    let (e, k4) = spec_expr(s, k3);
                    let fields = insert_field(acc, name, e);
                    let k5 = spec_trim(s, k4);
                    match char_at(s, k5) {
                        Some(c) => if c == ';' {
                            if k5 + 1 > k {
                                spec_fields(s, k5 + 1, r, fields)
                            } else {
                                (None, back(s, k5, r))
                            }
                        } else if c == ']' {
                            (Some(fields), k5 + 1)
                        } else {
                            (None, back(s, k5, r))
                        },
                        None => (None, back(s, k5, r)),
                    }
                }
            },
        }
    }
}

/// An identifier followed by its modifiers: the left side of a binding.
#[verifier::opaque]
pub open spec fn spec_target(s: Seq<char>, i: nat) -> (Option<SpecExpr>, nat)
    decreases rem(s, i), 1nat,
{
    proof {
        lemma_identifier(s, i);
    }
    let (id, j) = spec_identifier(s, i);
    match id {
        Some(base) => {
            let (e, k) = spec_modifiers_loop(s, j, SpecExpr::Identifier(base));
            (Some(e), k)
        },
        None => (None, j),
    }
}

/// Applies modifiers to `e` for as long as one is found.
#[verifier::opaque]
pub open spec fn spec_modifiers_loop(s: Seq<char>, i: nat, e: SpecExpr) -> (SpecExpr, nat)
    decreases rem(s, i), 3nat,
{
    let (found, e2, j) = spec_modifiers(s, i, e);
    if found && j > i && j <= s.len() {
        spec_modifiers_loop(s, j, e2)
    } else {
        (e2, j)
    }
}

/// One modifier after `init`: `.field`, `(args)` or `<index>`. The flag
/// says whether one was found; a malformed one gives `Nil`.
#[verifier::opaque]
pub open spec fn spec_modifiers(s: Seq<char>, i: nat, init: SpecExpr) -> (bool, SpecExpr, nat)
    decreases rem(s, i), 2nat,
{
    proof {
        lemma_litteral(s, i, seq!['.']);
    }
    let (dot, j) = spec_litteral(s, i, seq!['.']);
    if dot {
        let (id, k) = spec_identifier(s, j);
        match id {
            Some(a) => (true, SpecExpr::Access(SpecTarget::Field { var: Box::new(init), field: a }), k),
            None => (false, SpecExpr::Nil, k),
        }
    } else {
        proof {
            lemma_litteral(s, j, seq!['(']);
        }
        let (open, j2) = spec_litteral(s, j, seq!['(']);
        if open {
            match spec_items(s, j2, j, Seq::empty(), ',', ')') {
                (Some(args), k) => (true, SpecExpr::FuncCall { func: Box::new(init), args }, k),
                (None, k) => (false, SpecExpr::Nil, k),
            }
        } else {
            proof {
                lemma_litteral(s, j2, seq!['<']);
            }
            let (lt, j3) = spec_litteral(s, j2, seq!['<']);
            if lt {
                let (idx, k) = spec_expr(s, j3);
                let (gt, k2) = spec_litteral(s, k, seq!['>']);
                if gt {
                    (true, SpecExpr::Access(SpecTarget::Index { var: Box::new(init), index: Box::new(idx) }), k2)
                } else {
                    (false, SpecExpr::Nil, k2)
                }
            } else {
                (false, init, j3)
            }
        }
    }
}

/// What the parser complains of while reading a string literal at `i`.
pub open spec fn msgs_str(s: Seq<char>, i: nat) -> Seq<SpecParseMessage> {
    let (ok, j) = spec_litteral(s, i, quote());
    if ok && find_char(s, j, '"') is None {
        note(s, s.len(), SpecParseMessage::UnterminatedString)
    } else {
        Seq::empty()
    }
}

/// What the parser complains of while reading the parameters of a function
/// definition at `k`.
pub open spec fn msgs_fn_args(s: Seq<char>, k: nat, r: nat) -> Seq<SpecParseMessage>
    decreases rem(s, k),
{
    let (close, k1) = spec_litteral(s, k, seq![')']);
    if close {
        Seq::empty()
    } else {
        let (id, k2) = spec_identifier(s, k1);
        match id {
            None => note(s, k2, SpecParseMessage::ExpectedArgument),
            Some(a) => {
                let k3 = spec_trim(s, k2);
                match char_at(s, k3) {
                    Some(c) => if c == ',' {
                        proof {
                            lemma_litteral(s, k, seq![')']);
                            lemma_identifier(s, k1);
                            lemma_trim(s, k2);
                        }
                        msgs_fn_args(s, k3 + 1, r)
                    } else if c == ')' {
                        Seq::empty()
                    } else {
                        note(s, k3, unexpected(c, ','))
                    },
                    None => note(s, k3, SpecParseMessage::UnterminatedArguments),
                }
            },
        }
    }
}

/// A complaint made at position `pos`: none where the parser is stuck in
/// a comment that runs to the end of the text, for it stops there.
pub open spec fn note(s: Seq<char>, pos: nat, m: SpecParseMessage) -> Seq<SpecParseMessage> {
    if pos == stuck(s) {
        Seq::empty()
    } else {
        seq![m]
    }
}

/// The complaint about `found` at `at`, where no expression starts.
pub open spec fn could_not_parse(found: char, at: nat) -> SpecParseMessage {
    SpecParseMessage::CouldNotParse { found, at }
}

/// The complaint about `found` where `expected` should stand.
pub open spec fn unexpected(found: char, expected: char) -> SpecParseMessage {
    SpecParseMessage::UnexpectedCharacter { found, expected }
}

/// The complaint about a list of items that runs to the end of the text.
pub open spec fn unterminated(close: char) -> SpecParseMessage {
    if close == '}' {
        SpecParseMessage::UnterminatedChain
    } else if close == '>' {
        SpecParseMessage::UnterminatedList
    } else {
        SpecParseMessage::UnterminatedArguments
    }
}

/// What the parser complains of while reading an expression at `i`, in order.
#[verifier::opaque]
pub open spec fn msgs_expr(s: Seq<char>, i: nat) -> Seq<SpecParseMessage>
    decreases rem(s, i), 5nat,
{
    let p = spec_trim(s, i);
    proof {
        lemma_trim(s, i);
    }
    let (e, k, more) = spec_primary(s, p);
    let m = msgs_primary(s, p);
    if more && k >= i {
        m + msgs_modifiers_loop(s, k, e)
    } else {
        m
    }
}

#[verifier::opaque]
pub open spec fn msgs_primary(s: Seq<char>, p: nat) -> Seq<SpecParseMessage>
    decreases rem(s, p), 4nat,
{
    if char_at(s, p) == Some('"') {
        msgs_str(s, p)
    } else {
        proof {
            lemma_keyword(s, p, seq!['l', 'e', 't']);
        }
        let (is_let, a1) = spec_keyword(s, p, seq!['l', 'e', 't']);
        if is_let {
            msgs_let(s, p, a1)
        } else {
            proof {
                lemma_keyword(s, a1, seq!['f', 'n']);
            }
            let (is_fn, a2) = spec_keyword(s, a1, seq!['f', 'n']);
            if is_fn {
                msgs_fn_def(s, a1, a2)
            } else {
                proof {
                    lemma_keyword(s, a2, seq!['i', 'f']);
                }
                let (is_if, a3) = spec_keyword(s, a2, seq!['i', 'f']);
                if is_if {
                    msgs_cond(s, a2, a3, true)
                } else {
                    proof {
                        lemma_keyword(s, a3, seq!['w', 'h', 'i', 'l', 'e']);
                    }
                    let (is_while, a4) = spec_keyword(s, a3, seq!['w', 'h', 'i', 'l', 'e']);
                    if is_while {
                        msgs_cond(s, a3, a4, false)
                    } else {
                        proof {
                            lemma_litteral(s, a4, seq!['{']);
                        }
                        let (is_chain, a5) = spec_litteral(s, a4, seq!['{']);
                        if is_chain {
                            msgs_items(s, a5, a4, ';', '}')
                        } else {
                            proof {
                                lemma_litteral(s, a5, seq!['<']);
                            }
                            let (is_list, a6) = spec_litteral(s, a5, seq!['<']);
                            if is_list {
                                msgs_items(s, a6, a5, ';', '>')
                            } else {
                                proof {
                                    lemma_litteral(s, a6, seq!['[']);
                                }
                                let (is_object, a7) = spec_litteral(s, a6, seq!['[']);
                                if is_object {
                                    msgs_fields(s, a7, a6)
                                } else {
                                    let (n, a8) = spec_num(s, a7);
                                    match n {
                                        Some(x) => Seq::empty(),
                                        None => {
                                            let (id, a9) = spec_identifier(s, a8);
                                            match id {
                                                Some(name) => Seq::empty(),
                                                None => match char_at(s, a9) {
                                                    Some(c) => note(s, a9, could_not_parse(c, a9)),
                                                    None => Seq::empty(),
                                                },
                                            }
                                        },
                                    }
                                }
                            }
                        }
                    }
                }
            }
        }
    }
}

#[verifier::opaque]
pub open spec fn msgs_let(s: Seq<char>, r: nat, a: nat) -> Seq<SpecParseMessage>
    decreases rem(s, a), 7nat,
{
    let (t, k) = spec_target(s, a);
    let m = msgs_target(s, a);
    let (eq, k2) = spec_litteral(s, k, seq!['=']);
    match t {
        Some(SpecExpr::Access(target)) => if eq && k2 > a {
            m + msgs_expr(s, k2)
        } else {
            m + note(s, k2, SpecParseMessage::ExpectedEquals)
        },
        Some(SpecExpr::Identifier(name)) => if eq && k2 > a {
            m + msgs_expr(s, k2)
        } else {
            m + note(s, k2, SpecParseMessage::ExpectedEquals)
        },
        _ => m + note(s, k, SpecParseMessage::ExpectedBindingIdentifier(t)),
    }
}

#[verifier::opaque]
pub open spec fn msgs_fn_def(s: Seq<char>, r: nat, a: nat) -> Seq<SpecParseMessage>
    decreases rem(s, a), 7nat,
{
    let (open, b) = spec_litteral(s, a, seq!['(']);
    if open {
        proof {
            lemma_litteral(s, a, seq!['(']);
            lemma_fn_args(s, b, r, Seq::empty());
        }
        match spec_fn_args(s, b, r, Seq::empty()) {
            (Some(args), k) => msgs_fn_args(s, b, r) + msgs_expr(s, k),
            (None, k) => msgs_fn_args(s, b, r),
        }
    } else {
        note(s, b, SpecParseMessage::ExpectedParenForArguments)
    }
}

#[verifier::opaque]
pub open spec fn msgs_cond(s: Seq<char>, r: nat, a: nat, is_if: bool) -> Seq<SpecParseMessage>
    decreases rem(s, a), 7nat,
{
    let (open, b) = spec_litteral(s, a, seq!['(']);
    if open {
        proof {
            lemma_litteral(s, a, seq!['(']);
        }
        let (cond, k) = spec_expr(s, b);
        let m1 = msgs_expr(s, b);
        let (close, k2) = spec_litteral(s, k, seq![')']);
        if close && k2 > a {
            let (value, k3) = spec_expr(s, k2);
            let m2 = msgs_expr(s, k2);
            let (has_else, k4) = spec_keyword(s, k3, seq!['e', 'l', 's', 'e']);
            if has_else && k4 > a {
                m1 + m2 + msgs_expr(s, k4)
            } else {
                m1 + m2
            }
        } else {
            m1 + note(s, k2, SpecParseMessage::ExpectedParenForCondition)
        }
    } else {
        note(s, b, SpecParseMessage::ExpectedParenForCondition)
    }
}

#[verifier::opaque]
pub open spec fn msgs_items(s: Seq<char>, k: nat, r: nat, sep: char, close: char) -> Seq<SpecParseMessage>
    decreases rem(s, k), 6nat,
{
    proof {
        lemma_litteral(s, k, seq![close]);
    }
    let (done, k1) = spec_litteral(s, k, seq![close]);
    if done {
        Seq::empty()
    } else {
        let (e, k2) = spec_expr(s, k1);
        let m = msgs_expr(s, k1);
        let k3 = spec_trim(s, k2);
        match char_at(s, k3) {
            Some(c) => if c == sep {
                if k3 + 1 > k {
                    m + msgs_items(s, k3 + 1, r, sep, close)
                } else {
                    m
                }
            } else if c == close {
                m
            } else {
                m + note(s, k3, unexpected(c, sep))
            },
            None => m + note(s, k3, unterminated(close)),
        }
    }
}

#[verifier::opaque]
pub open spec fn msgs_fields(s: Seq<char>, k: nat, r: nat) -> Seq<SpecParseMessage>
    decreases rem(s, k), 6nat,
{
    proof {
        lemma_litteral(s, k, seq![']']);
    }
    let (done, k1) = spec_litteral(s, k, seq![']']);
    if done {
        Seq::empty()
    } else {
        proof {
            lemma_identifier(s, k1);
        }
        let (id, k2) = spec_identifier(s, k1);
        match id {
            None => note(s, k2, SpecParseMessage::ExpectedFieldName),
            Some(name) => {
                proof {
                    lemma_litteral(s, k2, seq![':']);
                }
                let (colon, k3) = spec_litteral(s, k2, seq![':']);
                if !colon {
                    note(s, k3, SpecParseMessage::ExpectedColon)
                } else {
                    let (e, k4) = spec_expr(s, k3);
                    let m = msgs_expr(s, k3);
                    let k5 = spec_trim(s, k4);
                    match char_at(s, k5) {
                        Some(c) => if c == ';' {
                            if k5 + 1 > k {
                                m + msgs_fields(s, k5 + 1, r)
                            } else {
                                m
                            }
                        } else if c == ']' {
                            m
                        } else {
                            m + note(s, k5, unexpected(c, ';'))
                        },
                        None => m + note(s, k5, SpecParseMessage::UnterminatedChain),
                    }
                }
            },
        }
    }
}

#[verifier::opaque]
pub open spec fn msgs_target(s: Seq<char>, i: nat) -> Seq<SpecParseMessage>
    decreases rem(s, i), 1nat,
{
    proof {
        lemma_identifier(s, i);
    }
    let (id, j) = spec_identifier(s, i);
    match id {
        Some(base) => msgs_modifiers_loop(s, j, SpecExpr::Identifier(base)),
        None => note(s, j, SpecParseMessage::ExpectedIdentifier),
    }
}

#[verifier::opaque]
pub open spec fn msgs_modifiers_loop(s: Seq<char>, i: nat, e: SpecExpr) -> Seq<SpecParseMessage>
    decreases rem(s, i), 3nat,
{
    let (found, e2, j) = spec_modifiers(s, i, e);
    let m = msgs_modifiers(s, i, e);
    if found && j > i && j <= s.len() {
        m + msgs_modifiers_loop(s, j, e2)
    } else {
        m
    }
}

#[verifier::opaque]
pub open spec fn msgs_modifiers(s: Seq<char>, i: nat, init: SpecExpr) -> Seq<SpecParseMessage>
    decreases rem(s, i), 2nat,
{
    proof {
        lemma_litteral(s, i, seq!['.']);
    }
    let (dot, j) = spec_litteral(s, i, seq!['.']);
    if dot {
        let (id, k) = spec_identifier(s, j);
        match id {
            Some(a) => Seq::empty(),
            None => note(s, k, SpecParseMessage::ExpectedFieldIdentifier),
        }
    } else {
        proof {
            lemma_litteral(s, j, seq!['(']);
        }
        let (open, j2) = spec_litteral(s, j, seq!['(']);
        if open {
            msgs_items(s, j2, j, ',', ')')
        } else {
            proof {
                lemma_litteral(s, j2, seq!['<']);
            }
            let (lt, j3) = spec_litteral(s, j2, seq!['<']);
            if lt {
                let (idx, k) = spec_expr(s, j3);
                let m = msgs_expr(s, j3);
                let (gt, k2) = spec_litteral(s, k, seq!['>']);
                if gt {
                    m
                } else {
                    m + note(s, k2, SpecParseMessage::UnterminatedIndex)
                }
            } else {
                Seq::empty()
            }
        }
    }
}

pub proof fn lemma_msgs_modifiers_loop(s: Seq<char>, i: nat, e: SpecExpr)
    ensures
        ({
            let (found, e2, j) = spec_modifiers(s, i, e);
            msgs_modifiers_loop(s, i, e) == if found && j > i && j <= s.len() {
                msgs_modifiers(s, i, e) + msgs_modifiers_loop(s, j, e2)
            } else {
                msgs_modifiers(s, i, e)
            }
        }),
{
    reveal(msgs_expr);
    reveal(msgs_primary);
    reveal(msgs_let);
    reveal(msgs_fn_def);
    reveal(msgs_cond);
    reveal(msgs_items);
    reveal(msgs_fields);
    reveal(msgs_target);
    reveal(msgs_modifiers_loop);
    reveal(msgs_modifiers);
}

pub proof fn lemma_msgs_expr(s: Seq<char>, i: nat)
    ensures
        ({
            let p = spec_trim(s, i);
            let (e, k, more) = spec_primary(s, p);
            msgs_expr(s, i) == if more && k >= i {
                msgs_primary(s, p) + msgs_modifiers_loop(s, k, e)
            } else {
                msgs_primary(s, p)
            }
        }),
{
    reveal(msgs_expr);
    reveal(msgs_primary);
    reveal(msgs_let);
    reveal(msgs_fn_def);
    reveal(msgs_cond);
    reveal(msgs_items);
    reveal(msgs_fields);
    reveal(msgs_target);
    reveal(msgs_modifiers_loop);
    reveal(msgs_modifiers);
}

pub proof fn lemma_msgs_target(s: Seq<char>, i: nat)
    ensures
        ({
            let (id, j) = spec_identifier(s, i);
            msgs_target(s, i) == match id {
                Some(base) => msgs_modifiers_loop(s, j, SpecExpr::Identifier(base)),
                None => note(s, j, SpecParseMessage::ExpectedIdentifier),
            }
        }),
{
    reveal(msgs_expr);
    reveal(msgs_primary);
    reveal(msgs_let);
    reveal(msgs_fn_def);
    reveal(msgs_cond);
    reveal(msgs_items);
    reveal(msgs_fields);
    reveal(msgs_target);
    reveal(msgs_modifiers_loop);
    reveal(msgs_modifiers);
}

/// One step of `msgs_items` at `k`, after the closing bracket was not found
/// and an expression ran from `k1` to `k2`.
pub proof fn lemma_msgs_items_step(s: Seq<char>, k: nat, r: nat, sep: char, close: char, k1: nat)
    requires
        spec_litteral(s, k, seq![close]) == (false, k1),
    ensures
        ({
            let k2 = spec_expr(s, k1).1;
            let m = msgs_expr(s, k1);
            let k3 = spec_trim(s, k2);
            msgs_items(s, k, r, sep, close) == match char_at(s, k3) {
                Some(c) => if c == sep {
                    if k3 + 1 > k {
                        m + msgs_items(s, k3 + 1, r, sep, close)
                    } else {
                        m
                    }
                } else if c == close {
                    m
                } else {
                    m + note(s, k3, unexpected(c, sep))
                },
                None => m + note(s, k3, unterminated(close)),
            }
        }),
{
    reveal(msgs_expr);
    reveal(msgs_primary);
    reveal(msgs_let);
    reveal(msgs_fn_def);
    reveal(msgs_cond);
    reveal(msgs_items);
    reveal(msgs_fields);
    reveal(msgs_target);
    reveal(msgs_modifiers_loop);
    reveal(msgs_modifiers);
}

pub proof fn lemma_msgs_items_done(s: Seq<char>, k: nat, r: nat, sep: char, close: char)
    requires
        spec_litteral(s, k, seq![close]).0,
    ensures
        msgs_items(s, k, r, sep, close) == Seq::<SpecParseMessage>::empty(),
{
    reveal(msgs_expr);
    reveal(msgs_primary);
    reveal(msgs_let);
    reveal(msgs_fn_def);
    reveal(msgs_cond);
    reveal(msgs_items);
    reveal(msgs_fields);
    reveal(msgs_target);
    reveal(msgs_modifiers_loop);
    reveal(msgs_modifiers);
}

/// One step of `msgs_fields` at `k`, after a field name and its `:` were
/// read and its value ran from `k3` to `k4`.
pub proof fn lemma_msgs_fields_step(s: Seq<char>, k: nat, r: nat, k1: nat, k2: nat, k3: nat)
    requires
        spec_litteral(s, k, seq![']']) == (false, k1),
        spec_identifier(s, k1).0 is Some,
        spec_identifier(s, k1).1 == k2,
        spec_litteral(s, k2, seq![':']) == (true, k3),
    ensures
        ({
            let k4 = spec_expr(s, k3).1;
            let m = msgs_expr(s, k3);
            let k5 = spec_trim(s, k4);
            msgs_fields(s, k, r) == match char_at(s, k5) {
                Some(c) => if c == ';' {
                    if k5 + 1 > k {
                        m + msgs_fields(s, k5 + 1, r)
                    } else {
                        m
                    }
                } else if c == ']' {
                    m
                } else {
                    m + note(s, k5, unexpected(c, ';'))
                },
                None => m + note(s, k5, SpecParseMessage::UnterminatedChain),
            }
        }),
{
    reveal(msgs_expr);
    reveal(msgs_primary);
    reveal(msgs_let);
    reveal(msgs_fn_def);
    reveal(msgs_cond);
    reveal(msgs_items);
    reveal(msgs_fields);
    reveal(msgs_target);
    reveal(msgs_modifiers_loop);
    reveal(msgs_modifiers);
}

pub proof fn lemma_msgs_fields_early(s: Seq<char>, k: nat, r: nat)
    ensures
        spec_litteral(s, k, seq![']']).0 ==> msgs_fields(s, k, r) == Seq::<SpecParseMessage>::empty(),
        ({
            let (done, k1) = spec_litteral(s, k, seq![']']);
            let (id, k2) = spec_identifier(s, k1);
            !done && id is None ==> msgs_fields(s, k, r) == note(s, k2, SpecParseMessage::ExpectedFieldName)
        }),
        ({
            let (done, k1) = spec_litteral(s, k, seq![']']);
            let (id, k2) = spec_identifier(s, k1);
            !done && id is Some && !spec_litteral(s, k2, seq![':']).0
                ==> msgs_fields(s, k, r) == note(s, spec_litteral(s, k2, seq![':']).1, SpecParseMessage::ExpectedColon)
        }),
{
    reveal(msgs_expr);
    reveal(msgs_primary);
    reveal(msgs_let);
    reveal(msgs_fn_def);
    reveal(msgs_cond);
    reveal(msgs_items);
    reveal(msgs_fields);
    reveal(msgs_target);
    reveal(msgs_modifiers_loop);
    reveal(msgs_modifiers);
}

pub proof fn lemma_msgs_let(s: Seq<char>, r: nat, a: nat)
    ensures
        ({
            let (t, k) = spec_target(s, a);
            let m = msgs_target(s, a);
            let (eq, k2) = spec_litteral(s, k, seq!['=']);
            msgs_let(s, r, a) == match t {
                Some(SpecExpr::Access(target)) => if eq && k2 > a {
                    m + msgs_expr(s, k2)
                } else {
                    m + note(s, k2, SpecParseMessage::ExpectedEquals)
                },
                Some(SpecExpr::Identifier(name)) => if eq && k2 > a {
                    m + msgs_expr(s, k2)
                } else {
                    m + note(s, k2, SpecParseMessage::ExpectedEquals)
                },
                _ => m + note(s, k, SpecParseMessage::ExpectedBindingIdentifier(t)),
            }
        }),
{
    reveal(msgs_expr);
    reveal(msgs_primary);
    reveal(msgs_let);
    reveal(msgs_fn_def);
    reveal(msgs_cond);
    reveal(msgs_items);
    reveal(msgs_fields);
    reveal(msgs_target);
    reveal(msgs_modifiers_loop);
    reveal(msgs_modifiers);
}

pub proof fn lemma_msgs_fn_def(s: Seq<char>, r: nat, a: nat)
    ensures
        ({
            let (open, b) = spec_litteral(s, a, seq!['(']);
            msgs_fn_def(s, r, a) == if open {
                match spec_fn_args(s, b, r, Seq::empty()) {
                    (Some(args), k) => msgs_fn_args(s, b, r) + msgs_expr(s, k),
                    (None, k) => msgs_fn_args(s, b, r),
                }
            } else {
                note(s, b, SpecParseMessage::ExpectedParenForArguments)
            }
        }),
{
    reveal(msgs_expr);
    reveal(msgs_primary);
    reveal(msgs_let);
    reveal(msgs_fn_def);
    reveal(msgs_cond);
    reveal(msgs_items);
    reveal(msgs_fields);
    reveal(msgs_target);
    reveal(msgs_modifiers_loop);
    reveal(msgs_modifiers);
}

pub proof fn lemma_msgs_cond(s: Seq<char>, r: nat, a: nat, is_if: bool)
    ensures
        ({
            let (open, b) = spec_litteral(s, a, seq!['(']);
            let k = spec_expr(s, b).1;
            let m1 = msgs_expr(s, b);
            let (close, k2) = spec_litteral(s, k, seq![')']);
            let k3 = spec_expr(s, k2).1;
            let m2 = msgs_expr(s, k2);
            let (has_else, k4) = spec_keyword(s, k3, seq!['e', 'l', 's', 'e']);
            msgs_cond(s, r, a, is_if) == if open {
                if close && k2 > a {
                    if has_else && k4 > a {
                        m1 + m2 + msgs_expr(s, k4)
                    } else {
                        m1 + m2
                    }
                } else {
                    m1 + note(s, k2, SpecParseMessage::ExpectedParenForCondition)
                }
            } else {
                note(s, b, SpecParseMessage::ExpectedParenForCondition)
            }
        }),
{
    reveal(msgs_expr);
    reveal(msgs_primary);
    reveal(msgs_let);
    reveal(msgs_fn_def);
    reveal(msgs_cond);
    reveal(msgs_items);
    reveal(msgs_fields);
    reveal(msgs_target);
    reveal(msgs_modifiers_loop);
    reveal(msgs_modifiers);
}

pub proof fn lemma_msgs_modifiers(s: Seq<char>, i: nat, init: SpecExpr)
    ensures
        ({
            let (dot, j) = spec_litteral(s, i, seq!['.']);
            let (open, j2) = spec_litteral(s, j, seq!['(']);
            let (lt, j3) = spec_litteral(s, j2, seq!['<']);
            let k = spec_expr(s, j3).1;
            msgs_modifiers(s, i, init) == if dot {
                match spec_identifier(s, j).0 {
                    Some(a) => Seq::empty(),
                    None => note(s, spec_identifier(s, j).1, SpecParseMessage::ExpectedFieldIdentifier),
                }
            } else if open {
                msgs_items(s, j2, j, ',', ')')
            } else if lt {
                if spec_litteral(s, k, seq!['>']).0 {
                    msgs_expr(s, j3)
                } else {
                    msgs_expr(s, j3) + note(s, spec_litteral(s, k, seq!['>']).1, SpecParseMessage::UnterminatedIndex)
                }
            } else {
                Seq::empty()
            }
        }),
{
    reveal(msgs_expr);
    reveal(msgs_primary);
    reveal(msgs_let);
    reveal(msgs_fn_def);
    reveal(msgs_cond);
    reveal(msgs_items);
    reveal(msgs_fields);
    reveal(msgs_target);
    reveal(msgs_modifiers_loop);
    reveal(msgs_modifiers);
}

/// `msgs_primary` once each keyword and bracket was tried at the positions
/// that the parser reaches.
pub proof fn lemma_msgs_primary(s: Seq<char>, p: nat)
    ensures
        ({
            let (is_let, a1) = spec_keyword(s, p, seq!['l', 'e', 't']);
            let (is_fn, a2) = spec_keyword(s, a1, seq!['f', 'n']);
            let (is_if, a3) = spec_keyword(s, a2, seq!['i', 'f']);
            let (is_while, a4) = spec_keyword(s, a3, seq!['w', 'h', 'i', 'l', 'e']);
            let (is_chain, a5) = spec_litteral(s, a4, seq!['{']);
            let (is_list, a6) = spec_litteral(s, a5, seq!['<']);
            let (is_object, a7) = spec_litteral(s, a6, seq!['[']);
            let (n, a8) = spec_num(s, a7);
            let (id, a9) = spec_identifier(s, a8);
            msgs_primary(s, p) == if char_at(s, p) == Some('"') {
                msgs_str(s, p)
            } else if is_let {
                msgs_let(s, p, a1)
            } else if is_fn {
                msgs_fn_def(s, a1, a2)
            } else if is_if {
                msgs_cond(s, a2, a3, true)
            } else if is_while {
                msgs_cond(s, a3, a4, false)
            } else if is_chain {
                msgs_items(s, a5, a4, ';', '}')
            } else if is_list {
                msgs_items(s, a6, a5, ';', '>')
            } else if is_object {
                msgs_fields(s, a7, a6)
            } else if n is Some || id is Some {
                Seq::empty()
            } else {
                match char_at(s, a9) {
                    Some(c) => note(s, a9, could_not_parse(c, a9)),
                    None => Seq::empty(),
                }
            }
        }),
{
    reveal(msgs_expr);
    reveal(msgs_primary);
    reveal(msgs_let);
    reveal(msgs_fn_def);
    reveal(msgs_cond);
    reveal(msgs_items);
    reveal(msgs_fields);
    reveal(msgs_target);
    reveal(msgs_modifiers_loop);
    reveal(msgs_modifiers);
}

} // verus!
