//! The recursive-descent parser. Each method reads from the current
//! position and moves it; its contract equates the result and the new
//! position with the grammar function of the same name.
use vstd::prelude::*;
use vstd::std_specs::iter::IteratorSpec;
use crate::ast::{
    Expr, NumberLiteral, ParseMessage, SpecExpr, SpecParseMessage, Target, view_expr,
    lemma_view_field, lemma_view_index, lemma_view_var, lemma_view_access, lemma_view_binding,
    view_exprs, view_fields, view_strings, view_opt_string, view_opt_expr, lemma_view_exprs_push,
    lemma_view_fields, lemma_view_fields_push, lemma_view_fields_update,
};
use crate::grammar::{
    char_at, rem, stuck, back, find_char, lemma_find_char, spec_trim, lemma_trim, lit_matches,
    open_comment_ahead, lemma_trim_stuck, spec_litteral, lemma_litteral, spec_keyword, lemma_keyword, is_ident_char, is_digit, ident_end, digits_end, spec_identifier,
    lemma_identifier, spec_num, lemma_num, spec_str, lemma_str, spec_fn_args, lemma_fn_args,
    insert_field, field_pos, lemma_field_pos, spec_expr, spec_primary, spec_let, spec_fn_def,
    spec_cond, spec_items, spec_fields, spec_target, spec_modifiers_loop, spec_modifiers, quote,
    note, unexpected, could_not_parse, msgs_str, msgs_fn_args, unterminated, msgs_expr,
    msgs_primary, msgs_let, msgs_fn_def, msgs_cond, msgs_items, msgs_fields, msgs_target,
    msgs_modifiers_loop, msgs_modifiers, lemma_msgs_expr, lemma_msgs_primary, lemma_msgs_let,
    lemma_msgs_fn_def, lemma_msgs_cond, lemma_msgs_items_step, lemma_msgs_items_done,
    lemma_msgs_fields_step, lemma_msgs_fields_early, lemma_msgs_target, lemma_msgs_modifiers_loop,
    lemma_msgs_modifiers,
};

verus! {

/// `String::push`: appends one character to a string.
#[verifier::external_body]
fn push_char(s: &mut String, c: char)
    ensures
        final(s)@ == old(s)@.push(c),
{
    s.push(c);
}

fn is_ident_char_exec(c: char) -> (b: bool)
    ensures
        b == is_ident_char(c),
{
    ('a' <= c && c <= 'z') || ('A' <= c && c <= 'Z') || c == '_' || ('0' <= c && c <= '9')
}

fn is_digit_exec(c: char) -> (b: bool)
    ensures
        b == is_digit(c),
{
    '0' <= c && c <= '9'
}

/// Position of a parser in its source text, counted in characters.
#[derive(Copy, Clone, Debug)]
pub struct ParserState {
    pub index: usize,
}

/// A recursive-descent parser over the characters of a source text.
pub struct Parser {
    src: Vec<char>,
    pub state: ParserState,
    /// What the parser complained of so far, in order.
    pub messages: Vec<ParseMessage>,
}

/// True when reading an expression at `i` runs into a comment that never
/// ends; the parser gives up there.
pub open spec fn stops_in_comment(s: Seq<char>, i: nat) -> bool {
    i < s.len() && spec_expr(s, i).1 == stuck(s)
}

/// What reading an expression at `i` gives: the expression and the
/// position after it. From the end of the text on, that is `Nil`.
pub open spec fn parse_at(s: Seq<char>, i: nat) -> (SpecExpr, nat) {
    if i < s.len() {
        spec_expr(s, i)
    } else {
        (SpecExpr::Nil, i)
    }
}

/// What reading an expression at `i` complains of: nothing from the end
/// of the text on.
pub open spec fn parse_msgs(s: Seq<char>, i: nat) -> Seq<SpecParseMessage> {
    if i < s.len() {
        msgs_expr(s, i)
    } else {
        Seq::empty()
    }
}

/// The message about a list of items, closed by `close`, that runs to the
/// end of the text.
fn unterminated_message(close: char) -> (m: ParseMessage)
    ensures
        m@ == unterminated(close),
{
    if close == '}' {
        ParseMessage::UnterminatedChain
    } else if close == '>' {
        ParseMessage::UnterminatedList
    } else {
        ParseMessage::UnterminatedArguments
    }
}

impl Parser {
    /// The characters of the source text.
    pub closed spec fn source(&self) -> Seq<char> {
        self.src@
    }

    /// The position of the parser, in characters.
    pub closed spec fn pos(&self) -> nat {
        self.state.index as nat
    }

    /// What the parser complained of so far.
    pub closed spec fn msgs(&self) -> Seq<SpecParseMessage> {
        self.messages@.map_values(|m: ParseMessage| m@)
    }

    spec fn ok(&self) -> bool {
        &&& self.src@.len() < usize::MAX
        &&& self.state.index <= self.src@.len() + 1
    }

    pub fn new(src: &str) -> (p: Self)
        ensures
            p.source() == src@,
            p.pos() == 0,
            p.msgs() == Seq::<SpecParseMessage>::empty(),
    {
        let mut chars: Vec<char> = Vec::new();
        for c in it: src.chars()
            invariant
                chars@ == it.seq().take(it.index() as int),
        {
            chars.push(c);
        }
        assert(chars@ =~= src@);
        let p = Parser { src: chars, state: ParserState { index: 0 }, messages: Vec::new() };
        assert(p.msgs() =~= Seq::<SpecParseMessage>::empty());
        p
    }

    /// Hands out what the parser complained of so far, and forgets it.
    pub fn take_messages(&mut self) -> (v: Vec<ParseMessage>)
        ensures
            v@.map_values(|m: ParseMessage| m@) == old(self).msgs(),
            final(self).msgs() == Seq::<SpecParseMessage>::empty(),
            final(self).source() == old(self).source(),
            final(self).pos() == old(self).pos(),
    {
        let mut v: Vec<ParseMessage> = Vec::new();
        std::mem::swap(&mut v, &mut self.messages);
        assert(self.msgs() =~= Seq::<SpecParseMessage>::empty());
        v
    }

    /// Records a complaint, unless the parser is stuck in a comment that
    /// runs to the end of the text.
    fn complain(&mut self, m: ParseMessage)
        requires
            old(self).src@.len() < usize::MAX,
        ensures
            final(self).src@ == old(self).src@,
            final(self).state == old(self).state,
            final(self).msgs() == old(self).msgs() + note(old(self).src@, old(self).state.index as nat, m@),
    {
        let ghost before = self.messages@;
        let ghost mv = m@;
        if self.state.index != self.src.len() + 1 {
            self.messages.push(m);
            assert(self.messages@.map_values(|x: ParseMessage| x@) =~= before.map_values(|x: ParseMessage| x@) + seq![mv]);
        } else {
            assert(self.msgs() =~= old(self).msgs() + note(old(self).src@, old(self).state.index as nat, mv));
        }
    }

    /// Reads one expression from the current position, with its field
    /// accesses, calls and indexings, and adds what it complains of to
    /// `messages`. `None` when, where blanks are skipped, a comment runs to
    /// the end of the text: the parser cannot go on there, and complains of
    /// nothing after that point.
    pub fn try_expr(&mut self) -> (res: Option<Expr>)
        requires
            old(self).source().len() < usize::MAX,
        ensures
            final(self).source() == old(self).source(),
            res is None <==> stops_in_comment(old(self).source(), old(self).pos()),
            res matches Some(e) ==> e@ == parse_at(old(self).source(), old(self).pos()).0
                && final(self).pos() == parse_at(old(self).source(), old(self).pos()).1,
            res is Some ==> old(self).pos() <= final(self).pos(),
            final(self).msgs() == old(self).msgs() + parse_msgs(old(self).source(), old(self).pos()),
    {
        if self.state.index >= self.src.len() {
            assert(self.msgs() =~= old(self).msgs() + parse_msgs(self.src@, self.state.index as nat));
            return Some(Expr::Nil);
        }
        let e = self.parse_expr();
        if self.state.index == self.src.len() + 1 {
            None
        } else {
            Some(e)
        }
    }

    /// Reads one expression from the current position, with its field
    /// accesses, calls and indexings.
    pub fn expr(&mut self) -> (e: Expr)
        requires
            old(self).source().len() < usize::MAX,
            !stops_in_comment(old(self).source(), old(self).pos()),
        ensures
            final(self).source() == old(self).source(),
            e@ == parse_at(old(self).source(), old(self).pos()).0,
            final(self).pos() == parse_at(old(self).source(), old(self).pos()).1,
            old(self).pos() <= final(self).pos(),
            final(self).msgs() == old(self).msgs() + parse_msgs(old(self).source(), old(self).pos()),
    {
        match self.try_expr() {
            Some(e) => e,
            None => Expr::Nil,
        }
    }

    /// The length of the source text, in characters.
    pub fn source_len(&self) -> (n: usize)
        ensures
            n == self.source().len(),
    {
        self.src.len()
    }

    fn peek_char(&self) -> (c: Option<char>)
        ensures
            c == char_at(self.src@, self.state.index as nat),
    {
        if self.state.index < self.src.len() {
            Some(self.src[self.state.index])
        } else {
            None
        }
    }

    fn next_char(&mut self) -> (c: char)
        requires
            old(self).state.index < old(self).src@.len(),
            old(self).src@.len() < usize::MAX,
        ensures
            final(self).src@ == old(self).src@,
            c == old(self).src@[old(self).state.index as int],
            final(self).state.index == old(self).state.index + 1,
            final(self).messages == old(self).messages,
    {
        let c = self.src[self.state.index];
        self.state.index = self.state.index + 1;
        c
    }

    /// Goes back to `r` after a malformed construct, unless stuck.
    fn reset_to(&mut self, r: ParserState)
        requires
            old(self).ok(),
        ensures
            final(self).src@ == old(self).src@,
            final(self).state.index == back(old(self).src@, old(self).state.index as nat, r.index as nat),
            final(self).messages == old(self).messages,
    {
        if self.state.index != self.src.len() + 1 {
            self.state = r;
        }
    }

    /// Reads up to and including the next `c`. At the end of the text the
    /// parser is stuck.
    fn skip_past(&mut self, c: char)
        requires
            old(self).src@.len() < usize::MAX,
            old(self).state.index <= old(self).src@.len(),
        ensures
            final(self).src@ == old(self).src@,
            final(self).state.index == match find_char(old(self).src@, old(self).state.index as nat, c) {
                Some(k) => k + 1,
                None => stuck(old(self).src@),
            },
            final(self).messages == old(self).messages,
    {
        let ghost s = self.src@;
        let ghost start = self.state.index as nat;
        while self.state.index < self.src.len()
            invariant
                self.messages == old(self).messages,
                self.src@ == s,
                s == old(self).src@,
                start == old(self).state.index,
                s.len() < usize::MAX,
                start <= self.state.index <= s.len(),
                find_char(s, self.state.index as nat, c) == find_char(s, start, c),
            decreases s.len() - self.state.index,
        {
            if self.next_char() == c {
                return;
            }
        }
        self.state.index = self.src.len() + 1;
    }

    /// Skips blanks, `# ... #` comments and `// ...` line comments. Where
    /// a comment is never closed (a `#` without a second `#`, a `//` without
    /// a line break after it), there is nothing more to read: the position
    /// becomes `stuck`, one past the end of the text, and stays there.
    fn trim(&mut self)
        requires
            old(self).src@.len() < usize::MAX,
        ensures
            final(self).src@ == old(self).src@,
            final(self).state.index == spec_trim(old(self).src@, old(self).state.index as nat),
            old(self).state.index <= old(self).src@.len() ==> final(self).state.index <= old(self).src@.len()
                || final(self).state.index == stuck(old(self).src@),
            old(self).state.index <= old(self).src@.len() ==> (final(self).state.index == stuck(old(self).src@)
                <==> open_comment_ahead(old(self).src@, old(self).state.index as nat)),
            final(self).messages == old(self).messages,
    {
        let ghost s = self.src@;
        let ghost start = self.state.index as nat;
        proof {
            lemma_trim(s, start);
            if start <= s.len() {
                lemma_trim_stuck(s, start);
            }
        }
        loop
            invariant
                self.messages == old(self).messages,
                self.src@ == s,
                s == old(self).src@,
                start == old(self).state.index,
                s.len() < usize::MAX,
                spec_trim(s, self.state.index as nat) == spec_trim(s, start),
                start <= s.len() ==> spec_trim(s, start) <= s.len() + 1,
                start <= s.len() ==> ((spec_trim(s, start) == stuck(s)) <==> open_comment_ahead(s, start)),
            ensures
                self.messages == old(self).messages,
                self.src@ == s,
                self.state.index == spec_trim(s, start),
            decreases rem(s, self.state.index as nat),
        {
            match self.peek_char() {
                Some(c) => {
                    if c == ' ' || c == '\t' || c == '\n' {
                        self.next_char();
                    } else if c == '#' {
                        let ghost i = self.state.index as nat;
                        self.next_char();
                        proof {
                            lemma_find_char(s, i + 1, '#');
                        }
                        self.skip_past('#');
                        if self.state.index > self.src.len() {
                            return;
                        }
                    } else if c == '/' && self.state.index + 1 < self.src.len()
                        && self.src[self.state.index + 1] == '/' {
                        proof {
                            lemma_find_char(s, self.state.index as nat, '\n');
                        }
                        self.skip_past('\n');
                        if self.state.index > self.src.len() {
                            return;
                        }
                    } else {
                        break;
                    }
                },
                None => {
                    break;
                },
            }
        }
    }

    /// Skips blanks, then reads `expected` if it comes next. Returns whether
    /// it did, and the state before the blanks.
    fn litteral(&mut self, expected: &[char]) -> (res: (bool, ParserState))
        requires
            old(self).src@.len() < usize::MAX,
        ensures
            final(self).src@ == old(self).src@,
            res.1 == old(self).state,
            (res.0, final(self).state.index as nat) == spec_litteral(old(self).src@, old(self).state.index as nat, expected@),
            final(self).messages == old(self).messages,
    {
        let reset = self.state;
        self.trim();
        let ghost s = self.src@;
        let ghost j = self.state.index as nat;
        let n = expected.len();
        if n == 0 && self.state.index > self.src.len() {
            return (false, reset);
        }
        let mut k: usize = 0;
        while k < n
            invariant
                self.messages == old(self).messages,
                self.src@ == s,
                s == old(self).src@,
                reset == old(self).state,
                j == spec_trim(s, old(self).state.index as nat),
                self.state.index == j,
                0 <= k <= n,
                n == expected@.len(),
                k > 0 ==> j + k <= s.len(),
                forall|t: int| 0 <= t < k ==> s[j + t] == expected@[t],
            decreases n - k,
        {
            if self.state.index >= self.src.len() || k >= self.src.len() - self.state.index {
                assert(!lit_matches(s, j, expected@));
                return (false, reset);
            }
            if self.src[self.state.index + k] != expected[k] {
                proof {
                    if j + n <= s.len() {
                        assert(s.subrange(j as int, (j + n) as int)[k as int] != expected@[k as int]);
                    }
                }
                return (false, reset);
            }
            k = k + 1;
        }
        assert(s.subrange(j as int, (j + n) as int) =~= expected@);
        self.state.index = self.state.index + n;
        (true, reset)
    }

    /// Skips blanks, then reads the keyword `kw` if it comes next and no
    /// letter, digit or `_` follows it. Returns whether it did, and the state
    /// before the blanks.
    fn keyword(&mut self, kw: &[char]) -> (res: (bool, ParserState))
        requires
            old(self).src@.len() < usize::MAX,
        ensures
            final(self).src@ == old(self).src@,
            res.1 == old(self).state,
            (res.0, final(self).state.index as nat) == spec_keyword(old(self).src@, old(self).state.index as nat, kw@),
            final(self).messages == old(self).messages,
    {
        let reset = self.state;
        let ghost s = self.src@;
        let ghost i = self.state.index as nat;
        proof {
            lemma_litteral(s, i, kw@);
            lemma_trim(s, i);
        }
        let (ok, _) = self.litteral(kw);
        if !ok {
            return (false, reset);
        }
        match self.peek_char() {
            Some(c) => {
                if is_ident_char_exec(c) {
                    self.state.index = self.state.index - kw.len();
                    return (false, reset);
                }
            },
            None => {},
        }
        (true, reset)
    }

    /// Skips blanks, then reads a non-empty run of letters, digits and `_`.
    fn identifier(&mut self) -> (res: (Option<String>, ParserState))
        requires
            old(self).src@.len() < usize::MAX,
        ensures
            final(self).src@ == old(self).src@,
            res.1 == old(self).state,
            (view_opt_string(res.0), final(self).state.index as nat) == spec_identifier(
                old(self).src@,
                old(self).state.index as nat,
            ),
            final(self).messages == old(self).messages,
    {
        let reset = self.state;
        self.trim();
        let ghost s = self.src@;
        let ghost j = self.state.index as nat;
        let start = self.state.index;
        let mut res = String::new();
        loop
            invariant
                self.messages == old(self).messages,
                self.src@ == s,
                s == old(self).src@,
                s.len() < usize::MAX,
                start == j,
                j <= self.state.index,
                j <= s.len() ==> self.state.index <= s.len(),
                j > s.len() ==> self.state.index == j,
                ident_end(s, self.state.index as nat) == ident_end(s, j),
                res@.len() == self.state.index - j,
                forall|t: int| 0 <= t < res@.len() ==> res@[t] == s[j + t],
            ensures
                self.messages == old(self).messages,
                self.src@ == s,
                self.state.index == ident_end(s, j),
                res@.len() == self.state.index - j,
                forall|t: int| 0 <= t < res@.len() ==> res@[t] == s[j + t],
            decreases rem(s, self.state.index as nat),
        {
            match self.peek_char() {
                Some(c) => {
                    if is_ident_char_exec(c) {
                        push_char(&mut res, c);
                        self.next_char();
                    } else {
                        break;
                    }
                },
                None => {
                    break;
                },
            }
        }
        if self.state.index > start {
            assert(res@ =~= s.subrange(j as int, self.state.index as int));
            (Some(res), reset)
        } else {
            (None, reset)
        }
    }

    /// Reads a string literal: everything between two `"`.
    fn str(&mut self) -> (res: (Option<String>, ParserState))
        requires
            old(self).src@.len() < usize::MAX,
        ensures
            final(self).src@ == old(self).src@,
            res.1 == old(self).state,
            (view_opt_string(res.0), final(self).state.index as nat) == spec_str(
                old(self).src@,
                old(self).state.index as nat,
            ),
            final(self).msgs() == old(self).msgs() + msgs_str(old(self).src@, old(self).state.index as nat),
    {
        let reset = self.state;
        let quote_char: &[char] = &['"'];
        assert(quote_char@ =~= seq!['"']);
        let (ok, _) = self.litteral(quote_char);
        proof {
            lemma_litteral(old(self).src@, old(self).state.index as nat, seq!['"']);
        }
        if ok {
            let ghost s = self.src@;
            let ghost j = self.state.index as nat;
            let mut res = String::new();
            loop
                invariant
                    self.messages == old(self).messages,
                    self.src@ == s,
                    s == old(self).src@,
                    reset == old(self).state,
                    s.len() < usize::MAX,
                    j <= self.state.index <= s.len(),
                    spec_litteral(s, old(self).state.index as nat, quote()) == (true, j),
                    find_char(s, self.state.index as nat, '"') == find_char(s, j, '"'),
                    spec_str(s, old(self).state.index as nat) == match find_char(s, j, '"') {
                        Some(k) => (Some(s.subrange(j as int, k as int)), k + 1),
                        None => (None, s.len()),
                    },
                    res@ =~= s.subrange(j as int, self.state.index as int),
                decreases s.len() - self.state.index,
            {
                match self.peek_char() {
                    Some(c) => {
                        if c == '"' {
                            self.next_char();
                            assert(self.msgs() =~= old(self).msgs() + msgs_str(s, old(self).state.index as nat));
                            return (Some(res), reset);
                        } else {
                            push_char(&mut res, c);
                            self.next_char();
                        }
                    },
                    None => {
                        self.complain(ParseMessage::UnterminatedString);
                        assert(self.msgs() =~= old(self).msgs() + msgs_str(s, old(self).state.index as nat));
                        return (None, reset);
                    },
                }
            }
        } else {
            assert(self.msgs() =~= old(self).msgs() + msgs_str(old(self).src@, old(self).state.index as nat));
            (None, reset)
        }
    }

    /// Reads a number literal: an optional `-`, digits, and after a `.`
    /// more digits. Reads nothing unless it starts with `-` or a digit.
    fn num(&mut self) -> (res: (Option<NumberLiteral>, ParserState))
        requires
            old(self).src@.len() < usize::MAX,
        ensures
            final(self).src@ == old(self).src@,
            res.1 == old(self).state,
            (match res.0 {
                Some(n) => Some(n@),
                None => None,
            }, final(self).state.index as nat) == spec_num(old(self).src@, old(self).state.index as nat),
            final(self).messages == old(self).messages,
    {
        let reset = self.state;
        let ghost s = self.src@;
        let ghost i = self.state.index as nat;
        let negative = match self.peek_char() {
            Some(c) => {
                if c == '-' {
                    self.next_char();
                    true
                } else if is_digit_exec(c) {
                    false
                } else {
                    self.state = reset;
                    return (None, reset);
                }
            },
            None => {
                self.state = reset;
                return (None, reset);
            },
        };
        let ghost p = self.state.index as nat;
        let mut int_digits: Vec<char> = Vec::new();
        let mut decimal_part = false;
        loop
            invariant_except_break
                digits_end(s, self.state.index as nat) == digits_end(s, p),
                int_digits@ =~= s.subrange(p as int, self.state.index as int),
                !decimal_part,
            invariant
                self.messages == old(self).messages,
                self.src@ == s,
                s.len() < usize::MAX,
                p <= self.state.index <= s.len(),
            ensures
                self.messages == old(self).messages,
                self.src@ == s,
                int_digits@ =~= s.subrange(p as int, digits_end(s, p) as int),
                digits_end(s, p) <= s.len(),
                decimal_part ==> char_at(s, digits_end(s, p)) == Some('.') && self.state.index == digits_end(s, p) + 1,
                !decimal_part ==> char_at(s, digits_end(s, p)) != Some('.') && self.state.index == digits_end(s, p),
            decreases s.len() - self.state.index,
        {
            match self.peek_char() {
                Some(c) => {
                    if is_digit_exec(c) {
                        int_digits.push(c);
                        self.next_char();
                    } else if c == '.' {
                        self.next_char();
                        decimal_part = true;
                        break;
                    } else {
                        break;
                    }
                },
                None => {
                    break;
                },
            }
        }
        let mut frac_digits: Vec<char> = Vec::new();
        if decimal_part {
            let ghost q = self.state.index as nat;
            loop
                invariant
                    self.messages == old(self).messages,
                    self.src@ == s,
                    s.len() < usize::MAX,
                    q <= self.state.index <= s.len(),
                    digits_end(s, self.state.index as nat) == digits_end(s, q),
                    frac_digits@ =~= s.subrange(q as int, self.state.index as int),
                ensures
                    self.messages == old(self).messages,
                    self.src@ == s,
                    self.state.index == digits_end(s, q),
                    frac_digits@ =~= s.subrange(q as int, digits_end(s, q) as int),
                decreases s.len() - self.state.index,
            {
                match self.peek_char() {
                    Some(c) => {
                        if is_digit_exec(c) {
                            frac_digits.push(c);
                            self.next_char();
                        } else {
                            break;
                        }
                    },
                    None => {
                        break;
                    },
                }
            }
        }
        (Some(NumberLiteral { negative, int_digits, frac_digits }), reset)
    }

    /// Reads an expression: a primary expression and its modifiers.
    fn parse_expr(&mut self) -> (e: Expr)
        requires
            old(self).ok(),
        ensures
            final(self).src@ == old(self).src@,
            final(self).ok(),
            old(self).state.index <= final(self).state.index,
            (e@, final(self).state.index as nat) == spec_expr(old(self).src@, old(self).state.index as nat),
            final(self).msgs() == old(self).msgs() + msgs_expr(old(self).src@, old(self).state.index as nat),
        decreases rem(old(self).src@, old(self).state.index as nat), 5nat,
    {
        reveal(spec_expr);
        reveal(spec_primary);
        reveal(spec_modifiers_loop);
        let ghost s = self.src@;
        let ghost i = self.state.index as nat;
        let ghost m0 = self.msgs();
        proof {
            lemma_trim(s, i);
            lemma_msgs_expr(s, i);
        }
        self.trim();
        let ghost p = self.state.index as nat;
        let (e, more) = self.primary();
        if more {
            let ghost k = self.state.index as nat;
            let ghost e0 = e@;
            let mut cur = e;
            assert(msgs_expr(s, i) == msgs_primary(s, p) + msgs_modifiers_loop(s, k, e0));
            assert(self.msgs() + msgs_modifiers_loop(s, k, e0) =~= m0 + msgs_expr(s, i));
            loop
                invariant
                    self.src@ == s,
                    s == old(self).src@,
                    i == old(self).state.index,
                    self.ok(),
                    k <= self.state.index,
                    i <= k,
                    spec_modifiers_loop(s, self.state.index as nat, cur@) == spec_modifiers_loop(s, k, e0),
                    spec_expr(s, i) == spec_modifiers_loop(s, k, e0),
                    m0 == old(self).msgs(),
                    self.msgs() + msgs_modifiers_loop(s, self.state.index as nat, cur@) == m0 + msgs_expr(s, i),
                decreases rem(s, self.state.index as nat),
            {
                reveal(spec_modifiers_loop);
                reveal(spec_modifiers);
                let ghost before = self.state.index as nat;
                let ghost cur_v = cur@;
                let ghost mb = self.msgs();
                let (found, next) = self.modifiers(cur);
                proof {
                    lemma_msgs_modifiers_loop(s, before, cur_v);
                    let mm = msgs_modifiers(s, before, cur_v);
                    if found {
                        let rest = msgs_modifiers_loop(s, self.state.index as nat, next@);
                        assert(msgs_modifiers_loop(s, before, cur_v) == mm + rest);
                        assert(self.msgs() + rest =~= mb + (mm + rest));
                    } else {
                        assert(msgs_modifiers_loop(s, before, cur_v) == mm);
                    }
                }
                cur = next;
                if !found {
                    return cur;
                }
            }
        } else {
            assert(msgs_expr(s, i) == msgs_primary(s, p));
            Expr::Nil
        }
    }

    /// Reads a primary expression at a position where blanks were skipped.
    /// The flag says whether modifiers may follow.
    #[verifier::rlimit(100)]
    #[verifier::spinoff_prover]
    fn primary(&mut self) -> (res: (Expr, bool))
        requires
            old(self).ok(),
        ensures
            final(self).src@ == old(self).src@,
            final(self).ok(),
            old(self).state.index <= final(self).state.index,
            (res.0@, final(self).state.index as nat, res.1) == spec_primary(old(self).src@, old(self).state.index as nat),
            final(self).msgs() == old(self).msgs() + msgs_primary(old(self).src@, old(self).state.index as nat),
        decreases rem(old(self).src@, old(self).state.index as nat), 4nat,
    {
        reveal(spec_primary);
        reveal(spec_let);
        reveal(spec_fn_def);
        reveal(spec_cond);
        reveal(spec_items);
        reveal(spec_fields);
        let ghost s = self.src@;
        let ghost p = self.state.index as nat;
        proof {
            lemma_msgs_primary(s, p);
        }
        if let Some('"') = self.peek_char() {
            proof {
                lemma_str(s, p);
            }
            let (c, _) = self.str();
            assert(msgs_primary(s, p) == msgs_str(s, p));
            return match c {
                Some(x) => (Expr::Str(x), true),
                None => (Expr::Nil, true),
            };
        }
        let kw_let: &[char] = &['l', 'e', 't'];
        assert(kw_let@ =~= seq!['l', 'e', 't']);
        proof {
            lemma_keyword(s, p, seq!['l', 'e', 't']);
        }
        let (is_let, r) = self.keyword(kw_let);
        if is_let {
            return self.let_binding(r);
        }
        let kw_fn: &[char] = &['f', 'n'];
        assert(kw_fn@ =~= seq!['f', 'n']);
        proof {
            lemma_keyword(s, self.state.index as nat, seq!['f', 'n']);
        }
        let (is_fn, r) = self.keyword(kw_fn);
        if is_fn {
            return self.fn_def(r);
        }
        let kw_if: &[char] = &['i', 'f'];
        assert(kw_if@ =~= seq!['i', 'f']);
        proof {
            lemma_keyword(s, self.state.index as nat, seq!['i', 'f']);
        }
        let (is_if, r) = self.keyword(kw_if);
        if is_if {
            return self.cond(r, true);
        }
        let kw_while: &[char] = &['w', 'h', 'i', 'l', 'e'];
        assert(kw_while@ =~= seq!['w', 'h', 'i', 'l', 'e']);
        proof {
            lemma_keyword(s, self.state.index as nat, seq!['w', 'h', 'i', 'l', 'e']);
        }
        let (is_while, r) = self.keyword(kw_while);
        if is_while {
            return self.cond(r, false);
        }
        let open_chain: &[char] = &['{'];
        assert(open_chain@ =~= seq!['{']);
        proof {
            lemma_litteral(s, self.state.index as nat, seq!['{']);
        }
        let (is_chain, r) = self.litteral(open_chain);
        if is_chain {
            return match self.items(r, ';', '}') {
                Some(exprs) => (Expr::Chain(exprs), true),
                None => (Expr::Nil, false),
            };
        }
        let open_list: &[char] = &['<'];
        assert(open_list@ =~= seq!['<']);
        proof {
            lemma_litteral(s, self.state.index as nat, seq!['<']);
        }
        let (is_list, r) = self.litteral(open_list);
        if is_list {
            return match self.items(r, ';', '>') {
                Some(exprs) => (Expr::List(exprs), true),
                None => (Expr::Nil, false),
            };
        }
        let open_object: &[char] = &['['];
        assert(open_object@ =~= seq!['[']);
        proof {
            lemma_litteral(s, self.state.index as nat, seq!['[']);
        }
        let (is_object, r) = self.litteral(open_object);
        if is_object {
            return match self.fields(r) {
                Some(fields) => (Expr::Object(fields), true),
                None => (Expr::Nil, false),
            };
        }
        proof {
            lemma_num(s, self.state.index as nat);
        }
        let (n, _) = self.num();
        if let Some(x) = n {
            assert(self.msgs() =~= old(self).msgs() + msgs_primary(s, p));
            return (Expr::Number(x), true);
        }
        proof {
            lemma_identifier(s, self.state.index as nat);
        }
        let (id, _) = self.identifier();
        match id {
            Some(name) => {
                proof {
                    lemma_view_var(name);
                }
                assert(self.msgs() =~= old(self).msgs() + msgs_primary(s, p));
                (Expr::Access(Target::Var(name)), true)
            },
            None => {
                match self.peek_char() {
                    Some(c) => {
                        let m = ParseMessage::CouldNotParse { found: c, at: self.state.index };
                        assert(m@ == could_not_parse(c, self.state.index as nat));
                        self.complain(m);
                    },
                    None => {},
                }
                assert(self.msgs() =~= old(self).msgs() + msgs_primary(s, p));
                (Expr::Nil, true)
            },
        }
    }

    /// A binding, after `let` was read; `r` is the state before it.
    #[verifier::rlimit(100)]
    #[verifier::spinoff_prover]
    fn let_binding(&mut self, r: ParserState) -> (res: (Expr, bool))
        requires
            old(self).ok(),
            r.index < old(self).state.index,
        ensures
            final(self).src@ == old(self).src@,
            final(self).ok(),
            r.index <= final(self).state.index,
            (res.0@, final(self).state.index as nat, res.1) == spec_let(
                old(self).src@,
                r.index as nat,
                old(self).state.index as nat,
            ),
            final(self).msgs() == old(self).msgs() + msgs_let(
                old(self).src@,
                r.index as nat,
                old(self).state.index as nat,
            ),
        decreases rem(old(self).src@, old(self).state.index as nat), 7nat,
    {
        reveal(spec_let);
        reveal(spec_target);
        reveal(spec_expr);
        let ghost s = self.src@;
        let ghost a = self.state.index as nat;
        let ghost m0 = self.msgs();
        proof {
            lemma_msgs_let(s, r.index as nat, a);
        }
        let t = self.target();
        let ghost k = self.state.index as nat;
        let ghost m1 = self.msgs();
        let eq: &[char] = &['='];
        assert(eq@ =~= seq!['=']);
        proof {
            lemma_litteral(s, k, seq!['=']);
        }
        match t {
            Some(Expr::Access(target)) => {
                proof {
                    lemma_view_access(target);
                }
                let (is_eq, _) = self.litteral(eq);
                if is_eq {
                    let ghost k2 = self.state.index as nat;
                    let v = self.parse_expr();
                    proof {
                        lemma_view_binding(target, v);
                        assert(self.msgs() =~= m0 + (msgs_target(s, a) + msgs_expr(s, k2)));
                    }
                    (Expr::Binding { target, value: Box::new(v) }, true)
                } else {
                    let ghost k2 = self.state.index as nat;
                    self.reset_to(r);
                    self.complain(ParseMessage::ExpectedEquals);
                    assert(self.msgs() =~= m0 + (msgs_target(s, a) + note(s, k2, SpecParseMessage::ExpectedEquals)));
                    (Expr::Nil, true)
                }
            },
            Some(Expr::Identifier(name)) => {
                let (is_eq, _) = self.litteral(eq);
                if is_eq {
                    let ghost k2 = self.state.index as nat;
                    let v = self.parse_expr();
                    proof {
                        lemma_view_binding(Target::Var(name), v);
                        lemma_view_var(name);
                        assert(self.msgs() =~= m0 + (msgs_target(s, a) + msgs_expr(s, k2)));
                    }
                    (Expr::Binding { target: Target::Var(name), value: Box::new(v) }, true)
                } else {
                    let ghost k2 = self.state.index as nat;
                    self.reset_to(r);
                    self.complain(ParseMessage::ExpectedEquals);
                    assert(self.msgs() =~= m0 + (msgs_target(s, a) + note(s, k2, SpecParseMessage::ExpectedEquals)));
                    (Expr::Nil, true)
                }
            },
            other => {
                let ghost tv = view_opt_expr(other);
                self.reset_to(r);
                self.complain(ParseMessage::ExpectedBindingIdentifier(other));
                assert(self.msgs() =~= m0 + (msgs_target(s, a) + note(s, k, SpecParseMessage::ExpectedBindingIdentifier(tv))));
                (Expr::Nil, true)
            },
        }
    }

    /// A function definition, after `fn` was read; `r` is the state before it.
    #[verifier::rlimit(100)]
    #[verifier::spinoff_prover]
    fn fn_def(&mut self, r: ParserState) -> (res: (Expr, bool))
        requires
            old(self).ok(),
            r.index < old(self).state.index,
        ensures
            final(self).src@ == old(self).src@,
            final(self).ok(),
            r.index <= final(self).state.index,
            (res.0@, final(self).state.index as nat, res.1) == spec_fn_def(
                old(self).src@,
                r.index as nat,
                old(self).state.index as nat,
            ),
            final(self).msgs() == old(self).msgs() + msgs_fn_def(
                old(self).src@,
                r.index as nat,
                old(self).state.index as nat,
            ),
        decreases rem(old(self).src@, old(self).state.index as nat), 7nat,
    {
        reveal(spec_fn_def);
        reveal(spec_expr);
        let ghost s = self.src@;
        let ghost a = self.state.index as nat;
        let ghost m0 = self.msgs();
        proof {
            lemma_msgs_fn_def(s, r.index as nat, a);
        }
        let open: &[char] = &['('];
        assert(open@ =~= seq!['(']);
        proof {
            lemma_litteral(s, a, seq!['(']);
        }
        let (is_open, _) = self.litteral(open);
        if is_open {
            proof {
                lemma_fn_args(s, self.state.index as nat, r.index as nat, Seq::empty());
            }
            let ghost b = self.state.index as nat;
            match self.fn_args(r) {
                Some(args) => {
                    let ghost k = self.state.index as nat;
                    let v = self.parse_expr();
                    assert(self.msgs() =~= m0 + (msgs_fn_args(s, b, r.index as nat) + msgs_expr(s, k)));
                    let closure: Vec<String> = Vec::new();
                    assert(view_strings(closure@) =~= Seq::<Seq<char>>::empty());
                    (Expr::Function { args, value: Box::new(v), closure, reflection: false }, true)
                },
                None => (Expr::Nil, false),
            }
        } else {
            let ghost b = self.state.index as nat;
            self.reset_to(r);
            self.complain(ParseMessage::ExpectedParenForArguments);
            assert(self.msgs() =~= m0 + note(s, b, SpecParseMessage::ExpectedParenForArguments));
            (Expr::Nil, true)
        }
    }

    /// An `if` (when `is_if`) or a `while`, after its keyword was read; `r`
    /// is the state before it.
    #[verifier::rlimit(100)]
    #[verifier::spinoff_prover]
    fn cond(&mut self, r: ParserState, is_if: bool) -> (res: (Expr, bool))
        requires
            old(self).ok(),
            r.index < old(self).state.index,
        ensures
            final(self).src@ == old(self).src@,
            final(self).ok(),
            r.index <= final(self).state.index,
            (res.0@, final(self).state.index as nat, res.1) == spec_cond(
                old(self).src@,
                r.index as nat,
                old(self).state.index as nat,
                is_if,
            ),
            final(self).msgs() == old(self).msgs() + msgs_cond(
                old(self).src@,
                r.index as nat,
                old(self).state.index as nat,
                is_if,
            ),
        decreases rem(old(self).src@, old(self).state.index as nat), 7nat,
    {
        reveal(spec_cond);
        reveal(spec_expr);
        let ghost s = self.src@;
        let ghost a = self.state.index as nat;
        let ghost m0 = self.msgs();
        proof {
            lemma_msgs_cond(s, r.index as nat, a, is_if);
        }
        let open: &[char] = &['('];
        assert(open@ =~= seq!['(']);
        let close: &[char] = &[')'];
        assert(close@ =~= seq![')']);
        let kw_else: &[char] = &['e', 'l', 's', 'e'];
        assert(kw_else@ =~= seq!['e', 'l', 's', 'e']);
        proof {
            lemma_litteral(s, a, seq!['(']);
        }
        let (is_open, _) = self.litteral(open);
        if is_open {
            let ghost b = self.state.index as nat;
            let cond = self.parse_expr();
            proof {
                lemma_litteral(s, self.state.index as nat, seq![')']);
            }
            let (is_close, _) = self.litteral(close);
            if is_close {
                let ghost k2 = self.state.index as nat;
                let value = self.parse_expr();
                proof {
                    lemma_keyword(s, self.state.index as nat, seq!['e', 'l', 's', 'e']);
                }
                let mut else_value = Expr::Nil;
                let (has_else, _) = self.keyword(kw_else);
                if has_else {
                    let ghost k4 = self.state.index as nat;
                    else_value = self.parse_expr();
                    assert(self.msgs() =~= m0 + (msgs_expr(s, b) + msgs_expr(s, k2) + msgs_expr(s, k4)));
                } else {
                    assert(self.msgs() =~= m0 + (msgs_expr(s, b) + msgs_expr(s, k2)));
                }
                if is_if {
                    (Expr::If { cond: Box::new(cond), value: Box::new(value), else_value: Box::new(else_value) }, true)
                } else {
                    (Expr::While { cond: Box::new(cond), value: Box::new(value), else_value: Box::new(else_value) }, true)
                }
            } else {
                let ghost k2 = self.state.index as nat;
                self.reset_to(r);
                self.complain(ParseMessage::ExpectedParenForCondition);
                assert(self.msgs() =~= m0 + (msgs_expr(s, b) + note(s, k2, SpecParseMessage::ExpectedParenForCondition)));
                (Expr::Nil, true)
            }
        } else {
            let ghost b = self.state.index as nat;
            self.reset_to(r);
            self.complain(ParseMessage::ExpectedParenForCondition);
            assert(self.msgs() =~= m0 + note(s, b, SpecParseMessage::ExpectedParenForCondition));
            (Expr::Nil, true)
        }
    }

    /// The items of a list, a chain or the arguments of a call, after the
    /// opening bracket: expressions separated by `sep`, up to `close`.
    /// `None` when malformed; the parser is then back at `r`.
    #[verifier::rlimit(100)]
    #[verifier::spinoff_prover]
    fn items(&mut self, r: ParserState, sep: char, close: char) -> (res: Option<Vec<Expr>>)
        requires
            old(self).ok(),
            r.index < old(self).state.index,
        ensures
            final(self).src@ == old(self).src@,
            final(self).ok(),
            res is Some ==> old(self).state.index <= final(self).state.index <= old(self).src@.len(),
            res is None ==> final(self).state.index == r.index || final(self).state.index == stuck(old(self).src@),
            (match res {
                Some(v) => Some(view_exprs(v@)),
                None => None,
            }, final(self).state.index as nat) == spec_items(
                old(self).src@,
                old(self).state.index as nat,
                r.index as nat,
                Seq::empty(),
                sep,
                close,
            ),
            final(self).msgs() == old(self).msgs() + msgs_items(
                old(self).src@,
                old(self).state.index as nat,
                r.index as nat,
                sep,
                close,
            ),
        decreases rem(old(self).src@, old(self).state.index as nat), 6nat,
    {
        reveal(spec_items);
        reveal(spec_expr);
        let ghost s = self.src@;
        let ghost k0 = self.state.index as nat;
        let ghost m0 = self.msgs();
        let ghost total = msgs_items(s, k0, r.index as nat, sep, close);
        let closing: &[char] = &[close];
        assert(closing@ =~= seq![close]);
        let mut acc: Vec<Expr> = Vec::new();
        assert(view_exprs(acc@) =~= Seq::<SpecExpr>::empty());
        loop
            invariant
                self.src@ == s,
                s == old(self).src@,
                k0 == old(self).state.index,
                r.index < k0,
                self.ok(),
                k0 <= self.state.index,
                closing@ == seq![close],
                spec_items(s, self.state.index as nat, r.index as nat, view_exprs(acc@), sep, close)
                    == spec_items(s, k0, r.index as nat, Seq::empty(), sep, close),
                total == msgs_items(s, k0, r.index as nat, sep, close),
                m0 == old(self).msgs(),
                self.msgs() + msgs_items(s, self.state.index as nat, r.index as nat, sep, close) == m0 + total,
            decreases rem(s, self.state.index as nat),
        {
            let ghost k = self.state.index as nat;
            let ghost mk = self.msgs();
            reveal(spec_items);
            reveal(spec_expr);
            proof {
                lemma_litteral(s, k, seq![close]);
            }
            let (done, _) = self.litteral(closing);
            if done {
                assert(spec_items(s, k, r.index as nat, view_exprs(acc@), sep, close) == (Some(view_exprs(acc@)), self.state.index as nat));
                proof {
                    lemma_msgs_items_done(s, k, r.index as nat, sep, close);
                }
                assert(self.msgs() =~= mk + msgs_items(s, k, r.index as nat, sep, close));
                return Some(acc);
            }
            let ghost k1 = self.state.index as nat;
            proof {
                lemma_msgs_items_step(s, k, r.index as nat, sep, close, k1);
            }
            let e = self.parse_expr();
            let ghost k2 = self.state.index as nat;
            let ghost me = msgs_expr(s, k1);
            assert(spec_expr(s, k1) == (e@, k2));
            proof {
                lemma_trim(s, self.state.index as nat);
            }
            self.trim();
            let ghost k3 = self.state.index as nat;
            match self.peek_char() {
                Some(c) => {
                    if c == sep {
                        self.next_char();
                        proof {
                            lemma_view_exprs_push(acc@, e);
                        }
                        assert(spec_litteral(s, k, seq![close]) == (false, k1));
                        assert(spec_trim(s, k2) == k3);
                        assert(char_at(s, k3) == Some(sep));
                        assert(k3 + 1 > k);
                        assert(spec_items(s, k, r.index as nat, view_exprs(acc@), sep, close) == spec_items(s, k3 + 1, r.index as nat, view_exprs(acc@).push(e@), sep, close));
                        assert(msgs_items(s, k, r.index as nat, sep, close) == me + msgs_items(s, k3 + 1, r.index as nat, sep, close));
                        assert(self.msgs() + msgs_items(s, k3 + 1, r.index as nat, sep, close)
                            =~= mk + (me + msgs_items(s, k3 + 1, r.index as nat, sep, close)));
                        acc.push(e);
                    } else if c == close {
                        self.next_char();
                        proof {
                            lemma_view_exprs_push(acc@, e);
                        }
                        assert(msgs_items(s, k, r.index as nat, sep, close) == me);
                        acc.push(e);
                        return Some(acc);
                    } else {
                        self.reset_to(r);
                        self.complain(ParseMessage::UnexpectedCharacter { found: c, expected: sep });
                        assert(msgs_items(s, k, r.index as nat, sep, close) == me + note(s, k3, unexpected(c, sep)));
                        assert(self.msgs() =~= mk + (me + note(s, k3, unexpected(c, sep))));
                        return None;
                    }
                },
                None => {
                    self.reset_to(r);
                    self.complain(unterminated_message(close));
                    assert(msgs_items(s, k, r.index as nat, sep, close) == me + note(s, k3, unterminated(close)));
                    assert(self.msgs() =~= mk + (me + note(s, k3, unterminated(close))));
                    return None;
                },
            }
        }
    }

    /// The parameter names of a function definition, after its `(`.
    fn fn_args(&mut self, r: ParserState) -> (res: Option<Vec<String>>)
        requires
            old(self).ok(),
            r.index < old(self).state.index,
        ensures
            final(self).src@ == old(self).src@,
            final(self).ok(),
            (match res {
                Some(v) => Some(view_strings(v@)),
                None => None,
            }, final(self).state.index as nat) == spec_fn_args(
                old(self).src@,
                old(self).state.index as nat,
                r.index as nat,
                Seq::empty(),
            ),
            final(self).msgs() == old(self).msgs() + msgs_fn_args(
                old(self).src@,
                old(self).state.index as nat,
                r.index as nat,
            ),
    {
        let ghost s = self.src@;
        let ghost k0 = self.state.index as nat;
        let ghost m0 = self.msgs();
        let ghost total = msgs_fn_args(s, k0, r.index as nat);
        let closing: &[char] = &[')'];
        assert(closing@ =~= seq![')']);
        let mut args: Vec<String> = Vec::new();
        assert(view_strings(args@) =~= Seq::<Seq<char>>::empty());
        assert(self.msgs() + total =~= m0 + total);
        loop
            invariant
                self.src@ == s,
                s == old(self).src@,
                k0 == old(self).state.index,
                r.index < k0,
                self.ok(),
                k0 <= self.state.index,
                closing@ == seq![')'],
                spec_fn_args(s, self.state.index as nat, r.index as nat, view_strings(args@))
                    == spec_fn_args(s, k0, r.index as nat, Seq::empty()),
                total == msgs_fn_args(s, k0, r.index as nat),
                m0 == old(self).msgs(),
                self.msgs() + msgs_fn_args(s, self.state.index as nat, r.index as nat) == m0 + total,
            decreases rem(s, self.state.index as nat),
        {
            let ghost k = self.state.index as nat;
            let ghost mk = self.msgs();
            proof {
                lemma_litteral(s, k, seq![')']);
            }
            let (done, _) = self.litteral(closing);
            if done {
                assert(self.msgs() =~= mk + msgs_fn_args(s, k, r.index as nat));
                return Some(args);
            }
            let ghost k1 = self.state.index as nat;
            proof {
                lemma_identifier(s, self.state.index as nat);
            }
            let (id, _) = self.identifier();
            let ghost k2 = self.state.index as nat;
            match id {
                Some(a) => {
                    assert(view_strings(args@.push(a)) =~= view_strings(args@).push(a@));
                    args.push(a);
                },
                None => {
                    self.reset_to(r);
                    self.complain(ParseMessage::ExpectedArgument);
                    assert(self.msgs() =~= mk + msgs_fn_args(s, k, r.index as nat));
                    return None;
                },
            }
            proof {
                lemma_trim(s, self.state.index as nat);
            }
            self.trim();
            let ghost k3 = self.state.index as nat;
            assert(spec_litteral(s, k, seq![')']) == (false, k1));
            assert(spec_trim(s, k2) == k3);
            match self.peek_char() {
                Some(c) => {
                    if c == ',' {
                        self.next_char();
                        assert(msgs_fn_args(s, k, r.index as nat) == msgs_fn_args(s, self.state.index as nat, r.index as nat));
                    } else if c == ')' {
                        self.next_char();
                        assert(self.msgs() =~= mk + msgs_fn_args(s, k, r.index as nat));
                        return Some(args);
                    } else {
                        self.reset_to(r);
                        self.complain(ParseMessage::UnexpectedCharacter { found: c, expected: ',' });
                        assert(self.msgs() =~= mk + msgs_fn_args(s, k, r.index as nat));
                        return None;
                    }
                },
                None => {
                    self.reset_to(r);
                    self.complain(ParseMessage::UnterminatedArguments);
                    assert(self.msgs() =~= mk + msgs_fn_args(s, k, r.index as nat));
                    return None;
                },
            }
        }
    }

    /// The fields of an object, after its `[`.
    #[verifier::rlimit(100)]
    #[verifier::spinoff_prover]
    fn fields(&mut self, r: ParserState) -> (res: Option<Vec<(String, Expr)>>)
        requires
            old(self).ok(),
            r.index < old(self).state.index,
        ensures
            final(self).src@ == old(self).src@,
            final(self).ok(),
            res is Some ==> old(self).state.index <= final(self).state.index,
            res is None ==> final(self).state.index == r.index || final(self).state.index == stuck(old(self).src@),
            (match res {
                Some(v) => Some(view_fields(v@)),
                None => None,
            }, final(self).state.index as nat) == spec_fields(
                old(self).src@,
                old(self).state.index as nat,
                r.index as nat,
                Seq::empty(),
            ),
            final(self).msgs() == old(self).msgs() + msgs_fields(
                old(self).src@,
                old(self).state.index as nat,
                r.index as nat,
            ),
        decreases rem(old(self).src@, old(self).state.index as nat), 6nat,
    {
        reveal(spec_fields);
        reveal(spec_expr);
        let ghost s = self.src@;
        let ghost k0 = self.state.index as nat;
        let ghost m0 = self.msgs();
        let ghost total = msgs_fields(s, k0, r.index as nat);
        let closing: &[char] = &[']'];
        assert(closing@ =~= seq![']']);
        let colon: &[char] = &[':'];
        assert(colon@ =~= seq![':']);
        let mut fields: Vec<(String, Expr)> = Vec::new();
        assert(view_fields(fields@) =~= Seq::<(Seq<char>, SpecExpr)>::empty());
        loop
            invariant
                self.src@ == s,
                s == old(self).src@,
                k0 == old(self).state.index,
                r.index < k0,
                self.ok(),
                k0 <= self.state.index,
                closing@ == seq![']'],
                colon@ == seq![':'],
                spec_fields(s, self.state.index as nat, r.index as nat, view_fields(fields@))
                    == spec_fields(s, k0, r.index as nat, Seq::empty()),
                total == msgs_fields(s, k0, r.index as nat),
                m0 == old(self).msgs(),
                self.msgs() + msgs_fields(s, self.state.index as nat, r.index as nat) == m0 + total,
            decreases rem(s, self.state.index as nat),
        {
            let ghost k = self.state.index as nat;
            let ghost mk = self.msgs();
            reveal(spec_fields);
            reveal(spec_expr);
            proof {
                lemma_litteral(s, k, seq![']']);
                lemma_msgs_fields_early(s, k, r.index as nat);
            }
            let (done, _) = self.litteral(closing);
            if done {
                assert(self.msgs() =~= mk + msgs_fields(s, k, r.index as nat));
                return Some(fields);
            }
            let ghost k1 = self.state.index as nat;
            proof {
                lemma_identifier(s, self.state.index as nat);
            }
            let (id, _) = self.identifier();
            match id {
                Some(name) => {
                    let ghost k2 = self.state.index as nat;
                    proof {
                        lemma_litteral(s, self.state.index as nat, seq![':']);
                    }
                    let (is_colon, _) = self.litteral(colon);
                    if !is_colon {
                        self.reset_to(r);
                        self.complain(ParseMessage::ExpectedColon);
                        assert(self.msgs() =~= mk + msgs_fields(s, k, r.index as nat));
                        return None;
                    }
                    let ghost k3 = self.state.index as nat;
                    proof {
                        lemma_msgs_fields_step(s, k, r.index as nat, k1, k2, k3);
                    }
                    let e = self.parse_expr();
                    let ghost me = msgs_expr(s, k3);
                    insert_field_exec(&mut fields, name, e);
                    proof {
                        lemma_trim(s, self.state.index as nat);
                    }
                    self.trim();
                    match self.peek_char() {
                        Some(c) => {
                            if c == ';' {
                                self.next_char();
                                assert(msgs_fields(s, k, r.index as nat) == me + msgs_fields(s, self.state.index as nat, r.index as nat));
                                assert(self.msgs() + msgs_fields(s, self.state.index as nat, r.index as nat)
                                    =~= mk + (me + msgs_fields(s, self.state.index as nat, r.index as nat)));
                            } else if c == ']' {
                                self.next_char();
                                assert(msgs_fields(s, k, r.index as nat) == me);
                                return Some(fields);
                            } else {
                                let ghost k5 = self.state.index as nat;
                                self.reset_to(r);
                                self.complain(ParseMessage::UnexpectedCharacter { found: c, expected: ';' });
                                assert(msgs_fields(s, k, r.index as nat) == me + note(s, k5, unexpected(c, ';')));
                                assert(self.msgs() =~= mk + (me + note(s, k5, unexpected(c, ';'))));
                                return None;
                            }
                        },
                        None => {
                            let ghost k5 = self.state.index as nat;
                            self.reset_to(r);
                            self.complain(ParseMessage::UnterminatedChain);
                            assert(msgs_fields(s, k, r.index as nat) == me + note(s, k5, SpecParseMessage::UnterminatedChain));
                            assert(self.msgs() =~= mk + (me + note(s, k5, SpecParseMessage::UnterminatedChain)));
                            return None;
                        },
                    }
                },
                None => {
                    self.reset_to(r);
                    self.complain(ParseMessage::ExpectedFieldName);
                    assert(self.msgs() =~= mk + msgs_fields(s, k, r.index as nat));
                    return None;
                },
            }
        }
    }

    /// An identifier followed by its modifiers.
    fn target(&mut self) -> (res: Option<Expr>)
        requires
            old(self).ok(),
        ensures
            final(self).src@ == old(self).src@,
            final(self).ok(),
            old(self).state.index <= final(self).state.index,
            (view_opt_expr(res), final(self).state.index as nat) == spec_target(
                old(self).src@,
                old(self).state.index as nat,
            ),
            final(self).msgs() == old(self).msgs() + msgs_target(old(self).src@, old(self).state.index as nat),
        decreases rem(old(self).src@, old(self).state.index as nat), 1nat,
    {
        reveal(spec_target);
        reveal(spec_modifiers_loop);
        let ghost s = self.src@;
        let ghost i = self.state.index as nat;
        let ghost m0 = self.msgs();
        proof {
            lemma_msgs_target(s, i);
        }
        proof {
            lemma_identifier(s, i);
        }
        let (id, _) = self.identifier();
        match id {
            Some(base) => {
                let ghost j = self.state.index as nat;
                let mut cur = Expr::Identifier(base);
                let ghost e0 = cur@;
                assert(msgs_target(s, i) == msgs_modifiers_loop(s, j, e0));
                loop
                    invariant
                        self.src@ == s,
                        s == old(self).src@,
                        i == old(self).state.index,
                        self.ok(),
                        i < j,
                        j <= self.state.index,
                        spec_modifiers_loop(s, self.state.index as nat, cur@) == spec_modifiers_loop(s, j, e0),
                        spec_target(s, i) == (Some(spec_modifiers_loop(s, j, e0).0), spec_modifiers_loop(s, j, e0).1),
                        m0 == old(self).msgs(),
                        msgs_target(s, i) == msgs_modifiers_loop(s, j, e0),
                        self.msgs() + msgs_modifiers_loop(s, self.state.index as nat, cur@) == m0 + msgs_target(s, i),
                    decreases rem(s, self.state.index as nat),
                {
                    reveal(spec_modifiers_loop);
                    reveal(spec_modifiers);
                    let ghost before = self.state.index as nat;
                    let ghost cur_v = cur@;
                    let ghost mb = self.msgs();
                    let (found, next) = self.modifiers(cur);
                    proof {
                        lemma_msgs_modifiers_loop(s, before, cur_v);
                        let mm = msgs_modifiers(s, before, cur_v);
                        if found {
                            let rest = msgs_modifiers_loop(s, self.state.index as nat, next@);
                            assert(msgs_modifiers_loop(s, before, cur_v) == mm + rest);
                            assert(self.msgs() + rest =~= mb + (mm + rest));
                        } else {
                            assert(msgs_modifiers_loop(s, before, cur_v) == mm);
                        }
                    }
                    cur = next;
                    if !found {
                        return Some(cur);
                    }
                }
            },
            None => {
                self.complain(ParseMessage::ExpectedIdentifier);
                assert(self.msgs() =~= m0 + msgs_target(s, i));
                None
            },
        }
    }

    /// One modifier after `initial`: `.field`, `(args)` or `<index>`. The
    /// flag says whether one was found.
    #[verifier::rlimit(100)]
    #[verifier::spinoff_prover]
    fn modifiers(&mut self, initial: Expr) -> (res: (bool, Expr))
        requires
            old(self).ok(),
        ensures
            final(self).src@ == old(self).src@,
            final(self).ok(),
            old(self).state.index <= final(self).state.index,
            res.0 ==> old(self).state.index < final(self).state.index <= old(self).src@.len(),
            (res.0, res.1@, final(self).state.index as nat) == spec_modifiers(
                old(self).src@,
                old(self).state.index as nat,
                initial@,
            ),
            final(self).msgs() == old(self).msgs() + msgs_modifiers(old(self).src@, old(self).state.index as nat, initial@),
        decreases rem(old(self).src@, old(self).state.index as nat), 2nat,
    {
        reveal(spec_modifiers);
        reveal(spec_items);
        reveal(spec_expr);
        let ghost s = self.src@;
        let ghost i = self.state.index as nat;
        let ghost m0 = self.msgs();
        let ghost init_v = initial@;
        proof {
            lemma_msgs_modifiers(s, i, init_v);
        }
        let dot: &[char] = &['.'];
        assert(dot@ =~= seq!['.']);
        let open: &[char] = &['('];
        assert(open@ =~= seq!['(']);
        let lt: &[char] = &['<'];
        assert(lt@ =~= seq!['<']);
        let gt: &[char] = &['>'];
        assert(gt@ =~= seq!['>']);
        proof {
            lemma_litteral(s, i, seq!['.']);
        }
        let (is_dot, _) = self.litteral(dot);
        if is_dot {
            proof {
                lemma_identifier(s, self.state.index as nat);
            }
            let (id, _) = self.identifier();
            return match id {
                Some(attr) => {
                    proof {
                        lemma_view_field(initial, attr);
                    }
                    assert(self.msgs() =~= m0 + msgs_modifiers(s, i, init_v));
                    (true, Expr::Access(Target::Field { var: Box::new(initial), field: attr }))
                },
                None => {
                    self.complain(ParseMessage::ExpectedFieldIdentifier);
                    assert(self.msgs() =~= m0 + msgs_modifiers(s, i, init_v));
                    (false, Expr::Nil)
                },
            };
        }
        proof {
            lemma_litteral(s, self.state.index as nat, seq!['(']);
        }
        let (is_open, r) = self.litteral(open);
        if is_open {
            return match self.items(r, ',', ')') {
                Some(args) => (true, Expr::FuncCall { func: Box::new(initial), args }),
                None => (false, Expr::Nil),
            };
        }
        proof {
            lemma_litteral(s, self.state.index as nat, seq!['<']);
        }
        let (is_lt, _) = self.litteral(lt);
        if is_lt {
            let ghost j3 = self.state.index as nat;
            let index = self.parse_expr();
            proof {
                lemma_litteral(s, self.state.index as nat, seq!['>']);
            }
            let (is_gt, _) = self.litteral(gt);
            if is_gt {
                proof {
                    lemma_view_index(initial, index);
                }
                assert(self.msgs() =~= m0 + msgs_modifiers(s, i, init_v));
                (true, Expr::Access(Target::Index { var: Box::new(initial), index: Box::new(index) }))
            } else {
                self.complain(ParseMessage::UnterminatedIndex);
                assert(self.msgs() =~= m0 + msgs_modifiers(s, i, init_v));
                (false, Expr::Nil)
            }
        } else {
            assert(self.msgs() =~= m0 + msgs_modifiers(s, i, init_v));
            (false, initial)
        }
    }
}

/// Binds `name` to `e` among the fields of an object: in place when a
/// field of that name is there, at the end otherwise.
fn insert_field_exec(fields: &mut Vec<(String, Expr)>, name: String, e: Expr)
    ensures
        view_fields(final(fields)@) == insert_field(view_fields(old(fields)@), name@, e@),
{
    let ghost f = view_fields(fields@);
    proof {
        lemma_view_fields(fields@);
        lemma_field_pos(f, name@, 0);
    }
    let mut t: usize = 0;
    while t < fields.len()
        invariant
            fields@ == old(fields)@,
            f == view_fields(fields@),
            f.len() == fields@.len(),
            forall|k: int| 0 <= k < fields@.len() ==> #[trigger] f[k] == (fields@[k].0@, view_expr(fields@[k].1)),
            field_pos(f, name@, 0) matches Some(u) ==> t <= u < f.len() && f[u].0 == name@,
            field_pos(f, name@, 0) matches Some(u) ==> forall|w: int| 0 <= w < u ==> f[w].0 != name@,
            field_pos(f, name@, 0) is None ==> forall|u: int| 0 <= u < f.len() ==> f[u].0 != name@,
            forall|u: int| 0 <= u < t ==> f[u].0 != name@,
            t <= fields@.len(),
        decreases fields@.len() - t,
    {
        if fields[t].0 == name {
            assert(f[t as int] == (fields@[t as int].0@, view_expr(fields@[t as int].1)));
            proof {
                lemma_view_fields_update(fields@, t as int, (name, e));
            }
            fields.set(t, (name, e));
            return;
        }
        t = t + 1;
    }
    proof {
        lemma_view_fields_push(fields@, (name, e));
    }
    fields.push((name, e));
}

} // verus!
