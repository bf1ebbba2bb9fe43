//! The templating language: literal text interleaved with expressions
//! introduced by `#`.
//!
//! ```text
//! template   := segment*
//! segment    := literalRun | '#' expr
//! expr       := '(' call ')' | stringLiteral | identifier
//! call       := identifier expr*
//! identifier := [A-Za-z_][A-Za-z0-9_.]*
//! stringLit  := quote (any char except that quote)* quote
//! ```
//!
//! The grammar is given below as spec functions over the character
//! sequence and a position; the executable parser is proved to compute
//! exactly what they describe.

use vstd::prelude::*;
use crate::scanner::{is_ws, skip_ws, skip_ws_from, ws_len, Scanner};
use crate::text::push_char;

verus! {

/// Abstract syntax of a template.
#[derive(Debug)]
pub enum Ast {
    /// The empty template, the identity of concatenation.
    Empty,
    /// Concatenation: the left part first, then the right one.
    Sequence(Box<Ast>, Box<Ast>),
    /// A single literal character.
    Chr(char),
    /// Literal text, or a quoted string inside an expression.
    Str(String),
    /// A builtin function name or a dotted entity name path.
    Id(String),
    /// A parenthesized application of a callee to arguments.
    Call(Box<Ast>, Vec<Ast>),
}

/// The mathematical value of an `Ast`: the same shape, with text as
/// character sequences.
pub enum Tree {
    Empty,
    Sequence(Box<Tree>, Box<Tree>),
    Chr(char),
    Str(Seq<char>),
    Id(Seq<char>),
    Call(Box<Tree>, Seq<Tree>),
}

pub open spec fn tree_of(a: Ast) -> Tree
    decreases a,
{
    match a {
        Ast::Empty => Tree::Empty,
        Ast::Sequence(l, r) => Tree::Sequence(Box::new(tree_of(*l)), Box::new(tree_of(*r))),
        Ast::Chr(c) => Tree::Chr(c),
        Ast::Str(s) => Tree::Str(s@),
        Ast::Id(s) => Tree::Id(s@),
        Ast::Call(f, args) => Tree::Call(
            Box::new(tree_of(*f)),
            Seq::new(
                args.len() as nat,
                |i: int|
                    if 0 <= i < args.len() {
                        tree_of(args[i])
                    } else {
                        Tree::Empty
                    },
            ),
        ),
    }
}

impl View for Ast {
    type V = Tree;

    open spec fn view(&self) -> Tree {
        tree_of(*self)
    }
}

/// Where the text ended too early.
#[derive(Clone, Copy, Debug, PartialEq, Eq, Structural)]
pub enum Context {
    Expression,
    Call,
    StringLiteral,
}

/// Why a template could not be parsed.
#[derive(Clone, Copy, Debug, PartialEq, Eq, Structural)]
pub enum ParseError {
    /// The text ended inside an expression, a call or a string literal.
    UnexpectedEnd(Context),
    /// This character cannot start an expression.
    UnexpectedCharacter(char),
    /// An identifier was expected at the current position.
    IdentifierExpected,
}

/// The character that introduces an expression.
pub open spec fn is_sigil(c: char) -> bool {
    c == '#'
}

pub open spec fn is_ident_start(c: char) -> bool {
    ('a' <= c && c <= 'z') || ('A' <= c && c <= 'Z') || c == '_'
}

pub open spec fn is_ident_char(c: char) -> bool {
    is_ident_start(c) || c == '.' || ('0' <= c && c <= '9')
}

pub open spec fn is_quote(c: char) -> bool {
    c == '\'' || c == '"'
}

/// Number of identifier characters from index `i` on.
pub open spec fn ident_len(t: Seq<char>, i: int) -> nat
    decreases t.len() - i,
{
    if 0 <= i < t.len() && is_ident_char(t[i]) {
        1 + ident_len(t, i + 1)
    } else {
        0
    }
}

/// Number of characters other than `q` from index `i` on.
pub open spec fn unquoted_len(t: Seq<char>, i: int, q: char) -> nat
    decreases t.len() - i,
{
    if 0 <= i < t.len() && t[i] != q {
        1 + unquoted_len(t, i + 1, q)
    } else {
        0
    }
}

/// Number of characters other than the sigil from index `i` on.
pub open spec fn run_len(t: Seq<char>, i: int) -> nat
    decreases t.len() - i,
{
    if 0 <= i < t.len() && !is_sigil(t[i]) {
        1 + run_len(t, i + 1)
    } else {
        0
    }
}

pub proof fn lemma_ident_len_bound(t: Seq<char>, i: int)
    requires
        0 <= i <= t.len(),
    ensures
        i + ident_len(t, i) <= t.len(),
    decreases t.len() - i,
{
    if i < t.len() && is_ident_char(t[i]) {
        lemma_ident_len_bound(t, i + 1);
    }
}

pub proof fn lemma_unquoted_len_bound(t: Seq<char>, i: int, q: char)
    requires
        0 <= i <= t.len(),
    ensures
        i + unquoted_len(t, i, q) <= t.len(),
    decreases t.len() - i,
{
    if i < t.len() && t[i] != q {
        lemma_unquoted_len_bound(t, i + 1, q);
    }
}

pub proof fn lemma_run_len_bound(t: Seq<char>, i: int)
    requires
        0 <= i <= t.len(),
    ensures
        i + run_len(t, i) <= t.len(),
    decreases t.len() - i,
{
    if i < t.len() && !is_sigil(t[i]) {
        lemma_run_len_bound(t, i + 1);
    }
}

pub proof fn lemma_ws_len_bound(t: Seq<char>, i: int)
    requires
        0 <= i <= t.len(),
    ensures
        i + ws_len(t, i) <= t.len(),
    decreases t.len() - i,
{
    if i < t.len() && is_ws(t[i]) {
        lemma_ws_len_bound(t, i + 1);
    }
}

#[via_fn]
proof fn call_at_decreases(t: Seq<char>, i: int) {
    let k = skip_ws_from(t, i);
    if 0 <= i <= t.len() {
        lemma_ws_len_bound(t, i);
        if 0 <= k < t.len() {
            lemma_ident_len_bound(t, k + 1);
            lemma_ws_len_bound(t, k + 1 + ident_len(t, k + 1));
        }
    }
}

#[via_fn]
proof fn template_from_decreases(t: Seq<char>, i: int, acc: Tree) {
    if 0 <= i < t.len() {
        lemma_run_len_bound(t, i + 1);
    }
}

/// An identifier at `i`, and the position after it.
pub open spec fn ident_at(t: Seq<char>, i: int) -> Result<(Tree, int), ParseError> {
    if 0 <= i < t.len() && is_ident_start(t[i]) {
        let e = i + 1 + ident_len(t, i + 1);
        Ok((Tree::Id(t.subrange(i, e)), e))
    } else {
        Err(ParseError::IdentifierExpected)
    }
}

/// The body of a string literal opened by `q` just before `i`, and the
/// position after its closing quote.
pub open spec fn string_at(q: char, t: Seq<char>, i: int) -> Result<(Tree, int), ParseError> {
    let e = i + unquoted_len(t, i, q);
    if e < t.len() {
        Ok((Tree::Str(t.subrange(i, e)), e + 1))
    } else {
        Err(ParseError::UnexpectedEnd(Context::StringLiteral))
    }
}

/// An expression at `i` (after optional whitespace), and the position after it.
pub open spec fn expr_at(t: Seq<char>, i: int) -> Result<(Tree, int), ParseError>
    decreases t.len() - i, 1int,
{
    let k = skip_ws_from(t, i);
    if k < 0 || k >= t.len() {
        Err(ParseError::UnexpectedEnd(Context::Expression))
    } else if t[k] == '(' {
        call_at(t, k + 1)
    } else if is_quote(t[k]) {
        string_at(t[k], t, k + 1)
    } else if is_ident_start(t[k]) {
        ident_at(t, k)
    } else {
        Err(ParseError::UnexpectedCharacter(t[k]))
    }
}

/// A call whose opening parenthesis stands just before `i`: the callee,
/// then the arguments up to the closing parenthesis.
pub open spec fn call_at(t: Seq<char>, i: int) -> Result<(Tree, int), ParseError>
    decreases t.len() - i, 0int
        via call_at_decreases
{
    let k = skip_ws_from(t, i);
    if 0 <= k < t.len() && is_ident_start(t[k]) {
        let e = k + 1 + ident_len(t, k + 1);
        args_at(t, skip_ws_from(t, e), Tree::Id(t.subrange(k, e)), Seq::empty())
    } else {
        Err(ParseError::IdentifierExpected)
    }
}

/// The remaining arguments of a call from `i` on, after `args`.
pub open spec fn args_at(t: Seq<char>, i: int, callee: Tree, args: Seq<Tree>) -> Result<
    (Tree, int),
    ParseError,
>
    decreases t.len() - i, 2int,
{
    if i < 0 || i >= t.len() {
        Err(ParseError::UnexpectedEnd(Context::Call))
    } else if t[i] == ')' {
        Ok((Tree::Call(Box::new(callee), args), i + 1))
    } else {
        match expr_at(t, i) {
            Err(e) => Err(e),
            Ok((a, j)) => if i < j <= t.len() {
                args_at(t, j, callee, args.push(a))
            } else {
                Err(ParseError::UnexpectedEnd(Context::Call))
            },
        }
    }
}

/// `seg` appended to the chain `acc`; the empty chain is the identity.
pub open spec fn join(acc: Tree, seg: Tree) -> Tree {
    if acc is Empty {
        seg
    } else {
        Tree::Sequence(Box::new(acc), Box::new(seg))
    }
}

/// The template from `i` on, appended to what was parsed before it.
pub open spec fn template_from(t: Seq<char>, i: int, acc: Tree) -> Result<Tree, ParseError>
    decreases t.len() - i
        via template_from_decreases
{
    if i < 0 || i >= t.len() {
        Ok(acc)
    } else if is_sigil(t[i]) {
        match expr_at(t, i + 1) {
            Err(e) => Err(e),
            Ok((a, j)) => if i < j <= t.len() {
                template_from(t, j, join(acc, a))
            } else {
                Err(ParseError::UnexpectedEnd(Context::Expression))
            },
        }
    } else {
        let e = i + 1 + run_len(t, i + 1);
        template_from(t, e, join(acc, Tree::Str(t.subrange(i, e))))
    }
}

/// The parse of a whole template.
pub open spec fn template_of(t: Seq<char>) -> Result<Tree, ParseError> {
    template_from(t, 0, Tree::Empty)
}

/// `r` is what `expected` describes, with the scanner left at `pos`.
pub open spec fn parsed(r: Result<Ast, ParseError>, expected: Result<(Tree, int), ParseError>, pos: int) -> bool {
    match r {
        Ok(a) => expected == Ok::<(Tree, int), ParseError>((a@, pos)),
        Err(e) => expected == Err::<(Tree, int), ParseError>(e),
    }
}

fn join_ast(acc: Ast, seg: Ast) -> (r: Ast)
    ensures
        r@ == join(acc@, seg@),
{
    match acc {
        Ast::Empty => seg,
        _ => Ast::Sequence(Box::new(acc), Box::new(seg)),
    }
}

fn is_ident_start_char(c: char) -> (r: bool)
    ensures
        r == is_ident_start(c),
{
    ('a' <= c && c <= 'z') || ('A' <= c && c <= 'Z') || c == '_'
}

fn is_ident_char_char(c: char) -> (r: bool)
    ensures
        r == is_ident_char(c),
{
    is_ident_start_char(c) || c == '.' || ('0' <= c && c <= '9')
}

fn parse_ident(s: &mut Scanner) -> (r: Result<Ast, ParseError>)
    requires
        old(s).wf(),
    ensures
        final(s).wf(),
        final(s).text() == old(s).text(),
        parsed(r, ident_at(old(s).text(), old(s).position()), final(s).position()),
        r is Ok ==> final(s).position() > old(s).position(),
{
    proof {
        s.lemma_position_bounds();
    }
    let ghost t = s.text();
    let ghost start = s.position();
    match s.current() {
        None => Err(ParseError::IdentifierExpected),
        Some(c) => {
            if is_ident_start_char(c) {
                s.next();
                let mut ret = String::new();
                push_char(&mut ret, c);
                assert(ret@ =~= t.subrange(start, start + 1));
                loop
                    invariant
                        s.wf(),
                        s.text() == t,
                        t == old(s).text(),
                        start == old(s).position(),
0 <= start,
                        start < s.position() <= t.len(),
                        is_ident_start(t[start]),
                        ret@ == t.subrange(start, s.position()),
                        start + 1 + ident_len(t, start + 1) == s.position() + ident_len(
                            t,
                            s.position(),
                        ),
                    decreases t.len() - s.position(),
                {
                    proof {
                        s.lemma_position_bounds();
                    }
                    match s.current() {
                        None => {
                            return Ok(Ast::Id(ret));
                        },
                        Some(c) => {
                            if is_ident_char_char(c) {
                                s.next();
                                push_char(&mut ret, c);
                                assert(ret@ =~= t.subrange(start, s.position()));
                            } else {
                                return Ok(Ast::Id(ret));
                            }
                        },
                    }
                }
            } else {
                Err(ParseError::IdentifierExpected)
            }
        },
    }
}

fn parse_string(quote: char, s: &mut Scanner) -> (r: Result<Ast, ParseError>)
    requires
        old(s).wf(),
    ensures
        final(s).wf(),
        final(s).text() == old(s).text(),
        parsed(r, string_at(quote, old(s).text(), old(s).position()), final(s).position()),
        r is Ok ==> final(s).position() > old(s).position(),
{
    proof {
        s.lemma_position_bounds();
    }
    let ghost t = s.text();
    let ghost start = s.position();
    let mut res = String::new();
    loop
        invariant
            s.wf(),
            s.text() == t,
            t == old(s).text(),
            start == old(s).position(),
0 <= start,
            start <= s.position() <= t.len(),
            res@ == t.subrange(start, s.position()),
            start + unquoted_len(t, start, quote) == s.position() + unquoted_len(
                t,
                s.position(),
                quote,
            ),
        decreases t.len() - s.position(),
    {
        proof {
            s.lemma_position_bounds();
        }
        match s.current() {
            None => {
                return Err(ParseError::UnexpectedEnd(Context::StringLiteral));
            },
            Some(c) => {
                if c == quote {
                    s.next();
                    return Ok(Ast::Str(res));
                } else {
                    s.next();
                    push_char(&mut res, c);
                    assert(res@ =~= t.subrange(start, s.position()));
                }
            },
        }
    }
}

fn parse_call(s: &mut Scanner) -> (r: Result<Ast, ParseError>)
    requires
        old(s).wf(),
    ensures
        final(s).wf(),
        final(s).text() == old(s).text(),
        parsed(r, call_at(old(s).text(), old(s).position()), final(s).position()),
        r is Ok ==> final(s).position() > old(s).position(),
    decreases old(s).text().len() - old(s).position(), 0int,
{
    proof {
        s.lemma_position_bounds();
    }
    let ghost t = s.text();
    let ghost start = s.position();
    skip_ws(s);
    match parse_ident(s) {
        Err(e) => Err(e),
        Ok(id) => {
            let mut args: Vec<Ast> = Vec::new();
            skip_ws(s);
            proof {
                s.lemma_position_bounds();
                assert(args@.map_values(|a: Ast| a@) =~= Seq::<Tree>::empty());
            }
            loop
                invariant
                    s.wf(),
                    s.text() == t,
                    t == old(s).text(),
                    start == old(s).position(),
0 <= start,
                    start < s.position() <= t.len(),
                    0 <= start,
                    call_at(t, start) == args_at(t, s.position(), id@, args@.map_values(|a: Ast| a@)),
                decreases t.len() - s.position(),
            {
                proof {
                    s.lemma_position_bounds();
                }
                match s.current() {
                    None => {
                        return Err(ParseError::UnexpectedEnd(Context::Call));
                    },
                    Some(c) => {
                        if c == ')' {
                            s.next();
                            let r = Ast::Call(Box::new(id), args);
                            assert(r@->Call_1 =~= args@.map_values(|a: Ast| a@));
                            return Ok(r);
                        } else {
                            let ghost before = args@.map_values(|a: Ast| a@);
                            match parse_expr(s) {
                                Err(e) => {
                                    return Err(e);
                                },
                                Ok(a) => {
                                    proof {
                                        s.lemma_position_bounds();
                                    }
                                    args.push(a);
                                    assert(args@.map_values(|a: Ast| a@) =~= before.push(a@));
                                },
                            }
                        }
                    },
                }
            }
        },
    }
}

fn parse_expr(s: &mut Scanner) -> (r: Result<Ast, ParseError>)
    requires
        old(s).wf(),
    ensures
        final(s).wf(),
        final(s).text() == old(s).text(),
        parsed(r, expr_at(old(s).text(), old(s).position()), final(s).position()),
        r is Ok ==> final(s).position() > old(s).position(),
    decreases old(s).text().len() - old(s).position(), 1int,
{
    proof {
        s.lemma_position_bounds();
    }
    skip_ws(s);
    proof {
        s.lemma_position_bounds();
    }
    match s.current() {
        None => Err(ParseError::UnexpectedEnd(Context::Expression)),
        Some(c) => {
            if c == '(' {
                s.next();
                parse_call(s)
            } else if c == '\'' || c == '"' {
                s.next();
                parse_string(c, s)
            } else if is_ident_start_char(c) {
                parse_ident(s)
            } else {
                Err(ParseError::UnexpectedCharacter(c))
            }
        },
    }
}

/// Parse a template into its syntax tree.
pub fn parse(txt: &str) -> (r: Result<Ast, ParseError>)
    ensures
        r is Ok ==> template_of(txt@) == Ok::<Tree, ParseError>(r->Ok_0@),
        r is Err ==> template_of(txt@) == Err::<Tree, ParseError>(r->Err_0),
{
    let mut s = Scanner::new(txt);
    let ghost t = txt@;
    let mut ret = Ast::Empty;
    loop
        invariant
            s.wf(),
            s.text() == t,
            t == txt@,
            template_of(t) == template_from(t, s.position(), ret@),
        decreases t.len() - s.position(),
    {
        proof {
            s.lemma_position_bounds();
        }
        match s.current() {
            None => {
                return Ok(ret);
            },
            Some(c) => {
                if c == '#' {
                    s.next();
                    match parse_expr(&mut s) {
                        Err(e) => {
                            return Err(e);
                        },
                        Ok(a) => {
                            proof {
                                s.lemma_position_bounds();
                            }
                            ret = join_ast(ret, a);
                        },
                    }
                } else {
                    let ghost start = s.position();
                    let mut acc = String::new();
                    push_char(&mut acc, c);
                    s.next();
                    assert(acc@ =~= t.subrange(start, start + 1));
                    loop
                        invariant
                            s.wf(),
                            s.text() == t,
                            0 <= start,
                            start < s.position() <= t.len(),
                            !is_sigil(t[start]),
                            template_of(t) == template_from(t, start, ret@),
                            acc@ == t.subrange(start, s.position()),
                            start + 1 + run_len(t, start + 1) == s.position() + run_len(
                                t,
                                s.position(),
                            ),
                        ensures
                            s.wf(),
                            s.text() == t,
                            0 <= start < s.position() <= t.len(),
                            !is_sigil(t[start]),
                            template_of(t) == template_from(t, start, ret@),
                            acc@ == t.subrange(start, s.position()),
                            start + 1 + run_len(t, start + 1) == s.position(),
                        decreases t.len() - s.position(),
                    {
                        proof {
                            s.lemma_position_bounds();
                        }
                        match s.current() {
                            None => {
                                break;
                            },
                            Some(c) => {
                                if c == '#' {
                                    break;
                                } else {
                                    push_char(&mut acc, c);
                                    s.next();
                                    assert(acc@ =~= t.subrange(start, s.position()));
                                }
                            },
                        }
                    }
                    let piece = Ast::Str(acc);
                    assert(piece@ == Tree::Str(t.subrange(start, s.position())));
                    ret = join_ast(ret, piece);
                }
            },
        }
    }
}

} // verus!
