//! The evaluator: reduces a template's syntax tree to a value against a
//! world.  `if` is a special form: its branches stay unevaluated until
//! the condition has chosen one.

use vstd::prelude::*;
use crate::template::{parse, template_of, Ast, ParseError, Tree};
use crate::text::{push_char, same_text};
use crate::types::{first_named, split_on, Attribute, InternalName, World};

verus! {

/// The builtin functions.
#[derive(Clone, Copy, Debug, PartialEq, Eq, Structural)]
pub enum Function {
    If,
    Closed,
    Locked,
}

/// What evaluation yields.
#[derive(Debug)]
pub enum Value {
    /// A builtin: identity, name, special form, least and most arguments.
    Fun(Function, &'static str, bool, usize, usize),
    Reference(InternalName),
    Str(String),
    Bool(bool),
    /// An argument left unevaluated for a special form.
    Expr(Ast),
}

/// The mathematical value of a `Value`.
pub enum Val {
    Fun(Function, Seq<char>, bool, usize, usize),
    Reference(InternalName),
    Str(Seq<char>),
    Bool(bool),
    Expr(Tree),
}

impl View for Value {
    type V = Val;

    open spec fn view(&self) -> Val {
        match self {
            Value::Fun(f, n, s, lo, hi) => Val::Fun(*f, n@, *s, *lo, *hi),
            Value::Reference(id) => Val::Reference(*id),
            Value::Str(s) => Val::Str(s@),
            Value::Bool(b) => Val::Bool(*b),
            Value::Expr(a) => Val::Expr(a@),
        }
    }
}

/// Why a template could not be evaluated.
#[derive(Debug)]
pub enum EvalError {
    /// The name is neither a builtin nor the name path of an entity.
    UndefinedIdentifier(String),
    /// The function, its least number of arguments, and the number given.
    TooFewArguments(Function, usize, usize),
    /// The function, its greatest number of arguments, and the number given.
    TooManyArguments(Function, usize, usize),
    NonFunction,
    NonBooleanCondition,
    InvalidConcatenation,
    /// The function's argument is not a reference to an entity.
    NotAnEntity(Function),
    /// A reference to an id that the world does not hold.
    UnknownEntity(InternalName),
    /// A deferred argument reached a function that is not a special form.
    DeferredArgument(Function),
    /// A special form received arguments that were already evaluated.
    EvaluatedArgument(Function),
    /// The template's result is not a string.
    InvalidValue,
}

/// The mathematical value of an `EvalError`.
pub enum Fault {
    UndefinedIdentifier(Seq<char>),
    TooFewArguments(Function, usize, usize),
    TooManyArguments(Function, usize, usize),
    NonFunction,
    NonBooleanCondition,
    InvalidConcatenation,
    NotAnEntity(Function),
    UnknownEntity(InternalName),
    DeferredArgument(Function),
    EvaluatedArgument(Function),
    InvalidValue,
}

impl View for EvalError {
    type V = Fault;

    open spec fn view(&self) -> Fault {
        match self {
            EvalError::UndefinedIdentifier(s) => Fault::UndefinedIdentifier(s@),
            EvalError::TooFewArguments(f, lo, n) => Fault::TooFewArguments(*f, *lo, *n),
            EvalError::TooManyArguments(f, hi, n) => Fault::TooManyArguments(*f, *hi, *n),
            EvalError::NonFunction => Fault::NonFunction,
            EvalError::NonBooleanCondition => Fault::NonBooleanCondition,
            EvalError::InvalidConcatenation => Fault::InvalidConcatenation,
            EvalError::NotAnEntity(f) => Fault::NotAnEntity(*f),
            EvalError::UnknownEntity(id) => Fault::UnknownEntity(*id),
            EvalError::DeferredArgument(f) => Fault::DeferredArgument(*f),
            EvalError::EvaluatedArgument(f) => Fault::EvaluatedArgument(*f),
            EvalError::InvalidValue => Fault::InvalidValue,
        }
    }
}

/// Why a template could not be rendered.
#[derive(Debug)]
pub enum RenderError {
    Parse(ParseError),
    Eval(EvalError),
}

/// The mathematical value of a `RenderError`.
pub enum RenderFault {
    Parse(ParseError),
    Eval(Fault),
}

impl View for RenderError {
    type V = RenderFault;

    open spec fn view(&self) -> RenderFault {
        match self {
            RenderError::Parse(e) => RenderFault::Parse(*e),
            RenderError::Eval(e) => RenderFault::Eval(e@),
        }
    }
}

/// A result with both of its sides replaced by their views.
pub open spec fn outcome<T: View, E: View>(r: Result<T, E>) -> Result<T::V, E::V> {
    match r {
        Ok(v) => Ok(v@),
        Err(e) => Err(e@),
    }
}

/// The builtin named `name`, if there is one.
pub open spec fn builtin(name: Seq<char>) -> Option<Val> {
    if name == "if"@ {
        Some(Val::Fun(Function::If, "if"@, true, 3, 3))
    } else if name == "closed"@ {
        Some(Val::Fun(Function::Closed, "closed"@, false, 1, 1))
    } else if name == "locked"@ {
        Some(Val::Fun(Function::Locked, "locked"@, false, 1, 1))
    } else {
        None
    }
}

/// What an identifier denotes: a builtin, else the first entity whose
/// name path is the identifier split at its dots.
pub open spec fn resolve(w: &World, token: Seq<char>) -> Result<Val, Fault> {
    match builtin(token) {
        Some(v) => Ok(v),
        None => match first_named(w.entities@, split_on(token, '.')) {
            Some(i) => Ok(Val::Reference(w.entities@[i].id)),
            None => Err(Fault::UndefinedIdentifier(token)),
        },
    }
}

/// The payload of the first attribute that `f` reads, `false` where there is none.
pub open spec fn attribute_flag(attrs: Seq<Attribute>, f: Function) -> bool
    decreases attrs.len(),
{
    if attrs.len() == 0 {
        false
    } else {
        match (f, attrs[0]) {
            (Function::Closed, Attribute::Closable(b)) => b,
            (Function::Locked, Attribute::Lockable(b)) => b,
            _ => attribute_flag(attrs.drop_first(), f),
        }
    }
}

/// A builtin applied to evaluated arguments.
pub open spec fn apply_values(w: &World, f: Function, args: Seq<Val>) -> Result<Val, Fault> {
    match f {
        Function::If => Err(Fault::EvaluatedArgument(f)),
        _ => if args.len() > 0 && args[0] is Reference {
            let id = args[0]->Reference_0;
            match w.index_of(id) {
                Some(i) => Ok(Val::Bool(attribute_flag(w.entities@[i].attributes@, f))),
                None => Err(Fault::UnknownEntity(id)),
            }
        } else {
            Err(Fault::NotAnEntity(f))
        },
    }
}

/// The value of a tree in a world.
pub open spec fn eval_tree(w: &World, t: Tree) -> Result<Val, Fault>
    decreases t,
{
    match t {
        Tree::Empty => Ok(Val::Str(Seq::empty())),
        Tree::Chr(c) => Ok(Val::Str(seq![c])),
        Tree::Str(s) => Ok(Val::Str(s)),
        Tree::Id(s) => resolve(w, s),
        Tree::Sequence(l, r) => match eval_tree(w, *l) {
            Err(e) => Err(e),
            Ok(lv) => match eval_tree(w, *r) {
                Err(e) => Err(e),
                Ok(rv) => match (lv, rv) {
                    (Val::Str(a), Val::Str(b)) => Ok(Val::Str(a + b)),
                    _ => Err(Fault::InvalidConcatenation),
                },
            },
        },
        Tree::Call(f, args) => match eval_tree(w, *f) {
            Err(e) => Err(e),
            Ok(Val::Fun(fid, _name, special, lo, hi)) => if args.len() < lo {
                Err(Fault::TooFewArguments(fid, lo, args.len() as usize))
            } else if args.len() > hi {
                Err(Fault::TooManyArguments(fid, hi, args.len() as usize))
            } else if special {
                apply_deferred(w, fid, args)
            } else {
                match eval_args(w, args) {
                    Err(e) => Err(e),
                    Ok(vs) => apply_values(w, fid, vs),
                }
            },
            Ok(_) => Err(Fault::NonFunction),
        },
    }
}

/// The values of trees evaluated from left to right, or the first failure.
pub open spec fn eval_args(w: &World, args: Seq<Tree>) -> Result<Seq<Val>, Fault>
    decreases args,
{
    if args.len() == 0 {
        Ok(Seq::empty())
    } else {
        match eval_args(w, args.drop_last()) {
            Err(e) => Err(e),
            Ok(vs) => match eval_tree(w, args.last()) {
                Err(e) => Err(e),
                Ok(v) => Ok(vs.push(v)),
            },
        }
    }
}

/// A special form applied to its unevaluated arguments.
pub open spec fn apply_deferred(w: &World, f: Function, args: Seq<Tree>) -> Result<Val, Fault>
    decreases args,
{
    match f {
        Function::If => if args.len() == 3 {
            match eval_tree(w, args[0]) {
                Err(e) => Err(e),
                Ok(Val::Bool(b)) => if b {
                    eval_tree(w, args[1])
                } else {
                    eval_tree(w, args[2])
                },
                Ok(_) => Err(Fault::NonBooleanCondition),
            }
        } else {
            Err(Fault::DeferredArgument(f))
        },
        _ => Err(Fault::DeferredArgument(f)),
    }
}

/// The text a template renders to in a world.
pub open spec fn render_of(w: &World, text: Seq<char>) -> Result<Seq<char>, RenderFault> {
    match template_of(text) {
        Err(e) => Err(RenderFault::Parse(e)),
        Ok(t) => match eval_tree(w, t) {
            Err(e) => Err(RenderFault::Eval(e)),
            Ok(Val::Str(s)) => Ok(s),
            Ok(_) => Err(RenderFault::Eval(Fault::InvalidValue)),
        },
    }
}

/// The flag that `f` reads from a list of attributes.
fn flag_in(attrs: &Vec<Attribute>, f: Function) -> (r: bool)
    ensures
        r == attribute_flag(attrs@, f),
{
    let mut i: usize = 0;
    assert(attrs@.subrange(0, attrs.len() as int) =~= attrs@);
    while i < attrs.len()
        invariant
            i <= attrs.len(),
            attribute_flag(attrs@, f) == attribute_flag(attrs@.subrange(i as int, attrs.len() as int), f),
        decreases attrs.len() - i,
    {
        let ghost rest = attrs@.subrange(i as int, attrs.len() as int);
        assert(rest.drop_first() =~= attrs@.subrange(i + 1, attrs.len() as int));
        match (f, &attrs[i]) {
            (Function::Closed, Attribute::Closable(b)) => {
                return *b;
            },
            (Function::Locked, Attribute::Lockable(b)) => {
                return *b;
            },
            _ => {},
        }
        i = i + 1;
    }
    false
}

impl World {
    /// Evaluate a syntax tree into a value.
    pub fn eval(&self, ast: &Ast) -> (r: Result<Value, EvalError>)
        ensures
            outcome(r) == eval_tree(self, ast@),
        decreases ast,
    {
        match ast {
            Ast::Empty => Ok(Value::Str(String::new())),
            Ast::Chr(c) => {
                let mut s = String::new();
                push_char(&mut s, *c);
                assert(s@ =~= seq![*c]);
                Ok(Value::Str(s))
            },
            Ast::Str(s) => Ok(Value::Str(s.clone())),
            Ast::Id(s) => self.eval_ident(s),
            Ast::Sequence(l, r) => {
                let lhs = match self.eval(l) {
                    Err(e) => {
                        return Err(e);
                    },
                    Ok(v) => v,
                };
                let rhs = match self.eval(r) {
                    Err(e) => {
                        return Err(e);
                    },
                    Ok(v) => v,
                };
                match (lhs, rhs) {
                    (Value::Str(a), Value::Str(b)) => Ok(Value::Str(a.concat(b.as_str()))),
                    _ => Err(EvalError::InvalidConcatenation),
                }
            },
            Ast::Call(f, args) => {
                proof {
                    assert(ast@->Call_1 =~= args@.map_values(|a: Ast| a@));
                }
                let fun = match self.eval(f) {
                    Err(e) => {
                        return Err(e);
                    },
                    Ok(v) => v,
                };
                match fun {
                    Value::Fun(fid, _name, special, min_args, max_args) => {
                        let acnt = args.len();
                        if acnt < min_args {
                            return Err(EvalError::TooFewArguments(fid, min_args, acnt));
                        }
                        if acnt > max_args {
                            return Err(EvalError::TooManyArguments(fid, max_args, acnt));
                        }
                        if special {
                            self.apply_special(fid, args)
                        } else {
                            match self.eval_list(args) {
                                Err(e) => Err(e),
                                Ok(values) => self.apply(fid, &values),
                            }
                        }
                    },
                    _ => Err(EvalError::NonFunction),
                }
            },
        }
    }

    /// A builtin by its name, else the entity that the dotted name denotes.
    fn eval_ident(&self, s: &String) -> (r: Result<Value, EvalError>)
        ensures
            outcome(r) == resolve(self, s@),
    {
        if same_text(s.as_str(), "if") {
            Ok(Value::Fun(Function::If, "if", true, 3, 3))
        } else if same_text(s.as_str(), "closed") {
            Ok(Value::Fun(Function::Closed, "closed", false, 1, 1))
        } else if same_text(s.as_str(), "locked") {
            Ok(Value::Fun(Function::Locked, "locked", false, 1, 1))
        } else {
            let sv = self.from_script_name(s.as_str());
            match self.get_by_name(&sv) {
                None => Err(EvalError::UndefinedIdentifier(s.clone())),
                Some(name) => Ok(Value::Reference(name)),
            }
        }
    }

    /// Evaluate a list of expressions from left to right into a list of
    /// values, or the first failure.
    fn eval_list(&self, args: &Vec<Ast>) -> (r: Result<Vec<Value>, EvalError>)
        ensures
            match r {
                Ok(vs) => eval_args(self, args@.map_values(|a: Ast| a@)) == Ok::<Seq<Val>, Fault>(
                    vs@.map_values(|v: Value| v@),
                ),
                Err(e) => eval_args(self, args@.map_values(|a: Ast| a@)) == Err::<Seq<Val>, Fault>(e@),
            },
        decreases args,
    {
        let ghost trees = args@.map_values(|a: Ast| a@);
        let mut res: Vec<Value> = Vec::new();
        let mut i: usize = 0;
        assert(trees.subrange(0, 0) =~= Seq::<Tree>::empty());
        assert(res@.map_values(|v: Value| v@) =~= Seq::<Val>::empty());
        while i < args.len()
            invariant
                i <= args.len(),
                trees == args@.map_values(|a: Ast| a@),
                eval_args(self, trees.subrange(0, i as int)) == Ok::<Seq<Val>, Fault>(
                    res@.map_values(|v: Value| v@),
                ),
            decreases args.len() - i,
        {
            let ghost pre = trees.subrange(0, i + 1);
            assert(pre.drop_last() =~= trees.subrange(0, i as int));
            assert(pre.last() == args@[i as int]@);
            match self.eval(&args[i]) {
                Err(e) => {
                    proof {
                        assert(eval_args(self, pre) == Err::<Seq<Val>, Fault>(e@));
                        lemma_eval_args_prefix_error(self, trees, i as int + 1);
                        assert(trees.subrange(0, args.len() as int) =~= trees);
                    }
                    return Err(e);
                },
                Ok(v) => {
                    let ghost before = res@.map_values(|v: Value| v@);
                    res.push(v);
                    assert(res@.map_values(|v: Value| v@) =~= before.push(v@));
                },
            }
            i = i + 1;
        }
        assert(trees.subrange(0, i as int) =~= trees);
        Ok(res)
    }

    /// Apply a special form to its unevaluated arguments.
    fn apply_special(&self, f: Function, args: &Vec<Ast>) -> (r: Result<Value, EvalError>)
        ensures
            outcome(r) == apply_deferred(self, f, args@.map_values(|a: Ast| a@)),
        decreases args,
    {
        match f {
            Function::If => {
                if args.len() != 3 {
                    return Err(EvalError::DeferredArgument(f));
                }
                let cval = match self.eval(&args[0]) {
                    Err(e) => {
                        return Err(e);
                    },
                    Ok(v) => v,
                };
                match cval {
                    Value::Bool(b) => {
                        if b {
                            self.eval(&args[1])
                        } else {
                            self.eval(&args[2])
                        }
                    },
                    _ => Err(EvalError::NonBooleanCondition),
                }
            },
            _ => Err(EvalError::DeferredArgument(f)),
        }
    }

    /// Apply a builtin that is not a special form to evaluated arguments.
    fn apply(&self, f: Function, args: &Vec<Value>) -> (r: Result<Value, EvalError>)
        ensures
            outcome(r) == apply_values(self, f, args@.map_values(|v: Value| v@)),
    {
        match f {
            Function::If => Err(EvalError::EvaluatedArgument(f)),
            _ => {
                if args.len() > 0 {
                    match &args[0] {
                        Value::Reference(name) => match self.entity(name) {
                            Some(ent) => Ok(Value::Bool(flag_in(&ent.attributes, f))),
                            None => Err(EvalError::UnknownEntity(*name)),
                        },
                        _ => Err(EvalError::NotAnEntity(f)),
                    }
                } else {
                    Err(EvalError::NotAnEntity(f))
                }
            },
        }
    }

    /// Render a template: parse it, evaluate it, and require text as the
    /// result.
    pub fn eval_str(&self, txt: &str) -> (r: Result<String, RenderError>)
        ensures
            outcome(r) == render_of(self, txt@),
    {
        match parse(txt) {
            Ok(ast) => match self.eval(&ast) {
                Err(e) => Err(RenderError::Eval(e)),
                Ok(Value::Str(s)) => Ok(s),
                Ok(_) => Err(RenderError::Eval(EvalError::InvalidValue)),
            },
            Err(e) => Err(RenderError::Parse(e)),
        }
    }
}

/// Once a prefix of the arguments fails, every longer prefix fails the same way.
proof fn lemma_eval_args_prefix_error(w: &World, trees: Seq<Tree>, k: int)
    requires
        0 <= k <= trees.len(),
        eval_args(w, trees.subrange(0, k)) is Err,
    ensures
        eval_args(w, trees.subrange(0, trees.len() as int)) == eval_args(w, trees.subrange(0, k)),
    decreases trees.len() - k,
{
    if k < trees.len() {
        assert(trees.subrange(0, k + 1).drop_last() =~= trees.subrange(0, k));
        lemma_eval_args_prefix_error(w, trees, k + 1);
    }
}

/// Render a template against a world.
pub fn render(text: &str, world: &World) -> (r: Result<String, RenderError>)
    ensures
        outcome(r) == render_of(world, text@),
{
    world.eval_str(text)
}

} // verus!
