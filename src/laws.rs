//! Properties of rendering that hold for every template and world.

use vstd::prelude::*;
use crate::eval::{
    apply_deferred, eval_tree, outcome, render_of, Fault, Function, RenderError, RenderFault, Val,
};
use crate::template::{is_sigil, run_len, template_from, Tree};
use crate::types::World;

verus! {

/// `if` applied to a condition and two branches.
pub open spec fn if_call(cond: Tree, then_branch: Tree, else_branch: Tree) -> Tree {
    Tree::Call(Box::new(Tree::Id("if"@)), seq![cond, then_branch, else_branch])
}

proof fn lemma_run_len_plain(t: Seq<char>, i: int)
    requires
        0 <= i <= t.len(),
        forall|k: int| 0 <= k < t.len() ==> !is_sigil(#[trigger] t[k]),
    ensures
        run_len(t, i) == t.len() - i,
    decreases t.len() - i,
{
    if i < t.len() {
        lemma_run_len_plain(t, i + 1);
    }
}

/// A template without the sigil renders to itself, in every world.
pub proof fn lemma_plain_text_renders_verbatim(w: &World, text: Seq<char>)
    requires
        forall|k: int| 0 <= k < text.len() ==> !is_sigil(#[trigger] text[k]),
    ensures
        render_of(w, text) == Ok::<Seq<char>, RenderFault>(text),
{
    if text.len() == 0 {
        assert(text =~= Seq::<char>::empty());
    } else {
        lemma_run_len_plain(text, 1);
        let piece = Tree::Str(text.subrange(0, text.len() as int));
        assert(!is_sigil(text[0]));
        assert(template_from(text, 0, Tree::Empty) == template_from(text, text.len() as int, piece));
        assert(text.subrange(0, text.len() as int) =~= text);
    }
}

/// Rendering is a function of the template and the world: two renderings
/// of the same template in the same world give the same result.
pub proof fn lemma_render_is_pure(
    w: &World,
    text: Seq<char>,
    first: Result<String, RenderError>,
    second: Result<String, RenderError>,
)
    requires
        outcome(first) == render_of(w, text),
        outcome(second) == render_of(w, text),
    ensures
        outcome(first) == outcome(second),
{
}

/// `if` evaluates only the branch that its condition selects: the other
/// branch may be anything, even a tree that would fail.
pub proof fn lemma_if_is_lazy(w: &World, cond: Tree, then_branch: Tree, else_branch: Tree)
    ensures
        eval_tree(w, cond) == Ok::<Val, Fault>(Val::Bool(true)) ==> eval_tree(
            w,
            if_call(cond, then_branch, else_branch),
        ) == eval_tree(w, then_branch),
        eval_tree(w, cond) == Ok::<Val, Fault>(Val::Bool(false)) ==> eval_tree(
            w,
            if_call(cond, then_branch, else_branch),
        ) == eval_tree(w, else_branch),
{
    let args = seq![cond, then_branch, else_branch];
    assert(args[0] == cond && args[1] == then_branch && args[2] == else_branch);
    assert(eval_tree(w, Tree::Id("if"@)) == Ok::<Val, Fault>(
        Val::Fun(Function::If, "if"@, true, 3, 3),
    ));
    assert(eval_tree(w, if_call(cond, then_branch, else_branch)) == apply_deferred(
        w,
        Function::If,
        args,
    ));
}

/// A call with too few or too many arguments fails, naming the bound that
/// was violated and the number of arguments given.
pub proof fn lemma_arity_violation_reported(w: &World, callee: Tree, args: Seq<Tree>)
    requires
        eval_tree(w, callee) is Ok,
        eval_tree(w, callee)->Ok_0 is Fun,
    ensures
        ({
            let f = eval_tree(w, callee)->Ok_0;
            &&& args.len() < f->Fun_3 ==> eval_tree(w, Tree::Call(Box::new(callee), args))
                == Err::<Val, Fault>(Fault::TooFewArguments(f->Fun_0, f->Fun_3, args.len() as usize))
            &&& f->Fun_3 <= args.len() && args.len() > f->Fun_4 ==> eval_tree(
                w,
                Tree::Call(Box::new(callee), args),
            ) == Err::<Val, Fault>(
                Fault::TooManyArguments(f->Fun_0, f->Fun_4, args.len() as usize),
            )
        }),
{
}

/// Concatenation never coerces: where an operand evaluates to something
/// other than text, the concatenation fails.
pub proof fn lemma_concatenation_needs_text(w: &World, left: Tree, right: Tree)
    requires
        eval_tree(w, left) is Ok,
        eval_tree(w, right) is Ok,
        !(eval_tree(w, left)->Ok_0 is Str) || !(eval_tree(w, right)->Ok_0 is Str),
    ensures
        eval_tree(w, Tree::Sequence(Box::new(left), Box::new(right))) == Err::<Val, Fault>(
            Fault::InvalidConcatenation,
        ),
{
}

} // verus!
