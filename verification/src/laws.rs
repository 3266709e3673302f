//! Laws the evaluator and executor obey, stated and proved over the
//! same models their contracts use.

use vstd::prelude::*;

use crate::eval::spec_eval;
use crate::eval::ValueView;
use crate::exec::spec_exec;
use crate::exec::spec_exec_decl;
use crate::expr::DeclView;
use crate::expr::ExprDataView;
use crate::expr::ExprView;

verus! {

/// Whether an expression is a literal: a number, a string, `true`,
/// `false` or `nil`.
pub open spec fn is_literal(e: ExprView) -> bool {
    match e.data {
        ExprDataView::NumberLiteral(_) => true,
        ExprDataView::StringLiteral(_) => true,
        ExprDataView::True => true,
        ExprDataView::False => true,
        ExprDataView::Nil => true,
        _ => false,
    }
}

/// Idempotence of literals: evaluating a literal expression always
/// succeeds, yields a value that depends on the literal alone — on no
/// environment, so no evaluation can disturb it — and therefore yields
/// equal values however many times it is evaluated.
pub proof fn lemma_literal_idempotent(
    e: ExprView,
    env1: Map<Seq<char>, ValueView>,
    env2: Map<Seq<char>, ValueView>,
)
    requires
        is_literal(e),
    ensures
        spec_eval(e, env1) is Ok,
        spec_eval(e, env1) == spec_eval(e, env2),
{
}

/// The fatal-stop law: when a program's declaration at position `k` is
/// the first to fail at runtime, running the whole program is running
/// only its first `k + 1` declarations — no binding, no printed line
/// and no evaluation from any later declaration is observed.
pub proof fn lemma_fatal_stop(p: Seq<DeclView>, env: Map<Seq<char>, ValueView>, k: int)
    requires
        0 <= k < p.len(),
        spec_exec(p.take(k + 1), env).error is Some,
    ensures
        spec_exec(p, env) == spec_exec(p.take(k + 1), env),
    decreases k,
{
    let t = p.take(k + 1);
    assert(t[0] == p[0]);
    let first = spec_exec_decl(p[0], env);
    if first.error is Some {
    } else {
        assert(t.skip(1) =~= p.skip(1).take(k));
        if k == 0 {
            assert(t.skip(1) =~= Seq::<DeclView>::empty());
            assert(spec_exec(t.skip(1), first.env).error is None);
            assert(false);
        } else {
            lemma_fatal_stop(p.skip(1), first.env, k - 1);
            assert(spec_exec(p.skip(1), first.env) == spec_exec(t.skip(1), first.env));
        }
    }
}

} // verus!
