//! Searching expressions, rewriting them, and stripping type annotations.
//!
//! The searches and the rewrite take a callback, which stands for a pure Lean
//! function: it accepts every expression, and what they return is stated over
//! any spec function that gives the callback's answers (its model).
use vstd::prelude::*;
use crate::expr::{Expr, Name, clone_expr};
use crate::expr_util::{match_app1_const_arg, match_app2_const_arg1};

verus! {

/// `p` accepts every expression.
pub open spec fn total_pred<F: Fn(&Expr) -> bool>(p: F) -> bool {
    forall|e: &Expr| #[trigger] p.requires((e,))
}

/// `model` is what `p` computes: whatever `p` answers for an expression is
/// what `model` says of it.
pub open spec fn pred_model<F: Fn(&Expr) -> bool>(p: F, model: spec_fn(Expr) -> bool) -> bool {
    forall|e: &Expr, r: bool| #[trigger] p.ensures((e,), r) ==> r == model(*e)
}

/// `x` is `e` or a subexpression of it (levels and names aside).
pub open spec fn is_subterm(x: Expr, e: Expr) -> bool
    decreases e,
{
    x == e || match e {
        Expr::App(f, a) => is_subterm(x, *f) || is_subterm(x, *a),
        Expr::Lam(_, t, b, _) => is_subterm(x, *t) || is_subterm(x, *b),
        Expr::ForallE(_, t, b, _) => is_subterm(x, *t) || is_subterm(x, *b),
        Expr::LetE(_, t, v, b, _) => is_subterm(x, *t) || is_subterm(x, *v) || is_subterm(x, *b),
        Expr::MData(_, b) => is_subterm(x, *b),
        Expr::Proj(_, _, b) => is_subterm(x, *b),
        _ => false,
    }
}

/// The first subexpression of `e`, in pre-order (a node before its
/// children, children left to right), of which `model` holds.
pub open spec fn find_spec(model: spec_fn(Expr) -> bool, e: Expr) -> Option<Expr>
    decreases e,
{
    if model(e) {
        Some(e)
    } else {
        match e {
            Expr::App(f, a) => first_some(find_spec(model, *f), find_spec(model, *a)),
            Expr::Lam(_, t, b, _) => first_some(find_spec(model, *t), find_spec(model, *b)),
            Expr::ForallE(_, t, b, _) => first_some(find_spec(model, *t), find_spec(model, *b)),
            Expr::LetE(_, t, v, b, _) => first_some(
                find_spec(model, *t),
                first_some(find_spec(model, *v), find_spec(model, *b)),
            ),
            Expr::MData(_, b) => find_spec(model, *b),
            Expr::Proj(_, _, b) => find_spec(model, *b),
            _ => None,
        }
    }
}

/// The first of two results that is `Some`.
pub open spec fn first_some(a: Option<Expr>, b: Option<Expr>) -> Option<Expr> {
    match a {
        Some(x) => Some(x),
        None => b,
    }
}

/// The subexpressions of `e` in pre-order: `e` itself, then those of each
/// of its children, from left to right.
pub open spec fn preorder(e: Expr) -> Seq<Expr>
    decreases e,
{
    seq![e] + match e {
        Expr::App(f, a) => preorder(*f) + preorder(*a),
        Expr::Lam(_, t, b, _) => preorder(*t) + preorder(*b),
        Expr::ForallE(_, t, b, _) => preorder(*t) + preorder(*b),
        Expr::LetE(_, t, v, b, _) => preorder(*t) + preorder(*v) + preorder(*b),
        Expr::MData(_, b) => preorder(*b),
        Expr::Proj(_, _, b) => preorder(*b),
        _ => Seq::empty(),
    }
}

/// The first expression of `s` of which `model` holds.
pub open spec fn first_match(model: spec_fn(Expr) -> bool, s: Seq<Expr>) -> Option<Expr>
    decreases s.len(),
{
    if s.len() == 0 {
        None
    } else if model(s[0]) {
        Some(s[0])
    } else {
        first_match(model, s.drop_first())
    }
}

proof fn lemma_first_match_append(model: spec_fn(Expr) -> bool, s1: Seq<Expr>, s2: Seq<Expr>)
    ensures
        first_match(model, s1 + s2) == (match first_match(model, s1) {
            Some(x) => Some(x),
            None => first_match(model, s2),
        }),
    decreases s1.len(),
{
    if s1.len() == 0 {
        assert(s1 + s2 =~= s2);
    } else {
        assert((s1 + s2)[0] == s1[0]);
        assert((s1 + s2).drop_first() =~= s1.drop_first() + s2);
        lemma_first_match_append(model, s1.drop_first(), s2);
    }
}

/// The search gives the first subexpression in pre-order (a node before
/// its children, children from left to right: a binder's type before its
/// body) of which the predicate holds.
pub proof fn lemma_find_is_first_in_preorder(model: spec_fn(Expr) -> bool, e: Expr)
    ensures
        find_spec(model, e) == first_match(model, preorder(e)),
    decreases e,
{
    let rest = preorder(e).drop_first();
    assert(preorder(e)[0] == e);
    assert(preorder(e).len() > 0);
    assert(first_match(model, preorder(e)) == if model(e) {
        Some(e)
    } else {
        first_match(model, rest)
    });
    match e {
        Expr::App(f, a) => {
            lemma_find_is_first_in_preorder(model, *f);
            lemma_find_is_first_in_preorder(model, *a);
            assert(rest =~= preorder(*f) + preorder(*a));
            lemma_first_match_append(model, preorder(*f), preorder(*a));
        },
        Expr::Lam(_, t, b, _) => {
            lemma_find_is_first_in_preorder(model, *t);
            lemma_find_is_first_in_preorder(model, *b);
            assert(rest =~= preorder(*t) + preorder(*b));
            lemma_first_match_append(model, preorder(*t), preorder(*b));
        },
        Expr::ForallE(_, t, b, _) => {
            lemma_find_is_first_in_preorder(model, *t);
            lemma_find_is_first_in_preorder(model, *b);
            assert(rest =~= preorder(*t) + preorder(*b));
            lemma_first_match_append(model, preorder(*t), preorder(*b));
        },
        Expr::LetE(_, t, v, b, _) => {
            lemma_find_is_first_in_preorder(model, *t);
            lemma_find_is_first_in_preorder(model, *v);
            lemma_find_is_first_in_preorder(model, *b);
            assert(rest =~= preorder(*t) + (preorder(*v) + preorder(*b)));
            lemma_first_match_append(model, preorder(*t), preorder(*v) + preorder(*b));
            lemma_first_match_append(model, preorder(*v), preorder(*b));
        },
        Expr::MData(_, b) => {
            lemma_find_is_first_in_preorder(model, *b);
            assert(rest =~= preorder(*b));
        },
        Expr::Proj(_, _, b) => {
            lemma_find_is_first_in_preorder(model, *b);
            assert(rest =~= preorder(*b));
        },
        _ => {
            assert(rest =~= Seq::<Expr>::empty());
            assert(first_match(model, rest) is None);
        },
    }
}

/// The search finds a subexpression of which the predicate holds, and
/// finds nothing exactly when the predicate holds of no subexpression.
pub proof fn lemma_find_spec(model: spec_fn(Expr) -> bool, e: Expr)
    ensures
        find_spec(model, e) matches Some(x) ==> model(x) && is_subterm(x, e),
        find_spec(model, e) is None <==> forall|x: Expr| #[trigger] is_subterm(x, e) ==> !model(x),
    decreases e,
{
    match e {
        Expr::App(f, a) => {
            lemma_find_spec(model, *f);
            lemma_find_spec(model, *a);
        },
        Expr::Lam(_, t, b, _) => {
            lemma_find_spec(model, *t);
            lemma_find_spec(model, *b);
        },
        Expr::ForallE(_, t, b, _) => {
            lemma_find_spec(model, *t);
            lemma_find_spec(model, *b);
        },
        Expr::LetE(_, t, v, b, _) => {
            lemma_find_spec(model, *t);
            lemma_find_spec(model, *v);
            lemma_find_spec(model, *b);
        },
        Expr::MData(_, b) => lemma_find_spec(model, *b),
        Expr::Proj(_, _, b) => lemma_find_spec(model, *b),
        _ => {},
    }
    if find_spec(model, e) is None {
        assert forall|x: Expr| #[trigger] is_subterm(x, e) implies !model(x) by {
            lemma_find_none(model, e, x);
        }
    } else {
        assert(!forall|x: Expr| #[trigger] is_subterm(x, e) ==> !model(x)) by {
            let x = find_spec(model, e)->Some_0;
            assert(is_subterm(x, e));
        }
    }
}

proof fn lemma_find_none(model: spec_fn(Expr) -> bool, e: Expr, x: Expr)
    requires
        find_spec(model, e) is None,
        is_subterm(x, e),
    ensures
        !model(x),
    decreases e,
{
    if x != e {
        match e {
            Expr::App(f, a) => {
                if is_subterm(x, *f) {
                    lemma_find_none(model, *f, x);
                } else {
                    lemma_find_none(model, *a, x);
                }
            },
            Expr::Lam(_, t, b, _) | Expr::ForallE(_, t, b, _) => {
                if is_subterm(x, *t) {
                    lemma_find_none(model, *t, x);
                } else {
                    lemma_find_none(model, *b, x);
                }
            },
            Expr::LetE(_, t, v, b, _) => {
                if is_subterm(x, *t) {
                    lemma_find_none(model, *t, x);
                } else if is_subterm(x, *v) {
                    lemma_find_none(model, *v, x);
                } else {
                    lemma_find_none(model, *b, x);
                }
            },
            Expr::MData(_, b) | Expr::Proj(_, _, b) => lemma_find_none(model, *b, x),
            _ => {},
        }
    }
}

/// The first subexpression of `e`, in pre-order, of which `p` holds.
fn find_go<F: Fn(&Expr) -> bool>(p: &F, e: &Expr) -> (r: Option<Expr>)
    requires
        total_pred(*p),
    ensures
        forall|model: spec_fn(Expr) -> bool| #[trigger] pred_model(*p, model) ==> r == find_spec(
            model,
            *e,
        ),
    decreases e,
{
    let hit = p(e);
    if hit {
        return Some(clone_expr(e));
    }
    match e {
        Expr::App(f, a) => {
            let r = find_go(p, f);
            if r.is_some() {
                r
            } else {
                find_go(p, a)
            }
        },
        Expr::Lam(_, t, b, _) | Expr::ForallE(_, t, b, _) => {
            let r = find_go(p, t);
            if r.is_some() {
                r
            } else {
                find_go(p, b)
            }
        },
        Expr::LetE(_, t, v, b, _) => {
            let r = find_go(p, t);
            if r.is_some() {
                return r;
            }
            let r = find_go(p, v);
            if r.is_some() {
                r
            } else {
                find_go(p, b)
            }
        },
        Expr::MData(_, b) | Expr::Proj(_, _, b) => find_go(p, b),
        _ => None,
    }
}

/// The first subexpression of `e`, in pre-order, of which `p` holds, or
/// `None` (stated over any `model` of `p`).
pub fn lean_find_expr_rs<F: Fn(&Expr) -> bool>(p: &F, e: &Expr) -> (r: Option<Expr>)
    requires
        total_pred(*p),
    ensures
        forall|model: spec_fn(Expr) -> bool| #[trigger] pred_model(*p, model) ==> r == find_spec(
            model,
            *e,
        ),
{
    find_go(p, e)
}

/// What the callback of an extended search says of an expression.
#[derive(Clone, Copy, PartialEq, Eq, Structural, Debug)]
pub enum FindStep {
    /// The expression is the one searched for.
    Found,
    /// Search its children.
    Visit,
    /// Skip it and its children.
    Done,
}

/// `p` accepts every expression.
pub open spec fn total_step<F: Fn(&Expr) -> FindStep>(p: F) -> bool {
    forall|e: &Expr| #[trigger] p.requires((e,))
}

/// `model` is what `p` computes.
pub open spec fn step_model<F: Fn(&Expr) -> FindStep>(p: F, model: spec_fn(Expr) -> FindStep) -> bool {
    forall|e: &Expr, r: FindStep| #[trigger] p.ensures((e,), r) ==> r == model(*e)
}

/// The extended search: the first subexpression of `e` that `model` says
/// is found, skipping what it says is done; the partial applications of an
/// application spine are not asked about, only its head and arguments.
pub open spec fn find_ext_spec(model: spec_fn(Expr) -> FindStep, e: Expr) -> Option<Expr>
    decreases e, 0nat,
{
    match model(e) {
        FindStep::Found => Some(e),
        FindStep::Done => None,
        FindStep::Visit => match e {
            Expr::App(f, a) => first_some(find_ext_app_fn_spec(model, *f), find_ext_spec(model, *a)),
            Expr::Lam(_, t, b, _) => first_some(find_ext_spec(model, *t), find_ext_spec(model, *b)),
            Expr::ForallE(_, t, b, _) => first_some(
                find_ext_spec(model, *t),
                find_ext_spec(model, *b),
            ),
            Expr::LetE(_, t, v, b, _) => first_some(
                find_ext_spec(model, *t),
                first_some(find_ext_spec(model, *v), find_ext_spec(model, *b)),
            ),
            Expr::MData(_, b) => find_ext_spec(model, *b),
            Expr::Proj(_, _, b) => find_ext_spec(model, *b),
            _ => None,
        },
    }
}

/// The extended search over the function part of an application: the
/// arguments along the spine, and then its head.
pub open spec fn find_ext_app_fn_spec(model: spec_fn(Expr) -> FindStep, e: Expr) -> Option<Expr>
    decreases e, 1nat,
{
    match e {
        Expr::App(f, a) => first_some(find_ext_app_fn_spec(model, *f), find_ext_spec(model, *a)),
        _ => find_ext_spec(model, e),
    }
}

/// The extended search finds only a subexpression that the step function
/// says is found.
pub proof fn lemma_find_ext_spec(model: spec_fn(Expr) -> FindStep, e: Expr)
    ensures
        find_ext_spec(model, e) matches Some(x) ==> model(x) == FindStep::Found && is_subterm(x, e),
    decreases e, 0nat,
{
    if model(e) == FindStep::Visit {
        match e {
            Expr::App(f, a) => {
                lemma_find_ext_app_fn_spec(model, *f);
                lemma_find_ext_spec(model, *a);
            },
            Expr::Lam(_, t, b, _) => {
                lemma_find_ext_spec(model, *t);
                lemma_find_ext_spec(model, *b);
            },
            Expr::ForallE(_, t, b, _) => {
                lemma_find_ext_spec(model, *t);
                lemma_find_ext_spec(model, *b);
            },
            Expr::LetE(_, t, v, b, _) => {
                lemma_find_ext_spec(model, *t);
                lemma_find_ext_spec(model, *v);
                lemma_find_ext_spec(model, *b);
            },
            Expr::MData(_, b) => lemma_find_ext_spec(model, *b),
            Expr::Proj(_, _, b) => lemma_find_ext_spec(model, *b),
            _ => {},
        }
    }
}

proof fn lemma_find_ext_app_fn_spec(model: spec_fn(Expr) -> FindStep, e: Expr)
    ensures
        find_ext_app_fn_spec(model, e) matches Some(x) ==> model(x) == FindStep::Found && is_subterm(
            x,
            e,
        ),
    decreases e, 1nat,
{
    match e {
        Expr::App(f, a) => {
            lemma_find_ext_app_fn_spec(model, *f);
            lemma_find_ext_spec(model, *a);
        },
        _ => lemma_find_ext_spec(model, e),
    }
}

fn find_ext_go<F: Fn(&Expr) -> FindStep>(p: &F, e: &Expr) -> (r: Option<Expr>)
    requires
        total_step(*p),
    ensures
        forall|model: spec_fn(Expr) -> FindStep| #[trigger] step_model(*p, model) ==> r
            == find_ext_spec(model, *e),
    decreases e, 0nat,
{
    match p(e) {
        FindStep::Found => {
            return Some(clone_expr(e));
        },
        FindStep::Done => {
            return None;
        },
        FindStep::Visit => {},
    }
    match e {
        Expr::App(f, a) => {
            let r = find_ext_app_fn(p, f);
            if r.is_some() {
                r
            } else {
                find_ext_go(p, a)
            }
        },
        Expr::Lam(_, t, b, _) | Expr::ForallE(_, t, b, _) => {
            let r = find_ext_go(p, t);
            if r.is_some() {
                r
            } else {
                find_ext_go(p, b)
            }
        },
        Expr::LetE(_, t, v, b, _) => {
            let r = find_ext_go(p, t);
            if r.is_some() {
                return r;
            }
            let r = find_ext_go(p, v);
            if r.is_some() {
                r
            } else {
                find_ext_go(p, b)
            }
        },
        Expr::MData(_, b) | Expr::Proj(_, _, b) => find_ext_go(p, b),
        _ => None,
    }
}

fn find_ext_app_fn<F: Fn(&Expr) -> FindStep>(p: &F, e: &Expr) -> (r: Option<Expr>)
    requires
        total_step(*p),
    ensures
        forall|model: spec_fn(Expr) -> FindStep| #[trigger] step_model(*p, model) ==> r
            == find_ext_app_fn_spec(model, *e),
    decreases e, 1nat,
{
    match e {
        Expr::App(f, a) => {
            let r = find_ext_app_fn(p, f);
            if r.is_some() {
                r
            } else {
                find_ext_go(p, a)
            }
        },
        _ => find_ext_go(p, e),
    }
}

/// The extended search of `e` with `p`, or `None` (stated over any `model`
/// of `p`).
pub fn lean_find_ext_expr_rs<F: Fn(&Expr) -> FindStep>(p: &F, e: &Expr) -> (r: Option<Expr>)
    requires
        total_step(*p),
    ensures
        forall|model: spec_fn(Expr) -> FindStep| #[trigger] step_model(*p, model) ==> r
            == find_ext_spec(model, *e),
{
    find_ext_go(p, e)
}

/// `f` accepts every expression.
pub open spec fn total_rewrite<F: Fn(&Expr) -> Option<Expr>>(f: F) -> bool {
    forall|e: &Expr| #[trigger] f.requires((e,))
}

/// `model` is what `f` computes.
pub open spec fn rewrite_model<F: Fn(&Expr) -> Option<Expr>>(
    f: F,
    model: spec_fn(Expr) -> Option<Expr>,
) -> bool {
    forall|e: &Expr, r: Option<Expr>| #[trigger] f.ensures((e,), r) ==> r == model(*e)
}

/// `e` rewritten by `model`, top down: where `model` gives a replacement it
/// is taken as it is, elsewhere the children are rewritten.
pub open spec fn replace_spec(model: spec_fn(Expr) -> Option<Expr>, e: Expr) -> Expr
    decreases e,
{
    match model(e) {
        Some(x) => x,
        None => match e {
            Expr::App(g, a) => Expr::App(
                Box::new(replace_spec(model, *g)),
                Box::new(replace_spec(model, *a)),
            ),
            Expr::Lam(n, t, b, bi) => Expr::Lam(
                n,
                Box::new(replace_spec(model, *t)),
                Box::new(replace_spec(model, *b)),
                bi,
            ),
            Expr::ForallE(n, t, b, bi) => Expr::ForallE(
                n,
                Box::new(replace_spec(model, *t)),
                Box::new(replace_spec(model, *b)),
                bi,
            ),
            Expr::LetE(n, t, v, b, nd) => Expr::LetE(
                n,
                Box::new(replace_spec(model, *t)),
                Box::new(replace_spec(model, *v)),
                Box::new(replace_spec(model, *b)),
                nd,
            ),
            Expr::MData(m, b) => Expr::MData(m, Box::new(replace_spec(model, *b))),
            Expr::Proj(n, k, b) => Expr::Proj(n, k, Box::new(replace_spec(model, *b))),
            _ => e,
        },
    }
}

/// Where the rewrite answers at the root, that answer is the result; where
/// it answers `None` on every subexpression, the expression comes back
/// unchanged.
pub proof fn lemma_replace_spec(model: spec_fn(Expr) -> Option<Expr>, e: Expr)
    ensures
        model(e) matches Some(x) ==> replace_spec(model, e) == x,
        (forall|x: Expr| #[trigger] is_subterm(x, e) ==> model(x) is None) ==> replace_spec(model, e)
            == e,
    decreases e,
{
    if forall|x: Expr| #[trigger] is_subterm(x, e) ==> model(x) is None {
        assert(is_subterm(e, e));
        match e {
            Expr::App(g, a) => {
                assert forall|x: Expr| #[trigger] is_subterm(x, *g) implies model(x) is None by {
                    assert(is_subterm(x, e));
                }
                assert forall|x: Expr| #[trigger] is_subterm(x, *a) implies model(x) is None by {
                    assert(is_subterm(x, e));
                }
                lemma_replace_spec(model, *g);
                lemma_replace_spec(model, *a);
            },
            Expr::Lam(_, t, b, _) | Expr::ForallE(_, t, b, _) => {
                assert forall|x: Expr| #[trigger] is_subterm(x, *t) implies model(x) is None by {
                    assert(is_subterm(x, e));
                }
                assert forall|x: Expr| #[trigger] is_subterm(x, *b) implies model(x) is None by {
                    assert(is_subterm(x, e));
                }
                lemma_replace_spec(model, *t);
                lemma_replace_spec(model, *b);
            },
            Expr::LetE(_, t, v, b, _) => {
                assert forall|x: Expr| #[trigger] is_subterm(x, *t) implies model(x) is None by {
                    assert(is_subterm(x, e));
                }
                assert forall|x: Expr| #[trigger] is_subterm(x, *v) implies model(x) is None by {
                    assert(is_subterm(x, e));
                }
                assert forall|x: Expr| #[trigger] is_subterm(x, *b) implies model(x) is None by {
                    assert(is_subterm(x, e));
                }
                lemma_replace_spec(model, *t);
                lemma_replace_spec(model, *v);
                lemma_replace_spec(model, *b);
            },
            Expr::MData(_, b) | Expr::Proj(_, _, b) => {
                assert forall|x: Expr| #[trigger] is_subterm(x, *b) implies model(x) is None by {
                    assert(is_subterm(x, e));
                }
                lemma_replace_spec(model, *b);
            },
            _ => {},
        }
    }
}

/// A top-down rewrite by a callback.
pub struct ReplaceExpr<'a, F: Fn(&Expr) -> Option<Expr>> {
    pub callback: &'a F,
}

impl<'a, F: Fn(&Expr) -> Option<Expr>> ReplaceExpr<'a, F> {
    /// The rewrite by `callback`.
    pub fn new(callback: &'a F) -> (r: Self)
        ensures
            r.callback == callback,
    {
        ReplaceExpr { callback }
    }

    /// `e` rewritten by the callback (stated over any `model` of it).
    pub fn apply(&self, e: Expr) -> (r: Expr)
        requires
            total_rewrite(*self.callback),
        ensures
            forall|model: spec_fn(Expr) -> Option<Expr>| #[trigger] rewrite_model(
                *self.callback,
                model,
            ) ==> r == replace_spec(model, e),
        decreases e,
    {
        let res = (self.callback)(&e);
        match res {
            Some(x) => x,
            None => match e {
                Expr::App(g, a) => {
                    let g_new = self.apply(*g);
                    let a_new = self.apply(*a);
                    Expr::App(Box::new(g_new), Box::new(a_new))
                },
                Expr::Lam(n, t, b, bi) => {
                    let t_new = self.apply(*t);
                    let b_new = self.apply(*b);
                    Expr::Lam(n, Box::new(t_new), Box::new(b_new), bi)
                },
                Expr::ForallE(n, t, b, bi) => {
                    let t_new = self.apply(*t);
                    let b_new = self.apply(*b);
                    Expr::ForallE(n, Box::new(t_new), Box::new(b_new), bi)
                },
                Expr::LetE(n, t, v, b, nd) => {
                    let t_new = self.apply(*t);
                    let v_new = self.apply(*v);
                    let b_new = self.apply(*b);
                    Expr::LetE(n, Box::new(t_new), Box::new(v_new), Box::new(b_new), nd)
                },
                Expr::MData(m, b) => {
                    let b_new = self.apply(*b);
                    Expr::MData(m, Box::new(b_new))
                },
                Expr::Proj(n, k, b) => {
                    let b_new = self.apply(*b);
                    Expr::Proj(n, k, Box::new(b_new))
                },
                _ => e,
            },
        }
    }
}

/// `e` rewritten top down by `f` (stated over any `model` of `f`).
pub fn lean_replace_expr_rs<F: Fn(&Expr) -> Option<Expr>>(f: &F, e: Expr) -> (r: Expr)
    requires
        total_rewrite(*f),
    ensures
        forall|model: spec_fn(Expr) -> Option<Expr>| #[trigger] rewrite_model(*f, model) ==> r
            == replace_spec(model, e),
{
    let replacer = ReplaceExpr::new(f);
    replacer.apply(e)
}

/// The names of the four type annotations: `optParam`, `autoParam`,
/// `outParam` and `semiOutParam`.
#[derive(Clone, Copy, PartialEq, Eq, Structural, Debug)]
pub struct TypeAnnotationNames {
    pub opt_param: Name,
    pub auto_param: Name,
    pub out_param: Name,
    pub semi_out_param: Name,
}

/// Whether `f`, the function part of an application, is `optParam T` or
/// `autoParam T`: the application is then an annotation of two arguments.
pub open spec fn is_annotation2_fn(f: Expr, names: TypeAnnotationNames) -> bool {
    match f {
        Expr::App(g, _) => match *g {
            Expr::Const(n, _) => n == names.opt_param || n == names.auto_param,
            _ => false,
        },
        _ => false,
    }
}

/// Whether `f`, the function part of an application, is the constant
/// `outParam` or `semiOutParam`: the application is then an annotation of
/// one argument.
pub open spec fn is_annotation1_fn(f: Expr, names: TypeAnnotationNames) -> bool {
    match f {
        Expr::Const(n, _) => n == names.out_param || n == names.semi_out_param,
        _ => false,
    }
}

/// `e` with every type annotation around it removed: `optParam T d`,
/// `autoParam T t`, `outParam T` and `semiOutParam T` all stand for `T`.
pub open spec fn consume_type_annotations_spec(e: Expr, names: TypeAnnotationNames) -> Expr
    decreases e,
{
    match e {
        Expr::App(f, a) => if is_annotation2_fn(*f, names) {
            match *f {
                Expr::App(_, t) => consume_type_annotations_spec(*t, names),
                _ => e,
            }
        } else if is_annotation1_fn(*f, names) {
            consume_type_annotations_spec(*a, names)
        } else {
            e
        },
        _ => e,
    }
}

/// Whether `e` is a type annotation: `optParam T d`, `autoParam T t`,
/// `outParam T` or `semiOutParam T`.
pub open spec fn is_type_annotation(e: Expr, names: TypeAnnotationNames) -> bool {
    match e {
        Expr::App(f, _) => is_annotation2_fn(*f, names) || is_annotation1_fn(*f, names),
        _ => false,
    }
}

/// Stripping type annotations leaves none at the head, leaves an
/// expression that is no annotation as it is, and so stripping twice is
/// stripping once.
pub proof fn lemma_consume_type_annotations(e: Expr, names: TypeAnnotationNames)
    ensures
        !is_type_annotation(consume_type_annotations_spec(e, names), names),
        !is_type_annotation(e, names) ==> consume_type_annotations_spec(e, names) == e,
        consume_type_annotations_spec(consume_type_annotations_spec(e, names), names)
            == consume_type_annotations_spec(e, names),
    decreases e,
{
    match e {
        Expr::App(f, a) => {
            if is_annotation2_fn(*f, names) {
                match *f {
                    Expr::App(_, t) => lemma_consume_type_annotations(*t, names),
                    _ => {},
                }
            } else if is_annotation1_fn(*f, names) {
                lemma_consume_type_annotations(*a, names);
            }
        },
        _ => {},
    }
}

/// Which annotation `e` is, if any: 2 for an annotation of two arguments
/// (`optParam`, `autoParam`), 1 for one of one argument (`outParam`,
/// `semiOutParam`), 0 for none.
fn annotation_arity(e: &Expr, names: &TypeAnnotationNames) -> (r: u8)
    ensures
        r == (match *e {
            Expr::App(f, _) => if is_annotation2_fn(*f, *names) {
                2u8
            } else if is_annotation1_fn(*f, *names) {
                1u8
            } else {
                0u8
            },
            _ => 0u8,
        }),
{
    if match_app2_const_arg1(e, names.opt_param).is_some() || match_app2_const_arg1(
        e,
        names.auto_param,
    ).is_some() {
        2
    } else if match_app1_const_arg(e, names.out_param).is_some() || match_app1_const_arg(
        e,
        names.semi_out_param,
    ).is_some() {
        1
    } else {
        0
    }
}

/// `e` with every type annotation around it removed: `optParam T d`,
/// `autoParam T t`, `outParam T` and `semiOutParam T` all give way to `T`.
pub fn lean_expr_consume_type_annotations_rs(e: Expr, names: &TypeAnnotationNames) -> (r: Expr)
    ensures
        r == consume_type_annotations_spec(e, *names),
    decreases e,
{
    let arity = annotation_arity(&e, names);
    if arity == 0 {
        return e;
    }
    match e {
        Expr::App(f, a) => {
            if arity == 2 {
                match *f {
                    Expr::App(_, arg) => lean_expr_consume_type_annotations_rs(*arg, names),
                    _ => {
                        proof {
                            assert(false);
                        }
                        Expr::BVar(0)
                    },
                }
            } else {
                lean_expr_consume_type_annotations_rs(*a, names)
            }
        },
        _ => e,
    }
}

} // verus!
