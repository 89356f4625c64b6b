//! The first steps of type inference and weak head normalization.
//!
//! What the local context answers for the type of a free variable, and the
//! environment for the type of a constant, the checker holds as tables of
//! (name, type) pairs: the first entry for a name is the answer, none means
//! the name is unknown.
use vstd::prelude::*;
use crate::expr::{BinderInfo, Expr, Level, Name, clone_expr, clone_level, wf_expr};
use crate::bvars::{lift_spec, lift_ok, lift_loose_bvars};
use crate::instantiate::all_wf;
use crate::mctx::lookup;
use crate::environment::Environment;
use crate::local_ctx::LocalCtx;
use crate::declaration::DefinitionSafety;
use crate::equality::lean_expr_equal_rs;

verus! {

/// The type of the loose bound variable `i` in the binder context `ctx`
/// (the types of the binders crossed, innermost last): that binder's type,
/// lifted over the `i + 1` binders between it and the variable.
pub open spec fn bvar_type(ctx: Seq<Expr>, i: nat) -> Option<Expr> {
    if i < ctx.len() {
        Some(lift_spec(ctx[ctx.len() - 1 - i], 0, i + 1, 0))
    } else {
        None
    }
}

/// The inferred type of `e` under the binders of `ctx`:
/// - `Sort u @ h : Sort (u+1) @ h`;
/// - a `forall x : A, B` whose domain has type `Sort u @ h` and whose body
///   (under `A`) has type `Sort v @ k`, each once metadata is removed from
///   its head, has type `Sort (imax u v) @ max h k`;
/// - a free variable or a constant has its looked-up type, a bound
///   variable the type of its binder, metadata the type of what it wraps;
/// `None` for every other kind, which is not inferred yet, and for a
/// `forall` whose domain or body is not a sort.
pub open spec fn infer_spec(
    e: Expr,
    ctx: Seq<Expr>,
    fvar_types: Seq<(Name, Expr)>,
    const_types: Seq<(Name, Expr)>,
) -> Option<Expr>
    decreases e,
{
    match e {
        Expr::MData(_, b) => infer_spec(*b, ctx, fvar_types, const_types),
        Expr::FVar(n) => lookup(fvar_types, n),
        Expr::BVar(i) => bvar_type(ctx, i as nat),
        Expr::Sort(u, h) => Some(Expr::Sort(Level::Succ(Box::new(u)), h)),
        Expr::Const(n, _) => lookup(const_types, n),
        Expr::ForallE(_, a, b, _) => match infer_spec(*a, ctx, fvar_types, const_types) {
            Some(ta) => match whnf_core_spec(ta) {
                Expr::Sort(u, h) => match infer_spec(*b, ctx.push(*a), fvar_types, const_types) {
                    Some(tb) => match whnf_core_spec(tb) {
                        Expr::Sort(v, k) => Some(
                            Expr::Sort(
                                Level::IMax(Box::new(u), Box::new(v)),
                                Level::Max(Box::new(h), Box::new(k)),
                            ),
                        ),
                        _ => None,
                    },
                    None => None,
                },
                _ => None,
            },
            None => None,
        },
        _ => None,
    }
}

/// A loose bound variable `i` is typed by the binder `i` places out from
/// the innermost (the last of `ctx`), its type lifted over the `i + 1`
/// binders between that binder and the variable; past the binders crossed
/// it has no type.  In particular the variable a binder binds has, right
/// under it, the binder's type lifted by one.
pub proof fn lemma_bvar_typed_by_its_binder(
    i: nat,
    ctx: Seq<Expr>,
    fvar_types: Seq<(Name, Expr)>,
    const_types: Seq<(Name, Expr)>,
    a: Expr,
)
    requires
        i <= u64::MAX,
    ensures
        i < ctx.len() ==> infer_spec(Expr::BVar(i as u64), ctx, fvar_types, const_types) == Some(
            lift_spec(ctx[ctx.len() - 1 - i], 0, i + 1, 0),
        ),
        i >= ctx.len() ==> infer_spec(Expr::BVar(i as u64), ctx, fvar_types, const_types) is None,
        infer_spec(Expr::BVar(0), ctx.push(a), fvar_types, const_types) == Some(lift_spec(a, 0, 1, 0)),
{
    assert(ctx.push(a)[ctx.push(a).len() - 1 - 0] == a);
}

/// A sort is typed by the next universe at the same hierarchy level.
pub proof fn lemma_sort_typed_by_next_universe(
    u: Level,
    h: Level,
    ctx: Seq<Expr>,
    fvar_types: Seq<(Name, Expr)>,
    const_types: Seq<(Name, Expr)>,
)
    ensures
        infer_spec(Expr::Sort(u, h), ctx, fvar_types, const_types) == Some(
            Expr::Sort(Level::Succ(Box::new(u)), h),
        ),
{
}

/// The Pi rule with hierarchy levels, for sorts: when `A : Sort u @ h` and
/// `B : Sort v @ k`, `forall x : A, B : Sort (imax u v) @ (max h k)`.  For
/// `A = Sort a @ h` and `B = Sort b @ k` that is `Sort (imax (a+1) (b+1)) @
/// (max h k)`; for `A = Sort a @ h` and `B = x` (the bound variable, of type
/// `A`) it is `Sort (imax (a+1) a) @ (max h h)`.
pub proof fn lemma_pi_over_sorts(
    n: Name,
    a: Level,
    h: Level,
    b: Level,
    k: Level,
    bi: BinderInfo,
    ctx: Seq<Expr>,
    fvar_types: Seq<(Name, Expr)>,
    const_types: Seq<(Name, Expr)>,
)
    ensures
        infer_spec(
            Expr::ForallE(n, Box::new(Expr::Sort(a, h)), Box::new(Expr::Sort(b, k)), bi),
            ctx,
            fvar_types,
            const_types,
        ) == Some(
            Expr::Sort(
                Level::IMax(Box::new(Level::Succ(Box::new(a))), Box::new(Level::Succ(Box::new(b)))),
                Level::Max(Box::new(h), Box::new(k)),
            ),
        ),
        infer_spec(
            Expr::ForallE(n, Box::new(Expr::Sort(a, h)), Box::new(Expr::BVar(0)), bi),
            ctx,
            fvar_types,
            const_types,
        ) == Some(
            Expr::Sort(
                Level::IMax(Box::new(Level::Succ(Box::new(a))), Box::new(a)),
                Level::Max(Box::new(h), Box::new(h)),
            ),
        ),
{
    let dom = Expr::Sort(a, h);
    let inner = ctx.push(dom);
    let ta = Expr::Sort(Level::Succ(Box::new(a)), h);
    assert(infer_spec(dom, ctx, fvar_types, const_types) == Some(ta));
    assert(whnf_core_spec(ta) == ta);
    let tb = Expr::Sort(Level::Succ(Box::new(b)), k);
    assert(infer_spec(Expr::Sort(b, k), inner, fvar_types, const_types) == Some(tb));
    assert(whnf_core_spec(tb) == tb);
    assert(inner[inner.len() - 1 - 0] == dom);
    assert(lift_spec(dom, 0, 1, 0) == dom);
    assert(infer_spec(Expr::BVar(0), inner, fvar_types, const_types) == Some(dom));
    assert(whnf_core_spec(dom) == dom);
}

/// Every free variable and constant that inference looks up is known, and
/// every binder type it lifts stays within the bound on indices.
pub open spec fn infer_ok(
    e: Expr,
    ctx: Seq<Expr>,
    fvar_types: Seq<(Name, Expr)>,
    const_types: Seq<(Name, Expr)>,
) -> bool
    decreases e,
{
    match e {
        Expr::MData(_, b) => infer_ok(*b, ctx, fvar_types, const_types),
        Expr::FVar(n) => lookup(fvar_types, n) is Some,
        Expr::Const(n, _) => lookup(const_types, n) is Some,
        Expr::BVar(i) => i < ctx.len() ==> lift_ok(ctx[ctx.len() - 1 - i], 0, (i + 1) as nat, 0),
        Expr::ForallE(_, a, b, _) => infer_ok(*a, ctx, fvar_types, const_types) && (match infer_spec(
            *a,
            ctx,
            fvar_types,
            const_types,
        ) {
            Some(ta) => whnf_core_spec(ta) is Sort ==> infer_ok(
                *b,
                ctx.push(*a),
                fvar_types,
                const_types,
            ),
            None => true,
        }),
        _ => true,
    }
}

/// `e` in weak head normal form as far as this checker goes: metadata
/// removed from the head.
pub open spec fn whnf_core_spec(e: Expr) -> Expr
    decreases e,
{
    match e {
        Expr::MData(_, b) => whnf_core_spec(*b),
        _ => e,
    }
}

/// A type checker for one environment and local context.
pub struct TypeChecker<'a> {
    pub env: Environment<'a>,
    pub lctx: LocalCtx<'a>,
    pub safety: DefinitionSafety,
    /// What the local context gives as the type of each free variable.
    pub fvar_types: Vec<(Name, Expr)>,
    /// What the environment gives as the type of each constant.
    pub const_types: Vec<(Name, Expr)>,
    /// Types already inferred, as (expression, type) pairs: `.0` for
    /// checking inference, `.1` for inference only.
    pub infer_cache: (Vec<(Expr, Expr)>, Vec<(Expr, Expr)>),
    /// Weak head normal forms already computed (this checker fills none yet).
    pub whnf_core_cache: Vec<(Expr, Expr)>,
    /// Weak head normal forms with unfolding (this checker fills none yet).
    pub whnf_cache: Vec<(Expr, Expr)>,
}

/// Every entry of `cache` pairs an expression with its inferred type.
pub open spec fn infer_cache_ok(
    cache: Seq<(Expr, Expr)>,
    fvar_types: Seq<(Name, Expr)>,
    const_types: Seq<(Name, Expr)>,
) -> bool {
    forall|i: int|
        0 <= i < cache.len() ==> infer_spec(#[trigger] cache[i].0, Seq::empty(), fvar_types, const_types)
            == Some(cache[i].1)
}

impl<'a> TypeChecker<'a> {
    /// The caches hold only what inference gives.
    pub open spec fn caches_ok(&self) -> bool {
        &&& infer_cache_ok(self.infer_cache.0@, self.fvar_types@, self.const_types@)
        &&& infer_cache_ok(self.infer_cache.1@, self.fvar_types@, self.const_types@)
        &&& forall|i: int|
            0 <= i < self.whnf_core_cache@.len() ==> whnf_core_spec(
                #[trigger] self.whnf_core_cache@[i].0,
            ) == self.whnf_core_cache@[i].1
    }

    /// The type checker of `env` and `lctx` at safety `safety`, where free
    /// variables have the types that `fvar_types` gives and constants those
    /// that `const_types` gives; its caches are empty.
    pub fn new(
        env: Environment<'a>,
        lctx: LocalCtx<'a>,
        safety: DefinitionSafety,
        fvar_types: Vec<(Name, Expr)>,
        const_types: Vec<(Name, Expr)>,
    ) -> (r: Self)
        ensures
            r.env == env,
            r.lctx == lctx,
            r.safety == safety,
            r.fvar_types@ == fvar_types@,
            r.const_types@ == const_types@,
            r.infer_cache.0@.len() == 0,
            r.infer_cache.1@.len() == 0,
            r.whnf_core_cache@.len() == 0,
            r.whnf_cache@.len() == 0,
            r.caches_ok(),
    {
        TypeChecker {
            env,
            lctx,
            safety,
            fvar_types,
            const_types,
            infer_cache: (Vec::new(), Vec::new()),
            whnf_core_cache: Vec::new(),
            whnf_cache: Vec::new(),
        }
    }

    /// The inferred type of `e`, without checking it.
    pub fn infer_type(&mut self, e: &Expr) -> (r: Option<Expr>)
        requires
            old(self).caches_ok(),
            wf_expr(*e),
            infer_ok(*e, Seq::empty(), old(self).fvar_types@, old(self).const_types@),
        ensures
            r == infer_spec(*e, Seq::empty(), old(self).fvar_types@, old(self).const_types@),
            final(self).caches_ok(),
            final(self).env == old(self).env,
            final(self).lctx == old(self).lctx,
            final(self).safety == old(self).safety,
            final(self).fvar_types@ == old(self).fvar_types@,
            final(self).const_types@ == old(self).const_types@,
            final(self).whnf_core_cache@ == old(self).whnf_core_cache@,
            final(self).whnf_cache@ == old(self).whnf_cache@,
            final(self).infer_cache.0@ == old(self).infer_cache.0@,
            old(self).infer_cache.1@.is_prefix_of(final(self).infer_cache.1@),
    {
        self.infer_type_core(e, true)
    }

    /// The inferred type of `e` (see `infer_spec`): taken from the cache of
    /// its mode (inference only, or checking) when it is there, else
    /// computed and, when it is a type, added to that cache.
    pub fn infer_type_core(&mut self, e: &Expr, infer_only: bool) -> (r: Option<Expr>)
        requires
            old(self).caches_ok(),
            wf_expr(*e),
            infer_ok(*e, Seq::empty(), old(self).fvar_types@, old(self).const_types@),
        ensures
            r == infer_spec(*e, Seq::empty(), old(self).fvar_types@, old(self).const_types@),
            final(self).caches_ok(),
            final(self).env == old(self).env,
            final(self).lctx == old(self).lctx,
            final(self).safety == old(self).safety,
            final(self).fvar_types@ == old(self).fvar_types@,
            final(self).const_types@ == old(self).const_types@,
            final(self).whnf_core_cache@ == old(self).whnf_core_cache@,
            final(self).whnf_cache@ == old(self).whnf_cache@,
            infer_only ==> final(self).infer_cache.0@ == old(self).infer_cache.0@,
            !infer_only ==> final(self).infer_cache.1@ == old(self).infer_cache.1@,
            old(self).infer_cache.0@.is_prefix_of(final(self).infer_cache.0@),
            old(self).infer_cache.1@.is_prefix_of(final(self).infer_cache.1@),
            r is Some ==> (if infer_only {
                final(self).infer_cache.1@
            } else {
                final(self).infer_cache.0@
            }).contains((*e, r->Some_0)),
        decreases e,
    {
        let cached = if infer_only {
            cache_find(&self.infer_cache.1, e)
        } else {
            cache_find(&self.infer_cache.0, e)
        };
        if let Some(t) = cached {
            proof {
                let c = if infer_only {
                    self.infer_cache.1@
                } else {
                    self.infer_cache.0@
                };
                let i = choose|i: int| 0 <= i < c.len() && c[i] == (*e, t);
                assert(infer_spec(c[i].0, Seq::empty(), self.fvar_types@, self.const_types@) == Some(
                    c[i].1,
                ));
            }
            return Some(t);
        }
        let r = match e {
            Expr::MData(_, b) => self.infer_type_core(b, infer_only),
            _ => {
                let ctx: Vec<Expr> = Vec::new();
                proof {
                    assert(ctx@ =~= Seq::<Expr>::empty());
                }
                self.infer_under(e, &ctx, infer_only)
            },
        };
        if let Some(t) = &r {
            if infer_only {
                self.infer_cache.1.push((clone_expr(e), clone_expr(t)));
                proof {
                    assert(self.infer_cache.1@[self.infer_cache.1@.len() - 1] == (*e, *t));
                }
            } else {
                self.infer_cache.0.push((clone_expr(e), clone_expr(t)));
                proof {
                    assert(self.infer_cache.0@[self.infer_cache.0@.len() - 1] == (*e, *t));
                }
            }
        }
        r
    }

    /// The inferred type of `e` under binders whose types `ctx` holds,
    /// innermost last.
    fn infer_under(
        &self,
        e: &Expr,
        ctx: &Vec<Expr>,
        infer_only: bool,
    ) -> (r: Option<Expr>)
        requires
            wf_expr(*e),
            all_wf(ctx@),
            infer_ok(*e, ctx@, self.fvar_types@, self.const_types@),
        ensures
            r == infer_spec(*e, ctx@, self.fvar_types@, self.const_types@),
        decreases e,
    {
        match e {
            Expr::MData(_, b) => self.infer_under(b, ctx, infer_only),
            Expr::FVar(n) => {
                find_type(&self.fvar_types, *n)
            },
            Expr::BVar(i) => {
                let len = ctx.len();
                if (*i as usize) < len {
                    let j = len - 1 - (*i as usize);
                    proof {
                        assert(wf_expr(ctx@[j as int]));
                    }
                    Some(lift_loose_bvars(clone_expr(&ctx[j]), 0, (*i + 1) as u32))
                } else {
                    None
                }
            },
            Expr::Sort(u, h) => Some(
                Expr::Sort(Level::Succ(Box::new(clone_level(u))), clone_level(h)),
            ),
            Expr::Const(n, _) => {
                find_type(&self.const_types, *n)
            },
            Expr::ForallE(_, a, b, _) => {
                let ta = match self.infer_under(a, ctx, infer_only) {
                    Some(t) => self.whnf_core(&t),
                    None => {
                        return None;
                    },
                };
                let (u, h) = match ta {
                    Expr::Sort(u, h) => (u, h),
                    _ => {
                        return None;
                    },
                };
                let mut inner = clone_exprs(ctx);
                inner.push(clone_expr(a));
                proof {
                    assert forall|k: int| 0 <= k < inner@.len() implies #[trigger] wf_expr(
                        inner@[k],
                    ) by {
                        if k < ctx@.len() {
                            assert(inner@[k] == ctx@[k]);
                        }
                    }
                }
                let tb = match self.infer_under(b, &inner, infer_only) {
                    Some(t) => self.whnf_core(&t),
                    None => {
                        return None;
                    },
                };
                match tb {
                    Expr::Sort(v, k) => Some(
                        Expr::Sort(
                            Level::IMax(Box::new(u), Box::new(v)),
                            Level::Max(Box::new(h), Box::new(k)),
                        ),
                    ),
                    _ => None,
                }
            },
            _ => None,
        }
    }

    /// `e` with metadata removed from its head.
    pub fn whnf_core(&self, e: &Expr) -> (r: Expr)
        ensures
            r == whnf_core_spec(*e),
        decreases e,
    {
        match e {
            Expr::MData(_, b) => self.whnf_core(b),
            _ => clone_expr(e),
        }
    }
}

/// A copy of a vector of expressions.
fn clone_exprs(v: &Vec<Expr>) -> (r: Vec<Expr>)
    ensures
        r@ == v@,
{
    let mut r: Vec<Expr> = Vec::new();
    let mut i: usize = 0;
    while i < v.len()
        invariant
            i <= v@.len(),
            r@ == v@.subrange(0, i as int),
        decreases v@.len() - i,
    {
        r.push(clone_expr(&v[i]));
        i += 1;
        proof {
            assert(r@ =~= v@.subrange(0, i as int));
        }
    }
    proof {
        assert(v@.subrange(0, v@.len() as int) =~= v@);
    }
    r
}

/// The type that `cache` holds for `e`, if it holds one.
fn cache_find(cache: &Vec<(Expr, Expr)>, e: &Expr) -> (r: Option<Expr>)
    ensures
        r matches Some(t) ==> cache@.contains((*e, t)),
{
    let mut i: usize = 0;
    while i < cache.len()
        invariant
            i <= cache@.len(),
        decreases cache@.len() - i,
    {
        if lean_expr_equal_rs(&cache[i].0, e) == 1 {
            let t = clone_expr(&cache[i].1);
            proof {
                assert(cache@[i as int] == (*e, t));
            }
            return Some(t);
        }
        i += 1;
    }
    None
}

/// The type that `table` gives `n`: that of its first entry for `n`.
fn find_type(table: &Vec<(Name, Expr)>, n: Name) -> (r: Option<Expr>)
    ensures
        r == lookup(table@, n),
{
    let mut i: usize = 0;
    let len = table.len();
    proof {
        assert(table@.subrange(0, len as int) =~= table@);
    }
    while i < len
        invariant
            len == table@.len(),
            i <= len,
            lookup(table@, n) == lookup(table@.subrange(i as int, len as int), n),
        decreases len - i,
    {
        let ghost rest = table@.subrange(i as int, len as int);
        assert(rest.drop_first() =~= table@.subrange(i + 1, len as int));
        if table[i].0 == n {
            return Some(clone_expr(&table[i].1));
        }
        i += 1;
    }
    None
}

} // verus!
