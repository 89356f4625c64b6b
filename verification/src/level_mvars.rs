//! Instantiating universe metavariables with what they are assigned.
//!
//! Assignments never form a cycle: some ranking of metavariables puts every
//! metavariable of an assigned value below the one it is assigned to.  While
//! it instantiates, the context records each value it has normalized in
//! place of the assigned one, which changes no instantiation.
use vstd::prelude::*;
use crate::expr::{Level, Name, clone_level};
use crate::expr_util::{level_has_mvar, level_has_mvar_spec};
use crate::equality::level_eq;
use crate::mctx::{MetavarContext, lookup, lemma_lookup_entry};

verus! {

/// One more than the highest rank of a metavariable of `l` (0 when it has
/// none).
pub open spec fn level_rank(l: Level, rank: spec_fn(Name) -> nat) -> nat
    decreases l,
{
    match l {
        Level::MVar(k) => rank(k) + 1,
        Level::Succ(a) => level_rank(*a, rank),
        Level::Max(a, b) => crate::bvars::max_nat(level_rank(*a, rank), level_rank(*b, rank)),
        Level::IMax(a, b) => crate::bvars::max_nat(level_rank(*a, rank), level_rank(*b, rank)),
        _ => 0,
    }
}

/// Every metavariable of an assigned value ranks below the one it is
/// assigned to.
pub open spec fn levels_acyclic(s: Seq<(Name, Level)>, rank: spec_fn(Name) -> nat) -> bool {
    forall|i: int| 0 <= i < s.len() ==> level_rank(#[trigger] s[i].1, rank) <= rank(s[i].0)
}

/// `l` with every assigned universe metavariable replaced, recursively, by
/// its value.
pub open spec fn inst_level_ranked(l: Level, s: Seq<(Name, Level)>, rank: spec_fn(Name) -> nat) -> Level
    decreases level_rank(l, rank), l,
{
    match l {
        Level::MVar(k) => match lookup(s, k) {
            Some(a) => if level_rank(a, rank) < level_rank(l, rank) {
                inst_level_ranked(a, s, rank)
            } else {
                l
            },
            None => l,
        },
        Level::Succ(a) => Level::Succ(Box::new(inst_level_ranked(*a, s, rank))),
        Level::Max(a, b) => Level::Max(
            Box::new(inst_level_ranked(*a, s, rank)),
            Box::new(inst_level_ranked(*b, s, rank)),
        ),
        Level::IMax(a, b) => Level::IMax(
            Box::new(inst_level_ranked(*a, s, rank)),
            Box::new(inst_level_ranked(*b, s, rank)),
        ),
        _ => l,
    }
}

/// The universe assignments form no cycle.
pub open spec fn level_ctx_acyclic(s: Seq<(Name, Level)>) -> bool {
    exists|rank: spec_fn(Name) -> nat| levels_acyclic(s, rank)
}

/// A ranking under which the universe assignments form no cycle.
pub open spec fn some_level_rank(s: Seq<(Name, Level)>) -> spec_fn(Name) -> nat {
    choose|rank: spec_fn(Name) -> nat| levels_acyclic(s, rank)
}

/// `l` with every assigned universe metavariable replaced, recursively, by
/// its value.
pub open spec fn instantiate_level_spec(l: Level, s: Seq<(Name, Level)>) -> Level {
    inst_level_ranked(l, s, some_level_rank(s))
}

/// Every metavariable of `l` is unassigned.
pub open spec fn level_unassigned_only(l: Level, s: Seq<(Name, Level)>) -> bool
    decreases l,
{
    match l {
        Level::MVar(k) => lookup(s, k) is None,
        Level::Succ(a) => level_unassigned_only(*a, s),
        Level::Max(a, b) => level_unassigned_only(*a, s) && level_unassigned_only(*b, s),
        Level::IMax(a, b) => level_unassigned_only(*a, s) && level_unassigned_only(*b, s),
        _ => true,
    }
}

/// `cur` has the keys of `orig`, and each value of `cur` ranks no higher
/// than its key and instantiates (in `orig`) as the value of `orig` does.
pub open spec fn level_ctx_normalizes(
    cur: Seq<(Name, Level)>,
    orig: Seq<(Name, Level)>,
    rank: spec_fn(Name) -> nat,
) -> bool {
    forall|k: Name|
        {
            &&& (lookup(cur, k) is Some <==> lookup(orig, k) is Some)
            &&& (#[trigger] lookup(cur, k) matches Some(v) ==> {
                &&& level_rank(v, rank) <= rank(k)
                &&& inst_level_ranked(v, orig, rank) == inst_level_ranked(
                    lookup(orig, k)->Some_0,
                    orig,
                    rank,
                )
            })
        }
}

proof fn lemma_lookup_ranked(s: Seq<(Name, Level)>, rank: spec_fn(Name) -> nat, k: Name)
    requires
        levels_acyclic(s, rank),
    ensures
        lookup(s, k) matches Some(a) ==> level_rank(a, rank) <= rank(k),
{
    lemma_lookup_entry(s, k);
    if lookup(s, k) is Some {
        let a = lookup(s, k)->Some_0;
        let i = choose|i: int| 0 <= i < s.len() && #[trigger] s[i] == (k, a);
        assert(level_rank(s[i].1, rank) <= rank(s[i].0));
    }
}

/// A level without metavariables instantiates as itself.
pub proof fn lemma_inst_level_no_mvar(l: Level, s: Seq<(Name, Level)>, rank: spec_fn(Name) -> nat)
    requires
        !level_has_mvar_spec(l),
    ensures
        inst_level_ranked(l, s, rank) == l,
    decreases l,
{
    match l {
        Level::Succ(a) => lemma_inst_level_no_mvar(*a, s, rank),
        Level::Max(a, b) => {
            lemma_inst_level_no_mvar(*a, s, rank);
            lemma_inst_level_no_mvar(*b, s, rank);
        },
        Level::IMax(a, b) => {
            lemma_inst_level_no_mvar(*a, s, rank);
            lemma_inst_level_no_mvar(*b, s, rank);
        },
        _ => {},
    }
}

/// Instantiation ranks no higher, and leaves only unassigned
/// metavariables.
pub proof fn lemma_inst_level_props(l: Level, s: Seq<(Name, Level)>, rank: spec_fn(Name) -> nat)
    requires
        levels_acyclic(s, rank),
    ensures
        level_rank(inst_level_ranked(l, s, rank), rank) <= level_rank(l, rank),
        level_unassigned_only(inst_level_ranked(l, s, rank), s),
    decreases level_rank(l, rank), l,
{
    match l {
        Level::MVar(k) => {
            lemma_lookup_ranked(s, rank, k);
            match lookup(s, k) {
                Some(a) => {
                    lemma_inst_level_props(a, s, rank);
                },
                None => {},
            }
        },
        Level::Succ(a) => lemma_inst_level_props(*a, s, rank),
        Level::Max(a, b) => {
            lemma_inst_level_props(*a, s, rank);
            lemma_inst_level_props(*b, s, rank);
        },
        Level::IMax(a, b) => {
            lemma_inst_level_props(*a, s, rank);
            lemma_inst_level_props(*b, s, rank);
        },
        _ => {},
    }
}

/// A level whose metavariables are all unassigned instantiates as itself.
pub proof fn lemma_inst_level_unassigned(l: Level, s: Seq<(Name, Level)>, rank: spec_fn(Name) -> nat)
    requires
        level_unassigned_only(l, s),
    ensures
        inst_level_ranked(l, s, rank) == l,
    decreases l,
{
    match l {
        Level::Succ(a) => lemma_inst_level_unassigned(*a, s, rank),
        Level::Max(a, b) => {
            lemma_inst_level_unassigned(*a, s, rank);
            lemma_inst_level_unassigned(*b, s, rank);
        },
        Level::IMax(a, b) => {
            lemma_inst_level_unassigned(*a, s, rank);
            lemma_inst_level_unassigned(*b, s, rank);
        },
        _ => {},
    }
}

/// Instantiating twice is instantiating once.
pub proof fn lemma_inst_level_idempotent(l: Level, s: Seq<(Name, Level)>, rank: spec_fn(Name) -> nat)
    requires
        levels_acyclic(s, rank),
    ensures
        inst_level_ranked(inst_level_ranked(l, s, rank), s, rank) == inst_level_ranked(l, s, rank),
{
    lemma_inst_level_props(l, s, rank);
    lemma_inst_level_unassigned(inst_level_ranked(l, s, rank), s, rank);
}

/// A context that normalizes another instantiates every level as the
/// other does.
pub proof fn lemma_normalized_level_ctx_same(
    l: Level,
    cur: Seq<(Name, Level)>,
    orig: Seq<(Name, Level)>,
    rank: spec_fn(Name) -> nat,
)
    requires
        levels_acyclic(orig, rank),
        level_ctx_normalizes(cur, orig, rank),
    ensures
        inst_level_ranked(l, cur, rank) == inst_level_ranked(l, orig, rank),
    decreases level_rank(l, rank), l,
{
    match l {
        Level::MVar(k) => {
            lemma_lookup_ranked(orig, rank, k);
            assert(lookup(cur, k) is Some <==> lookup(orig, k) is Some);
            match lookup(cur, k) {
                Some(v) => {
                    lemma_normalized_level_ctx_same(v, cur, orig, rank);
                },
                None => {},
            }
        },
        Level::Succ(a) => lemma_normalized_level_ctx_same(*a, cur, orig, rank),
        Level::Max(a, b) => {
            lemma_normalized_level_ctx_same(*a, cur, orig, rank);
            lemma_normalized_level_ctx_same(*b, cur, orig, rank);
        },
        Level::IMax(a, b) => {
            lemma_normalized_level_ctx_same(*a, cur, orig, rank);
            lemma_normalized_level_ctx_same(*b, cur, orig, rank);
        },
        _ => {},
    }
}

/// An acyclic context normalizes itself.
pub proof fn lemma_level_ctx_normalizes_itself(s: Seq<(Name, Level)>, rank: spec_fn(Name) -> nat)
    requires
        levels_acyclic(s, rank),
    ensures
        level_ctx_normalizes(s, s, rank),
{
    assert forall|k: Name|
        {
            &&& (lookup(s, k) is Some <==> lookup(s, k) is Some)
            &&& (#[trigger] lookup(s, k) matches Some(v) ==> {
                &&& level_rank(v, rank) <= rank(k)
                &&& inst_level_ranked(v, s, rank) == inst_level_ranked(
                    lookup(s, k)->Some_0,
                    s,
                    rank,
                )
            })
        } by {
        lemma_lookup_ranked(s, rank, k);
    }
}

/// Instantiating `l` passes through the universe metavariable `k`: `k`
/// occurs in `l`, or in the value of an assigned metavariable that it
/// passes through.
pub open spec fn level_reaches(l: Level, s: Seq<(Name, Level)>, rank: spec_fn(Name) -> nat, k: Name) -> bool
    decreases level_rank(l, rank), l,
{
    match l {
        Level::MVar(j) => j == k || match lookup(s, j) {
            Some(a) => level_rank(a, rank) < level_rank(l, rank) && level_reaches(a, s, rank, k),
            None => false,
        },
        Level::Succ(a) => level_reaches(*a, s, rank, k),
        Level::Max(a, b) => level_reaches(*a, s, rank, k) || level_reaches(*b, s, rank, k),
        Level::IMax(a, b) => level_reaches(*a, s, rank, k) || level_reaches(*b, s, rank, k),
        _ => false,
    }
}

/// `cur` assigns `k` its value in `orig` instantiated.
pub open spec fn level_normalized_in(
    cur: Seq<(Name, Level)>,
    orig: Seq<(Name, Level)>,
    rank: spec_fn(Name) -> nat,
    k: Name,
) -> bool {
    &&& lookup(orig, k) is Some
    &&& lookup(cur, k) == Some(inst_level_ranked(lookup(orig, k)->Some_0, orig, rank))
}

/// Every value of `cur` that differs from `orig` is the instantiated one,
/// and so is the value of every assigned metavariable that instantiating the
/// original value passes through.
pub open spec fn level_ctx_closed(
    cur: Seq<(Name, Level)>,
    orig: Seq<(Name, Level)>,
    rank: spec_fn(Name) -> nat,
) -> bool {
    forall|k: Name|
        #[trigger] lookup(cur, k) != lookup(orig, k) ==> {
            &&& level_normalized_in(cur, orig, rank, k)
            &&& forall|j: Name|
                level_reaches(lookup(orig, k)->Some_0, orig, rank, j) && lookup(orig, j) is Some
                    ==> #[trigger] level_normalized_in(cur, orig, rank, j)
        }
}

/// A level whose metavariables are all unassigned passes only through
/// unassigned ones.
proof fn lemma_unassigned_reaches(l: Level, s: Seq<(Name, Level)>, rank: spec_fn(Name) -> nat, k: Name)
    requires
        level_unassigned_only(l, s),
        level_reaches(l, s, rank, k),
    ensures
        lookup(s, k) is None,
    decreases l,
{
    match l {
        Level::Succ(a) => lemma_unassigned_reaches(*a, s, rank, k),
        Level::Max(a, b) => {
            if level_reaches(*a, s, rank, k) {
                lemma_unassigned_reaches(*a, s, rank, k);
            } else {
                lemma_unassigned_reaches(*b, s, rank, k);
            }
        },
        Level::IMax(a, b) => {
            if level_reaches(*a, s, rank, k) {
                lemma_unassigned_reaches(*a, s, rank, k);
            } else {
                lemma_unassigned_reaches(*b, s, rank, k);
            }
        },
        _ => {},
    }
}

/// A level without metavariables passes through none.
proof fn lemma_no_mvar_reaches(l: Level, s: Seq<(Name, Level)>, rank: spec_fn(Name) -> nat, k: Name)
    requires
        !level_has_mvar_spec(l),
    ensures
        !level_reaches(l, s, rank, k),
    decreases l,
{
    match l {
        Level::Succ(a) => lemma_no_mvar_reaches(*a, s, rank, k),
        Level::Max(a, b) => {
            lemma_no_mvar_reaches(*a, s, rank, k);
            lemma_no_mvar_reaches(*b, s, rank, k);
        },
        Level::IMax(a, b) => {
            lemma_no_mvar_reaches(*a, s, rank, k);
            lemma_no_mvar_reaches(*b, s, rank, k);
        },
        _ => {},
    }
}

/// A universe metavariable instantiation.
pub struct InstantiateLevelMVars {
    /// The values that normalized ones replaced in the context.
    pub saved: Vec<Level>,
}

impl InstantiateLevelMVars {
    /// A fresh instantiation.
    pub fn new() -> (r: Self)
        ensures
            r.saved@.len() == 0,
    {
        InstantiateLevelMVars { saved: Vec::new() }
    }

    /// Whether the level has a universe metavariable.
    pub fn level_has_mvar(l: &Level) -> (r: bool)
        ensures
            r == level_has_mvar_spec(*l),
    {
        level_has_mvar(l)
    }

    /// `l` instantiated (as in `orig`); each assigned metavariable it
    /// passes through then holds its instantiated value in `mctx`, and no
    /// other assignment changes.
    pub fn visit(
        &mut self,
        mctx: &mut MetavarContext,
        l: &Level,
        Ghost(orig): Ghost<Seq<(Name, Level)>>,
        Ghost(rank): Ghost<spec_fn(Name) -> nat>,
    ) -> (r: Level)
        requires
            levels_acyclic(orig, rank),
            level_ctx_normalizes(old(mctx).level_assignments@, orig, rank),
            level_ctx_closed(old(mctx).level_assignments@, orig, rank),
        ensures
            r == inst_level_ranked(*l, orig, rank),
            level_ctx_normalizes(final(mctx).level_assignments@, orig, rank),
            level_ctx_closed(final(mctx).level_assignments@, orig, rank),
            forall|k: Name|
                level_reaches(*l, orig, rank, k) && lookup(orig, k) is Some
                    ==> #[trigger] level_normalized_in(final(mctx).level_assignments@, orig, rank, k),
            forall|k: Name|
                !level_reaches(*l, orig, rank, k) ==> #[trigger] lookup(
                    final(mctx).level_assignments@,
                    k,
                ) == lookup(old(mctx).level_assignments@, k),
            final(mctx).expr_assignments == old(mctx).expr_assignments,
            final(mctx).delayed_assignments == old(mctx).delayed_assignments,
        decreases level_rank(*l, rank), l,
    {
        if !level_has_mvar(l) {
            proof {
                lemma_inst_level_no_mvar(*l, orig, rank);
                assert forall|k: Name| !level_reaches(*l, orig, rank, k) by {
                    lemma_no_mvar_reaches(*l, orig, rank, k);
                }
            }
            return clone_level(l);
        }
        match l {
            Level::Succ(a) => {
                let a_new = self.visit(mctx, a, Ghost(orig), Ghost(rank));
                Level::Succ(Box::new(a_new))
            },
            Level::Max(a, b) => {
                let ghost cur0 = mctx.level_assignments@;
                let a_new = self.visit(mctx, a, Ghost(orig), Ghost(rank));
                let ghost cur1 = mctx.level_assignments@;
                let b_new = self.visit(mctx, b, Ghost(orig), Ghost(rank));
                proof {
                    let cur2 = mctx.level_assignments@;
                    assert forall|k: Name|
                        level_reaches(*l, orig, rank, k) && lookup(orig, k) is Some
                            implies #[trigger] level_normalized_in(cur2, orig, rank, k) by {
                        if !level_reaches(**b, orig, rank, k) {
                            assert(level_normalized_in(cur1, orig, rank, k));
                            assert(lookup(cur2, k) == lookup(cur1, k));
                        }
                    }
                }
                Level::Max(Box::new(a_new), Box::new(b_new))
            },
            Level::IMax(a, b) => {
                let ghost cur0 = mctx.level_assignments@;
                let a_new = self.visit(mctx, a, Ghost(orig), Ghost(rank));
                let ghost cur1 = mctx.level_assignments@;
                let b_new = self.visit(mctx, b, Ghost(orig), Ghost(rank));
                proof {
                    let cur2 = mctx.level_assignments@;
                    assert forall|k: Name|
                        level_reaches(*l, orig, rank, k) && lookup(orig, k) is Some
                            implies #[trigger] level_normalized_in(cur2, orig, rank, k) by {
                        if !level_reaches(**b, orig, rank, k) {
                            assert(level_normalized_in(cur1, orig, rank, k));
                            assert(lookup(cur2, k) == lookup(cur1, k));
                        }
                    }
                }
                Level::IMax(Box::new(a_new), Box::new(b_new))
            },
            Level::MVar(k) => {
                let k = *k;
                let ghost cur0 = mctx.level_assignments@;
                proof {
                    lemma_lookup_ranked(orig, rank, k);
                    assert(lookup(mctx.level_assignments@, k) is Some <==> lookup(orig, k) is Some);
                }
                match mctx.get_level_assignment(k) {
                    None => {
                        proof {
                            assert forall|j: Name|
                                level_reaches(*l, orig, rank, j) && lookup(orig, j) is Some
                                    implies #[trigger] level_normalized_in(cur0, orig, rank, j) by {
                                assert(j == k);
                            }
                        }
                        clone_level(l)
                    },
                    Some(v) => {
                        let ghost ov = lookup(orig, k)->Some_0;
                        proof {
                            assert(lookup(mctx.level_assignments@, k) == Some(v));
                            lemma_inst_level_props(ov, orig, rank);
                            lemma_inst_level_idempotent(ov, orig, rank);
                            if v != ov {
                                assert(lookup(cur0, k) != lookup(orig, k));
                                assert(level_normalized_in(cur0, orig, rank, k));
                            }
                        }
                        if !level_has_mvar(&v) {
                            proof {
                                lemma_inst_level_no_mvar(v, orig, rank);
                                if v == ov {
                                    assert forall|j: Name| !level_reaches(ov, orig, rank, j) by {
                                        lemma_no_mvar_reaches(ov, orig, rank, j);
                                    }
                                }
                                assert forall|j: Name|
                                    level_reaches(*l, orig, rank, j) && lookup(orig, j) is Some
                                        implies #[trigger] level_normalized_in(cur0, orig, rank, j) by {
                                    if j != k {
                                        assert(level_reaches(ov, orig, rank, j));
                                        assert(lookup(cur0, k) != lookup(orig, k));
                                    }
                                }
                            }
                            v
                        } else {
                            let v_new = self.visit(mctx, &v, Ghost(orig), Ghost(rank));
                            let ghost cur1 = mctx.level_assignments@;
                            proof {
                                lemma_inst_level_props(v, orig, rank);
                                if v != ov {
                                    // `v` is the instantiated value: it passes only through
                                    // unassigned metavariables, so the visit changed nothing
                                    assert forall|j: Name| #[trigger] lookup(cur1, j) == lookup(cur0, j) by {
                                        if level_reaches(v, orig, rank, j) {
                                            lemma_unassigned_reaches(v, orig, rank, j);
                                            assert(lookup(cur0, j) is Some <==> lookup(orig, j) is Some);
                                            assert(lookup(cur1, j) is Some <==> lookup(orig, j) is Some);
                                        }
                                    }
                                    assert(cur1 =~= cur1);
                                }
                            }
                            if !level_eq(&v, &v_new) {
                                mctx.assign_level(k, clone_level(&v_new));
                                self.saved.push(v);
                                proof {
                                    let cur2 = mctx.level_assignments@;
                                    assert forall|j: Name| #[trigger] lookup(cur2, j) == if j == k {
                                        Some(v_new)
                                    } else {
                                        lookup(cur1, j)
                                    } by {
                                        assert(mctx.level_of(j) == lookup(cur2, j));
                                    }
                                    lemma_level_visit_mvar_post(cur0, cur1, cur2, orig, rank, k, v, *l);
                                }
                            } else {
                                proof {
                                    lemma_level_visit_mvar_post(cur0, cur1, cur1, orig, rank, k, v, *l);
                                }
                            }
                            v_new
                        }
                    },
                }
            },
            _ => clone_level(l),
        }
    }
}

/// What visiting the assigned metavariable `k` leaves: `cur0` before,
/// `cur1` after visiting its current value `v`, `cur2` after writing the
/// instantiation back (if it differed).
proof fn lemma_level_visit_mvar_post(
    cur0: Seq<(Name, Level)>,
    cur1: Seq<(Name, Level)>,
    cur2: Seq<(Name, Level)>,
    orig: Seq<(Name, Level)>,
    rank: spec_fn(Name) -> nat,
    k: Name,
    v: Level,
    l: Level,
)
    requires
        levels_acyclic(orig, rank),
        l == Level::MVar(k),
        lookup(orig, k) is Some,
        lookup(cur0, k) == Some(v),
        level_has_mvar_spec(v),
        level_ctx_normalizes(cur0, orig, rank),
        level_ctx_closed(cur0, orig, rank),
        level_ctx_normalizes(cur1, orig, rank),
        level_ctx_closed(cur1, orig, rank),
        v != lookup(orig, k)->Some_0 ==> forall|j: Name| #[trigger] lookup(cur1, j) == lookup(cur0, j),
        forall|j: Name|
            level_reaches(v, orig, rank, j) && lookup(orig, j) is Some
                ==> #[trigger] level_normalized_in(cur1, orig, rank, j),
        forall|j: Name|
            !level_reaches(v, orig, rank, j) ==> #[trigger] lookup(cur1, j) == lookup(cur0, j),
        inst_level_ranked(v, orig, rank) == inst_level_ranked(lookup(orig, k)->Some_0, orig, rank),
        level_rank(inst_level_ranked(lookup(orig, k)->Some_0, orig, rank), rank) <= rank(k),
        forall|j: Name| #[trigger] lookup(cur2, j) == if j == k {
            Some(inst_level_ranked(v, orig, rank))
        } else {
            lookup(cur1, j)
        },
    ensures
        level_ctx_normalizes(cur2, orig, rank),
        level_ctx_closed(cur2, orig, rank),
        forall|j: Name|
            level_reaches(l, orig, rank, j) && lookup(orig, j) is Some
                ==> #[trigger] level_normalized_in(cur2, orig, rank, j),
        forall|j: Name| !level_reaches(l, orig, rank, j) ==> #[trigger] lookup(cur2, j) == lookup(cur0, j),
{
    let ov = lookup(orig, k)->Some_0;
    lemma_lookup_ranked(orig, rank, k);
    lemma_inst_level_idempotent(ov, orig, rank);
    lemma_inst_level_props(ov, orig, rank);
    assert(level_normalized_in(cur2, orig, rank, k));
    // what the original value passes through is normalized in `cur2`
    assert forall|j: Name|
        level_reaches(ov, orig, rank, j) && lookup(orig, j) is Some
            implies #[trigger] level_normalized_in(cur2, orig, rank, j) by {
        if j != k {
            if v == ov {
                assert(level_normalized_in(cur1, orig, rank, j));
            } else {
                assert(lookup(cur0, k) != lookup(orig, k));
                assert(level_normalized_in(cur0, orig, rank, j));
                assert(lookup(cur1, j) == lookup(cur0, j));
            }
        }
    }
    assert forall|j: Name|
        level_reaches(l, orig, rank, j) && lookup(orig, j) is Some
            implies #[trigger] level_normalized_in(cur2, orig, rank, j) by {
        if j != k {
            assert(level_reaches(ov, orig, rank, j));
        }
    }
    assert forall|j: Name| !level_reaches(l, orig, rank, j) implies #[trigger] lookup(cur2, j) == lookup(
        cur0,
        j,
    ) by {
        assert(j != k);
        if v == ov {
            assert(!level_reaches(v, orig, rank, j));
        }
    }
    assert forall|j: Name|
        {
            &&& (lookup(cur2, j) is Some <==> lookup(orig, j) is Some)
            &&& (#[trigger] lookup(cur2, j) matches Some(w) ==> {
                &&& level_rank(w, rank) <= rank(j)
                &&& inst_level_ranked(w, orig, rank) == inst_level_ranked(
                    lookup(orig, j)->Some_0,
                    orig,
                    rank,
                )
            })
        } by {
        if j != k {
            assert(lookup(cur2, j) == lookup(cur1, j));
        }
    }
    assert forall|j: Name| #[trigger] lookup(cur2, j) != lookup(orig, j) implies {
        &&& level_normalized_in(cur2, orig, rank, j)
        &&& forall|i: Name|
            level_reaches(lookup(orig, j)->Some_0, orig, rank, i) && lookup(orig, i) is Some
                ==> #[trigger] level_normalized_in(cur2, orig, rank, i)
    } by {
        if j != k {
            assert(lookup(cur2, j) == lookup(cur1, j));
            assert forall|i: Name|
                level_reaches(lookup(orig, j)->Some_0, orig, rank, i) && lookup(orig, i) is Some
                    implies #[trigger] level_normalized_in(cur2, orig, rank, i) by {
                assert(level_normalized_in(cur1, orig, rank, i));
                if i == k {
                }
            }
        }
    }
}

/// Instantiates the universe metavariables of `l` with what `mctx` assigns
/// them, recursively; gives back the context, in which every assigned
/// metavariable that the instantiation passes through holds its value
/// instantiated and every other assignment is unchanged, and the
/// instantiated level.
pub fn lean_instantiate_level_mvars_rs(mctx: MetavarContext, l: &Level) -> (r: (
    MetavarContext,
    Level,
))
    requires
        level_ctx_acyclic(mctx.level_assignments@),
    ensures
        r.1 == instantiate_level_spec(*l, mctx.level_assignments@),
        forall|k: Name|
            level_reaches(
                *l,
                mctx.level_assignments@,
                some_level_rank(mctx.level_assignments@),
                k,
            ) && mctx.level_of(k) is Some ==> #[trigger] r.0.level_of(k) == Some(
                instantiate_level_spec(mctx.level_of(k)->Some_0, mctx.level_assignments@),
            ),
        forall|k: Name|
            !level_reaches(
                *l,
                mctx.level_assignments@,
                some_level_rank(mctx.level_assignments@),
                k,
            ) ==> #[trigger] r.0.level_of(k) == mctx.level_of(k),
        level_ctx_normalizes(
            r.0.level_assignments@,
            mctx.level_assignments@,
            some_level_rank(mctx.level_assignments@),
        ),
        r.0.expr_assignments == mctx.expr_assignments,
        r.0.delayed_assignments == mctx.delayed_assignments,
{
    let ghost orig = mctx.level_assignments@;
    let ghost rank = some_level_rank(orig);
    let mut m = mctx;
    let mut inst = InstantiateLevelMVars::new();
    proof {
        lemma_level_ctx_normalizes_itself(orig, rank);
    }
    let l_new = inst.visit(&mut m, l, Ghost(orig), Ghost(rank));
    proof {
        assert forall|k: Name|
            level_reaches(*l, orig, rank, k) && lookup(orig, k) is Some implies #[trigger] m.level_of(k)
            == Some(instantiate_level_spec(lookup(orig, k)->Some_0, orig)) by {
            assert(level_normalized_in(m.level_assignments@, orig, rank, k));
        }
    }
    (m, l_new)
}

} // verus!
