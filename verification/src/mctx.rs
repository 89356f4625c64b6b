//! The metavariable context: what universe and expression metavariables are
//! assigned, and the delayed assignments.
use vstd::prelude::*;
use crate::expr::{Expr, Level, Name, clone_level, clone_expr};

verus! {

/// A delayed assignment: the metavariable stands for the pending one with
/// the free variables `fvars` abstracted.
#[derive(Debug)]
pub struct DelayedAssignment {
    pub fvars: Vec<Expr>,
    pub mvar_id_pending: Name,
}

/// A metavariable context.
#[derive(Debug)]
pub struct MetavarContext {
    pub level_assignments: Vec<(Name, Level)>,
    pub expr_assignments: Vec<(Name, Expr)>,
    pub delayed_assignments: Vec<(Name, DelayedAssignment)>,
}

/// The value of the first entry for `k`.
pub open spec fn lookup<V>(s: Seq<(Name, V)>, k: Name) -> Option<V>
    decreases s.len(),
{
    if s.len() == 0 {
        None
    } else if s[0].0 == k {
        Some(s[0].1)
    } else {
        lookup(s.drop_first(), k)
    }
}

/// A value looked up is the value of some entry for the key.
pub proof fn lemma_lookup_entry<V>(s: Seq<(Name, V)>, k: Name)
    ensures
        lookup(s, k) matches Some(v) ==> exists|i: int| 0 <= i < s.len() && #[trigger] s[i] == (k, v),
    decreases s.len(),
{
    if s.len() > 0 && s[0].0 != k {
        lemma_lookup_entry(s.drop_first(), k);
        if lookup(s, k) is Some {
            let v = lookup(s, k)->Some_0;
            let i = choose|i: int| 0 <= i < s.drop_first().len() && s.drop_first()[i] == (k, v);
            assert(s[i + 1] == (k, v));
        }
    } else if s.len() > 0 {
        assert(s[0] == (k, s[0].1));
    }
}

/// The position of the first entry for `k`, if any.
pub open spec fn first_index<V>(s: Seq<(Name, V)>, k: Name) -> Option<int>
    decreases s.len(),
{
    if s.len() == 0 {
        None
    } else if s[0].0 == k {
        Some(0)
    } else {
        match first_index(s.drop_first(), k) {
            Some(i) => Some(i + 1),
            None => None,
        }
    }
}

proof fn lemma_first_index<V>(s: Seq<(Name, V)>, k: Name)
    ensures
        first_index(s, k) matches Some(i) ==> 0 <= i < s.len() && s[i].0 == k && lookup(s, k)
            == Some(s[i].1) && forall|j: int| 0 <= j < i ==> s[j].0 != k,
        first_index(s, k) is None ==> lookup(s, k) is None && forall|j: int|
            0 <= j < s.len() ==> s[j].0 != k,
    decreases s.len(),
{
    if s.len() > 0 && s[0].0 != k {
        lemma_first_index(s.drop_first(), k);
        assert forall|j: int| 0 < j < s.len() implies s[j] == s.drop_first()[j - 1] by {}
    }
}

/// Replacing the value of an entry changes the lookup of its key only.
proof fn lemma_lookup_update<V>(s: Seq<(Name, V)>, i: int, k: Name, v: V, j: Name)
    requires
        0 <= i < s.len(),
        s[i].0 == k,
        forall|m: int| 0 <= m < i ==> s[m].0 != k,
    ensures
        lookup(s.update(i, (k, v)), j) == if j == k {
            Some(v)
        } else {
            lookup(s, j)
        },
    decreases s.len(),
{
    if i > 0 {
        if s[0].0 == j {
        } else {
            assert(s.update(i, (k, v)).drop_first() =~= s.drop_first().update(i - 1, (k, v)));
            lemma_lookup_update(s.drop_first(), i - 1, k, v, j);
        }
    } else {
        assert(s.update(i, (k, v)).drop_first() =~= s.drop_first());
    }
}

/// Adding an entry at the end for a key that has none gives it its value.
proof fn lemma_lookup_push<V>(s: Seq<(Name, V)>, k: Name, v: V, j: Name)
    requires
        lookup(s, k) is None,
    ensures
        lookup(s.push((k, v)), j) == if j == k {
            Some(v)
        } else {
            lookup(s, j)
        },
    decreases s.len(),
{
    if s.len() == 0 {
        assert(s.push((k, v)).drop_first() =~= Seq::<(Name, V)>::empty());
    } else {
        assert(s.push((k, v)).drop_first() =~= s.drop_first().push((k, v)));
        if s[0].0 != j && s[0].0 != k {
            lemma_lookup_push(s.drop_first(), k, v, j);
        } else if s[0].0 != k {
            lemma_lookup_push(s.drop_first(), k, v, j);
        }
    }
}

impl MetavarContext {
    /// What the universe metavariable `k` is assigned.
    pub open spec fn level_of(&self, k: Name) -> Option<Level> {
        lookup(self.level_assignments@, k)
    }

    /// What the expression metavariable `k` is assigned.
    pub open spec fn expr_of(&self, k: Name) -> Option<Expr> {
        lookup(self.expr_assignments@, k)
    }

    /// What the delayed assignment of `k` holds: its free variables and its
    /// pending metavariable.
    pub open spec fn delayed_of(&self, k: Name) -> Option<(Seq<Expr>, Name)> {
        match lookup(self.delayed_assignments@, k) {
            Some(d) => Some((d.fvars@, d.mvar_id_pending)),
            None => None,
        }
    }

    /// A copy of what the universe metavariable `k` is assigned.
    pub fn get_level_assignment(&self, k: Name) -> (r: Option<Level>)
        ensures
            r == self.level_of(k),
    {
        let mut i: usize = 0;
        let n = self.level_assignments.len();
        proof {
            assert(self.level_assignments@.subrange(0, n as int) =~= self.level_assignments@);
        }
        while i < n
            invariant
                n == self.level_assignments@.len(),
                i <= n,
                lookup(self.level_assignments@, k) == lookup(
                    self.level_assignments@.subrange(i as int, n as int),
                    k,
                ),
            decreases n - i,
        {
            let ghost rest = self.level_assignments@.subrange(i as int, n as int);
            assert(rest.drop_first() =~= self.level_assignments@.subrange(i + 1, n as int));
            if self.level_assignments[i].0 == k {
                return Some(clone_level(&self.level_assignments[i].1));
            }
            i += 1;
        }
        None
    }

    /// A copy of what the expression metavariable `k` is assigned.
    pub fn get_expr_assignment(&self, k: Name) -> (r: Option<Expr>)
        ensures
            r == self.expr_of(k),
    {
        let mut i: usize = 0;
        let n = self.expr_assignments.len();
        proof {
            assert(self.expr_assignments@.subrange(0, n as int) =~= self.expr_assignments@);
        }
        while i < n
            invariant
                n == self.expr_assignments@.len(),
                i <= n,
                lookup(self.expr_assignments@, k) == lookup(
                    self.expr_assignments@.subrange(i as int, n as int),
                    k,
                ),
            decreases n - i,
        {
            let ghost rest = self.expr_assignments@.subrange(i as int, n as int);
            assert(rest.drop_first() =~= self.expr_assignments@.subrange(i + 1, n as int));
            if self.expr_assignments[i].0 == k {
                return Some(clone_expr(&self.expr_assignments[i].1));
            }
            i += 1;
        }
        None
    }

    /// The delayed assignment of `k`, if any.
    pub fn get_delayed_assignment(&self, k: Name) -> (r: Option<&DelayedAssignment>)
        ensures
            r matches Some(d) ==> self.delayed_of(k) == Some((d.fvars@, d.mvar_id_pending)),
            r is None ==> self.delayed_of(k) is None,
    {
        let mut i: usize = 0;
        let n = self.delayed_assignments.len();
        proof {
            assert(self.delayed_assignments@.subrange(0, n as int) =~= self.delayed_assignments@);
        }
        while i < n
            invariant
                n == self.delayed_assignments@.len(),
                i <= n,
                lookup(self.delayed_assignments@, k) == lookup(
                    self.delayed_assignments@.subrange(i as int, n as int),
                    k,
                ),
            decreases n - i,
        {
            let ghost rest = self.delayed_assignments@.subrange(i as int, n as int);
            assert(rest.drop_first() =~= self.delayed_assignments@.subrange(i + 1, n as int));
            if self.delayed_assignments[i].0 == k {
                return Some(&self.delayed_assignments[i].1);
            }
            i += 1;
        }
        None
    }

    /// Assigns `v` to the universe metavariable `k`.
    pub fn assign_level(&mut self, k: Name, v: Level)
        ensures
            forall|j: Name| #[trigger] final(self).level_of(j) == if j == k {
                Some(v)
            } else {
                old(self).level_of(j)
            },
            final(self).expr_assignments == old(self).expr_assignments,
            final(self).delayed_assignments == old(self).delayed_assignments,
    {
        let n = self.level_assignments.len();
        let mut i: usize = 0;
        proof {
            lemma_first_index(self.level_assignments@, k);
        }
        while i < n
            invariant
                n == self.level_assignments@.len(),
                self.level_assignments == old(self).level_assignments,
                self.expr_assignments == old(self).expr_assignments,
                self.delayed_assignments == old(self).delayed_assignments,
                i <= n,
                forall|m: int| 0 <= m < i ==> self.level_assignments@[m].0 != k,
            decreases n - i,
        {
            if self.level_assignments[i].0 == k {
                let ghost s = self.level_assignments@;
                self.level_assignments.set(i, (k, v));
                proof {
                    assert forall|j: Name| #[trigger]
                        lookup(self.level_assignments@, j) == if j == k {
                            Some(v)
                        } else {
                            lookup(s, j)
                        } by {
                        lemma_lookup_update(s, i as int, k, v, j);
                    }
                }
                return;
            }
            i += 1;
        }
        let ghost s = self.level_assignments@;
        proof {
            lemma_first_index(s, k);
            if first_index(s, k) is Some {
                let fi = first_index(s, k)->Some_0;
                assert(s[fi].0 == k);
            }
        }
        self.level_assignments.push((k, v));
        proof {
            assert forall|j: Name| #[trigger]
                lookup(self.level_assignments@, j) == if j == k {
                    Some(v)
                } else {
                    lookup(s, j)
                } by {
                lemma_lookup_push(s, k, v, j);
            }
        }
    }

    /// Assigns `v` to the expression metavariable `k`.
    pub fn assign_expr(&mut self, k: Name, v: Expr)
        ensures
            forall|j: Name| #[trigger] final(self).expr_of(j) == if j == k {
                Some(v)
            } else {
                old(self).expr_of(j)
            },
            final(self).level_assignments == old(self).level_assignments,
            final(self).delayed_assignments == old(self).delayed_assignments,
    {
        let n = self.expr_assignments.len();
        let mut i: usize = 0;
        proof {
            lemma_first_index(self.expr_assignments@, k);
        }
        while i < n
            invariant
                n == self.expr_assignments@.len(),
                self.expr_assignments == old(self).expr_assignments,
                self.level_assignments == old(self).level_assignments,
                self.delayed_assignments == old(self).delayed_assignments,
                i <= n,
                forall|m: int| 0 <= m < i ==> self.expr_assignments@[m].0 != k,
            decreases n - i,
        {
            if self.expr_assignments[i].0 == k {
                let ghost s = self.expr_assignments@;
                self.expr_assignments.set(i, (k, v));
                proof {
                    assert forall|j: Name| #[trigger]
                        lookup(self.expr_assignments@, j) == if j == k {
                            Some(v)
                        } else {
                            lookup(s, j)
                        } by {
                        lemma_lookup_update(s, i as int, k, v, j);
                    }
                }
                return;
            }
            i += 1;
        }
        let ghost s = self.expr_assignments@;
        proof {
            lemma_first_index(s, k);
            if first_index(s, k) is Some {
                let fi = first_index(s, k)->Some_0;
                assert(s[fi].0 == k);
            }
        }
        self.expr_assignments.push((k, v));
        proof {
            assert forall|j: Name| #[trigger]
                lookup(self.expr_assignments@, j) == if j == k {
                    Some(v)
                } else {
                    lookup(s, j)
                } by {
                lemma_lookup_push(s, k, v, j);
            }
        }
    }
}

} // verus!
