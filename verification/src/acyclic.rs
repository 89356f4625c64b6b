//! Deciding whether assignments form a cycle.
//!
//! Each entry names a key and the names it depends on.  The entries form no
//! cycle when some ranking puts every dependency of an entry below its key.
//! The decision peels entries off: an entry whose dependencies are no
//! longer the key of any entry left is taken away, until none is left (no
//! cycle) or none can be taken (a cycle).
use vstd::prelude::*;
use crate::expr::Name;

verus! {

/// Under `rank`, every dependency of each entry ranks below its key.
pub open spec fn deps_ranked(keys: Seq<Name>, deps: Seq<Seq<Name>>, rank: spec_fn(Name) -> nat) -> bool {
    forall|i: int, j: int|
        0 <= i < keys.len() && 0 <= j < deps[i].len() ==> rank(#[trigger] deps[i][j]) < rank(keys[i])
}

/// Some ranking puts every dependency of each entry below its key: the
/// entries form no cycle.
pub open spec fn deps_acyclic_spec(keys: Seq<Name>, deps: Seq<Seq<Name>>) -> bool {
    exists|rank: spec_fn(Name) -> nat| deps_ranked(keys, deps, rank)
}

/// The dependency lists of `deps` as sequences.
pub open spec fn deps_view(deps: Seq<Vec<Name>>) -> Seq<Seq<Name>> {
    deps.map_values(|v: Vec<Name>| v@)
}

/// No dependency of entry `i` is the key of an entry not yet taken away.
pub open spec fn is_ready(keys: Seq<Name>, deps: Seq<Seq<Name>>, done: Seq<bool>, i: int) -> bool {
    forall|j: int, l: int|
        #![trigger deps[i][j], keys[l]]
        0 <= j < deps[i].len() && 0 <= l < keys.len() && !done[l] ==> keys[l] != deps[i][j]
}

/// The number of entries taken away.
pub open spec fn num_done(done: Seq<bool>) -> nat
    decreases done.len(),
{
    if done.len() == 0 {
        0
    } else {
        num_done(done.drop_last()) + if done.last() {
            1nat
        } else {
            0nat
        }
    }
}

proof fn lemma_num_done_bound(done: Seq<bool>)
    ensures
        num_done(done) <= done.len(),
        num_done(done) == done.len() ==> forall|i: int| 0 <= i < done.len() ==> #[trigger] done[i],
    decreases done.len(),
{
    if done.len() > 0 {
        lemma_num_done_bound(done.drop_last());
        assert forall|i: int| 0 <= i < done.len() && num_done(done) == done.len() implies #[trigger] done[i] by {
            if i < done.len() - 1 {
                assert(done.drop_last()[i] == done[i]);
            }
        }
    }
}

proof fn lemma_num_done_take(done: Seq<bool>, i: int)
    requires
        0 <= i < done.len(),
        !done[i],
    ensures
        num_done(done.update(i, true)) == num_done(done) + 1,
    decreases done.len(),
{
    if i < done.len() - 1 {
        assert(done.update(i, true).drop_last() =~= done.drop_last().update(i, true));
        lemma_num_done_take(done.drop_last(), i);
    } else {
        assert(done.update(i, true).drop_last() =~= done.drop_last());
    }
}

/// An entry not taken away whose key ranks lowest among those left.
proof fn lemma_lowest_left(keys: Seq<Name>, done: Seq<bool>, rank: spec_fn(Name) -> nat, k: int) -> (i: int)
    requires
        0 <= k <= keys.len() == done.len(),
        exists|l: int| 0 <= l < k && !done[l],
    ensures
        0 <= i < k,
        !done[i],
        forall|l: int| 0 <= l < k && !done[l] ==> rank(keys[i]) <= rank(#[trigger] keys[l]),
    decreases k,
{
    if exists|l: int| 0 <= l < k - 1 && !done[l] {
        let i0 = lemma_lowest_left(keys, done, rank, k - 1);
        if !done[k - 1] && rank(keys[k - 1]) < rank(keys[i0]) {
            k - 1
        } else {
            i0
        }
    } else {
        k - 1
    }
}

/// When every entry left is blocked by another one left, no ranking puts
/// the dependencies below the keys.
proof fn lemma_stuck_is_cyclic(keys: Seq<Name>, deps: Seq<Seq<Name>>, done: Seq<bool>)
    requires
        keys.len() == deps.len() == done.len(),
        exists|l: int| 0 <= l < keys.len() && !done[l],
        forall|i: int| 0 <= i < keys.len() && !done[i] ==> !is_ready(keys, deps, done, i),
    ensures
        !deps_acyclic_spec(keys, deps),
{
    if deps_acyclic_spec(keys, deps) {
        let rank = choose|rank: spec_fn(Name) -> nat| deps_ranked(keys, deps, rank);
        let i = lemma_lowest_left(keys, done, rank, keys.len() as int);
        assert(!is_ready(keys, deps, done, i));
        let (j, l) = choose|j: int, l: int|
            #![trigger deps[i][j], keys[l]]
            0 <= j < deps[i].len() && 0 <= l < keys.len() && !done[l] && keys[l] == deps[i][j];
        assert(rank(deps[i][j]) < rank(keys[i]));
        assert(rank(keys[i]) <= rank(keys[l]));
    }
}

/// Whether no dependency of entry `i` is the key of an entry not yet taken
/// away.
fn ready(keys: &Vec<Name>, deps: &Vec<Vec<Name>>, done: &Vec<bool>, i: usize) -> (r: bool)
    requires
        keys@.len() == deps@.len() == done@.len(),
        i < keys@.len(),
    ensures
        r == is_ready(keys@, deps_view(deps@), done@, i as int),
{
    let ghost dv = deps_view(deps@);
    let d = &deps[i];
    assert(dv[i as int] == d@);
    let mut j: usize = 0;
    while j < d.len()
        invariant
            keys@.len() == deps@.len() == done@.len(),
            i < keys@.len(),
            dv == deps_view(deps@),
            dv[i as int] == d@,
            j <= d@.len(),
            forall|j2: int, l: int|
                #![trigger dv[i as int][j2], keys@[l]]
                0 <= j2 < j && 0 <= l < keys@.len() && !done@[l] ==> keys@[l] != dv[i as int][j2],
        decreases d@.len() - j,
    {
        let mut l: usize = 0;
        while l < keys.len()
            invariant
                keys@.len() == deps@.len() == done@.len(),
                i < keys@.len(),
                dv == deps_view(deps@),
                dv[i as int] == d@,
                j < d@.len(),
                l <= keys@.len(),
                forall|j2: int, l2: int|
                    #![trigger dv[i as int][j2], keys@[l2]]
                    0 <= j2 < j && 0 <= l2 < keys@.len() && !done@[l2] ==> keys@[l2]
                        != dv[i as int][j2],
                forall|l2: int| 0 <= l2 < l && !done@[l2] ==> keys@[l2] != dv[i as int][j as int],
            decreases keys@.len() - l,
        {
            if !done[l] && keys[l] == d[j] {
                return false;
            }
            l += 1;
        }
        j += 1;
    }
    true
}

/// Whether the entries, `keys[i]` depending on the names of `deps[i]`, form
/// no cycle.
pub fn deps_acyclic(keys: &Vec<Name>, deps: &Vec<Vec<Name>>) -> (r: bool)
    requires
        keys@.len() == deps@.len(),
    ensures
        r == deps_acyclic_spec(keys@, deps_view(deps@)),
{
    let ghost dv = deps_view(deps@);
    let n = keys.len();
    let mut done: Vec<bool> = Vec::new();
    while done.len() < n
        invariant
            done@.len() <= n,
            forall|l: int| 0 <= l < done@.len() ==> !done@[l],
        decreases n - done@.len(),
    {
        done.push(false);
    }
    proof {
        assert(num_done(done@) == 0) by {
            lemma_num_done_zero(done@);
        }
    }
    let mut count: usize = 0;
    let ghost mut rank: spec_fn(Name) -> nat = |m: Name| 0nat;
    loop
        invariant
            n == keys@.len() == deps@.len() == done@.len(),
            dv == deps_view(deps@),
            count == num_done(done@),
            forall|i: int, j: int, l: int|
                #![trigger dv[i][j], keys@[l]]
                0 <= i < n && done@[i] && 0 <= j < dv[i].len() && 0 <= l < n && !done@[l] ==> keys@[l]
                    != dv[i][j],
            forall|i: int, j: int|
                0 <= i < n && done@[i] && 0 <= j < dv[i].len() ==> rank(#[trigger] dv[i][j]) < rank(
                    keys@[i],
                ),
            forall|m: Name| #[trigger] rank(m) <= count,
        decreases n - count,
    {
        proof {
            lemma_num_done_bound(done@);
        }
        let ghost start = done@;
        let ghost count0 = count;
        let mut progress = false;
        let mut i: usize = 0;
        while i < n
            invariant
                n == keys@.len() == deps@.len() == done@.len() == start.len(),
                dv == deps_view(deps@),
                i <= n,
                count == num_done(done@),
                !progress ==> done@ == start && forall|i2: int|
                    0 <= i2 < i && !done@[i2] ==> !is_ready(keys@, dv, done@, i2),
                count0 == num_done(start),
                progress ==> count0 < count,
                forall|i2: int, j: int, l: int|
                    #![trigger dv[i2][j], keys@[l]]
                    0 <= i2 < n && done@[i2] && 0 <= j < dv[i2].len() && 0 <= l < n && !done@[l]
                        ==> keys@[l] != dv[i2][j],
                forall|i2: int, j: int|
                    0 <= i2 < n && done@[i2] && 0 <= j < dv[i2].len() ==> rank(#[trigger] dv[i2][j])
                        < rank(keys@[i2]),
                forall|m: Name| #[trigger] rank(m) <= count,
            decreases n - i,
        {
            if !done[i] && ready(keys, deps, &done, i) {
                proof {
                    lemma_num_done_bound(done@);
                    lemma_num_done_take(done@, i as int);
                    let r0 = rank;
                    let k = keys@[i as int];
                    rank = |m: Name| if m == k {
                        (count + 1) as nat
                    } else {
                        r0(m)
                    };
                    assert forall|i2: int, j: int|
                        0 <= i2 < n && (done@[i2] || i2 == i) && 0 <= j < dv[i2].len() implies rank(
                            #[trigger] dv[i2][j],
                        ) < rank(keys@[i2]) by {
                        if i2 == i {
                            assert(dv[i2][j] != k);
                        } else {
                            assert(dv[i2][j] != k);
                            assert(r0(dv[i2][j]) < r0(keys@[i2]));
                        }
                    }
                }
                done.set(i, true);
                count = count + 1;
                progress = true;
            }
            i += 1;
        }
        proof {
            lemma_num_done_bound(done@);
        }
        if !progress {
            if count == n {
                proof {
                    lemma_num_done_bound(done@);
                    assert(deps_ranked(keys@, dv, rank));
                }
                return true;
            } else {
                proof {
                    lemma_num_done_bound(done@);
                    assert(exists|l: int| 0 <= l < n && !done@[l]) by {
                        lemma_num_done_not_all(done@);
                    }
                    lemma_stuck_is_cyclic(keys@, dv, done@);
                }
                return false;
            }
        }
    }
}

proof fn lemma_num_done_zero(done: Seq<bool>)
    requires
        forall|l: int| 0 <= l < done.len() ==> !done[l],
    ensures
        num_done(done) == 0,
    decreases done.len(),
{
    if done.len() > 0 {
        lemma_num_done_zero(done.drop_last());
    }
}

proof fn lemma_num_done_not_all(done: Seq<bool>)
    requires
        num_done(done) < done.len(),
    ensures
        exists|l: int| 0 <= l < done.len() && !done[l],
    decreases done.len(),
{
    if done.last() {
        lemma_num_done_not_all(done.drop_last());
        let l = choose|l: int| 0 <= l < done.drop_last().len() && !done.drop_last()[l];
        assert(done[l] == done.drop_last()[l]);
    }
}

} // verus!
