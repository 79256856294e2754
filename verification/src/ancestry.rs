//! Abstract theory of parent links.
//!
//! The node graph stores, for every node, an optional parent link.  This
//! module reasons about such link tables in the abstract: a table is a map
//! from node indices to optional parent indices.  Walking upward from a node
//! must always end at a root; this property is what makes the graph a forest,
//! and it is what termination of downward traversals rests on.

use vstd::prelude::*;
use vstd::seq_lib::*;
use vstd::set_lib::*;

verus! {

/// One upward step from `x`: the parent of `x`, or `None` at a root or
/// outside the table.
pub open spec fn step(m: Map<int, Option<int>>, x: int) -> Option<int> {
    if m.dom().contains(x) {
        m[x]
    } else {
        None
    }
}

/// The node reached after `k` upward steps from `n`, or `None` once the walk
/// has ended at a root.
pub open spec fn walk(m: Map<int, Option<int>>, n: int, k: nat) -> Option<int>
    decreases k,
{
    if k == 0 {
        Some(n)
    } else {
        match walk(m, n, (k - 1) as nat) {
            Some(x) => step(m, x),
            None => None,
        }
    }
}

/// The upward walk from `n` eventually ends at a root.
pub open spec fn terminates(m: Map<int, Option<int>>, n: int) -> bool {
    exists|k: nat| walk(m, n, k) == None::<int>
}

/// `a` lies on the upward walk from `n` (including `n` itself).
pub open spec fn reaches(m: Map<int, Option<int>>, n: int, a: int) -> bool {
    exists|k: nat| walk(m, n, k) == Some(a)
}

/// The number of steps after which the walk from `n` ends.
pub open spec fn depth(m: Map<int, Option<int>>, n: int) -> nat {
    choose|k: nat|
        #[trigger] walk(m, n, k) == None::<int> && k >= 1 && walk(m, n, (k - 1) as nat)
            != None::<int>
}

/// Once a walk has ended it stays ended.
pub proof fn lemma_walk_none_stable(m: Map<int, Option<int>>, n: int, k: nat, k2: nat)
    requires
        walk(m, n, k) == None::<int>,
        k <= k2,
    ensures
        walk(m, n, k2) == None::<int>,
    decreases k2,
{
    if k2 > k {
        lemma_walk_none_stable(m, n, k, (k2 - 1) as nat);
    }
}

/// Walks compose: going `k1 + k2` steps from `n` is going `k2` steps from
/// wherever `k1` steps led.
pub proof fn lemma_walk_add(m: Map<int, Option<int>>, n: int, x: int, k1: nat, k2: nat)
    requires
        walk(m, n, k1) == Some(x),
    ensures
        walk(m, n, (k1 + k2) as nat) == walk(m, x, k2),
    decreases k2,
{
    if k2 > 0 {
        lemma_walk_add(m, n, x, k1, (k2 - 1) as nat);
    }
}

/// A terminating walk has a well-defined end: `depth` satisfies its
/// characterisation.
pub proof fn lemma_depth_exists(m: Map<int, Option<int>>, n: int)
    requires
        terminates(m, n),
    ensures
        walk(m, n, depth(m, n)) == None::<int>,
        depth(m, n) >= 1,
        walk(m, n, (depth(m, n) - 1) as nat) != None::<int>,
{
    let k0 = choose|k: nat| walk(m, n, k) == None::<int>;
    lemma_find_min(m, n, k0);
}

proof fn lemma_find_min(m: Map<int, Option<int>>, n: int, k: nat)
    requires
        walk(m, n, k) == None::<int>,
    ensures
        exists|j: nat|
            #[trigger] walk(m, n, j) == None::<int> && j >= 1 && walk(m, n, (j - 1) as nat)
                != None::<int>,
    decreases k,
{
    if k == 0 {
        assert(walk(m, n, 0nat) == Some(n));
    } else if walk(m, n, (k - 1) as nat) == None::<int> {
        lemma_find_min(m, n, (k - 1) as nat);
    } else {
        assert(walk(m, n, k) == None::<int> && k >= 1 && walk(m, n, (k - 1) as nat)
            != None::<int>);
    }
}

/// Any step count meeting the `depth` characterisation is the depth.
pub proof fn lemma_depth_unique(m: Map<int, Option<int>>, n: int, k: nat)
    requires
        walk(m, n, k) == None::<int>,
        k >= 1,
        walk(m, n, (k - 1) as nat) != None::<int>,
    ensures
        depth(m, n) == k,
{
    assert(terminates(m, n));
    lemma_depth_exists(m, n);
    let d = depth(m, n);
    if d < k {
        lemma_walk_none_stable(m, n, d, (k - 1) as nat);
    } else if d > k {
        lemma_walk_none_stable(m, n, k, (d - 1) as nat);
    }
}

/// Every step below the depth still sits on a node.
pub proof fn lemma_below_depth(m: Map<int, Option<int>>, n: int, j: nat)
    requires
        terminates(m, n),
        j < depth(m, n),
    ensures
        walk(m, n, j) != None::<int>,
{
    lemma_depth_exists(m, n);
    if walk(m, n, j) == None::<int> {
        lemma_walk_none_stable(m, n, j, (depth(m, n) - 1) as nat);
    }
}

/// A child sits one step deeper than its parent.
pub proof fn lemma_depth_step(m: Map<int, Option<int>>, c: int, p: int)
    requires
        m.dom().contains(c),
        m[c] == Some(p),
        terminates(m, c),
    ensures
        terminates(m, p),
        depth(m, c) == depth(m, p) + 1,
{
    reveal_with_fuel(walk, 3);
    assert(walk(m, c, 1nat) == Some(p));
    lemma_depth_exists(m, c);
    let d = depth(m, c);
    assert(d >= 2) by {
        if d == 1 {
            assert(walk(m, c, 1nat) == None::<int>);
        }
    }
    lemma_walk_add(m, c, p, 1nat, (d - 1) as nat);
    assert(walk(m, p, (d - 1) as nat) == None::<int>);
    lemma_walk_add(m, c, p, 1nat, (d - 2) as nat);
    assert(walk(m, p, (d - 2) as nat) == walk(m, c, (d - 1) as nat));
    lemma_below_depth(m, c, (d - 1) as nat);
    lemma_depth_unique(m, p, (d - 1) as nat);
}

spec fn walk_at(m: Map<int, Option<int>>, n: int, k: nat) -> int {
    match walk(m, n, k) {
        Some(x) => x,
        None => 0,
    }
}

/// In a finite table, a terminating walk ends within `|table| + 2` steps:
/// a longer minimal walk would have to visit some node twice and thus loop
/// forever.
pub proof fn lemma_depth_bound(m: Map<int, Option<int>>, n: int)
    requires
        m.dom().finite(),
        terminates(m, n),
    ensures
        depth(m, n) <= m.dom().len() + 2,
{
    lemma_depth_exists(m, n);
    let d = depth(m, n);
    let nn = m.dom().len();
    if d > nn + 2 {
        // The nodes visited at steps 1 ..= nn + 1 all lie in the table.
        let s = Seq::new((nn + 1) as nat, |idx: int| walk_at(m, n, (idx + 1) as nat));
        assert forall|idx: int| 0 <= idx < s.len() implies m.dom().contains(#[trigger] s[idx]) by {
            lemma_below_depth(m, n, (idx + 1) as nat);
            lemma_below_depth(m, n, (idx + 2) as nat);
            let x = walk_at(m, n, (idx + 1) as nat);
            assert(walk(m, n, (idx + 2) as nat) == step(m, x));
            if !m.dom().contains(x) {
                assert(step(m, x) == None::<int>);
            }
        }
        if s.no_duplicates() {
            s.unique_seq_to_set();
            assert(s.to_set().subset_of(m.dom())) by {
                assert forall|x: int| s.to_set().contains(x) implies m.dom().contains(x) by {
                    let idx = choose|idx: int| 0 <= idx < s.len() && s[idx] == x;
                }
            }
            lemma_len_subset(s.to_set(), m.dom());
        } else {
            let (i, j) = choose|i: int, j: int|
                0 <= i < j < s.len() && #[trigger] s[i] == #[trigger] s[j];
            // The walk repeats a node, so it is periodic from there on.
            lemma_below_depth(m, n, (i + 1) as nat);
            lemma_below_depth(m, n, (j + 1) as nat);
            let x = walk_at(m, n, (i + 1) as nat);
            assert(walk(m, n, (i + 1) as nat) == Some(x));
            assert(walk(m, n, (j + 1) as nat) == Some(x));
            let t0 = (d - j - 1) as nat;
            lemma_walk_add(m, n, x, (i + 1) as nat, t0);
            lemma_walk_add(m, n, x, (j + 1) as nat, t0);
            assert(walk(m, n, ((j + 1) + t0) as nat) == None::<int>);
            assert(walk(m, n, ((i + 1) + t0) as nat) == None::<int>);
            lemma_below_depth(m, n, ((i + 1) + t0) as nat);
        }
    }
}

/// Turning `c` into a root (or adding it as a fresh root) keeps every walk
/// terminating.
pub proof fn lemma_root_preserves(m: Map<int, Option<int>>, c: int, n: int, k: nat)
    requires
        walk(m, n, k) == None::<int>,
    ensures
        terminates(m.insert(c, None), n),
    decreases k,
{
    reveal_with_fuel(walk, 3);
    let m2 = m.insert(c, None);
    if n == c {
        assert(walk(m2, n, 1nat) == None::<int>);
    } else if !m.dom().contains(n) {
        assert(walk(m2, n, 1nat) == None::<int>);
    } else {
        assert(k >= 1);
        match m[n] {
            None => {
                assert(walk(m2, n, 1nat) == None::<int>);
            },
            Some(x) => {
                assert(walk(m, n, 1nat) == Some(x));
                if x == c {
                    assert(walk(m2, n, 1nat) == Some(c));
                    assert(walk(m2, n, 2nat) == None::<int>);
                } else {
                    lemma_walk_add(m, n, x, 1nat, (k - 1) as nat);
                    lemma_root_preserves(m, c, x, (k - 1) as nat);
                    let t = choose|t: nat| walk(m2, x, t) == None::<int>;
                    assert(walk(m2, n, 1nat) == Some(x));
                    lemma_walk_add(m2, n, x, 1nat, t);
                }
            },
        }
    }
}

/// The walk from `p` never moves once the link of `c` changes, as long as the
/// walk from `p` does not pass through `c`.
proof fn lemma_walk_avoid(m: Map<int, Option<int>>, c: int, p: int, v: Option<int>, k: nat)
    requires
        !reaches(m, p, c),
    ensures
        walk(m.insert(c, v), p, k) == walk(m, p, k),
    decreases k,
{
    let m2 = m.insert(c, v);
    if k > 0 {
        lemma_walk_avoid(m, c, p, v, (k - 1) as nat);
        match walk(m, p, (k - 1) as nat) {
            None => {},
            Some(y) => {
                assert(y != c);
                assert(step(m2, y) == step(m, y));
            },
        }
    }
}

/// Attaching the root `c` beneath `p` keeps every walk terminating, provided
/// `c` is not an ancestor of `p`.
pub proof fn lemma_attach_preserves(m: Map<int, Option<int>>, c: int, p: int, n: int, k: nat)
    requires
        m.dom().contains(c),
        m[c] == None::<int>,
        terminates(m, p),
        !reaches(m, p, c),
        walk(m, n, k) == None::<int>,
    ensures
        terminates(m.insert(c, Some(p)), n),
    decreases k,
{
    reveal_with_fuel(walk, 3);
    let m2 = m.insert(c, Some(p));
    if n == c {
        // The walk now goes through p, whose own walk is unchanged.
        let t = choose|t: nat| walk(m, p, t) == None::<int>;
        lemma_walk_avoid(m, c, p, Some(p), t);
        assert(walk(m2, c, 1nat) == Some(p));
        lemma_walk_add(m2, c, p, 1nat, t);
    } else if !m.dom().contains(n) {
        assert(walk(m2, n, 1nat) == None::<int>);
    } else {
        assert(k >= 1);
        match m[n] {
            None => {
                assert(walk(m2, n, 1nat) == None::<int>);
            },
            Some(x) => {
                assert(walk(m, n, 1nat) == Some(x));
                lemma_walk_add(m, n, x, 1nat, (k - 1) as nat);
                lemma_attach_preserves(m, c, p, x, (k - 1) as nat);
                let t = choose|t: nat| walk(m2, x, t) == None::<int>;
                assert(walk(m2, n, 1nat) == Some(x));
                lemma_walk_add(m2, n, x, 1nat, t);
            },
        }
    }
}

} // verus!

verus! {

/// A root reaches nothing but itself.
pub proof fn lemma_root_reaches_only_self(m: Map<int, Option<int>>, n: int, x: int)
    requires
        step(m, n) == None::<int>,
        x != n,
    ensures
        !reaches(m, n, x),
{
    reveal_with_fuel(walk, 3);
    if reaches(m, n, x) {
        let k = choose|k: nat| walk(m, n, k) == Some(x);
        if k >= 1 {
            assert(walk(m, n, 1nat) == None::<int>);
            lemma_walk_none_stable(m, n, 1nat, k);
        }
    }
}

} // verus!

verus! {

/// A node that no link points to is reached from nowhere else.
pub proof fn lemma_unreached(m: Map<int, Option<int>>, c: int, n: int, k: nat)
    requires
        forall|x: int| step(m, x) != Some(c),
        n != c,
    ensures
        walk(m, n, k) != Some(c),
    decreases k,
{
    if k > 0 {
        lemma_unreached(m, c, n, (k - 1) as nat);
    }
}

} // verus!
