//! The node hierarchy: walks from a node to its parents.

use std::collections::{HashMap, HashSet};
use vstd::prelude::*;
use vstd::seq_lib::seq_to_set_is_finite;
use vstd::set_lib::lemma_len_subset;

verus! {

/// The node `n` steps up from a node, if the walk goes that far.
pub open spec fn ancestor_at(node: u64, parents: Map<u64, u64>, n: nat) -> Option<u64>
    decreases n,
{
    if n == 0 {
        Some(node)
    } else {
        match ancestor_at(node, parents, (n - 1) as nat) {
            Some(below) if parents.contains_key(below) => Some(parents[below]),
            _ => None,
        }
    }
}

/// The walk up from `node` meets `ancestor` after at least one step.
pub open spec fn descends_from(node: u64, ancestor: u64, parents: Map<u64, u64>) -> bool {
    exists|n: nat| n >= 1 && #[trigger] ancestor_at(node, parents, n) == Some(ancestor)
}

/// The node itself or one on the walk up from it is in the set.
pub open spec fn under_any(node: u64, marked: Set<u64>, parents: Map<u64, u64>) -> bool {
    exists|n: nat|
        (#[trigger] ancestor_at(node, parents, n)) matches Some(a) && marked.contains(a)
}

/// A walk that went on was at a node with a parent before.
proof fn lemma_walk_goes_through(node: u64, parents: Map<u64, u64>, m: nat, n: nat)
    requires
        m <= n,
        ancestor_at(node, parents, n) is Some,
    ensures
        ancestor_at(node, parents, m) is Some,
        m < n ==> parents.contains_key(ancestor_at(node, parents, m)->0),
    decreases n - m,
{
    if m < n {
        lemma_walk_goes_through(node, parents, m + 1, n);
    }
}

/// From equal nodes the walks go on equally.
proof fn lemma_walks_agree(node: u64, parents: Map<u64, u64>, i: nat, j: nat, steps: nat)
    requires
        ancestor_at(node, parents, i) == ancestor_at(node, parents, j),
    ensures
        ancestor_at(node, parents, i + steps) == ancestor_at(node, parents, j + steps),
    decreases steps,
{
    if steps > 0 {
        lemma_walks_agree(node, parents, i, j, (steps - 1) as nat);
    }
}

/// What a walk meets, it meets within as many steps as there are nodes with a parent.
proof fn lemma_short_walk(node: u64, parents: Map<u64, u64>, n: nat) -> (m: nat)
    requires
        parents.dom().finite(),
        ancestor_at(node, parents, n) is Some,
    ensures
        m <= n,
        m <= parents.dom().len(),
        n >= 1 ==> m >= 1,
        ancestor_at(node, parents, m) == ancestor_at(node, parents, n),
    decreases n,
{
    if n <= parents.dom().len() {
        return n;
    }
    let walk = Seq::new(n, |i: int| ancestor_at(node, parents, i as nat)->0);
    assert forall|i: int| 0 <= i < n implies parents.contains_key(#[trigger] walk[i]) by {
        lemma_walk_goes_through(node, parents, i as nat, n);
    }
    if walk.no_duplicates() {
        walk.unique_seq_to_set();
        seq_to_set_is_finite(walk);
        assert(walk.to_set().subset_of(parents.dom()));
        lemma_len_subset(walk.to_set(), parents.dom());
    }
    let (i, j) = choose|i: int, j: int| 0 <= i < j < n && walk[i] == walk[j];
    lemma_walk_goes_through(node, parents, i as nat, n);
    lemma_walk_goes_through(node, parents, j as nat, n);
    lemma_walks_agree(node, parents, i as nat, j as nat, (n - j) as nat);
    lemma_short_walk(node, parents, (i + (n - j)) as nat)
}

/// Whether a node lies below another. The walk ends also where the hierarchy has a cycle.
pub fn is_descendant_of(node: u64, ancestor: u64, parents: &HashMap<u64, u64>) -> (r: bool)
    ensures
        r == descends_from(node, ancestor, parents@),
{
    let limit: usize = parents.len();
    let mut at: u64 = node;
    let mut steps: usize = 0;
    while steps < limit
        invariant
            steps <= limit,
            limit == parents@.dom().len(),
            parents@.dom().finite(),
            ancestor_at(node, parents@, steps as nat) == Some(at),
            forall|n: nat|
                1 <= n <= steps ==> #[trigger] ancestor_at(node, parents@, n) != Some(ancestor),
        decreases limit - steps,
    {
        match parents.get(&at) {
            Some(parent) => {
                at = *parent;
                steps = steps + 1;
                assert(ancestor_at(node, parents@, steps as nat) == Some(at));
                if at == ancestor {
                    return true;
                }
            },
            None => {
                assert forall|n: nat| n >= 1 implies #[trigger] ancestor_at(node, parents@, n)
                    != Some(ancestor) by {
                    if n > steps && ancestor_at(node, parents@, n) is Some {
                        lemma_walk_goes_through(node, parents@, steps as nat, n);
                    }
                }
                return false;
            },
        }
    }
    assert forall|n: nat| n >= 1 implies #[trigger] ancestor_at(node, parents@, n) != Some(
        ancestor,
    ) by {
        if ancestor_at(node, parents@, n) is Some {
            let m = lemma_short_walk(node, parents@, n);
        }
    }
    false
}

/// Whether a node or anything above it is in the set. The walk ends also where the hierarchy has a
/// cycle.
pub fn is_under_any(node: u64, marked: &HashSet<u64>, parents: &HashMap<u64, u64>) -> (r: bool)
    ensures
        r == under_any(node, marked@, parents@),
{
    if marked.contains(&node) {
        assert(ancestor_at(node, parents@, 0) == Some(node));
        return true;
    }
    let limit: usize = parents.len();
    let mut at: u64 = node;
    let mut steps: usize = 0;
    while steps < limit
        invariant
            steps <= limit,
            limit == parents@.dom().len(),
            parents@.dom().finite(),
            ancestor_at(node, parents@, steps as nat) == Some(at),
            forall|n: nat|
                n <= steps ==> ((#[trigger] ancestor_at(node, parents@, n)) matches Some(a)
                    ==> !marked@.contains(a)),
        decreases limit - steps,
    {
        match parents.get(&at) {
            Some(parent) => {
                at = *parent;
                steps = steps + 1;
                assert(ancestor_at(node, parents@, steps as nat) == Some(at));
                if marked.contains(&at) {
                    return true;
                }
            },
            None => {
                assert forall|n: nat|
                    (#[trigger] ancestor_at(node, parents@, n)) matches Some(a)
                        implies !marked@.contains(ancestor_at(node, parents@, n)->0) by {
                    if n > steps {
                        lemma_walk_goes_through(node, parents@, steps as nat, n);
                    }
                }
                return false;
            },
        }
    }
    assert forall|n: nat| (#[trigger] ancestor_at(node, parents@, n)) matches Some(a)
        implies !marked@.contains(ancestor_at(node, parents@, n)->0) by {
        let m = lemma_short_walk(node, parents@, n);
        assert(ancestor_at(node, parents@, m) is Some);
    }
    false
}

/// Descent is transitive: a node below a descendant is a descendant.
pub proof fn law_descent_is_transitive(low: u64, middle: u64, top: u64, parents: Map<u64, u64>)
    requires
        descends_from(low, middle, parents),
        descends_from(middle, top, parents),
    ensures
        descends_from(low, top, parents),
{
    let i = choose|n: nat| n >= 1 && #[trigger] ancestor_at(low, parents, n) == Some(middle);
    let j = choose|n: nat| n >= 1 && #[trigger] ancestor_at(middle, parents, n) == Some(top);
    lemma_walks_join(low, middle, parents, i, j);
}

proof fn lemma_walks_join(low: u64, middle: u64, parents: Map<u64, u64>, i: nat, j: nat)
    requires
        ancestor_at(low, parents, i) == Some(middle),
    ensures
        ancestor_at(low, parents, i + j) == ancestor_at(middle, parents, j),
    decreases j,
{
    if j > 0 {
        lemma_walks_join(low, middle, parents, i, (j - 1) as nat);
    }
}

/// The walk from a parent is the walk from its child, one step later.
proof fn lemma_first_step(node: u64, parents: Map<u64, u64>, n: nat)
    requires
        parents.contains_key(node),
    ensures
        ancestor_at(node, parents, n + 1) == ancestor_at(parents[node], parents, n),
    decreases n,
{
    reveal_with_fuel(ancestor_at, 2);
    if n > 0 {
        lemma_first_step(node, parents, (n - 1) as nat);
    }
}

/// A node lies below its parent and below whatever its parent lies below, and below nothing else; a
/// node without a parent lies below nothing.
pub proof fn law_descent_goes_through_the_parent(node: u64, ancestor: u64, parents: Map<u64, u64>)
    ensures
        parents.contains_key(node) ==> (descends_from(node, ancestor, parents) <==> parents[node]
            == ancestor || descends_from(parents[node], ancestor, parents)),
        !parents.contains_key(node) ==> !descends_from(node, ancestor, parents),
{
    if parents.contains_key(node) {
        let parent = parents[node];
        if descends_from(node, ancestor, parents) {
            let n = choose|n: nat|
                n >= 1 && #[trigger] ancestor_at(node, parents, n) == Some(ancestor);
            lemma_first_step(node, parents, (n - 1) as nat);
            assert(ancestor_at(parent, parents, (n - 1) as nat) == Some(ancestor));
        }
        if parent == ancestor {
            lemma_first_step(node, parents, 0);
            assert(ancestor_at(node, parents, 1) == Some(ancestor));
        }
        if descends_from(parent, ancestor, parents) {
            let n = choose|n: nat|
                n >= 1 && #[trigger] ancestor_at(parent, parents, n) == Some(ancestor);
            lemma_first_step(node, parents, n);
            assert(ancestor_at(node, parents, n + 1) == Some(ancestor));
        }
    } else if descends_from(node, ancestor, parents) {
        let n = choose|n: nat| n >= 1 && #[trigger] ancestor_at(node, parents, n) == Some(ancestor);
        lemma_walk_goes_through(node, parents, 0, n);
    }
}

/// A node is under a marked one exactly when it is marked itself or its parent is under one.
pub proof fn law_marks_are_inherited(node: u64, marked: Set<u64>, parents: Map<u64, u64>)
    ensures
        under_any(node, marked, parents) <==> marked.contains(node) || (parents.contains_key(node)
            && under_any(parents[node], marked, parents)),
{
    if marked.contains(node) {
        assert(ancestor_at(node, parents, 0) == Some(node));
    }
    if under_any(node, marked, parents) && !marked.contains(node) {
        let n = choose|n: nat|
            (#[trigger] ancestor_at(node, parents, n)) matches Some(a) && marked.contains(a);
        lemma_walk_goes_through(node, parents, 0, n);
        lemma_first_step(node, parents, (n - 1) as nat);
        assert(ancestor_at(parents[node], parents, (n - 1) as nat) is Some);
    }
    if parents.contains_key(node) && under_any(parents[node], marked, parents) {
        let n = choose|n: nat|
            (#[trigger] ancestor_at(parents[node], parents, n)) matches Some(a) && marked.contains(
                a,
            );
        lemma_first_step(node, parents, n);
        assert(ancestor_at(node, parents, n + 1) is Some);
    }
}

/// Nothing is under a mark where there is none, and nothing lies below anything without parents.
pub proof fn law_no_marks_no_parents(node: u64, other: u64, parents: Map<u64, u64>)
    ensures
        !under_any(node, Set::empty(), parents),
        !descends_from(node, other, Map::empty()),
{
    law_descent_goes_through_the_parent(node, other, Map::empty());
}

} // verus!
