use vstd::prelude::*;

use crate::manifest::{PackageNode, PackageView};

verus! {

/// The size of a descriptor; an absent size counts as zero.
pub open spec fn size_of(p: PackageView) -> nat {
    match p.size {
        Some(s) => s as nat,
        None => 0,
    }
}

/// The number of nodes below each node of `s`, each node counted together with its
/// descendants.
pub open spec fn count_below(s: Seq<PackageNode>) -> nat
    decreases s,
{
    if s.len() == 0 {
        0
    } else {
        count_below(s.drop_last()) + 1 + count_below(s.last().dependencies@)
    }
}

/// The summed sizes of the nodes of `s` and of all their descendants.
pub open spec fn size_below(s: Seq<PackageNode>) -> nat
    decreases s,
{
    if s.len() == 0 {
        0
    } else {
        size_below(s.drop_last()) + size_of(s.last().package@) + size_below(s.last().dependencies@)
    }
}

/// The number of packages reachable below a node.
pub open spec fn dependency_total(n: PackageNode) -> nat {
    count_below(n.dependencies@)
}

/// A node's own size plus the sizes of everything below it.
pub open spec fn total_size_of(n: PackageNode) -> nat {
    size_of(n.package@) + size_below(n.dependencies@)
}

/// Counts the packages reachable below a node, each child together with its own
/// descendants.
pub fn count_dependencies(node: &PackageNode) -> (r: usize)
    requires
        dependency_total(*node) <= usize::MAX,
    ensures
        r == dependency_total(*node),
    decreases node,
{
    let ghost s = node.dependencies@;
    let mut total: usize = 0;
    let mut i: usize = 0;
    while i < node.dependencies.len()
        invariant
            s == node.dependencies@,
            i <= s.len(),
            count_below(s) <= usize::MAX,
            total == count_below(s.subrange(0, i as int)),
        decreases s.len() - i,
    {
        proof {
            assert(s.subrange(0, i + 1).drop_last() =~= s.subrange(0, i as int));
            lemma_count_prefix(s, i + 1);
        }
        let below = count_dependencies(&node.dependencies[i]);
        total = total + 1 + below;
        i = i + 1;
    }
    proof {
        assert(s.subrange(0, s.len() as int) =~= s);
    }
    total
}

/// Counting a prefix gives no more than counting the whole sequence.
pub proof fn lemma_count_prefix(s: Seq<PackageNode>, i: int)
    requires
        0 <= i <= s.len(),
    ensures
        count_below(s.subrange(0, i)) <= count_below(s),
        i < s.len() ==> count_below(s.subrange(0, i)) + 1 + count_below(s[i].dependencies@) <= count_below(s),
    decreases s.len() - i,
{
    if i < s.len() {
        lemma_count_prefix(s, i + 1);
        assert(s.subrange(0, i + 1).drop_last() =~= s.subrange(0, i));
    } else {
        assert(s.subrange(0, i) =~= s);
    }
}

/// Adds up a node's own size and the sizes of everything below it; `None` where the
/// sum does not fit in 64 bits.
pub fn calculate_total_size(node: &PackageNode) -> (r: Option<u64>)
    ensures
        match r {
            Some(t) => t == total_size_of(*node),
            None => total_size_of(*node) > u64::MAX,
        },
    decreases node,
{
    let ghost s = node.dependencies@;
    let mut total: u64 = match node.package.size {
        Some(v) => v,
        None => 0,
    };
    let mut i: usize = 0;
    while i < node.dependencies.len()
        invariant
            s == node.dependencies@,
            i <= s.len(),
            total == size_of(node.package@) + size_below(s.subrange(0, i as int)),
        decreases s.len() - i,
    {
        proof {
            assert(s.subrange(0, i + 1).drop_last() =~= s.subrange(0, i as int));
            lemma_size_prefix(s, i + 1);
        }
        let child = &node.dependencies[i];
        match calculate_total_size(child) {
            Some(t) => {
                match total.checked_add(t) {
                    Some(v) => total = v,
                    None => {
                        proof {
                            lemma_size_prefix(s, i as int);
                        }
                        return None;
                    },
                }
            },
            None => {
                proof {
                    lemma_size_prefix(s, i as int);
                }
                return None;
            },
        }
        i = i + 1;
    }
    proof {
        assert(s.subrange(0, s.len() as int) =~= s);
    }
    Some(total)
}

/// Summing a prefix gives no more than summing the whole sequence.
pub proof fn lemma_size_prefix(s: Seq<PackageNode>, i: int)
    requires
        0 <= i <= s.len(),
    ensures
        size_below(s.subrange(0, i)) <= size_below(s),
        i < s.len() ==> size_below(s.subrange(0, i)) + size_of(s[i].package@) + size_below(s[i].dependencies@) <= size_below(s),
    decreases s.len() - i,
{
    if i < s.len() {
        lemma_size_prefix(s, i + 1);
        assert(s.subrange(0, i + 1).drop_last() =~= s.subrange(0, i));
    } else {
        assert(s.subrange(0, i) =~= s);
    }
}

} // verus!
