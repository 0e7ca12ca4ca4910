use vstd::prelude::*;

use crate::error::EngineError;
use crate::forest::{
    calculate_total_size, count_below, count_dependencies, dependency_total, size_below, size_of,
    total_size_of,
};
use crate::manifest::{Package, PackageNode, PackageView};
use crate::text::{parse_u64, parsed_u64, strip_quotes, trim_quotes};

verus! {

/// The three response headers that a metadata probe reads; each is absent where the
/// response lacked it or its value was not visible text.
pub struct ProbeHeaders {
    pub content_length: Option<String>,
    pub last_modified: Option<String>,
    pub etag: Option<String>,
}

/// What one metadata probe gave: its headers, or the message of a transport failure.
pub type ProbeOutcome = Result<ProbeHeaders, String>;

/// The probe outcomes for one root: the root's own, then one per direct child, in order.
pub struct NodeProbes {
    pub root: ProbeOutcome,
    pub children: Vec<ProbeOutcome>,
}

/// The size that a `Content-Length` value gives; absent or unreadable reads as zero.
pub open spec fn probed_size(h: ProbeHeaders) -> u64 {
    match h.content_length {
        Some(c) => match parsed_u64(c@) {
            Some(v) => v,
            None => 0,
        },
        None => 0,
    }
}

/// The descriptor after its probe: size, last-modified time and hash are overwritten
/// from the headers, with zero or `"unknown"` where a header is absent.
pub open spec fn probed(p: PackageView, h: ProbeHeaders) -> PackageView {
    PackageView {
        size: Some(probed_size(h)),
        last_modified: Some(
            match h.last_modified {
                Some(l) => l@,
                None => "unknown"@,
            },
        ),
        hash: Some(
            match h.etag {
                Some(e) => trim_quotes(e@),
                None => "unknown"@,
            },
        ),
        ..p
    }
}

/// Overwrites a descriptor's size, last-modified time and hash from probe headers.
pub fn apply_package_metadata(package: Package, headers: &ProbeHeaders) -> (r: Package)
    ensures
        r@ == probed(package@, *headers),
{
    let size = match &headers.content_length {
        Some(c) => match parse_u64(c.as_str()) {
            Some(v) => v,
            None => 0,
        },
        None => 0,
    };
    let last_modified = match &headers.last_modified {
        Some(l) => l.clone(),
        None => String::from_str("unknown"),
    };
    let hash = match &headers.etag {
        Some(e) => strip_quotes(e.as_str()),
        None => String::from_str("unknown"),
    };
    Package { size: Some(size), last_modified: Some(last_modified), hash: Some(hash), ..package }
}

/// Every node of `s` is childless.
pub open spec fn all_childless(s: Seq<PackageNode>) -> bool {
    forall|j: int| 0 <= j < s.len() ==> (#[trigger] s[j]).dependencies@.len() == 0
}

/// A node of the forest's shape: its children are childless.
pub open spec fn is_shallow(n: PackageNode) -> bool {
    all_childless(n.dependencies@)
}

/// The summed sizes of the packages of `s`.
pub open spec fn sizes_sum(s: Seq<PackageNode>) -> nat
    decreases s.len(),
{
    if s.len() == 0 {
        0
    } else {
        sizes_sum(s.drop_last()) + size_of(s.last().package@)
    }
}

/// Below a shallow node there are exactly its children, and their sizes alone.
pub proof fn lemma_shallow_totals(s: Seq<PackageNode>)
    requires
        all_childless(s),
    ensures
        count_below(s) == s.len(),
        size_below(s) == sizes_sum(s),
    decreases s.len(),
{
    if s.len() > 0 {
        let t = s.drop_last();
        assert forall|j: int| 0 <= j < t.len() implies (#[trigger] t[j]).dependencies@.len() == 0 by {
            assert(t[j] == s[j]);
        }
        lemma_shallow_totals(t);
        assert(s.last() == s[s.len() - 1]);
        assert(s.last().dependencies@ =~= Seq::<PackageNode>::empty());
        assert(count_below(Seq::<PackageNode>::empty()) == 0);
        assert(size_below(Seq::<PackageNode>::empty()) == 0);
    }
}

/// The outcomes all hold headers.
pub open spec fn all_ok(s: Seq<ProbeOutcome>) -> bool {
    forall|i: int| 0 <= i < s.len() ==> (#[trigger] s[i]) is Ok
}

/// `m` is the message of the first failed outcome of `s`.
pub open spec fn is_first_failure(s: Seq<ProbeOutcome>, m: Seq<char>) -> bool {
    exists|i: int|
        0 <= i < s.len() && (#[trigger] s[i]) is Err && s[i]->Err_0@ == m && all_ok(s.subrange(0, i))
}

/// The outcomes of one root's probes, the root's first.
pub open spec fn probe_seq(p: NodeProbes) -> Seq<ProbeOutcome> {
    seq![p.root].add(p.children@)
}

/// The headers of an outcome known to hold them.
pub open spec fn headers_of(o: ProbeOutcome) -> ProbeHeaders {
    o->Ok_0
}

/// The summed probed sizes of outcomes that all hold headers.
pub open spec fn probed_sizes_sum(s: Seq<ProbeOutcome>) -> nat
    decreases s.len(),
{
    if s.len() == 0 {
        0
    } else {
        probed_sizes_sum(s.drop_last()) + probed_size(headers_of(s.last())) as nat
    }
}

/// The total size of a root after its probes: its probed size plus its children's.
pub open spec fn probed_total(p: NodeProbes) -> nat {
    probed_size(headers_of(p.root)) as nat + probed_sizes_sum(p.children@)
}

/// Nodes whose sizes are those that the outcomes give add up to the outcomes' sum.
pub proof fn lemma_probed_sizes(s: Seq<PackageNode>, o: Seq<ProbeOutcome>)
    requires
        s.len() == o.len(),
        forall|j: int| 0 <= j < s.len() ==> size_of((#[trigger] s[j]).package@) == probed_size(headers_of(o[j])),
    ensures
        sizes_sum(s) == probed_sizes_sum(o),
    decreases s.len(),
{
    if s.len() > 0 {
        let t = s.drop_last();
        let u = o.drop_last();
        assert forall|j: int| 0 <= j < t.len() implies size_of((#[trigger] t[j]).package@) == probed_size(headers_of(u[j])) by {
            assert(t[j] == s[j]);
            assert(u[j] == o[j]);
        }
        lemma_probed_sizes(t, u);
        assert(s.last() == s[s.len() - 1]);
    }
}

/// The root node after augmentation: probed, marked top-level, carrying its
/// dependency count and, once its children are probed, its total size.
pub open spec fn augmented_root(n: PackageNode, p: NodeProbes, total: u64) -> PackageView {
    PackageView {
        is_top_level_package: Some(true),
        dependency_count: Some(n.dependencies@.len() as usize),
        total_size: Some(total),
        ..probed(n.package@, headers_of(p.root))
    }
}

/// `r` is the augmentation of the shallow root `n` with the probe outcomes `p`.
pub open spec fn is_augmented(r: PackageNode, n: PackageNode, p: NodeProbes) -> bool {
    &&& all_ok(probe_seq(p))
    &&& p.children@.len() == n.dependencies@.len()
    &&& r.dependencies@.len() == n.dependencies@.len()
    &&& forall|j: int|
        0 <= j < n.dependencies@.len() ==> {
            &&& (#[trigger] r.dependencies@[j]).package@ == probed(
                n.dependencies@[j].package@,
                headers_of(p.children@[j]),
            )
            &&& r.dependencies@[j].dependencies@.len() == 0
        }
    &&& probed_total(p) <= u64::MAX
    &&& r.package@ == augmented_root(n, p, probed_total(p) as u64)
}

/// Every probe of the root succeeded and its total size fits in 64 bits.
pub open spec fn node_succeeds(p: NodeProbes) -> bool {
    all_ok(probe_seq(p)) && probed_total(p) <= u64::MAX
}

/// `e` is the error with which augmenting a root with probes `p` fails.
pub open spec fn is_node_error(p: NodeProbes, e: EngineError) -> bool {
    if !all_ok(probe_seq(p)) {
        e matches EngineError::Transport(m) && is_first_failure(probe_seq(p), m@)
    } else {
        e is Format && probed_total(p) > u64::MAX
    }
}

/// `r` is the node `n` after its probes: the root and each child hold their probed
/// descriptors, and the shape is unchanged.
pub open spec fn is_probed_node(r: PackageNode, n: PackageNode, p: NodeProbes) -> bool {
    &&& r.package@ == probed(n.package@, headers_of(p.root))
    &&& r.dependencies@.len() == n.dependencies@.len()
    &&& forall|j: int|
        0 <= j < r.dependencies@.len() ==> {
            &&& (#[trigger] r.dependencies@[j]).package@ == probed(
                n.dependencies@[j].package@,
                headers_of(p.children@[j]),
            )
            &&& r.dependencies@[j].dependencies@.len() == 0
        }
}

/// Updates the metadata of a root and of each of its children from their probes: each
/// takes a new size, last-modified time and hash, and nothing else changes. The first
/// failed probe (root first) fails the whole node with a transport error.
pub fn update_package_metadata(node: &PackageNode, probes: &NodeProbes) -> (r: Result<PackageNode, EngineError>)
    requires
        is_shallow(*node),
        probes.children@.len() == node.dependencies@.len(),
    ensures
        match r {
            Ok(n) => all_ok(probe_seq(*probes)) && is_probed_node(n, *node, *probes),
            Err(e) => !all_ok(probe_seq(*probes)) && (e matches EngineError::Transport(m)
                && is_first_failure(probe_seq(*probes), m@)),
        },
{
    let ghost ps = probe_seq(*probes);
    let root_headers = match &probes.root {
        Ok(h) => h,
        Err(m) => {
            proof {
                assert(ps[0] == probes.root);
                assert(all_ok(ps.subrange(0, 0)));
            }
            return Err(EngineError::Transport(m.clone()));
        },
    };
    let root = apply_package_metadata(node.package.duplicate(), root_headers);
    let mut children: Vec<PackageNode> = Vec::new();
    let mut i: usize = 0;
    while i < node.dependencies.len()
        invariant
            is_shallow(*node),
            probes.children@.len() == node.dependencies@.len(),
            ps == probe_seq(*probes),
            probes.root is Ok,
            i <= node.dependencies@.len(),
            all_ok(ps.subrange(0, i + 1)),
            children@.len() == i,
            forall|j: int|
                0 <= j < i ==> {
                    &&& (#[trigger] children@[j]).package@ == probed(
                        node.dependencies@[j].package@,
                        headers_of(probes.children@[j]),
                    )
                    &&& children@[j].dependencies@.len() == 0
                },
        decreases node.dependencies@.len() - i,
    {
        proof {
            assert(ps[i + 1] == probes.children@[i as int]);
        }
        let h = match &probes.children[i] {
            Ok(h) => h,
            Err(m) => {
                proof {
                    assert(ps[i + 1] is Err);
                }
                return Err(EngineError::Transport(m.clone()));
            },
        };
        let child = PackageNode {
            package: apply_package_metadata(node.dependencies[i].package.duplicate(), h),
            dependencies: Vec::new(),
        };
        children.push(child);
        i = i + 1;
        proof {
            assert forall|k: int| 0 <= k < i + 1 implies (#[trigger] ps.subrange(0, i + 1)[k]) is Ok by {
                if k < i {
                    assert(ps.subrange(0, i + 1)[k] == ps.subrange(0, i as int)[k]);
                }
            }
        }
    }
    proof {
        assert(ps.subrange(0, ps.len() as int) =~= ps);
    }
    Ok(PackageNode { package: root, dependencies: children })
}

/// Augments one root of the forest for the listing: the root and its children take the
/// metadata of their probes, then the root is marked top-level and given its dependency
/// count and its total size, its own size plus its children's. The first failed probe
/// (root first) fails the whole root with a transport error; a total beyond 64 bits is a
/// format error.
pub fn augment_node(node: &PackageNode, probes: &NodeProbes) -> (r: Result<PackageNode, EngineError>)
    requires
        is_shallow(*node),
        probes.children@.len() == node.dependencies@.len(),
    ensures
        match r {
            Ok(n) => is_augmented(n, *node, *probes),
            Err(e) => is_node_error(*probes, e),
        },
{
    proof {
        lemma_shallow_totals(node.dependencies@);
    }
    // A shallow node's dependency count is its number of children, which fits a usize.
    let children_len = node.dependencies.len();
    let count = count_dependencies(node);
    assert(count == children_len);
    let mut result = match update_package_metadata(node, probes) {
        Ok(n) => n,
        Err(e) => return Err(e),
    };
    result.package.is_top_level_package = Some(true);
    result.package.dependency_count = Some(count);
    proof {
        let cs = result.dependencies@;
        assert forall|j: int| 0 <= j < cs.len() implies (#[trigger] cs[j]).dependencies@.len() == 0 by {}
        lemma_shallow_totals(cs);
        assert forall|j: int| 0 <= j < cs.len() implies size_of((#[trigger] cs[j]).package@) == probed_size(headers_of(probes.children@[j])) by {}
        lemma_probed_sizes(cs, probes.children@);
    }
    match calculate_total_size(&result) {
        Some(t) => {
            result.package.total_size = Some(t);
            Ok(result)
        },
        None => Err(EngineError::Format(String::from_str("total size exceeds 64 bits"))),
    }
}

/// Each root of the forest is shallow and has one probe outcome per child.
pub open spec fn probes_fit(forest: Seq<PackageNode>, probes: Seq<NodeProbes>) -> bool {
    &&& forest.len() == probes.len()
    &&& forall|k: int|
        0 <= k < forest.len() ==> is_shallow(#[trigger] forest[k]) && probes[k].children@.len()
            == forest[k].dependencies@.len()
}

/// Whether each root of the forest is shallow and has one probe outcome per child.
pub fn probes_match(forest: &Vec<PackageNode>, probes: &Vec<NodeProbes>) -> (r: bool)
    ensures
        r == probes_fit(forest@, probes@),
{
    if forest.len() != probes.len() {
        return false;
    }
    let mut k: usize = 0;
    while k < forest.len()
        invariant
            forest@.len() == probes@.len(),
            k <= forest@.len(),
            forall|j: int|
                0 <= j < k ==> is_shallow(#[trigger] forest@[j]) && probes@[j].children@.len()
                    == forest@[j].dependencies@.len(),
        decreases forest@.len() - k,
    {
        let node = &forest[k];
        if probes[k].children.len() != node.dependencies.len() {
            return false;
        }
        let mut j: usize = 0;
        while j < node.dependencies.len()
            invariant
                forest@.len() == probes@.len(),
                k < forest@.len(),
                *node == forest@[k as int],
                j <= node.dependencies@.len(),
                forall|m: int| 0 <= m < j ==> (#[trigger] node.dependencies@[m]).dependencies@.len() == 0,
            decreases node.dependencies@.len() - j,
        {
            if node.dependencies[j].dependencies.len() != 0 {
                proof {
                    assert(!is_shallow(*node));
                    assert(forest@[k as int] == *node);
                    assert(!is_shallow(forest@[k as int]));
                }
                return false;
            }
            j = j + 1;
        }
        k = k + 1;
    }
    true
}

/// An augmented root's total size is its own size plus its children's sizes.
pub proof fn lemma_total_size_law(r: PackageNode, n: PackageNode, p: NodeProbes)
    requires
        is_augmented(r, n, p),
    ensures
        r.package@.total_size == Some((size_of(r.package@) + sizes_sum(r.dependencies@)) as u64),
        total_size_of(r) == size_of(r.package@) + sizes_sum(r.dependencies@),
{
    let cs = r.dependencies@;
    assert forall|j: int| 0 <= j < cs.len() implies (#[trigger] cs[j]).dependencies@.len() == 0 by {}
    lemma_shallow_totals(cs);
    assert forall|j: int| 0 <= j < cs.len() implies size_of((#[trigger] cs[j]).package@) == probed_size(headers_of(p.children@[j])) by {}
    lemma_probed_sizes(cs, p.children@);
}

/// Augments every root of a forest with its probe outcomes. The result holds every root
/// augmented, or the error of the first root (in forest order) whose augmentation fails;
/// no partly augmented forest is returned.
pub fn augment_forest(forest: &Vec<PackageNode>, probes: &Vec<NodeProbes>) -> (r: Result<Vec<PackageNode>, EngineError>)
    ensures
        !probes_fit(forest@, probes@) ==> r matches Err(EngineError::Unrecognized(_)),
        probes_fit(forest@, probes@) ==> match r {
            Ok(v) => {
                &&& v@.len() == forest@.len()
                &&& forall|k: int|
                    0 <= k < v@.len() ==> is_augmented(
                        #[trigger] v@[k],
                        forest@[k],
                        probes@[k],
                    )
            },
            Err(e) => exists|k: int|
                0 <= k < forest@.len() && is_node_error(#[trigger] probes@[k], e) && forall|j: int|
                    0 <= j < k ==> node_succeeds(#[trigger] probes@[j]),
        },
{
    if !probes_match(forest, probes) {
        return Err(EngineError::Unrecognized(String::from_str("probe outcomes do not match the forest")));
    }
    let mut out: Vec<PackageNode> = Vec::new();
    let mut k: usize = 0;
    while k < forest.len()
        invariant
            probes_fit(forest@, probes@),
            k <= forest@.len(),
            out@.len() == k,
            forall|j: int|
                0 <= j < k ==> is_augmented(#[trigger] out@[j], forest@[j], probes@[j]),
        decreases forest@.len() - k,
    {
        proof {
            assert(is_shallow(forest@[k as int]));
        }
        match augment_node(&forest[k], &probes[k]) {
            Ok(n) => {
                let ghost prev = out@;
                proof {
                    assert(node_succeeds(probes@[k as int]));
                    assert(is_augmented(n, forest@[k as int], probes@[k as int]));
                }
                out.push(n);
                proof {
                    assert(out@[k as int] == n);
                    assert forall|j: int| 0 <= j < k + 1 implies is_augmented(#[trigger] out@[j], forest@[j], probes@[j]) by {
                        if j < k {
                            assert(out@[j] == prev[j]);
                        }
                    }
                }
            },
            Err(e) => {
                proof {
                    assert(is_node_error(probes@[k as int], e));
                    assert forall|j: int| 0 <= j < k implies node_succeeds(#[trigger] probes@[j]) by {
                        assert(is_augmented(out@[j], forest@[j], probes@[j]));
                    }
                }
                return Err(e);
            },
        }
        k = k + 1;
    }
    Ok(out)
}

/// In the listing that `augment_forest` returns, every root is marked top-level, counts
/// its children as its dependencies, and has as total size its own size plus the sizes
/// of its children, all sizes as probed.
pub proof fn lemma_listing_totals(listing: Seq<PackageNode>, forest: Seq<PackageNode>, probes: Seq<NodeProbes>)
    requires
        listing.len() == forest.len(),
        forall|k: int| 0 <= k < listing.len() ==> is_augmented(#[trigger] listing[k], forest[k], probes[k]),
    ensures
        forall|k: int|
            0 <= k < listing.len() ==> {
                &&& (#[trigger] listing[k]).package@.total_size == Some(
                    (size_of(listing[k].package@) + sizes_sum(listing[k].dependencies@)) as u64,
                )
                &&& listing[k].package@.is_top_level_package == Some(true)
                &&& listing[k].package@.dependency_count == Some(listing[k].dependencies@.len() as usize)
            },
{
    assert forall|k: int| 0 <= k < listing.len() implies {
        &&& (#[trigger] listing[k]).package@.total_size == Some(
            (size_of(listing[k].package@) + sizes_sum(listing[k].dependencies@)) as u64,
        )
        &&& listing[k].package@.is_top_level_package == Some(true)
        &&& listing[k].package@.dependency_count == Some(listing[k].dependencies@.len() as usize)
    } by {
        lemma_total_size_law(listing[k], forest[k], probes[k]);
    }
}

} // verus!
