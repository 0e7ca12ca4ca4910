use vstd::prelude::*;

use crate::text::{copy_opt, copy_strs, opt_view, views};

verus! {

/// One package descriptor of the manifest.
pub struct Package {
    pub id: String,
    pub display_name: String,
    pub description: String,
    pub version: String,
    pub object_key: String,
    pub size: Option<u64>,
    pub dependencies: Option<Vec<String>>,
    pub dependency_count: Option<usize>,
    pub is_top_level_package: Option<bool>,
    pub total_size: Option<u64>,
    pub last_modified: Option<String>,
    pub hash: Option<String>,
}

/// A descriptor seen as plain values.
pub ghost struct PackageView {
    pub id: Seq<char>,
    pub display_name: Seq<char>,
    pub description: Seq<char>,
    pub version: Seq<char>,
    pub object_key: Seq<char>,
    pub size: Option<u64>,
    pub dependencies: Option<Seq<Seq<char>>>,
    pub dependency_count: Option<usize>,
    pub is_top_level_package: Option<bool>,
    pub total_size: Option<u64>,
    pub last_modified: Option<Seq<char>>,
    pub hash: Option<Seq<char>>,
}

pub open spec fn opt_views(o: Option<Vec<String>>) -> Option<Seq<Seq<char>>> {
    match o {
        Some(v) => Some(views(v@)),
        None => None,
    }
}

impl View for Package {
    type V = PackageView;

    open spec fn view(&self) -> PackageView {
        PackageView {
            id: self.id@,
            display_name: self.display_name@,
            description: self.description@,
            version: self.version@,
            object_key: self.object_key@,
            size: self.size,
            dependencies: opt_views(self.dependencies),
            dependency_count: self.dependency_count,
            is_top_level_package: self.is_top_level_package,
            total_size: self.total_size,
            last_modified: opt_view(self.last_modified),
            hash: opt_view(self.hash),
        }
    }
}

/// The declared dependency ids of a descriptor; none declared reads as an empty list.
pub open spec fn deps_of(p: PackageView) -> Seq<Seq<char>> {
    match p.dependencies {
        Some(d) => d,
        None => Seq::empty(),
    }
}

/// `o` if present, else `d`.
pub open spec fn or_else<T>(o: Option<T>, d: T) -> Option<T> {
    match o {
        Some(v) => Some(v),
        None => Some(d),
    }
}

/// The descriptor with every optional field that the manifest left out set to its zero value.
pub open spec fn defaulted(p: PackageView) -> PackageView {
    PackageView {
        size: or_else(p.size, 0u64),
        dependencies: or_else(p.dependencies, Seq::empty()),
        dependency_count: or_else(p.dependency_count, 0usize),
        is_top_level_package: or_else(p.is_top_level_package, false),
        total_size: or_else(p.total_size, 0u64),
        last_modified: or_else(p.last_modified, Seq::empty()),
        hash: or_else(p.hash, Seq::empty()),
        ..p
    }
}

/// The descriptors of a list, seen as plain values.
pub open spec fn package_views(ps: Seq<Package>) -> Seq<PackageView> {
    ps.map_values(|p: Package| p@)
}

/// No two descriptors share an id.
pub open spec fn unique_ids(ps: Seq<PackageView>) -> bool {
    forall|i: int, j: int| 0 <= i < ps.len() && 0 <= j < ps.len() && i != j ==> ps[i].id != ps[j].id
}

/// Some descriptor of the list has this id.
pub open spec fn has_id(ps: Seq<PackageView>, id: Seq<char>) -> bool {
    exists|i: int| 0 <= i < ps.len() && ps[i].id == id
}

/// Some descriptor of the list declares this id as a dependency.
pub open spec fn is_referenced(ps: Seq<PackageView>, id: Seq<char>) -> bool {
    exists|i: int| 0 <= i < ps.len() && deps_of(ps[i]).contains(id)
}

/// The descriptor with this id (meaningful where exactly one has it).
pub open spec fn package_with_id(ps: Seq<PackageView>, id: Seq<char>) -> PackageView {
    ps[choose|i: int| 0 <= i < ps.len() && ps[i].id == id]
}

/// The direct children of a package: the declared ids that the list holds, each once,
/// in the order of their first declaration.
pub open spec fn child_ids(ps: Seq<PackageView>, deps: Seq<Seq<char>>) -> Seq<Seq<char>>
    decreases deps.len(),
{
    if deps.len() == 0 {
        Seq::empty()
    } else {
        let prev = child_ids(ps, deps.drop_last());
        let d = deps.last();
        if has_id(ps, d) && !prev.contains(d) {
            prev.push(d)
        } else {
            prev
        }
    }
}

impl Package {
    /// A copy of the descriptor with the same values.
    pub fn duplicate(&self) -> (r: Package)
        ensures
            r@ == self@,
    {
        let dependencies = match &self.dependencies {
            Some(d) => Some(copy_strs(d)),
            None => None,
        };
        Package {
            id: self.id.clone(),
            display_name: self.display_name.clone(),
            description: self.description.clone(),
            version: self.version.clone(),
            object_key: self.object_key.clone(),
            size: self.size,
            dependencies,
            dependency_count: self.dependency_count,
            is_top_level_package: self.is_top_level_package,
            total_size: self.total_size,
            last_modified: copy_opt(&self.last_modified),
            hash: copy_opt(&self.hash),
        }
    }

    /// The descriptor with every field that the manifest left out set to its zero value.
    pub fn with_defaults(self) -> (r: Package)
        ensures
            r@ == defaulted(self@),
    {
        let Package {
            id,
            display_name,
            description,
            version,
            object_key,
            size,
            dependencies,
            dependency_count,
            is_top_level_package,
            total_size,
            last_modified,
            hash,
        } = self;
        let dependencies = match dependencies {
            Some(d) => Some(d),
            None => Some(Vec::new()),
        };
        let last_modified = match last_modified {
            Some(s) => Some(s),
            None => Some(String::new()),
        };
        let hash = match hash {
            Some(s) => Some(s),
            None => Some(String::new()),
        };
        let r = Package {
            id,
            display_name,
            description,
            version,
            object_key,
            size: match size {
                Some(v) => Some(v),
                None => Some(0),
            },
            dependencies,
            dependency_count: match dependency_count {
                Some(v) => Some(v),
                None => Some(0),
            },
            is_top_level_package: match is_top_level_package {
                Some(v) => Some(v),
                None => Some(false),
            },
            total_size: match total_size {
                Some(v) => Some(v),
                None => Some(0),
            },
            last_modified,
            hash,
        };
        proof {
            assert(views(Seq::<String>::empty()) =~= Seq::<Seq<char>>::empty());
        }
        r
    }
}


/// A package and its direct children, in declaration order. The forest builder gives
/// each child a distinct id (`lemma_children_distinct`), so the children act as a map
/// from child id to node.
pub struct PackageNode {
    pub package: Package,
    pub dependencies: Vec<PackageNode>,
}

/// `n` is the node that the forest builder makes for the package `id` of `ps`:
/// it holds that package, and one childless node for each of its direct children.
pub open spec fn is_node_for(n: PackageNode, ps: Seq<PackageView>, id: Seq<char>) -> bool {
    let p = package_with_id(ps, id);
    let cids = child_ids(ps, deps_of(p));
    &&& n.package@ == p
    &&& n.dependencies@.len() == cids.len()
    &&& forall|j: int|
        0 <= j < cids.len() ==> {
            &&& (#[trigger] n.dependencies@[j]).package@ == package_with_id(ps, cids[j])
            &&& n.dependencies@[j].dependencies@.len() == 0
        }
}

/// The ids among the first `n` descriptors that no descriptor declares as a dependency,
/// in manifest order.
pub open spec fn roots_upto(ps: Seq<PackageView>, n: nat) -> Seq<Seq<char>>
    decreases n,
{
    if n == 0 {
        Seq::empty()
    } else {
        let prev = roots_upto(ps, (n - 1) as nat);
        let id = ps[n - 1].id;
        if is_referenced(ps, id) {
            prev
        } else {
            prev.push(id)
        }
    }
}

/// The root ids of a manifest: those that no descriptor declares as a dependency.
pub open spec fn root_ids(ps: Seq<PackageView>) -> Seq<Seq<char>> {
    roots_upto(ps, ps.len())
}

/// The manifest's descriptors with their missing fields defaulted.
pub open spec fn normalized(ps: Seq<Package>) -> Seq<PackageView> {
    package_views(ps).map_values(|p: PackageView| defaulted(p))
}

/// `f` is the forest of `ps`: one node per root id, in order.
pub open spec fn is_forest_of(f: Seq<PackageNode>, ps: Seq<PackageView>) -> bool {
    &&& f.len() == root_ids(ps).len()
    &&& forall|k: int| 0 <= k < f.len() ==> is_node_for(#[trigger] f[k], ps, root_ids(ps)[k])
}

/// With unique ids, the descriptor with the id of `ps[k]` is `ps[k]`.
pub proof fn lemma_package_with_id(ps: Seq<PackageView>, k: int)
    requires
        unique_ids(ps),
        0 <= k < ps.len(),
    ensures
        package_with_id(ps, ps[k].id) == ps[k],
{
    let i = choose|i: int| 0 <= i < ps.len() && ps[i].id == ps[k].id;
    assert(0 <= i < ps.len() && ps[i].id == ps[k].id);
}

/// The position of the descriptor with this id, if any.
pub fn find_package(packages: &Vec<Package>, id: &String) -> (r: Option<usize>)
    ensures
        match r {
            Some(k) => k < packages@.len() && packages@[k as int].id@ == id@,
            None => !has_id(package_views(packages@), id@),
        },
{
    let mut i: usize = 0;
    while i < packages.len()
        invariant
            i <= packages@.len(),
            forall|k: int| 0 <= k < i ==> packages@[k].id@ != id@,
        decreases packages@.len() - i,
    {
        if packages[i].id == *id {
            return Some(i);
        }
        i = i + 1;
    }
    None
}

/// Whether some descriptor declares this id as a dependency.
pub fn is_dependency_of_any(packages: &Vec<Package>, id: &String) -> (r: bool)
    ensures
        r == is_referenced(package_views(packages@), id@),
{
    let ghost pv = package_views(packages@);
    let mut i: usize = 0;
    while i < packages.len()
        invariant
            i <= packages@.len(),
            pv == package_views(packages@),
            forall|k: int| 0 <= k < i ==> !deps_of(pv[k]).contains(id@),
        decreases packages@.len() - i,
    {
        if let Some(deps) = &packages[i].dependencies {
            let mut j: usize = 0;
            while j < deps.len()
                invariant
                    i < packages@.len(),
                    packages@[i as int].dependencies == Some(*deps),
                    pv == package_views(packages@),
                    j <= deps@.len(),
                    forall|m: int| 0 <= m < j ==> deps@[m]@ != id@,
                decreases deps@.len() - j,
            {
                if deps[j] == *id {
                    proof {
                        assert(deps_of(pv[i as int])[j as int] == id@);
                    }
                    return true;
                }
                j = j + 1;
            }
            proof {
                assert forall|m: int| 0 <= m < deps_of(pv[i as int]).len() implies deps_of(pv[i as int])[m] != id@ by {
                    assert(deps_of(pv[i as int])[m] == deps@[m]@);
                }
            }
        }
        i = i + 1;
    }
    false
}

/// Builds the node of one package: the package itself, and a childless node for each
/// declared dependency that the list holds; declared ids that it lacks are left out.
pub fn build_package_node(package_id: &String, packages: &Vec<Package>) -> (r: PackageNode)
    requires
        has_id(package_views(packages@), package_id@),
        unique_ids(package_views(packages@)),
    ensures
        is_node_for(r, package_views(packages@), package_id@),
{
    let ghost pv = package_views(packages@);
    let k = match find_package(packages, package_id) {
        Some(k) => k,
        None => vstd::pervasive::unreached(),
    };
    proof {
        lemma_package_with_id(pv, k as int);
    }
    let package = packages[k].duplicate();
    let mut children: Vec<PackageNode> = Vec::new();
    if let Some(deps) = &packages[k].dependencies {
        let ghost all = deps_of(pv[k as int]);
        let mut i: usize = 0;
        while i < deps.len()
            invariant
                k < packages@.len(),
                pv == package_views(packages@),
                unique_ids(pv),
                packages@[k as int].dependencies == Some(*deps),
                all == deps_of(pv[k as int]),
                all == views(deps@),
                i <= deps@.len(),
                children@.len() == child_ids(pv, all.subrange(0, i as int)).len(),
                forall|j: int|
                    0 <= j < children@.len() ==> {
                        &&& (#[trigger] children@[j]).package@ == package_with_id(pv, child_ids(pv, all.subrange(0, i as int))[j])
                        &&& children@[j].package@.id == child_ids(pv, all.subrange(0, i as int))[j]
                        &&& children@[j].dependencies@.len() == 0
                    },
            decreases deps@.len() - i,
        {
            let ghost before = child_ids(pv, all.subrange(0, i as int));
            proof {
                assert(all.subrange(0, i + 1).drop_last() =~= all.subrange(0, i as int));
                assert(all.subrange(0, i + 1).last() == deps@[i as int]@);
            }
            // Skip an id that is already a child.
            let mut seen = false;
            let mut m: usize = 0;
            while m < children.len()
                invariant
                    i < deps@.len(),
                    m <= children@.len(),
                    children@.len() == before.len(),
                    forall|j: int| 0 <= j < children@.len() ==> (#[trigger] children@[j]).package@.id == before[j],
                    !seen ==> forall|j: int| 0 <= j < m ==> before[j] != deps@[i as int]@,
                    seen ==> before.contains(deps@[i as int]@),
                decreases children@.len() - m,
            {
                if children[m].package.id == deps[i] {
                    seen = true;
                    proof {
                        assert(before[m as int] == deps@[i as int]@);
                    }
                }
                m = m + 1;
            }
            if !seen {
                match find_package(packages, &deps[i]) {
                    Some(c) => {
                        proof {
                            lemma_package_with_id(pv, c as int);
                            assert(has_id(pv, deps@[i as int]@));
                        }
                        let child = PackageNode { package: packages[c].duplicate(), dependencies: Vec::new() };
                        children.push(child);
                    },
                    None => {},
                }
            }
            i = i + 1;
            proof {
                let after = child_ids(pv, all.subrange(0, i as int));
                assert forall|j: int| 0 <= j < children@.len() implies {
                    &&& (#[trigger] children@[j]).package@ == package_with_id(pv, after[j])
                    &&& children@[j].package@.id == after[j]
                    &&& children@[j].dependencies@.len() == 0
                } by {
                    if j < before.len() {
                        assert(after[j] == before[j]);
                    }
                }
            }
        }
        proof {
            assert(all.subrange(0, deps@.len() as int) =~= all);
        }
    } else {
        proof {
            assert(deps_of(pv[k as int]).len() == 0);
        }
    }
    PackageNode { package, dependencies: children }
}

/// Whether no two descriptors share an id.
pub fn has_unique_ids(packages: &Vec<Package>) -> (r: bool)
    ensures
        r == unique_ids(package_views(packages@)),
{
    let ghost pv = package_views(packages@);
    let mut i: usize = 0;
    while i < packages.len()
        invariant
            i <= packages@.len(),
            pv == package_views(packages@),
            forall|a: int, b: int| 0 <= a < i && 0 <= b < pv.len() && a != b ==> pv[a].id != pv[b].id,
        decreases packages@.len() - i,
    {
        let mut j: usize = 0;
        while j < packages.len()
            invariant
                i < packages@.len(),
                j <= packages@.len(),
                pv == package_views(packages@),
                forall|b: int| 0 <= b < j && b != i ==> pv[i as int].id != pv[b].id,
            decreases packages@.len() - j,
        {
            if j != i && packages[i].id == packages[j].id {
                proof {
                    assert(pv[i as int].id == pv[j as int].id);
                }
                return false;
            }
            j = j + 1;
        }
        i = i + 1;
    }
    proof {
        assert forall|a: int, b: int| 0 <= a < pv.len() && 0 <= b < pv.len() && a != b implies pv[a].id != pv[b].id by {}
    }
    true
}

/// Each descriptor with its missing fields defaulted.
pub fn normalize_packages(packages: &Vec<Package>) -> (r: Vec<Package>)
    ensures
        package_views(r@) == normalized(packages@),
{
    let mut r: Vec<Package> = Vec::new();
    let mut i: usize = 0;
    while i < packages.len()
        invariant
            i <= packages@.len(),
            package_views(r@) =~= normalized(packages@).subrange(0, i as int),
        decreases packages@.len() - i,
    {
        let p = packages[i].duplicate().with_defaults();
        let ghost prev = r@;
        r.push(p);
        proof {
            assert(package_views(r@) =~= package_views(prev).push(p@));
            assert(normalized(packages@).subrange(0, i + 1) =~= normalized(packages@).subrange(0, i as int).push(p@));
        }
        i = i + 1;
    }
    proof {
        assert(normalized(packages@).subrange(0, packages@.len() as int) =~= normalized(packages@));
    }
    r
}

/// Builds the dependency forest of a manifest: its descriptors are defaulted, the roots
/// are the ids that no descriptor declares as a dependency (in manifest order), and each
/// root carries its direct children. A package on a dependency cycle is referenced and so
/// is no root.
pub fn build_package_tree(packages: &Vec<Package>) -> (r: Vec<PackageNode>)
    requires
        unique_ids(package_views(packages@)),
    ensures
        is_forest_of(r@, normalized(packages@)),
{
    let norm = normalize_packages(packages);
    let ghost nv = package_views(norm@);
    proof {
        assert forall|a: int, b: int| 0 <= a < nv.len() && 0 <= b < nv.len() && a != b implies nv[a].id != nv[b].id by {
            assert(nv[a].id == package_views(packages@)[a].id);
            assert(nv[b].id == package_views(packages@)[b].id);
        }
    }
    let mut tree: Vec<PackageNode> = Vec::new();
    let mut i: usize = 0;
    while i < norm.len()
        invariant
            i <= norm@.len(),
            nv == package_views(norm@),
            nv == normalized(packages@),
            unique_ids(nv),
            tree@.len() == roots_upto(nv, i as nat).len(),
            forall|k: int| 0 <= k < tree@.len() ==> is_node_for(#[trigger] tree@[k], nv, roots_upto(nv, i as nat)[k]),
        decreases norm@.len() - i,
    {
        let ghost before = roots_upto(nv, i as nat);
        proof {
            assert(roots_upto(nv, (i + 1) as nat) == if is_referenced(nv, nv[i as int].id) { before } else { before.push(nv[i as int].id) });
        }
        if !is_dependency_of_any(&norm, &norm[i].id) {
            proof {
                assert(has_id(nv, nv[i as int].id));
            }
            let node = build_package_node(&norm[i].id, &norm);
            tree.push(node);
            proof {
                let after = roots_upto(nv, (i + 1) as nat);
                assert forall|k: int| 0 <= k < tree@.len() implies is_node_for(#[trigger] tree@[k], nv, after[k]) by {
                    if k < before.len() {
                        assert(after[k] == before[k]);
                    }
                }
            }
        }
        i = i + 1;
    }
    tree
}

/// An id is among the roots of the first `n` descriptors exactly when one of them has it
/// and no descriptor declares it as a dependency.
pub proof fn lemma_roots_upto_contains(ps: Seq<PackageView>, n: nat, x: Seq<char>)
    requires
        n <= ps.len(),
    ensures
        roots_upto(ps, n).contains(x) <==> (exists|i: int| 0 <= i < n && ps[i].id == x) && !is_referenced(ps, x),
    decreases n,
{
    if n > 0 {
        lemma_roots_upto_contains(ps, (n - 1) as nat, x);
        let prev = roots_upto(ps, (n - 1) as nat);
        if !is_referenced(ps, ps[n - 1].id) {
            let ext = prev.push(ps[n - 1].id);
            assert(ext.contains(x) <==> prev.contains(x) || x == ps[n - 1].id) by {
                if x == ps[n - 1].id {
                    assert(ext[prev.len() as int] == x);
                }
                if ext.contains(x) && x != ps[n - 1].id {
                    let k = choose|k: int| 0 <= k < ext.len() && #[trigger] ext[k] == x;
                    assert(prev[k] == x);
                }
                if prev.contains(x) {
                    let k = choose|k: int| 0 <= k < prev.len() && #[trigger] prev[k] == x;
                    assert(ext[k] == x);
                }
            }
        }
        if exists|i: int| 0 <= i < n && ps[i].id == x {
            let i = choose|i: int| 0 <= i < n && ps[i].id == x;
            if i < n - 1 {
                assert(exists|j: int| 0 <= j < n - 1 && ps[j].id == x);
            }
        }
    }
}

/// Every direct child id is declared by the package and held by the list.
pub proof fn lemma_child_ids_declared(ps: Seq<PackageView>, deps: Seq<Seq<char>>, c: Seq<char>)
    requires
        child_ids(ps, deps).contains(c),
    ensures
        deps.contains(c),
        has_id(ps, c),
    decreases deps.len(),
{
    if deps.len() > 0 {
        let prev = child_ids(ps, deps.drop_last());
        if prev.contains(c) {
            lemma_child_ids_declared(ps, deps.drop_last(), c);
            let k = choose|k: int| 0 <= k < deps.drop_last().len() && #[trigger] deps.drop_last()[k] == c;
            assert(deps[k] == c);
        } else {
            let k = choose|k: int| 0 <= k < child_ids(ps, deps).len() && #[trigger] child_ids(ps, deps)[k] == c;
            assert(child_ids(ps, deps) == prev.push(deps.last()));
            assert(k == prev.len());
            assert(deps[deps.len() - 1] == c);
        }
    }
}

/// No id occurs twice among the direct children.
pub proof fn lemma_child_ids_distinct(ps: Seq<PackageView>, deps: Seq<Seq<char>>)
    ensures
        forall|j: int, k: int|
            0 <= j < k < child_ids(ps, deps).len() ==> #[trigger] child_ids(ps, deps)[j] != #[trigger] child_ids(ps, deps)[k],
    decreases deps.len(),
{
    if deps.len() > 0 {
        lemma_child_ids_distinct(ps, deps.drop_last());
        let prev = child_ids(ps, deps.drop_last());
        let d = deps.last();
        if has_id(ps, d) && !prev.contains(d) {
            let all = prev.push(d);
            assert forall|j: int, k: int| 0 <= j < k < all.len() implies #[trigger] all[j] != #[trigger] all[k] by {
                if k == prev.len() {
                    assert(all[j] == prev[j]);
                    assert(prev.contains(prev[j]));
                } else {
                    assert(all[j] == prev[j] && all[k] == prev[k]);
                }
            }
        }
    }
}

/// The children of a node that the forest builder makes carry distinct package ids,
/// each the id of a package that the list holds.
pub proof fn lemma_children_distinct(n: PackageNode, ps: Seq<PackageView>, id: Seq<char>)
    requires
        is_node_for(n, ps, id),
    ensures
        forall|j: int, k: int|
            0 <= j < k < n.dependencies@.len() ==> (#[trigger] n.dependencies@[j]).package@.id
                != (#[trigger] n.dependencies@[k]).package@.id,
        forall|j: int| 0 <= j < n.dependencies@.len() ==> has_id(ps, (#[trigger] n.dependencies@[j]).package@.id),
{
    let cids = child_ids(ps, deps_of(package_with_id(ps, id)));
    lemma_child_ids_distinct(ps, deps_of(package_with_id(ps, id)));
    assert forall|j: int| 0 <= j < cids.len() implies (#[trigger] n.dependencies@[j]).package@.id == cids[j]
        && has_id(ps, cids[j]) by {
        assert(cids.contains(cids[j]));
        lemma_child_ids_declared(ps, deps_of(package_with_id(ps, id)), cids[j]);
    }
    assert forall|j: int, k: int| 0 <= j < k < n.dependencies@.len() implies (#[trigger] n.dependencies@[j]).package@.id
        != (#[trigger] n.dependencies@[k]).package@.id by {
        assert(n.dependencies@[j].package@.id == cids[j]);
        assert(n.dependencies@[k].package@.id == cids[k]);
    }
}

/// A declared id that the list lacks never becomes a child: inserting it anywhere in a
/// dependency list leaves the children as they were.
pub proof fn lemma_absent_dependency_dropped(ps: Seq<PackageView>, before: Seq<Seq<char>>, d: Seq<char>, after: Seq<Seq<char>>)
    requires
        !has_id(ps, d),
    ensures
        child_ids(ps, before.push(d).add(after)) == child_ids(ps, before.add(after)),
        !child_ids(ps, before.push(d).add(after)).contains(d),
    decreases after.len(),
{
    if after.len() == 0 {
        assert(before.push(d).add(after) =~= before.push(d));
        assert(before.add(after) =~= before);
        assert(before.push(d).drop_last() =~= before);
    } else {
        let shorter = after.drop_last();
        lemma_absent_dependency_dropped(ps, before, d, shorter);
        assert(before.push(d).add(after).drop_last() =~= before.push(d).add(shorter));
        assert(before.add(after).drop_last() =~= before.add(shorter));
        assert(before.push(d).add(after).last() == after.last());
        assert(before.add(after).last() == after.last());
    }
    if child_ids(ps, before.push(d).add(after)).contains(d) {
        lemma_child_ids_declared(ps, before.push(d).add(after), d);
    }
}

/// Dependency edges between held packages descend in `rank`: a package ranks above every
/// held package that it declares. Such a ranking exists exactly when the manifest has no
/// dependency cycle.
pub open spec fn ranked(ps: Seq<PackageView>, rank: spec_fn(Seq<char>) -> nat) -> bool {
    forall|i: int, d: Seq<char>|
        0 <= i < ps.len() && #[trigger] deps_of(ps[i]).contains(d) && has_id(ps, d) ==> rank(d) < rank(ps[i].id)
}

/// Some descriptor among the first `n` ranks highest among them.
pub proof fn lemma_highest_rank(ps: Seq<PackageView>, rank: spec_fn(Seq<char>) -> nat, n: nat) -> (m: int)
    requires
        0 < n <= ps.len(),
    ensures
        0 <= m < n,
        forall|i: int| 0 <= i < n ==> rank(#[trigger] ps[i].id) <= rank(ps[m].id),
    decreases n,
{
    if n == 1 {
        0
    } else {
        let m = lemma_highest_rank(ps, rank, (n - 1) as nat);
        if rank(ps[n - 1].id) > rank(ps[m].id) {
            (n - 1) as int
        } else {
            m
        }
    }
}

/// The forest partitions a manifest with unique ids: an id is a root exactly when no
/// package declares it; no direct child of a root is itself a root; a package that
/// declares nothing and that nothing declares is a root with no children; and a
/// non-empty manifest without dependency cycles has at least one root.
pub proof fn lemma_forest_partition(ps: Seq<PackageView>, rank: spec_fn(Seq<char>) -> nat)
    requires
        unique_ids(ps),
    ensures
        forall|i: int| 0 <= i < ps.len() ==> (root_ids(ps).contains(#[trigger] ps[i].id) <==> !is_referenced(ps, ps[i].id)),
        forall|k: int, c: Seq<char>|
            0 <= k < root_ids(ps).len() && #[trigger] child_ids(ps, deps_of(package_with_id(ps, root_ids(ps)[k]))).contains(c)
                ==> !root_ids(ps).contains(c),
        forall|i: int|
            0 <= i < ps.len() && !is_referenced(ps, ps[i].id) && deps_of(ps[i]).len() == 0 ==> root_ids(ps).contains(#[trigger] ps[i].id)
                && child_ids(ps, deps_of(package_with_id(ps, ps[i].id))).len() == 0,
        ps.len() > 0 && ranked(ps, rank) ==> root_ids(ps).len() > 0,
{
    assert forall|i: int| 0 <= i < ps.len() implies (root_ids(ps).contains(#[trigger] ps[i].id) <==> !is_referenced(ps, ps[i].id)) by {
        lemma_roots_upto_contains(ps, ps.len(), ps[i].id);
    }
    assert forall|k: int, c: Seq<char>|
        0 <= k < root_ids(ps).len() && #[trigger] child_ids(ps, deps_of(package_with_id(ps, root_ids(ps)[k]))).contains(c)
        implies !root_ids(ps).contains(c) by {
        let r = root_ids(ps)[k];
        assert(root_ids(ps).contains(r));
        lemma_roots_upto_contains(ps, ps.len(), r);
        let i = choose|i: int| 0 <= i < ps.len() && ps[i].id == r;
        lemma_package_with_id(ps, i);
        lemma_child_ids_declared(ps, deps_of(ps[i]), c);
        assert(is_referenced(ps, c));
        lemma_roots_upto_contains(ps, ps.len(), c);
    }
    assert forall|i: int|
        0 <= i < ps.len() && !is_referenced(ps, ps[i].id) && deps_of(ps[i]).len() == 0 implies root_ids(ps).contains(#[trigger] ps[i].id)
            && child_ids(ps, deps_of(package_with_id(ps, ps[i].id))).len() == 0 by {
        lemma_roots_upto_contains(ps, ps.len(), ps[i].id);
        lemma_package_with_id(ps, i);
    }
    if ps.len() > 0 && ranked(ps, rank) {
        let m = lemma_highest_rank(ps, rank, ps.len());
        if is_referenced(ps, ps[m].id) {
            let q = choose|q: int| 0 <= q < ps.len() && deps_of(ps[q]).contains(ps[m].id);
            assert(has_id(ps, ps[m].id));
            assert(rank(ps[m].id) < rank(ps[q].id));
            assert(rank(ps[q].id) <= rank(ps[m].id));
        }
        lemma_roots_upto_contains(ps, ps.len(), ps[m].id);
        assert(root_ids(ps).contains(ps[m].id));
    }
}

/// Packages that declare each other form a cycle, and neither is a root.
pub proof fn lemma_two_cycle_unrooted(ps: Seq<PackageView>, a: int, b: int)
    requires
        0 <= a < ps.len(),
        0 <= b < ps.len(),
        deps_of(ps[a]).contains(ps[b].id),
        deps_of(ps[b]).contains(ps[a].id),
    ensures
        !root_ids(ps).contains(ps[a].id),
        !root_ids(ps).contains(ps[b].id),
{
    lemma_roots_upto_contains(ps, ps.len(), ps[a].id);
    lemma_roots_upto_contains(ps, ps.len(), ps[b].id);
}

/// The address of an object of the store: the endpoint followed by the object key.
pub fn object_url(endpoint: &str, object_key: &str) -> (r: String)
    ensures
        r@ == endpoint@ + object_key@,
{
    String::from_str(endpoint).concat(object_key)
}

} // verus!
