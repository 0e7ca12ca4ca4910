use pkg_engine::augment::{
    apply_package_metadata, augment_forest, augment_node, update_package_metadata, NodeProbes,
    ProbeHeaders,
};
use pkg_engine::error::EngineError;
use pkg_engine::forest::{calculate_total_size, count_dependencies};
use pkg_engine::manifest::{
    build_package_node, build_package_tree, find_package, has_unique_ids, is_dependency_of_any,
    normalize_packages, object_url, Package, PackageNode,
};

fn pkg(id: &str, deps: Option<Vec<&str>>) -> Package {
    Package {
        id: id.to_string(),
        display_name: format!("{} package", id),
        description: String::new(),
        version: "1.0".to_string(),
        object_key: format!("{}.zip", id),
        size: None,
        dependencies: deps.map(|d| d.into_iter().map(|s| s.to_string()).collect()),
        dependency_count: None,
        is_top_level_package: None,
        total_size: None,
        last_modified: None,
        hash: None,
    }
}

fn node(id: &str, size: Option<u64>, children: Vec<PackageNode>) -> PackageNode {
    let mut p = pkg(id, None);
    p.size = size;
    PackageNode { package: p, dependencies: children }
}

fn child_ids(n: &PackageNode) -> Vec<String> {
    n.dependencies.iter().map(|c| c.package.id.clone()).collect()
}

fn headers(len: Option<&str>, modified: Option<&str>, etag: Option<&str>) -> ProbeHeaders {
    ProbeHeaders {
        content_length: len.map(|s| s.to_string()),
        last_modified: modified.map(|s| s.to_string()),
        etag: etag.map(|s| s.to_string()),
    }
}

#[test]
fn core_and_lib_scenario() {
    let packages = vec![pkg("core", Some(vec!["lib"])), pkg("lib", None)];
    let tree = build_package_tree(&packages);
    assert_eq!(tree.len(), 1);
    assert_eq!(tree[0].package.id, "core");
    assert_eq!(child_ids(&tree[0]), vec!["lib".to_string()]);
    assert!(tree[0].dependencies[0].dependencies.is_empty());
    assert_eq!(count_dependencies(&tree[0]), 1);
}

#[test]
fn two_cycle_has_no_roots() {
    let packages = vec![pkg("a", Some(vec!["b"])), pkg("b", Some(vec!["a"]))];
    let tree = build_package_tree(&packages);
    assert!(tree.is_empty());
}

#[test]
fn cycle_members_unreachable_but_others_rooted() {
    let packages = vec![
        pkg("a", Some(vec!["b"])),
        pkg("b", Some(vec!["a"])),
        pkg("solo", None),
    ];
    let tree = build_package_tree(&packages);
    assert_eq!(tree.len(), 1);
    assert_eq!(tree[0].package.id, "solo");
    assert!(tree[0].dependencies.is_empty());
}

#[test]
fn absent_dependency_is_dropped() {
    let packages = vec![pkg("app", Some(vec!["ghost", "lib"])), pkg("lib", None)];
    let tree = build_package_tree(&packages);
    assert_eq!(tree.len(), 1);
    assert_eq!(child_ids(&tree[0]), vec!["lib".to_string()]);
    assert_eq!(count_dependencies(&tree[0]), 1);
}

#[test]
fn duplicate_dependency_listed_once() {
    let packages = vec![pkg("app", Some(vec!["lib", "lib"])), pkg("lib", None)];
    let node = build_package_node(&"app".to_string(), &packages);
    assert_eq!(child_ids(&node), vec!["lib".to_string()]);
}

#[test]
fn deeper_chain_caps_at_one_level() {
    let packages = vec![
        pkg("top", Some(vec!["mid"])),
        pkg("mid", Some(vec!["leaf"])),
        pkg("leaf", None),
    ];
    let tree = build_package_tree(&packages);
    assert_eq!(tree.len(), 1);
    assert_eq!(tree[0].package.id, "top");
    assert_eq!(child_ids(&tree[0]), vec!["mid".to_string()]);
    assert!(tree[0].dependencies[0].dependencies.is_empty());
}

#[test]
fn roots_keep_manifest_order() {
    let packages = vec![pkg("x", None), pkg("y", Some(vec!["z"])), pkg("z", None), pkg("w", None)];
    let tree = build_package_tree(&packages);
    let ids: Vec<String> = tree.iter().map(|n| n.package.id.clone()).collect();
    assert_eq!(ids, vec!["x", "y", "w"]);
}

#[test]
fn missing_fields_take_zero_values() {
    let packages = vec![pkg("only", None)];
    let norm = normalize_packages(&packages);
    let p = &norm[0];
    assert_eq!(p.size, Some(0));
    assert_eq!(p.dependencies, Some(vec![]));
    assert_eq!(p.dependency_count, Some(0));
    assert_eq!(p.is_top_level_package, Some(false));
    assert_eq!(p.total_size, Some(0));
    assert_eq!(p.last_modified, Some(String::new()));
    assert_eq!(p.hash, Some(String::new()));
    assert_eq!(p.display_name, "only package");
}

#[test]
fn present_fields_are_kept() {
    let mut p = pkg("kept", None);
    p.size = Some(9);
    p.hash = Some("h".to_string());
    let norm = normalize_packages(&vec![p]);
    assert_eq!(norm[0].size, Some(9));
    assert_eq!(norm[0].hash, Some("h".to_string()));
}

#[test]
fn unique_ids_detected() {
    assert!(has_unique_ids(&vec![pkg("a", None), pkg("b", None)]));
    assert!(!has_unique_ids(&vec![pkg("a", None), pkg("a", None)]));
    assert!(has_unique_ids(&vec![]));
}

#[test]
fn lookup_and_reference_queries() {
    let packages = vec![pkg("a", Some(vec!["b"])), pkg("b", None)];
    assert_eq!(find_package(&packages, &"b".to_string()), Some(1));
    assert_eq!(find_package(&packages, &"c".to_string()), None);
    assert!(is_dependency_of_any(&packages, &"b".to_string()));
    assert!(!is_dependency_of_any(&packages, &"a".to_string()));
}

#[test]
fn total_size_adds_children() {
    let root = node("r", Some(100), vec![node("c1", Some(20), vec![]), node("c2", Some(3), vec![])]);
    assert_eq!(calculate_total_size(&root), Some(123));
}

#[test]
fn total_size_counts_absent_size_as_zero() {
    let root = node("r", None, vec![node("c1", Some(7), vec![])]);
    assert_eq!(calculate_total_size(&root), Some(7));
}

#[test]
fn total_size_overflow_is_none() {
    let root = node("r", Some(u64::MAX), vec![node("c1", Some(1), vec![])]);
    assert_eq!(calculate_total_size(&root), None);
}

#[test]
fn count_includes_nested_nodes() {
    let root = node("r", None, vec![node("c1", None, vec![node("g", None, vec![])]), node("c2", None, vec![])]);
    assert_eq!(count_dependencies(&root), 3);
}

#[test]
fn metadata_overwrites_fields() {
    let mut p = pkg("m", None);
    p.size = Some(5);
    p.hash = Some("old".to_string());
    let h = headers(Some("1234"), Some("Tue, 01 Oct 2024 10:00:00 GMT"), Some("\"abc123\""));
    let r = apply_package_metadata(p, &h);
    assert_eq!(r.size, Some(1234));
    assert_eq!(r.last_modified, Some("Tue, 01 Oct 2024 10:00:00 GMT".to_string()));
    assert_eq!(r.hash, Some("abc123".to_string()));
}

#[test]
fn missing_headers_read_as_unknown() {
    let r = apply_package_metadata(pkg("m", None), &headers(None, None, None));
    assert_eq!(r.size, Some(0));
    assert_eq!(r.last_modified, Some("unknown".to_string()));
    assert_eq!(r.hash, Some("unknown".to_string()));
}

#[test]
fn unreadable_content_length_reads_as_zero() {
    let r = apply_package_metadata(pkg("m", None), &headers(Some("12a"), None, None));
    assert_eq!(r.size, Some(0));
    let r = apply_package_metadata(pkg("m", None), &headers(Some("+42"), None, None));
    assert_eq!(r.size, Some(42));
    let r = apply_package_metadata(pkg("m", None), &headers(Some("18446744073709551616"), None, None));
    assert_eq!(r.size, Some(0));
    let r = apply_package_metadata(pkg("m", None), &headers(Some("18446744073709551615"), None, None));
    assert_eq!(r.size, Some(u64::MAX));
}

#[test]
fn augment_sets_root_totals() {
    let packages = vec![pkg("core", Some(vec!["lib", "extra"])), pkg("lib", None), pkg("extra", None)];
    let tree = build_package_tree(&packages);
    let probes = vec![NodeProbes {
        root: Ok(headers(Some("100"), None, Some("\"r\""))),
        children: vec![Ok(headers(Some("20"), None, None)), Ok(headers(Some("3"), None, None))],
    }];
    let out = augment_forest(&tree, &probes).ok().unwrap();
    let root = &out[0].package;
    assert_eq!(root.total_size, Some(123));
    assert_eq!(root.dependency_count, Some(2));
    assert_eq!(root.is_top_level_package, Some(true));
    assert_eq!(root.hash, Some("r".to_string()));
    assert_eq!(out[0].dependencies[0].package.size, Some(20));
    assert_eq!(out[0].dependencies[1].package.hash, Some("unknown".to_string()));
}

#[test]
fn augment_reports_first_failed_probe() {
    let tree = build_package_tree(&vec![pkg("core", Some(vec!["lib"])), pkg("lib", None)]);
    let probes = NodeProbes { root: Ok(headers(None, None, None)), children: vec![Err("timeout".to_string())] };
    match augment_node(&tree[0], &probes) {
        Err(EngineError::Transport(m)) => assert_eq!(m, "timeout"),
        _ => panic!("expected a transport error"),
    }
    let probes = vec![NodeProbes { root: Err("dns".to_string()), children: vec![Err("timeout".to_string())] }];
    match augment_forest(&tree, &probes) {
        Err(EngineError::Transport(m)) => assert_eq!(m, "dns"),
        _ => panic!("expected a transport error"),
    }
}

#[test]
fn augment_total_overflow_is_format_error() {
    let tree = build_package_tree(&vec![pkg("core", Some(vec!["lib"])), pkg("lib", None)]);
    let probes = NodeProbes {
        root: Ok(headers(Some("18446744073709551615"), None, None)),
        children: vec![Ok(headers(Some("1"), None, None))],
    };
    assert!(matches!(augment_node(&tree[0], &probes), Err(EngineError::Format(_))));
}

#[test]
fn augment_rejects_mismatched_probes() {
    let tree = build_package_tree(&vec![pkg("core", Some(vec!["lib"])), pkg("lib", None)]);
    let probes = vec![NodeProbes { root: Ok(headers(None, None, None)), children: vec![] }];
    assert!(matches!(augment_forest(&tree, &probes), Err(EngineError::Unrecognized(_))));
}

#[test]
fn object_url_joins_endpoint_and_key() {
    assert_eq!(object_url("https://store.example/", "pkg.zip"), "https://store.example/pkg.zip");
}

#[test]
fn error_messages() {
    assert_eq!(EngineError::Cancelled.message(), "Download canceled");
    assert_eq!(EngineError::Filesystem("disk full".to_string()).message(), "disk full");
}

#[test]
fn metadata_update_changes_only_probed_fields() {
    let mut root = pkg("core", Some(vec!["lib"]));
    root.is_top_level_package = Some(false);
    root.dependency_count = Some(7);
    root.total_size = Some(99);
    let packages = vec![root, pkg("lib", None)];
    let tree = build_package_tree(&packages);
    let probes = NodeProbes {
        root: Ok(headers(Some("10"), Some("Mon"), Some("\"h1\""))),
        children: vec![Ok(headers(Some("5"), None, None))],
    };
    let n = update_package_metadata(&tree[0], &probes).ok().unwrap();
    assert_eq!(n.package.size, Some(10));
    assert_eq!(n.package.last_modified, Some("Mon".to_string()));
    assert_eq!(n.package.hash, Some("h1".to_string()));
    assert_eq!(n.package.is_top_level_package, Some(false));
    assert_eq!(n.package.dependency_count, Some(7));
    assert_eq!(n.package.total_size, Some(99));
    assert_eq!(n.dependencies[0].package.size, Some(5));
    assert_eq!(n.dependencies[0].package.hash, Some("unknown".to_string()));
    let failing = NodeProbes { root: Ok(headers(None, None, None)), children: vec![Err("refused".to_string())] };
    match update_package_metadata(&tree[0], &failing) {
        Err(EngineError::Transport(m)) => assert_eq!(m, "refused"),
        _ => panic!("expected a transport error"),
    }
}

#[test]
fn core_and_lib_listing() {
    let packages = vec![pkg("core", Some(vec!["lib"])), pkg("lib", None)];
    let tree = build_package_tree(&packages);
    let probes = vec![NodeProbes {
        root: Ok(headers(Some("40"), None, None)),
        children: vec![Ok(headers(Some("2"), None, None))],
    }];
    let listing = augment_forest(&tree, &probes).ok().unwrap();
    assert_eq!(listing.len(), 1);
    let core = &listing[0];
    assert_eq!(core.package.id, "core");
    assert_eq!(core.package.dependency_count, Some(1));
    assert_eq!(core.package.is_top_level_package, Some(true));
    assert_eq!(core.package.total_size, Some(42));
    assert_eq!(child_ids(core), vec!["lib".to_string()]);
    assert!(core.dependencies[0].dependencies.is_empty());
}
