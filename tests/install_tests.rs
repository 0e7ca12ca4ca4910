use pkg_engine::install::{
    bootstrap_file, destination_for, has_dll_extension, names_directory, plan_entry, ArchiveEntry,
    Destination, EntryPlan, InstallRoot,
};

fn parts(p: &str) -> Vec<String> {
    p.split('/').filter(|s| !s.is_empty()).map(|s| s.to_string()).collect()
}

fn entry(name: &str) -> ArchiveEntry {
    ArchiveEntry { name: name.to_string(), path: Some(parts(name)) }
}

fn file_dest(plan: EntryPlan) -> Destination {
    match plan {
        EntryPlan::WriteFile(d) => d,
        _ => panic!("expected a file"),
    }
}

#[test]
fn markers_route_to_their_roots() {
    let c = file_dest(plan_entry(&entry("!CONFIG/presets/a.lua")));
    assert_eq!(c.root, InstallRoot::Config);
    assert_eq!(c.path, parts("presets/a.lua"));
    let g = file_dest(plan_entry(&entry("!TRIBESDIR/CookedPC/map.upk")));
    assert_eq!(g.root, InstallRoot::Game);
    assert_eq!(g.path, parts("CookedPC/map.upk"));
    let a = file_dest(plan_entry(&entry("docs/readme.txt")));
    assert_eq!(a.root, InstallRoot::AppData);
    assert_eq!(a.path, parts("docs/readme.txt"));
}

#[test]
fn dll_entries_go_to_dll_folder() {
    let d = file_dest(plan_entry(&entry("bin/TAMods.dll")));
    assert_eq!(d.root, InstallRoot::AppData);
    assert_eq!(d.path, parts("dlls/bin/TAMods.dll"));
    let marked = file_dest(plan_entry(&entry("!CONFIG/x.dll")));
    assert_eq!(marked.root, InstallRoot::Config);
    assert_eq!(marked.path, parts("x.dll"));
}

#[test]
fn dll_extension_rules() {
    assert!(has_dll_extension(&"a.dll".to_string()));
    assert!(has_dll_extension(&"a.b.dll".to_string()));
    assert!(!has_dll_extension(&".dll".to_string()));
    assert!(!has_dll_extension(&"a.DLL".to_string()));
    assert!(!has_dll_extension(&"dll".to_string()));
    assert!(!has_dll_extension(&"a.dll.txt".to_string()));
}

#[test]
fn directory_entries_are_created() {
    match plan_entry(&entry("!CONFIG/presets/")) {
        EntryPlan::CreateDir(d) => {
            assert_eq!(d.root, InstallRoot::Config);
            assert_eq!(d.path, parts("presets"));
        }
        _ => panic!("expected a directory"),
    }
    assert!(names_directory(&"a/".to_string()));
    assert!(!names_directory(&"a".to_string()));
    assert!(!names_directory(&String::new()));
}

#[test]
fn unsafe_entries_are_skipped() {
    let e = ArchiveEntry { name: "../evil.txt".to_string(), path: None };
    assert!(matches!(plan_entry(&e), EntryPlan::Skip));
}

#[test]
fn marker_alone_is_root_itself() {
    let d = destination_for(&parts("!TRIBESDIR"));
    assert_eq!(d.root, InstallRoot::Game);
    assert!(d.path.is_empty());
}

#[test]
fn marker_must_be_whole_component() {
    let d = destination_for(&parts("!CONFIGX/a.txt"));
    assert_eq!(d.root, InstallRoot::AppData);
    assert_eq!(d.path, parts("!CONFIGX/a.txt"));
}

#[test]
fn bootstrap_only_first_time_for_stdlib() {
    let first = bootstrap_file(&"tamods-stdlib".to_string(), false).unwrap();
    assert_eq!(first.destination.root, InstallRoot::Config);
    assert_eq!(first.destination.path, vec!["config.lua".to_string()]);
    assert_eq!(first.content, "require(\"presets/ubermenu/preset\")\n");
    // The file exists after the first install, edited or not: the second install leaves it.
    assert!(bootstrap_file(&"tamods-stdlib".to_string(), true).is_none());
    assert!(bootstrap_file(&"tamods-maps".to_string(), false).is_none());
}
