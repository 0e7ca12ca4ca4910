use pkg_engine::config::{
    default_config_files, get_available_drives, permission_label, ConfigFile, LaunchOptions,
    ReplaceResult,
};
use pkg_engine::routes::parse_route_format;

#[test]
fn route_with_plain_tail() {
    let r = parse_route_format("CTF-Katabatic_BE_Pathfinder_player_My Route_123.route").unwrap();
    assert_eq!(r.game_mode, "CTF");
    assert_eq!(r.map, "Katabatic");
    assert_eq!(r.side, "BE");
    assert_eq!(r.class, "Pathfinder");
    assert_eq!(r.username, "player");
    assert_eq!(r.route_name, "My Route");
    assert_eq!(r.time, "123");
    assert_eq!(r.file_name, "CTF-Katabatic_BE_Pathfinder_player_My Route_123.route");
}

#[test]
fn route_with_bracketed_name() {
    let r = parse_route_format("CTF-Katabatic_DS_Soldier_me_(Fast_Run)_45").unwrap();
    assert_eq!(r.username, "me");
    assert_eq!(r.route_name, "Fast_Run");
    assert_eq!(r.time, "45");
}

#[test]
fn route_missing_separators() {
    assert!(parse_route_format("NoDash_a_b_c").is_none());
    assert!(parse_route_format("CTF-map_side").is_none());
    let r = parse_route_format("CTF-map_side_class_user").unwrap();
    assert_eq!(r.username, "user");
    assert_eq!(r.route_name, "");
    assert_eq!(r.time, "");
}

#[test]
fn permission_labels() {
    assert_eq!(permission_label(true), "readonly");
    assert_eq!(permission_label(false), "read-write");
    let f = ConfigFile::new("x=1".to_string(), true);
    assert_eq!(f.permissions, "readonly");
    assert_eq!(f.content, "x=1");
}

#[test]
fn steam_url_and_messages() {
    let o = LaunchOptions { exe_path: None, launch_arg: "-hostx=1".to_string() };
    assert_eq!(o.steam_url(), "steam://rungameid/17080//-hostx=1");
    assert_eq!(ReplaceResult::preset_loaded().message, "Preset loaded");
    let files = default_config_files();
    assert_eq!(files.len(), 4);
    assert_eq!(files[1].name, "TribesInput.ini");
}

#[test]
fn drives_in_letter_order() {
    let mut present = vec![false; 26];
    present[2] = true;
    present[3] = true;
    present[25] = true;
    assert_eq!(get_available_drives(&present), vec!["C:\\", "D:\\", "Z:\\"]);
}
