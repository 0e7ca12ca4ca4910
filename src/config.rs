use vstd::prelude::*;

verus! {

/// The content of a configuration file and whether it may be written.
pub struct ConfigFile {
    pub content: String,
    pub permissions: String,
}

/// The two configuration files that the launcher edits.
pub struct ConfigFilesResult {
    pub tribes_ini: ConfigFile,
    pub tribes_input_ini: ConfigFile,
}

/// Whether the user's configuration file already existed.
pub struct ConfigCheckResult {
    pub exists: bool,
}

/// The outcome of loading a configuration preset.
pub struct ReplaceResult {
    pub message: String,
}

/// A configuration file's name and the path of its shipped default.
pub struct ConfigFileInfo {
    pub name: String,
    pub default_path: String,
}

/// A saved configuration backup and when it was last modified.
pub struct BackupInfo {
    pub name: String,
    pub modified: String,
}

/// How to start the game: an optional executable path and the launch argument.
pub struct LaunchOptions {
    pub exe_path: Option<String>,
    pub launch_arg: String,
}

/// What the log folder holds: whether it exists, its formatted size, how many entries it
/// has and the modification date of its oldest entry.
pub struct DirectoryStats {
    pub exists: bool,
    pub total_size: String,
    pub item_count: usize,
    pub oldest_file_date: Option<String>,
}

/// The label of a file's permissions.
pub open spec fn permission_text(readonly: bool) -> Seq<char> {
    if readonly {
        "readonly"@
    } else {
        "read-write"@
    }
}

/// Labels a file's permissions: `readonly` or `read-write`.
pub fn permission_label(readonly: bool) -> (r: String)
    ensures
        r@ == permission_text(readonly),
{
    if readonly {
        String::from_str("readonly")
    } else {
        String::from_str("read-write")
    }
}

impl ConfigFile {
    /// A configuration file with its content and its permissions' label.
    pub fn new(content: String, readonly: bool) -> (r: ConfigFile)
        ensures
            r.content == content,
            r.permissions@ == permission_text(readonly),
    {
        ConfigFile { content, permissions: permission_label(readonly) }
    }
}

impl ReplaceResult {
    /// The outcome of a preset that was loaded.
    pub fn preset_loaded() -> (r: ReplaceResult)
        ensures
            r.message@ == "Preset loaded"@,
    {
        ReplaceResult { message: String::from_str("Preset loaded") }
    }
}

/// The game's Steam application id.
pub open spec fn steam_app_id() -> Seq<char> {
    "17080"@
}

/// The Steam URL that starts the game with the given launch argument.
pub open spec fn steam_url_of(arg: Seq<char>) -> Seq<char> {
    "steam://rungameid/"@ + steam_app_id() + "//"@ + arg
}

impl LaunchOptions {
    /// The Steam URL that starts the game with these options' launch argument.
    pub fn steam_url(&self) -> (r: String)
        ensures
            r@ == steam_url_of(self.launch_arg@),
    {
        let url = String::from_str("steam://rungameid/");
        let url = url.concat("17080");
        let url = url.concat("//");
        url.concat(self.launch_arg.as_str())
    }
}

/// The configuration files whose shipped defaults are copied where the user lacks them.
pub fn default_config_files() -> (r: Vec<ConfigFileInfo>)
    ensures
        r@.len() == 4,
        r@[0].name@ == "tribes.ini"@,
        r@[0].default_path@ == "../public/configs/defaultini/tribes.ini"@,
        r@[1].name@ == "TribesInput.ini"@,
        r@[1].default_path@ == "../public/configs/defaultinput/TribesInput.ini"@,
        r@[2].name@ == "TribesHelpText.ini"@,
        r@[2].default_path@ == "../public/configs/defaulttribeshelptext/TribesHelpText.ini"@,
        r@[3].name@ == "TribesUser.ini"@,
        r@[3].default_path@ == "../public/configs/defaulttribesuser/TribesUser.ini"@,
{
    let mut r: Vec<ConfigFileInfo> = Vec::new();
    r.push(
        ConfigFileInfo {
            name: String::from_str("tribes.ini"),
            default_path: String::from_str("../public/configs/defaultini/tribes.ini"),
        },
    );
    r.push(
        ConfigFileInfo {
            name: String::from_str("TribesInput.ini"),
            default_path: String::from_str("../public/configs/defaultinput/TribesInput.ini"),
        },
    );
    r.push(
        ConfigFileInfo {
            name: String::from_str("TribesHelpText.ini"),
            default_path: String::from_str("../public/configs/defaulttribeshelptext/TribesHelpText.ini"),
        },
    );
    r.push(
        ConfigFileInfo {
            name: String::from_str("TribesUser.ini"),
            default_path: String::from_str("../public/configs/defaulttribesuser/TribesUser.ini"),
        },
    );
    r
}

/// The drive letters in order.
pub open spec fn drive_letters() -> Seq<char> {
    "ABCDEFGHIJKLMNOPQRSTUVWXYZ"@
}

/// The root of the drive with this letter.
pub open spec fn drive_root(c: char) -> Seq<char> {
    seq![c, ':', '\\']
}

/// The roots of the drives among the first `n` letters that are marked present.
pub open spec fn drives_upto(present: Seq<bool>, n: nat) -> Seq<Seq<char>>
    decreases n,
{
    if n == 0 {
        Seq::empty()
    } else {
        let prev = drives_upto(present, (n - 1) as nat);
        if present[n - 1] {
            prev.push(drive_root(drive_letters()[n - 1]))
        } else {
            prev
        }
    }
}

/// The roots of the present drives, `A:\` to `Z:\` in order; `present[i]` says whether
/// the drive of the `i`-th letter exists.
pub fn get_available_drives(present: &Vec<bool>) -> (r: Vec<String>)
    requires
        present@.len() == 26,
    ensures
        r@.map_values(|s: String| s@) == drives_upto(present@, 26),
{
    proof {
        reveal_strlit("ABCDEFGHIJKLMNOPQRSTUVWXYZ");
    }
    let letters = "ABCDEFGHIJKLMNOPQRSTUVWXYZ";
    let mut drives: Vec<String> = Vec::new();
    let mut i: usize = 0;
    while i < 26
        invariant
            present@.len() == 26,
            letters@ == drive_letters(),
            letters@.len() == 26,
            i <= 26,
            drives@.map_values(|s: String| s@) =~= drives_upto(present@, i as nat),
        decreases 26 - i,
    {
        if present[i] {
            let c = letters.get_char(i);
            proof {
                reveal_strlit(":\\");
            }
            let root = String::from_str(letters.substring_char(i, i + 1));
            let root = root.concat(":\\");
            proof {
                assert(root@ =~= drive_root(c));
            }
            let ghost prev = drives@;
            drives.push(root);
            proof {
                assert(drives@.map_values(|s: String| s@) =~= prev.map_values(|s: String| s@).push(drive_root(c)));
            }
        }
        i = i + 1;
    }
    drives
}

} // verus!
