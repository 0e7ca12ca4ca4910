use vstd::prelude::*;

use crate::text::views;

verus! {

/// The three directories an archive entry can be installed under.
#[derive(Clone, Copy, PartialEq, Eq, Structural, Debug)]
pub enum InstallRoot {
    /// The game's configuration directory.
    Config,
    /// The game's installation directory.
    Game,
    /// The launcher's application-data directory.
    AppData,
}

/// One entry of an archive: its raw name, and its path components where the name is a
/// safe relative path (`None` where it would escape the destination).
pub struct ArchiveEntry {
    pub name: String,
    pub path: Option<Vec<String>>,
}

/// A place to install to: a root and a relative path below it.
pub struct Destination {
    pub root: InstallRoot,
    pub path: Vec<String>,
}

/// What to do with one archive entry.
pub enum EntryPlan {
    /// The entry has no safe path; it is passed over.
    Skip,
    /// Create this directory, with its parents.
    CreateDir(Destination),
    /// Create the parent directories, then write the entry's bytes here, replacing any
    /// file that is there.
    WriteFile(Destination),
}

/// The first component that routes an entry to the configuration root.
pub open spec fn config_marker() -> Seq<char> {
    "!CONFIG"@
}

/// The first component that routes an entry to the game root.
pub open spec fn game_marker() -> Seq<char> {
    "!TRIBESDIR"@
}

/// The subfolder of the application-data root that takes dynamic libraries.
pub open spec fn dll_folder() -> Seq<char> {
    "dlls"@
}

/// The suffix of a dynamic library's file name.
pub open spec fn dll_suffix() -> Seq<char> {
    ".dll"@
}

/// A file name whose extension is `dll`: it ends in `.dll` after at least one other
/// character.
pub open spec fn is_dll_name(n: Seq<char>) -> bool {
    n.len() > dll_suffix().len() && n.subrange(n.len() - dll_suffix().len(), n.len() as int) == dll_suffix()
}

/// The root and the relative path that an entry path is installed to.
pub open spec fn placement(path: Seq<Seq<char>>) -> (InstallRoot, Seq<Seq<char>>) {
    if path.len() > 0 && path[0] == config_marker() {
        (InstallRoot::Config, path.subrange(1, path.len() as int))
    } else if path.len() > 0 && path[0] == game_marker() {
        (InstallRoot::Game, path.subrange(1, path.len() as int))
    } else if path.len() > 0 && is_dll_name(path.last()) {
        (InstallRoot::AppData, seq![dll_folder()].add(path))
    } else {
        (InstallRoot::AppData, path)
    }
}

/// A destination seen as plain values.
pub open spec fn dest_view(d: Destination) -> (InstallRoot, Seq<Seq<char>>) {
    (d.root, views(d.path@))
}

/// The entry names a directory: its raw name ends in `/`.
pub open spec fn is_dir_name(n: Seq<char>) -> bool {
    n.len() > 0 && n.last() == '/'
}

/// The plan for an entry, seen as plain values: `None` to skip it, else whether it is a
/// directory and where it goes.
pub open spec fn planned(e: ArchiveEntry) -> Option<(bool, (InstallRoot, Seq<Seq<char>>))> {
    match e.path {
        None => None,
        Some(p) => Some((is_dir_name(e.name@), placement(views(p@)))),
    }
}

/// The plan, seen as plain values.
pub open spec fn plan_view(p: EntryPlan) -> Option<(bool, (InstallRoot, Seq<Seq<char>>))> {
    match p {
        EntryPlan::Skip => None,
        EntryPlan::CreateDir(d) => Some((true, dest_view(d))),
        EntryPlan::WriteFile(d) => Some((false, dest_view(d))),
    }
}

/// Whether a file name ends in `.dll` after at least one other character.
pub fn has_dll_extension(name: &String) -> (r: bool)
    ensures
        r == is_dll_name(name@),
{
    let suffix = String::from_str(".dll");
    let n = name.as_str().unicode_len();
    let m = suffix.as_str().unicode_len();
    if n <= m {
        return false;
    }
    let mut i: usize = 0;
    while i < m
        invariant
            n == name@.len(),
            m == suffix@.len(),
            suffix@ == dll_suffix(),
            n > m,
            i <= m,
            forall|k: int| 0 <= k < i ==> name@[n - m + k] == suffix@[k],
        decreases m - i,
    {
        if name.as_str().get_char(n - m + i) != suffix.as_str().get_char(i) {
            proof {
                assert(name@.subrange(n - m, n as int)[i as int] != dll_suffix()[i as int]);
            }
            return false;
        }
        i = i + 1;
    }
    proof {
        assert(name@.subrange(n - m, n as int) =~= dll_suffix());
    }
    true
}

/// Whether a raw entry name ends in `/`.
pub fn names_directory(name: &String) -> (r: bool)
    ensures
        r == is_dir_name(name@),
{
    let n = name.as_str().unicode_len();
    n > 0 && name.as_str().get_char(n - 1) == '/'
}

/// Where an entry path is installed: after the configuration marker, below the
/// configuration root; after the game marker, below the game root; otherwise below the
/// application-data root, inside its `dlls` folder where the file name has the `dll`
/// extension. A marker is removed; any other path is kept whole.
pub fn destination_for(path: &Vec<String>) -> (r: Destination)
    ensures
        dest_view(r) == placement(views(path@)),
{
    let ghost pv = views(path@);
    let n = path.len();
    if n > 0 {
        let config = String::from_str("!CONFIG");
        let game = String::from_str("!TRIBESDIR");
        let root = if path[0] == config {
            Some(InstallRoot::Config)
        } else if path[0] == game {
            Some(InstallRoot::Game)
        } else {
            None
        };
        if let Some(root) = root {
            let mut rest: Vec<String> = Vec::new();
            let mut i: usize = 1;
            while i < n
                invariant
                    n == path@.len(),
                    1 <= i <= n,
                    pv == views(path@),
                    views(rest@) =~= pv.subrange(1, i as int),
                decreases n - i,
            {
                let ghost prev = rest@;
                rest.push(path[i].clone());
                proof {
                    assert(views(rest@) =~= views(prev).push(pv[i as int]));
                }
                i = i + 1;
            }
            return Destination { root, path: rest };
        }
        if has_dll_extension(&path[n - 1]) {
            let mut nested: Vec<String> = Vec::new();
            nested.push(String::from_str("dlls"));
            let mut i: usize = 0;
            while i < n
                invariant
                    n == path@.len(),
                    i <= n,
                    pv == views(path@),
                    views(nested@) =~= seq![dll_folder()].add(pv.subrange(0, i as int)),
                decreases n - i,
            {
                let ghost prev = nested@;
                nested.push(path[i].clone());
                proof {
                    assert(views(nested@) =~= views(prev).push(pv[i as int]));
                }
                i = i + 1;
            }
            proof {
                assert(pv.subrange(0, n as int) =~= pv);
                assert(pv.last() == path@[n - 1]@);
            }
            return Destination { root: InstallRoot::AppData, path: nested };
        }
        proof {
            assert(pv.last() == path@[n - 1]@);
        }
    }
    let mut whole: Vec<String> = Vec::new();
    let mut i: usize = 0;
    while i < n
        invariant
            n == path@.len(),
            i <= n,
            pv == views(path@),
            views(whole@) =~= pv.subrange(0, i as int),
        decreases n - i,
    {
        let ghost prev = whole@;
        whole.push(path[i].clone());
        proof {
            assert(views(whole@) =~= views(prev).push(pv[i as int]));
        }
        i = i + 1;
    }
    proof {
        assert(pv.subrange(0, n as int) =~= pv);
    }
    Destination { root: InstallRoot::AppData, path: whole }
}

/// Plans one archive entry: an entry without a safe path is skipped; a directory entry
/// is created, any other entry written, at the place that its path selects.
pub fn plan_entry(entry: &ArchiveEntry) -> (r: EntryPlan)
    ensures
        plan_view(r) == planned(*entry),
{
    match &entry.path {
        None => EntryPlan::Skip,
        Some(p) => {
            let dest = destination_for(p);
            if names_directory(&entry.name) {
                EntryPlan::CreateDir(dest)
            } else {
                EntryPlan::WriteFile(dest)
            }
        },
    }
}

/// The id of the standard-library package, whose first install seeds the bootstrap file.
pub open spec fn stdlib_id() -> Seq<char> {
    "tamods-stdlib"@
}

/// The bootstrap file's path below the configuration root.
pub open spec fn bootstrap_path() -> Seq<Seq<char>> {
    seq!["config.lua"@]
}

/// The one line that the bootstrap file is seeded with.
pub open spec fn bootstrap_line() -> Seq<char> {
    "require(\"presets/ubermenu/preset\")\n"@
}

/// Where the bootstrap file lives: below the configuration root.
pub fn bootstrap_destination() -> (r: Destination)
    ensures
        dest_view(r) == (InstallRoot::Config, bootstrap_path()),
{
    let mut path: Vec<String> = Vec::new();
    path.push(String::from_str("config.lua"));
    proof {
        assert(views(path@) =~= bootstrap_path());
    }
    Destination { root: InstallRoot::Config, path }
}

/// A file to create: where, and with what text.
pub struct BootstrapFile {
    pub destination: Destination,
    pub content: String,
}

/// The bootstrap file to create after installing a package: only for the
/// standard-library package, and only where the file does not exist yet, so that an
/// existing file, edited or not, is never overwritten.
pub fn bootstrap_file(package_id: &String, already_exists: bool) -> (r: Option<BootstrapFile>)
    ensures
        r is Some <==> (package_id@ == stdlib_id() && !already_exists),
        r matches Some(b) ==> dest_view(b.destination) == (InstallRoot::Config, bootstrap_path())
            && b.content@ == bootstrap_line(),
{
    let stdlib = String::from_str("tamods-stdlib");
    if *package_id == stdlib && !already_exists {
        Some(BootstrapFile {
            destination: bootstrap_destination(),
            content: String::from_str("require(\"presets/ubermenu/preset\")\n"),
        })
    } else {
        None
    }
}

/// A file's place: its root and its path below it.
pub type FileKey = (InstallRoot, Seq<Seq<char>>);

/// The bootstrap file's place.
pub open spec fn bootstrap_key() -> FileKey {
    (InstallRoot::Config, bootstrap_path())
}

/// The files after the first `n` entries of an archive are extracted, entry `i` holding
/// `contents[i]`: each file entry overwrites its destination.
pub open spec fn extract_upto<C>(files: Map<FileKey, C>, entries: Seq<ArchiveEntry>, contents: Seq<C>, n: nat) -> Map<FileKey, C>
    decreases n,
{
    if n == 0 {
        files
    } else {
        let f = extract_upto(files, entries, contents, (n - 1) as nat);
        match planned(entries[n - 1]) {
            Some((false, d)) => f.insert(d, contents[n - 1]),
            _ => f,
        }
    }
}

/// The files after installing a package: every entry extracted in order, then the
/// bootstrap file seeded with `line` where the package is the standard library and the
/// file is absent.
pub open spec fn installed<C>(files: Map<FileKey, C>, entries: Seq<ArchiveEntry>, contents: Seq<C>, id: Seq<char>, line: C) -> Map<FileKey, C> {
    let f = extract_upto(files, entries, contents, entries.len());
    if id == stdlib_id() && !f.dom().contains(bootstrap_key()) {
        f.insert(bootstrap_key(), line)
    } else {
        f
    }
}

/// Extraction keeps a file that no entry of the archive writes.
pub proof fn lemma_extract_keeps<C>(files: Map<FileKey, C>, entries: Seq<ArchiveEntry>, contents: Seq<C>, n: nat, key: FileKey)
    requires
        n <= entries.len(),
        forall|i: int| 0 <= i < entries.len() ==> #[trigger] planned(entries[i]) != Some((false, key)),
        files.dom().contains(key),
    ensures
        extract_upto(files, entries, contents, n).dom().contains(key),
        extract_upto(files, entries, contents, n)[key] == files[key],
    decreases n,
{
    if n > 0 {
        lemma_extract_keeps(files, entries, contents, (n - 1) as nat, key);
        assert(planned(entries[n - 1]) != Some((false, key)));
    }
}

/// Installing the standard-library package again keeps the bootstrap file as the user
/// left it after the first install, for any archive that has no entry of its own at the
/// bootstrap file's place.
pub proof fn lemma_reinstall_keeps_bootstrap_edit<C>(files: Map<FileKey, C>, entries: Seq<ArchiveEntry>, contents: Seq<C>, line: C, edited: C)
    requires
        forall|i: int| 0 <= i < entries.len() ==> #[trigger] planned(entries[i]) != Some((false, bootstrap_key())),
    ensures
        installed(files, entries, contents, stdlib_id(), line).dom().contains(bootstrap_key()),
        installed(
            installed(files, entries, contents, stdlib_id(), line).insert(bootstrap_key(), edited),
            entries,
            contents,
            stdlib_id(),
            line,
        )[bootstrap_key()] == edited,
{
    let f2 = installed(files, entries, contents, stdlib_id(), line).insert(bootstrap_key(), edited);
    lemma_extract_keeps(f2, entries, contents, entries.len(), bootstrap_key());
}

/// An entry under the configuration marker lands below the configuration root and one
/// under the game marker below the game root, each without its marker; an unmarked entry
/// lands whole below the application-data root, inside its `dlls` folder when its file
/// name has the `dll` extension.
pub proof fn lemma_marker_routing(rest: Seq<Seq<char>>, plain: Seq<Seq<char>>, library: Seq<Seq<char>>)
    requires
        plain.len() > 0,
        plain[0] != config_marker(),
        plain[0] != game_marker(),
        !is_dll_name(plain.last()),
        library.len() > 0,
        library[0] != config_marker(),
        library[0] != game_marker(),
        is_dll_name(library.last()),
    ensures
        placement(seq![config_marker()].add(rest)) == (InstallRoot::Config, rest),
        placement(seq![game_marker()].add(rest)) == (InstallRoot::Game, rest),
        placement(plain) == (InstallRoot::AppData, plain),
        placement(library) == (InstallRoot::AppData, seq![dll_folder()].add(library)),
{
    reveal_strlit("!CONFIG");
    reveal_strlit("!TRIBESDIR");
    assert(config_marker().len() != game_marker().len());
    let c = seq![config_marker()].add(rest);
    let g = seq![game_marker()].add(rest);
    assert(c[0] == config_marker());
    assert(g[0] == game_marker());
    assert(c.subrange(1, c.len() as int) =~= rest);
    assert(g.subrange(1, g.len() as int) =~= rest);
}

} // verus!
