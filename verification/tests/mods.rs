use civmods::mods::{
    check_mods_folder, compute_folder_hash, files_to_hash, find_modinfo_file, get_unlocked_mod_folders,
    is_entry_hidden, is_modinfo_file_name, mod_info, mods_list, relative_path, walk_order_key, FileContent, FolderHasher, ModInfo, ModXml, Properties,
};
use civmods::art::WalkEntry;
use civmods::dlc_folder::GamePath;

fn path(parts: &[&str]) -> GamePath {
    GamePath { parts: parts.iter().map(|p| p.to_string()).collect() }
}

fn info(folder: &str, id: Option<&str>) -> ModInfo {
    ModInfo {
        mod_name: folder.to_string(),
        modinfo_path: format!("/mods/{folder}/{folder}.modinfo"),
        modinfo_id: id.map(|s| s.to_string()),
        folder_hash: String::new(),
        folder_name: folder.to_string(),
        civmods_internal_version_id: None,
    }
}

#[test]
fn hidden_entries() {
    assert!(is_entry_hidden(".DS_Store"));
    assert!(is_entry_hidden("__MACOSX"));
    assert!(is_entry_hidden("Thumbs.db"));
    assert!(!is_entry_hidden("thumbs.dbx"));
    assert!(!is_entry_hidden("mod.modinfo"));
}

#[test]
fn modinfo_file_names() {
    assert!(is_modinfo_file_name("aaa_mansa.modinfo"));
    assert!(is_modinfo_file_name("a.b.modinfo"));
    assert!(!is_modinfo_file_name("._aaa_mansa.modinfo"));
    assert!(!is_modinfo_file_name(".modinfo"));
    assert!(!is_modinfo_file_name("x.MODINFO"));
    assert!(!is_modinfo_file_name("modinfo"));
}

#[test]
fn first_modinfo_file_in_walk_order() {
    let entries = vec![
        WalkEntry { path: path(&["/", "m"]), depth: 0, is_dir: true, is_file: false },
        WalkEntry { path: path(&["/", "m", "dir.modinfo"]), depth: 1, is_dir: true, is_file: false },
        WalkEntry { path: path(&["/", "m", "._x.modinfo"]), depth: 1, is_dir: false, is_file: true },
        WalkEntry { path: path(&["/", "m", "a", "x.modinfo"]), depth: 2, is_dir: false, is_file: true },
        WalkEntry { path: path(&["/", "m", "y.modinfo"]), depth: 1, is_dir: false, is_file: true },
    ];
    assert_eq!(find_modinfo_file(&entries).unwrap().parts, vec!["/", "m", "a", "x.modinfo"]);
    assert!(find_modinfo_file(&entries[..3].iter().map(|e| WalkEntry { path: GamePath { parts: e.path.parts.clone() }, depth: e.depth, is_dir: e.is_dir, is_file: e.is_file }).collect()).is_none());
}

fn file(relative_path: &str, content: &[u8]) -> FileContent {
    FileContent { relative_path: relative_path.to_string(), content: content.to_vec() }
}

#[test]
fn folder_hash_covers_relative_paths_and_contents() {
    // SHA-256 of "x.txt\0hi" and of "y.txt\0hi"
    let x = "437ea8aa89a3cb31bb902f047cb147d58fbdbb3b2612fec259379ab90a6bdc97";
    let y = "955f23261b64ab7adaec2c07fc7101762cb2b8ceb80316437eb4ddb928a0bdf7";
    assert_eq!(compute_folder_hash(&vec![file("x.txt", b"hi")]), x);
    assert_eq!(compute_folder_hash(&vec![file("y.txt", b"hi")]), y);
    // SHA-256 of "a.modinfo\0<Mod/>text/en.xml\0<x/>"
    let two = "b20d08f2c50671969d851a0887239737f51e489c6d0276c74a6956ff2891e71e";
    assert_eq!(compute_folder_hash(&vec![file("a.modinfo", b"<Mod/>"), file("text/en.xml", b"<x/>")]), two);
    assert_eq!(
        compute_folder_hash(&vec![]),
        "e3b0c44298fc1c149afbf4c8996fb92427ae41e4649b934ca495991b7852b855"
    );
    let mut hasher = FolderHasher::new();
    hasher.add_file("a.modinfo", b"<Mod/>");
    hasher.add_file("text/en.xml", b"<x/>");
    assert_eq!(hasher.finish(), two);
}

#[test]
fn relative_paths_of_walk_entries() {
    let e = WalkEntry { path: path(&["/", "m", "text", "en.xml"]), depth: 2, is_dir: false, is_file: true };
    assert_eq!(relative_path(&e), "text/en.xml");
    let root = WalkEntry { path: path(&["/", "m"]), depth: 0, is_dir: true, is_file: false };
    assert_eq!(relative_path(&root), "");
}

#[test]
fn hashed_files_leave_out_hidden_entries_and_folders() {
    let entries = vec![
        WalkEntry { path: path(&["/", "m"]), depth: 0, is_dir: true, is_file: false },
        WalkEntry { path: path(&["/", "m", ".git"]), depth: 1, is_dir: true, is_file: false },
        WalkEntry { path: path(&["/", "m", ".git", "HEAD"]), depth: 2, is_dir: false, is_file: true },
        WalkEntry { path: path(&["/", "m", "a.modinfo"]), depth: 1, is_dir: false, is_file: true },
        WalkEntry { path: path(&["/", "m", "__MACOSX", "x"]), depth: 2, is_dir: false, is_file: true },
        WalkEntry { path: path(&["/", "m", "text"]), depth: 1, is_dir: true, is_file: false },
        WalkEntry { path: path(&["/", "m", "text", "en.xml"]), depth: 2, is_dir: false, is_file: true },
        WalkEntry { path: path(&["/", "m", "text", "Thumbs.db"]), depth: 2, is_dir: false, is_file: true },
    ];
    let files = files_to_hash(&entries);
    let paths: Vec<Vec<String>> = files.iter().map(|f| f.path.parts.clone()).collect();
    assert_eq!(paths, vec![vec!["/", "m", "a.modinfo"], vec!["/", "m", "text", "en.xml"]]);
    let relative: Vec<&str> = files.iter().map(|f| f.relative_path.as_str()).collect();
    assert_eq!(relative, vec!["a.modinfo", "text/en.xml"]);
}

#[test]
fn hidden_walk_root_hashes_nothing() {
    let entries = vec![
        WalkEntry { path: path(&["/", ".m"]), depth: 0, is_dir: true, is_file: false },
        WalkEntry { path: path(&["/", ".m", "a.modinfo"]), depth: 1, is_dir: false, is_file: true },
    ];
    assert!(files_to_hash(&entries).is_empty());
    // a hidden folder above the walk's root does not count
    let entries = vec![
        WalkEntry { path: path(&["/", ".mods", "m"]), depth: 0, is_dir: true, is_file: false },
        WalkEntry { path: path(&["/", ".mods", "m", "a.modinfo"]), depth: 1, is_dir: false, is_file: true },
    ];
    assert_eq!(files_to_hash(&entries).len(), 1);
}

#[test]
fn mods_folder_checks() {
    assert_eq!(check_mods_folder(&None, true).unwrap_err(), "Mods folder path is missing. Set it in the Settings");
    assert_eq!(check_mods_folder(&Some("/nope".to_string()), false).unwrap_err(), "Invalid Mods folder path");
    assert_eq!(check_mods_folder(&Some("/mods".to_string()), true).unwrap(), "/mods");
}

#[test]
fn mod_info_fields() {
    let xml = ModXml {
        id: Some("aaa_mansa".to_string()),
        properties: Properties { civ_mods_internal_version_id: Some("42".to_string()), name: Some("Mansa".to_string()) },
    };
    let m = mod_info(None, "/mods/a/a.modinfo".to_string(), &Some(xml), None, "a".to_string());
    assert_eq!(m.mod_name, "Unknown Mod");
    assert_eq!(m.modinfo_path, "/mods/a/a.modinfo");
    assert_eq!(m.modinfo_id.as_deref(), Some("aaa_mansa"));
    assert_eq!(m.folder_hash, "<unable to compute folder hash>");
    assert_eq!(m.folder_name, "a");
    assert_eq!(m.civmods_internal_version_id.as_deref(), Some("42"));

    let m = mod_info(Some("b".to_string()), "p".to_string(), &None, Some("h".to_string()), "b".to_string());
    assert_eq!(m.mod_name, "b");
    assert_eq!(m.folder_hash, "h");
    assert!(m.modinfo_id.is_none());
    assert!(m.civmods_internal_version_id.is_none());

    let defaults = Properties::default();
    assert!(defaults.name.is_none() && defaults.civ_mods_internal_version_id.is_none());
}

#[test]
fn unlocked_mods_are_those_not_excluded() {
    let mods = vec![info("a", Some("id-a")), info("b", None), info("c", Some("id-c")), info("d", Some("id-d"))];
    let excluded = vec!["id-c".to_string(), "id-x".to_string()];
    assert_eq!(get_unlocked_mod_folders(&mods, &excluded), vec!["a", "b", "d"]);
    assert_eq!(get_unlocked_mod_folders(&mods, &vec![]), vec!["a", "b", "c", "d"]);
}

#[test]
fn excluding_more_ids_never_unlocks_more() {
    let mods = vec![info("a", Some("id-a")), info("b", None), info("c", Some("id-c"))];
    let fewer = get_unlocked_mod_folders(&mods, &vec!["id-c".to_string()]);
    let more = get_unlocked_mod_folders(&mods, &vec!["id-c".to_string(), "id-a".to_string()]);
    assert_eq!(fewer, vec!["a", "b"]);
    assert_eq!(more, vec!["b"]);
}

#[test]
fn mods_list_passes_over_folders_without_modinfo() {
    let list = mods_list(vec![Some(info("a", None)), None, Some(info("c", Some("id-c"))), None]);
    let names: Vec<&str> = list.iter().map(|m| m.folder_name.as_str()).collect();
    assert_eq!(names, vec!["a", "c"]);
    assert!(mods_list(vec![None, None]).is_empty());
}

#[test]
fn walk_order_ignores_case() {
    assert_eq!(walk_order_key("Zeta.XML"), "zeta.xml");
    assert!(walk_order_key("alpha") < walk_order_key("Beta"));
}
