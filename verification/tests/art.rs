use civmods::art::{
    art_install_info, check_art_target, copy_jobs, describe_io_error, find_art_payload, is_hidden,
    plan_art_install, ArtPayload, WalkEntry, ART_DLC_MARKER_FILE,
};
use civmods::dlc_folder::GamePath;
use civmods::xml::find_update_art_name;

fn path(parts: &[&str]) -> GamePath {
    GamePath { parts: parts.iter().map(|p| p.to_string()).collect() }
}

fn strs(v: &[&str]) -> Vec<String> {
    v.iter().map(|p| p.to_string()).collect()
}

/// An entry of a walk from `/src`.
fn entry(rel: &[&str], is_dir: bool) -> WalkEntry {
    let mut parts = vec!["/", "src"];
    parts.extend_from_slice(rel);
    WalkEntry { path: path(&parts), depth: rel.len(), is_dir, is_file: !is_dir }
}

fn flat_archive() -> Vec<WalkEntry> {
    vec![
        entry(&[], true),
        entry(&["aaa_mansa.modinfo"], false),
        entry(&["Platforms"], true),
        entry(&["Platforms", "Windows"], true),
        entry(&["Platforms", "Windows", "BLPs"], true),
        entry(&["Platforms", "Windows", "BLPs", "art.blp"], false),
        entry(&["Platforms", "Windows", "BLPs", "inner.dep"], false),
        entry(&["aaa_mansa.dep"], false),
    ]
}

fn no_payload() -> ArtPayload {
    ArtPayload { platforms_dirs: vec![], dep_files: vec![] }
}

#[test]
fn finds_platforms_and_dep_files() {
    let payload = find_art_payload(&flat_archive());
    assert_eq!(payload.platforms_dirs.len(), 1);
    assert_eq!(payload.platforms_dirs[0].parts, strs(&["/", "src", "Platforms"]));
    // the .dep inside Platforms goes along with the folder
    assert_eq!(payload.dep_files.len(), 1);
    assert_eq!(payload.dep_files[0].parts, strs(&["/", "src", "aaa_mansa.dep"]));
    assert!(!payload.is_empty());
}

#[test]
fn hidden_entries_and_what_is_below_them_are_skipped() {
    let entries = vec![
        entry(&[], true),
        entry(&[".git"], true),
        entry(&[".git", "x.dep"], false),
        entry(&["__MACOSX"], true),
        entry(&["__MACOSX", "Platforms"], true),
        entry(&[".hidden.dep"], false),
        entry(&["sub"], true),
        entry(&["sub", "Art.DEP"], false),
        entry(&["sub", "platforms"], true),
        entry(&["sub", "dep"], false),
        entry(&["sub", "x.deps"], false),
    ];
    let payload = find_art_payload(&entries);
    assert_eq!(payload.dep_files.len(), 1);
    assert_eq!(payload.dep_files[0].parts, strs(&["/", "src", "sub", "Art.DEP"]));
    assert_eq!(payload.platforms_dirs.len(), 1);
    assert_eq!(payload.platforms_dirs[0].parts, strs(&["/", "src", "sub", "platforms"]));
}

#[test]
fn walk_root_may_itself_be_hidden() {
    let entries = vec![WalkEntry { path: path(&["/", ".cache"]), depth: 0, is_dir: true, is_file: false },
        WalkEntry { path: path(&["/", ".cache", "a.dep"]), depth: 1, is_dir: false, is_file: true }];
    assert_eq!(find_art_payload(&entries).dep_files.len(), 1);
}

#[test]
fn hidden_names() {
    assert!(is_hidden(".git"));
    assert!(is_hidden("__macosx"));
    assert!(!is_hidden("Platforms"));
    assert!(!is_hidden(""));
}

#[test]
fn missing_dlc_folder_is_an_error() {
    let payload = find_art_payload(&flat_archive());
    let error = plan_art_install(&payload, &no_payload(), false, "/games/DLC", &None, "x").unwrap_err();
    assert_eq!(error, "The game's DLC folder '/games/DLC' does not exist. Set it in the Settings.");
}

#[test]
fn falls_back_to_the_trimmed_mod_name() {
    let payload = find_art_payload(&flat_archive());
    let plan = plan_art_install(&payload, &no_payload(), true, "/dlc", &None, "  Mansa Art ").unwrap().unwrap();
    assert_eq!(plan.1, "Mansa Art");
}

#[test]
fn refuses_a_foreign_dlc_folder() {
    let error = check_art_target("aaa_mansa", true, false).unwrap_err();
    assert!(error.contains("not installed by CivMods"), "{error}");
    assert_eq!(
        error,
        "When installing art, provided 'aaa_mansa' already exists in the DLC folder and was not installed by CivMods. Skipping art installation to avoid overwriting game files."
    );
}

#[test]
fn copies_go_into_the_target() {
    let payload = find_art_payload(&flat_archive());
    let target = path(&["/", "dlc", "aaa_mansa"]);
    let jobs = copy_jobs(&target, &payload);
    assert_eq!(jobs.len(), 2);
    assert_eq!(jobs[0].from.parts, strs(&["/", "src", "Platforms"]));
    assert_eq!(jobs[0].to.parts, strs(&["/", "dlc", "aaa_mansa", "Platforms"]));
    assert!(jobs[0].tree);
    assert_eq!(jobs[1].to.parts, strs(&["/", "dlc", "aaa_mansa", "aaa_mansa.dep"]));
    assert!(!jobs[1].tree);
    assert_eq!(ART_DLC_MARKER_FILE, ".civmods-art-dlc");
}

#[test]
fn io_error_messages() {
    assert_eq!(
        describe_io_error("/dlc/x", true, "denied"),
        "When installing art assets, permission was denied writing to '/dlc/x'. Try rerunning as administrator."
    );
    assert_eq!(describe_io_error("/dlc/x", false, "disk full"), "Failed to write '/dlc/x': disk full");
}

#[test]
fn install_info_counts_the_payload() {
    let payload = find_art_payload(&flat_archive());
    let info = art_install_info("aaa_mansa".to_string(), "/dlc/aaa_mansa".to_string(), &payload);
    assert_eq!(info.folder_name, "aaa_mansa");
    assert_eq!(info.installed_path, "/dlc/aaa_mansa");
    assert_eq!(info.dep_files, 1);
    assert_eq!(info.platforms_dirs, 1);
}

#[test]
fn installing_twice_gives_the_same_plan() {
    let payload = find_art_payload(&flat_archive());
    let name = Some("aaa_mansa".to_string());
    let first = plan_art_install(&payload, &no_payload(), true, "/dlc", &name, "x").unwrap().unwrap();
    // first time: the target does not exist yet
    assert!(check_art_target(&first.1, false, false).is_ok());
    // second time: the target exists and carries the marker written by the first
    let second = plan_art_install(&payload, &no_payload(), true, "/dlc", &name, "x").unwrap().unwrap();
    assert!(check_art_target(&second.1, true, true).is_ok());
    assert_eq!(second.1, first.1);
    let i1 = art_install_info(first.1, "/dlc/aaa_mansa".to_string(), &first.0);
    let i2 = art_install_info(second.1, "/dlc/aaa_mansa".to_string(), &second.0);
    assert_eq!((i1.folder_name, i1.dep_files, i1.platforms_dirs), (i2.folder_name, i2.dep_files, i2.platforms_dirs));
}

const ART_MODINFO: &str = r#"<?xml version="1.0" encoding="utf-8"?>
<Mod id="aaa_mansa" version="1" xmlns="ModInfo">
    <Properties><Name>Mansa Art</Name></Properties>
    <ActionGroups>
        <ActionGroup id="aaa_mansa-game" scope="game" criteria="always">
            <Actions>
                <UpdateArt><Item>aaa_mansa</Item></UpdateArt>
            </Actions>
        </ActionGroup>
    </ActionGroups>
</Mod>"#;

/// An entry of a walk from `root`, `rel` below it.
fn at<S: AsRef<str>>(root: &[&str], rel: &[S], is_dir: bool) -> WalkEntry {
    let mut parts: Vec<&str> = root.to_vec();
    parts.extend(rel.iter().map(|p| p.as_ref()));
    WalkEntry { path: path(&parts), depth: rel.len(), is_dir, is_file: !is_dir }
}

/// The payload files the original tests write under `dir` (relative to `root`).
fn payload_entries(root: &[&str], dir: &[&str], name: &str) -> Vec<WalkEntry> {
    let sub = |rest: &[&str]| -> Vec<String> {
        dir.iter().chain(rest.iter()).map(|p| p.to_string()).collect()
    };
    let dep = format!("{name}.dep");
    vec![
        at(root, &sub(&["Platforms"]), true),
        at(root, &sub(&["Platforms", "Windows"]), true),
        at(root, &sub(&["Platforms", "Windows", "BLPs"]), true),
        at(root, &sub(&["Platforms", "Windows", "BLPs", "art.blp"]), false),
        at(root, &sub(&[dep.as_str()]), false),
    ]
}

/// The flat layout: the art next to the modinfo, in `/src/aaa_mansa`.
fn flat_modinfo_dir_walk() -> Vec<WalkEntry> {
    let root = ["/", "src", "aaa_mansa"];
    let none: [&str; 0] = [];
    let mut v = vec![at(&root, &none, true), at(&root, &["aaa_mansa.modinfo"], false)];
    v.extend(payload_entries(&root, &[], "aaa_mansa"));
    v
}

/// Plans the installation the way `install_art_dlc` does, from the walks of
/// the modinfo's folder and of the archive root and the modinfo's text.
fn install_plan(
    modinfo_dir: &[WalkEntry],
    archive_root: &[WalkEntry],
    modinfo: &str,
    fallback: &str,
) -> Result<Option<(ArtPayload, String)>, String> {
    let from_modinfo_dir = find_art_payload(&modinfo_dir.iter().map(copy_entry).collect());
    let from_archive_root = find_art_payload(&archive_root.iter().map(copy_entry).collect());
    plan_art_install(
        &from_modinfo_dir,
        &from_archive_root,
        true,
        "/dlc",
        &find_update_art_name(modinfo.as_bytes()),
        fallback,
    )
}

fn copy_entry(e: &WalkEntry) -> WalkEntry {
    WalkEntry { path: GamePath { parts: e.path.parts.clone() }, depth: e.depth, is_dir: e.is_dir, is_file: e.is_file }
}

/// The destinations the installation copies to, under `/dlc/<folder>`.
fn destinations(payload: &ArtPayload, folder: &str) -> Vec<Vec<String>> {
    copy_jobs(&path(&["/", "dlc", folder]), payload).into_iter().map(|j| j.to.parts).collect()
}

#[test]
fn test_installs_payload_next_to_the_modinfo() {
    let walk = flat_modinfo_dir_walk();
    let (payload, folder_name) = install_plan(&walk, &walk, ART_MODINFO, "civmods-fallback")
        .unwrap()
        .expect("expected an art payload");
    assert!(check_art_target(&folder_name, false, false).is_ok());
    let info = art_install_info(folder_name.clone(), "/dlc/aaa_mansa".to_string(), &payload);
    assert_eq!(info.folder_name, "aaa_mansa");
    assert_eq!(info.dep_files, 1);
    assert_eq!(info.platforms_dirs, 1);
    assert_eq!(
        destinations(&payload, &folder_name),
        vec![strs(&["/", "dlc", "aaa_mansa", "Platforms"]), strs(&["/", "dlc", "aaa_mansa", "aaa_mansa.dep"])]
    );
}

#[test]
fn test_installs_payload_from_a_sibling_dlc_folder() {
    let root = ["/", "src"];
    let modinfo_dir = vec![
        at(&["/", "src", "Mods", "aaa_mansa", "modules"], &[""; 0], true),
        at(&["/", "src", "Mods", "aaa_mansa", "modules"], &["aaa_mansa.modinfo"], false),
    ];
    let mut archive = vec![
        at(&root, &[""; 0], true),
        at(&root, &["Mods"], true),
        at(&root, &["Mods", "aaa_mansa"], true),
        at(&root, &["Mods", "aaa_mansa", "modules"], true),
        at(&root, &["Mods", "aaa_mansa", "modules", "aaa_mansa.modinfo"], false),
        at(&root, &["DLC"], true),
        at(&root, &["DLC", "aaa_mansa"], true),
    ];
    archive.extend(payload_entries(&root, &["DLC", "aaa_mansa"], "aaa_mansa"));
    let (payload, folder_name) = install_plan(&modinfo_dir, &archive, ART_MODINFO, "civmods-fallback")
        .unwrap()
        .expect("expected an art payload");
    assert_eq!(folder_name, "aaa_mansa");
    assert_eq!(
        destinations(&payload, &folder_name),
        vec![strs(&["/", "dlc", "aaa_mansa", "Platforms"]), strs(&["/", "dlc", "aaa_mansa", "aaa_mansa.dep"])]
    );
}

#[test]
fn test_falls_back_to_mod_name_without_update_art() {
    let modinfo = r#"<Mod id="aaa_mansa"><Properties><Name>Mansa Art</Name></Properties></Mod>"#;
    let walk = flat_modinfo_dir_walk();
    let (payload, folder_name) = install_plan(&walk, &walk, modinfo, "Mansa Art")
        .unwrap()
        .expect("expected an art payload");
    assert_eq!(folder_name, "Mansa Art");
    assert_eq!(destinations(&payload, &folder_name)[1], strs(&["/", "dlc", "Mansa Art", "aaa_mansa.dep"]));
}

#[test]
fn test_unusable_folder_name_fails() {
    let modinfo = r#"<Mod id="x"><ActionGroups><ActionGroup id="a"><Actions>
                     <UpdateArt><Item>Mansa: Art/Vol 2</Item></UpdateArt>
                     </Actions></ActionGroup></ActionGroups></Mod>"#;
    let walk = flat_modinfo_dir_walk();
    let error = install_plan(&walk, &walk, modinfo, "aaa_mansa").expect_err("expected an invalid folder name to fail");
    assert!(error.contains("not allowed in a folder name"), "{error}");
}

#[test]
fn test_no_payload_is_not_an_error() {
    let root = ["/", "src"];
    let modinfo_dir = vec![
        at(&["/", "src", "Mods", "plain"], &[""; 0], true),
        at(&["/", "src", "Mods", "plain"], &["plain.modinfo"], false),
    ];
    let archive = vec![
        at(&root, &[""; 0], true),
        at(&root, &["Mods"], true),
        at(&root, &["Mods", "plain"], true),
        at(&root, &["Mods", "plain", "plain.modinfo"], false),
    ];
    let result = install_plan(&modinfo_dir, &archive, r#"<Mod id="plain"></Mod>"#, "plain").unwrap();
    assert!(result.is_none());
}

#[test]
fn test_refuses_to_overwrite_a_foreign_dlc_folder() {
    let walk = flat_modinfo_dir_walk();
    let (_, folder_name) = install_plan(&walk, &walk, ART_MODINFO, "aaa_mansa").unwrap().unwrap();
    // the game already ships a module with the same name, without the marker file
    let error = check_art_target(&folder_name, true, false).expect_err("expected the install to be refused");
    assert!(error.contains("not installed by CivMods"), "{error}");
}

#[test]
fn test_reinstall_over_own_folder_is_allowed() {
    let walk = flat_modinfo_dir_walk();
    let (_, first) = install_plan(&walk, &walk, ART_MODINFO, "aaa_mansa").unwrap().unwrap();
    assert!(check_art_target(&first, false, false).is_ok());
    // the first installation left the folder with its marker file
    let (payload, folder_name) = install_plan(&walk, &walk, ART_MODINFO, "aaa_mansa")
        .unwrap()
        .expect("expected an art payload");
    assert!(check_art_target(&folder_name, true, true).is_ok());
    let info = art_install_info(folder_name, "/dlc/aaa_mansa".to_string(), &payload);
    assert_eq!(info.folder_name, "aaa_mansa");
}
