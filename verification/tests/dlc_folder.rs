use civmods::dlc_folder::parse_steam_library_paths;

#[test]
fn test_parse_steam_library_paths() {
    let vdf = r#"
        "libraryfolders"
        {
            "0"
            {
                "path"		"C:\\Program Files (x86)\\Steam"
                "label"		""
            }
            "1"
            {
                "path"		"D:\\SteamLibrary"
            }
        }
        "#;

    assert_eq!(
        parse_steam_library_paths(vdf),
        vec![
            String::from(r"C:\Program Files (x86)\Steam"),
            String::from(r"D:\SteamLibrary"),
        ]
    );
}

use civmods::dlc_folder::{
    candidate_game_folders, get_civ7_dlc_folder, normalize_dlc_folder, steam_game_folders,
    steam_libraries, steam_roots, GamePath, GAME_FOLDER_NAME,
};

fn path(parts: &[&str]) -> GamePath {
    GamePath { parts: parts.iter().map(|p| p.to_string()).collect() }
}

fn parts(p: &GamePath) -> Vec<String> {
    p.parts.clone()
}

fn all_parts(v: &[GamePath]) -> Vec<Vec<String>> {
    v.iter().map(parts).collect()
}

fn strs(v: &[&str]) -> Vec<String> {
    v.iter().map(|p| p.to_string()).collect()
}

#[test]
fn test_normalize_dlc_folder() {
    let game_folder = path(&["/", "tmp", "x", GAME_FOLDER_NAME]);
    let dlc_folder = path(&["/", "tmp", "x", GAME_FOLDER_NAME, "DLC"]);

    // the game folder has a DLC folder
    assert_eq!(normalize_dlc_folder(&game_folder, true).map(|p| parts(&p)), Some(parts(&dlc_folder)));
    // the DLC folder itself is taken as it is
    assert_eq!(normalize_dlc_folder(&dlc_folder, false).map(|p| parts(&p)), Some(parts(&dlc_folder)));
    // a folder without a DLC folder is refused
    assert!(normalize_dlc_folder(&path(&["/", "tmp", "x"]), false).is_none());
}

#[test]
fn normalize_matches_dlc_in_any_case() {
    let p = path(&["C:", "\\", "Games", "dlc"]);
    assert_eq!(normalize_dlc_folder(&p, false).map(|p| parts(&p)), Some(parts(&p)));
}

#[test]
fn parse_ignores_other_keys_and_blank_lines() {
    let vdf = "\"PATH\"\t\"E:\\\\Games\\\\\\\\Steam\"\r\n\"label\" \"x\"\n\"path\"\n\n  \"contentid\"  \"1\"  ";
    assert_eq!(parse_steam_library_paths(vdf), strs(&["E:\\Games\\\\Steam"]));
}

#[test]
fn parse_of_nothing_is_nothing() {
    assert!(parse_steam_library_paths("").is_empty());
}

#[test]
fn windows_roots_and_candidates() {
    let roots = steam_roots("windows", &None);
    assert_eq!(
        all_parts(&roots),
        vec![
            strs(&["C:", "\\", "Program Files (x86)", "Steam"]),
            strs(&["C:", "\\", "Program Files", "Steam"]),
        ]
    );
    let listed = vec![path(&["C:", "\\", "Program Files (x86)", "Steam"]), path(&["D:", "\\", "SteamLibrary"])];
    let candidates = candidate_game_folders("windows", &None, &listed);
    assert_eq!(
        all_parts(&candidates),
        vec![
            strs(&["C:", "\\", "Program Files (x86)", "Steam", "steamapps", "common", GAME_FOLDER_NAME]),
            strs(&["C:", "\\", "Program Files", "Steam", "steamapps", "common", GAME_FOLDER_NAME]),
            strs(&["D:", "\\", "SteamLibrary", "steamapps", "common", GAME_FOLDER_NAME]),
            strs(&["C:", "\\", "Program Files", "Epic Games", GAME_FOLDER_NAME]),
            strs(&["C:", "\\", "XboxGames", GAME_FOLDER_NAME, "Content"]),
        ]
    );
}

#[test]
fn linux_roots_need_a_home() {
    assert!(steam_roots("linux", &None).is_empty());
    let home = path(&["/", "home", "u"]);
    let roots = steam_roots("linux", &Some(home));
    assert_eq!(
        all_parts(&roots),
        vec![
            strs(&["/", "home", "u", ".steam", "steam"]),
            strs(&["/", "home", "u", ".local", "share", "Steam"]),
            strs(&["/", "home", "u", ".var", "app", "com.valvesoftware.Steam", ".local", "share", "Steam"]),
        ]
    );
    assert!(candidate_game_folders("linux", &None, &vec![]).is_empty());
}

#[test]
fn macos_candidates() {
    let home = path(&["/", "Users", "u"]);
    let candidates = candidate_game_folders("macos", &Some(home), &vec![]);
    assert_eq!(
        all_parts(&candidates),
        vec![
            strs(&["/", "Users", "u", "Library", "Application Support", "Steam", "steamapps", "common", GAME_FOLDER_NAME]),
            strs(&["/", "Applications", "Sid Meier's Civilization VII.app", "Contents", "Resources"]),
        ]
    );
    let without_home = candidate_game_folders("macos", &None, &vec![]);
    assert_eq!(
        all_parts(&without_home),
        vec![strs(&["/", "Applications", "Sid Meier's Civilization VII.app", "Contents", "Resources"])]
    );
}

#[test]
fn other_systems_have_no_candidates() {
    assert!(candidate_game_folders("freebsd", &Some(path(&["/"])), &vec![]).is_empty());
}

#[test]
fn libraries_are_not_repeated() {
    let roots = vec![path(&["/", "a"]), path(&["/", "b"])];
    let listed = vec![path(&["/", "b"]), path(&["/", "c"]), path(&["/", "c"]), path(&["/", "a"])];
    let libraries = steam_libraries(&roots, &listed);
    assert_eq!(
        all_parts(&libraries),
        vec![strs(&["/", "a"]), strs(&["/", "b"]), strs(&["/", "c"])]
    );
    let folders = steam_game_folders(&roots, &listed);
    assert_eq!(folders.len(), 3);
    assert_eq!(parts(&folders[2]), strs(&["/", "c", "steamapps", "common", GAME_FOLDER_NAME]));
}

#[test]
fn first_existing_dlc_folder_wins() {
    let candidates = vec![path(&["/", "a"]), path(&["/", "b"]), path(&["/", "c"])];
    let found = get_civ7_dlc_folder(&candidates, &vec![false, true, true]);
    assert_eq!(found.map(|p| parts(&p)), Some(strs(&["/", "b", "DLC"])));
    assert!(get_civ7_dlc_folder(&candidates, &vec![false, false, false]).is_none());
    assert!(get_civ7_dlc_folder(&candidates, &vec![false]).is_none());
    assert!(get_civ7_dlc_folder(&vec![], &vec![true]).is_none());
}

#[test]
fn joined_texts_list_both_in_order() {
    let a = "\"path\" \"C:\\\\Steam\"";
    let b = "\"label\" \"\"\n\"path\" \"D:\\\\Games\"";
    let joined = format!("{a}\n{b}");
    let mut both = parse_steam_library_paths(a);
    both.extend(parse_steam_library_paths(b));
    assert_eq!(parse_steam_library_paths(&joined), both);
    assert_eq!(both, vec!["C:\\Steam".to_string(), "D:\\Games".to_string()]);
}
