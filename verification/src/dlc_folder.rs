//! Finding the DLC folder of a Civilization VII install. Steam records game
//! libraries on other drives in `libraryfolders.vdf`; the game folder sits in
//! `steamapps/common` of one of them, or in an Epic, Xbox or macOS location.
//!
//! A path is held as the list of its components, as `Path::components`
//! gives them (the root and a drive prefix are components of their own); a
//! drive prefix is held with its letter in upper case, the form `Path` parses
//! it to and compares it by (`c:` and `C:` are one drive). Held so, two paths
//! are equal exactly when `Path` compares them equal, and joining a name adds
//! one component.

use vstd::prelude::*;
use crate::text::{
    chars_eq_ignore_ascii_case, chars_of, char_views, eq_ignore_ascii_case, eq_ignore_case,
    push_char, owned, split_chars, split_on, string_views, trim, trim_chars,
};

verus! {

pub const GAME_FOLDER_NAME: &'static str = "Sid Meier's Civilization VII";

/// A path, as its components.
#[derive(Debug)]
pub struct GamePath {
    pub parts: Vec<String>,
}

impl View for GamePath {
    type V = Seq<Seq<char>>;

    open spec fn view(&self) -> Seq<Seq<char>> {
        string_views(self.parts@)
    }
}

pub fn copy_strings(v: &Vec<String>) -> (r: Vec<String>)
    ensures
        string_views(r@) == string_views(v@),
{
    let mut out: Vec<String> = Vec::new();
    let n = v.len();
    let mut i: usize = 0;
    while i < n
        invariant
            n == v@.len(),
            i <= n,
            out@.len() == i,
            forall|k: int| 0 <= k < i ==> (#[trigger] out@[k])@ == v@[k]@,
        decreases n - i,
    {
        let c: String = v[i].clone();
        out.push(c);
        i = i + 1;
    }
    assert(string_views(out@) =~= string_views(v@));
    out
}

impl GamePath {
    /// A path made of the given components.
    pub fn from_parts(parts: Vec<String>) -> (r: GamePath)
        ensures
            r@ == string_views(parts@),
    {
        GamePath { parts }
    }

    /// This path with one more component, `name`.
    pub fn join(&self, name: &str) -> (r: GamePath)
        ensures
            r@ == self@.push(name@),
    {
        let mut parts = copy_strings(&self.parts);
        parts.push(owned(name));
        assert(string_views(parts@) =~= self@.push(name@));
        GamePath { parts }
    }

    pub fn copy(&self) -> (r: GamePath)
        ensures
            r@ == self@,
    {
        GamePath { parts: copy_strings(&self.parts) }
    }

    /// Whether two paths are the same path.
    pub fn same_as(&self, other: &GamePath) -> (r: bool)
        ensures
            r == (self@ == other@),
    {
        let n = self.parts.len();
        if n != other.parts.len() {
            assert(self@.len() != other@.len());
            return false;
        }
        let mut i: usize = 0;
        while i < n
            invariant
                n == self@.len(),
                n == other@.len(),
                i <= n,
                forall|k: int| 0 <= k < i ==> self@[k] == other@[k],
            decreases n - i,
        {
            if self.parts[i] != other.parts[i] {
                assert(self@[i as int] != other@[i as int]);
                return false;
            }
            i = i + 1;
        }
        assert(self@ =~= other@);
        true
    }
}

pub open spec fn path_views(v: Seq<GamePath>) -> Seq<Seq<Seq<char>>> {
    Seq::new(v.len(), |i: int| v[i]@)
}

// ---------------------------------------------------------------------------
// libraryfolders.vdf

/// `s` with each `\\` pair (read left to right, not overlapping) made one `\`.
pub open spec fn collapse_backslashes(s: Seq<char>) -> Seq<char>
    decreases s.len(),
{
    if s.len() >= 2 && s[0] == '\\' && s[1] == '\\' {
        seq!['\\'] + collapse_backslashes(s.skip(2))
    } else if s.len() == 0 {
        s
    } else {
        seq![s[0]] + collapse_backslashes(s.drop_first())
    }
}

/// The pieces that hold more than white space, in order.
pub open spec fn nonblank(parts: Seq<Seq<char>>) -> Seq<Seq<char>>
    decreases parts.len(),
{
    if parts.len() == 0 {
        parts
    } else {
        let prev = nonblank(parts.drop_last());
        if trim(parts.last()).len() > 0 {
            prev.push(parts.last())
        } else {
            prev
        }
    }
}

/// The library path a line of `libraryfolders.vdf` gives, if any: the line
/// trimmed and cut at each `"`; of the pieces that are not blank, the first
/// must be `path` (any ASCII case) and the second is the path, with each
/// doubled backslash made single.
pub open spec fn library_path_of_line(line: Seq<char>) -> Option<Seq<char>> {
    let parts = nonblank(split_on(trim(line), '"'));
    if parts.len() >= 2 && eq_ignore_case(parts[0], "path"@) {
        Some(collapse_backslashes(parts[1]))
    } else {
        None
    }
}

/// The library paths that `lines` give, in order.
pub open spec fn library_paths_of_lines(lines: Seq<Seq<char>>) -> Seq<Seq<char>>
    decreases lines.len(),
{
    if lines.len() == 0 {
        Seq::empty()
    } else {
        let prev = library_paths_of_lines(lines.drop_last());
        match library_path_of_line(lines.last()) {
            Some(p) => prev.push(p),
            None => prev,
        }
    }
}

/// The library paths listed in the text of a `libraryfolders.vdf`. Lines are
/// cut at `\n`; a `\r` before it goes with the trimming of the line.
pub open spec fn steam_library_paths(vdf: Seq<char>) -> Seq<Seq<char>> {
    library_paths_of_lines(split_on(vdf, '\n'))
}

fn collapse_backslash_pairs(s: &Vec<char>) -> (r: String)
    ensures
        r@ == collapse_backslashes(s@),
{
    let n = s.len();
    let mut out = String::new();
    let mut i: usize = 0;
    assert(s@.skip(0) =~= s@);
    while i < n
        invariant
            n == s@.len(),
            i <= n,
            out@ + collapse_backslashes(s@.skip(i as int)) == collapse_backslashes(s@),
        decreases n - i,
    {
        let ghost rest = s@.skip(i as int);
        if i + 1 < n && s[i] == '\\' && s[i + 1] == '\\' {
            assert(rest.skip(2) =~= s@.skip(i + 2));
            push_char(&mut out, '\\');
            assert(out@ + collapse_backslashes(s@.skip(i + 2)) =~= old_out_plus(out@, rest));
            i = i + 2;
        } else {
            assert(rest.drop_first() =~= s@.skip(i + 1));
            push_char(&mut out, s[i]);
            assert(out@ + collapse_backslashes(s@.skip(i + 1)) =~= old_out_plus(out@, rest));
            i = i + 1;
        }
    }
    assert(s@.skip(n as int) =~= Seq::<char>::empty());
    assert(out@ + Seq::<char>::empty() =~= out@);
    out
}

spec fn old_out_plus(out: Seq<char>, rest: Seq<char>) -> Seq<char> {
    out.drop_last() + collapse_backslashes(rest)
}

fn nonblank_parts(parts: &Vec<Vec<char>>) -> (r: Vec<Vec<char>>)
    ensures
        char_views(r@) == nonblank(char_views(parts@)),
{
    let n = parts.len();
    let mut out: Vec<Vec<char>> = Vec::new();
    let mut i: usize = 0;
    assert(char_views(parts@).subrange(0, 0) =~= Seq::<Seq<char>>::empty());
    while i < n
        invariant
            n == parts@.len(),
            i <= n,
            char_views(out@) == nonblank(char_views(parts@).subrange(0, i as int)),
        decreases n - i,
    {
        let ghost pre = char_views(parts@).subrange(0, i + 1);
        assert(pre.drop_last() =~= char_views(parts@).subrange(0, i as int));
        let t = trim_chars(&parts[i]);
        if t.len() > 0 {
            let mut copy: Vec<char> = Vec::new();
            let m = parts[i].len();
            let mut k: usize = 0;
            while k < m
                invariant
                    i < n,
                    n == parts@.len(),
                    m == parts@[i as int]@.len(),
                    k <= m,
                    copy@ == parts@[i as int]@.subrange(0, k as int),
                decreases m - k,
            {
                copy.push(parts[i][k]);
                assert(copy@ =~= parts@[i as int]@.subrange(0, k + 1));
                k = k + 1;
            }
            assert(copy@ =~= parts@[i as int]@);
            out.push(copy);
            assert(char_views(out@) =~= nonblank(pre));
        } else {
            assert(char_views(out@) =~= nonblank(pre));
        }
        i = i + 1;
    }
    assert(char_views(parts@).subrange(0, n as int) =~= char_views(parts@));
    out
}

/// The library path a line of `libraryfolders.vdf` gives, if any.
pub fn library_path_in_line(line: &Vec<char>) -> (r: Option<String>)
    ensures
        match r {
            Some(p) => library_path_of_line(line@) == Some(p@),
            None => library_path_of_line(line@) is None,
        },
{
    let trimmed = trim_chars(line);
    let pieces = split_chars(&trimmed, '"');
    let parts = nonblank_parts(&pieces);
    if parts.len() >= 2 && chars_eq_ignore_ascii_case(&parts[0], "path") {
        Some(collapse_backslash_pairs(&parts[1]))
    } else {
        None
    }
}

/// The library paths listed in a `libraryfolders.vdf`, in order.
pub fn parse_steam_library_paths(vdf: &str) -> (r: Vec<String>)
    ensures
        string_views(r@) == steam_library_paths(vdf@),
{
    let chars = chars_of(vdf);
    let lines = split_chars(&chars, '\n');
    let n = lines.len();
    let mut out: Vec<String> = Vec::new();
    let mut i: usize = 0;
    assert(char_views(lines@).subrange(0, 0) =~= Seq::<Seq<char>>::empty());
    while i < n
        invariant
            n == lines@.len(),
            i <= n,
            char_views(lines@) == split_on(vdf@, '\n'),
            string_views(out@) == library_paths_of_lines(char_views(lines@).subrange(0, i as int)),
        decreases n - i,
    {
        let ghost pre = char_views(lines@).subrange(0, i + 1);
        assert(pre.drop_last() =~= char_views(lines@).subrange(0, i as int));
        assert(pre.last() == lines@[i as int]@);
        match library_path_in_line(&lines[i]) {
            Some(p) => {
                out.push(p);
                assert(string_views(out@) =~= library_paths_of_lines(pre));
            },
            None => {
                assert(string_views(out@) =~= library_paths_of_lines(pre));
            },
        }
        i = i + 1;
    }
    assert(char_views(lines@).subrange(0, n as int) =~= char_views(lines@));
    out
}

// ---------------------------------------------------------------------------
// Candidate folders

/// `acc` followed by each of `items` that is not already there when its turn comes.
pub open spec fn add_unique<A>(acc: Seq<A>, items: Seq<A>) -> Seq<A>
    decreases items.len(),
{
    if items.len() == 0 {
        acc
    } else {
        let next = if acc.contains(items[0]) {
            acc
        } else {
            acc.push(items[0])
        };
        add_unique(next, items.drop_first())
    }
}

/// The Steam installation folders searched on `os` (`std::env::consts::OS`),
/// given the user's home folder.
pub open spec fn steam_roots_for(os: Seq<char>, home: Option<Seq<Seq<char>>>) -> Seq<Seq<Seq<char>>> {
    if os == "windows"@ {
        seq![
            seq!["C:"@].push("\\"@).push("Program Files (x86)"@).push("Steam"@),
            seq!["C:"@].push("\\"@).push("Program Files"@).push("Steam"@),
        ]
    } else if os == "macos"@ {
        match home {
            Some(h) => seq![h.push("Library"@).push("Application Support"@).push("Steam"@)],
            None => Seq::empty(),
        }
    } else if os == "linux"@ {
        match home {
            Some(h) => seq![
                h.push(".steam"@).push("steam"@),
                h.push(".local"@).push("share"@).push("Steam"@),
                h.push(".var"@).push("app"@).push("com.valvesoftware.Steam"@).push(".local"@).push(
                    "share"@,
                ).push("Steam"@),
            ],
            None => Seq::empty(),
        }
    } else {
        Seq::empty()
    }
}

/// The game folders that are not in a Steam library, on `os`.
pub open spec fn other_game_folders(os: Seq<char>) -> Seq<Seq<Seq<char>>> {
    if os == "windows"@ {
        seq![
            seq!["C:"@].push("\\"@).push("Program Files"@).push("Epic Games"@).push(GAME_FOLDER_NAME@),
            seq!["C:"@].push("\\"@).push("XboxGames"@).push(GAME_FOLDER_NAME@).push("Content"@),
        ]
    } else if os == "macos"@ {
        seq![
            seq!["/"@].push("Applications"@).push(GAME_FOLDER_NAME@ + ".app"@).push("Contents"@).push(
                "Resources"@,
            ),
        ]
    } else {
        Seq::empty()
    }
}

/// Where the game sits inside a Steam library.
pub open spec fn game_folder_in(library: Seq<Seq<char>>) -> Seq<Seq<char>> {
    library.push("steamapps"@).push("common"@).push(GAME_FOLDER_NAME@)
}

/// The game folders of the Steam libraries: the roots, then each listed
/// library that is not already among them.
pub open spec fn steam_game_folder_paths(roots: Seq<Seq<Seq<char>>>, listed: Seq<Seq<Seq<char>>>) -> Seq<
    Seq<Seq<char>>,
> {
    add_unique(roots, listed).map_values(|l: Seq<Seq<char>>| game_folder_in(l))
}

/// The candidate game folders on `os`, most likely first.
pub open spec fn candidate_folders(os: Seq<char>, home: Option<Seq<Seq<char>>>, listed: Seq<Seq<Seq<char>>>) -> Seq<
    Seq<Seq<char>>,
> {
    let roots = steam_roots_for(os, home);
    let steam = if roots.len() > 0 {
        steam_game_folder_paths(roots, listed)
    } else {
        Seq::empty()
    };
    steam + other_game_folders(os)
}

pub fn copy_paths(v: &Vec<GamePath>) -> (r: Vec<GamePath>)
    ensures
        path_views(r@) == path_views(v@),
{
    let mut out: Vec<GamePath> = Vec::new();
    let n = v.len();
    let mut i: usize = 0;
    while i < n
        invariant
            n == v@.len(),
            i <= n,
            out@.len() == i,
            forall|k: int| 0 <= k < i ==> (#[trigger] out@[k])@ == v@[k]@,
        decreases n - i,
    {
        out.push(v[i].copy());
        i = i + 1;
    }
    assert(path_views(out@) =~= path_views(v@));
    out
}

fn contains_path(v: &Vec<GamePath>, p: &GamePath) -> (r: bool)
    ensures
        r == path_views(v@).contains(p@),
{
    let n = v.len();
    let mut i: usize = 0;
    while i < n
        invariant
            n == v@.len(),
            i <= n,
            forall|k: int| 0 <= k < i ==> path_views(v@)[k] != p@,
        decreases n - i,
    {
        if v[i].same_as(p) {
            assert(path_views(v@)[i as int] == p@);
            return true;
        }
        i = i + 1;
    }
    false
}

fn path_with(first: &str) -> (r: GamePath)
    ensures
        r@ == seq![first@],
{
    let mut parts: Vec<String> = Vec::new();
    parts.push(owned(first));
    assert(string_views(parts@) =~= seq![first@]);
    GamePath { parts }
}

/// The Steam installation folders searched on `os`.
pub fn steam_roots(os: &str, home: &Option<GamePath>) -> (r: Vec<GamePath>)
    ensures
        path_views(r@) == steam_roots_for(
            os@,
            match home {
                Some(h) => Some(h@),
                None => None,
            },
        ),
{
    let ghost h_view = match home {
        Some(h) => Some(h@),
        None => None,
    };
    let mut out: Vec<GamePath> = Vec::new();
    if crate::folder_name::eq_str(os, "windows") {
        out.push(path_with("C:").join("\\").join("Program Files (x86)").join("Steam"));
        out.push(path_with("C:").join("\\").join("Program Files").join("Steam"));
        assert(path_views(out@) =~= steam_roots_for(os@, h_view));
    } else if crate::folder_name::eq_str(os, "macos") {
        match home {
            Some(h) => out.push(h.join("Library").join("Application Support").join("Steam")),
            None => {},
        }
        assert(path_views(out@) =~= steam_roots_for(os@, h_view));
    } else if crate::folder_name::eq_str(os, "linux") {
        match home {
            Some(h) => {
                out.push(h.join(".steam").join("steam"));
                out.push(h.join(".local").join("share").join("Steam"));
                out.push(
                    h.join(".var").join("app").join("com.valvesoftware.Steam").join(".local").join(
                        "share",
                    ).join("Steam"),
                );
            },
            None => {},
        }
        assert(path_views(out@) =~= steam_roots_for(os@, h_view));
    } else {
        assert(path_views(out@) =~= steam_roots_for(os@, h_view));
    }
    out
}

/// The Steam libraries reachable from `roots`: the roots, then each of the
/// `listed` libraries (those their `libraryfolders.vdf` name, in order) that
/// is not already there.
pub fn steam_libraries(roots: &Vec<GamePath>, listed: &Vec<GamePath>) -> (r: Vec<GamePath>)
    ensures
        path_views(r@) == add_unique(path_views(roots@), path_views(listed@)),
{
    let mut libraries = copy_paths(roots);
    let n = listed.len();
    let mut i: usize = 0;
    assert(path_views(listed@).skip(0) =~= path_views(listed@));
    while i < n
        invariant
            n == listed@.len(),
            i <= n,
            add_unique(path_views(libraries@), path_views(listed@).skip(i as int)) == add_unique(
                path_views(roots@),
                path_views(listed@),
            ),
        decreases n - i,
    {
        let ghost before = path_views(libraries@);
        let ghost rest = path_views(listed@).skip(i as int);
        assert(rest.drop_first() =~= path_views(listed@).skip(i + 1));
        assert(rest[0] == listed@[i as int]@);
        if !contains_path(&libraries, &listed[i]) {
            libraries.push(listed[i].copy());
            assert(path_views(libraries@) =~= before.push(rest[0]));
        }
        i = i + 1;
    }
    assert(path_views(listed@).skip(n as int) =~= Seq::<Seq<Seq<char>>>::empty());
    libraries
}

/// The game folders inside every Steam library reachable from `steam_roots`
/// (with the libraries their `libraryfolders.vdf` list).
pub fn steam_game_folders(steam_roots: &Vec<GamePath>, listed: &Vec<GamePath>) -> (r: Vec<GamePath>)
    ensures
        path_views(r@) == steam_game_folder_paths(path_views(steam_roots@), path_views(listed@)),
{
    let libraries = steam_libraries(steam_roots, listed);
    let mut out: Vec<GamePath> = Vec::new();
    let n = libraries.len();
    let mut i: usize = 0;
    while i < n
        invariant
            n == libraries@.len(),
            i <= n,
            out@.len() == i,
            forall|k: int| 0 <= k < i ==> (#[trigger] out@[k])@ == game_folder_in(libraries@[k]@),
        decreases n - i,
    {
        out.push(libraries[i].join("steamapps").join("common").join(GAME_FOLDER_NAME));
        i = i + 1;
    }
    assert(path_views(out@) =~= path_views(libraries@).map_values(
        |l: Seq<Seq<char>>| game_folder_in(l),
    ));
    out
}

/// The candidate game folders on `os`, most likely first: the game folders of
/// the Steam libraries (when `os` has Steam folders to search), then the
/// Epic and Xbox folders on Windows, the application bundle on macOS.
pub fn candidate_game_folders(os: &str, home: &Option<GamePath>, listed: &Vec<GamePath>) -> (r: Vec<
    GamePath,
>)
    ensures
        path_views(r@) == candidate_folders(
            os@,
            match home {
                Some(h) => Some(h@),
                None => None,
            },
            path_views(listed@),
        ),
{
    let roots = steam_roots(os, home);
    let mut out = if roots.len() > 0 {
        steam_game_folders(&roots, listed)
    } else {
        Vec::new()
    };
    let ghost steam = path_views(out@);
    if crate::folder_name::eq_str(os, "windows") {
        out.push(path_with("C:").join("\\").join("Program Files").join("Epic Games").join(GAME_FOLDER_NAME));
        out.push(path_with("C:").join("\\").join("XboxGames").join(GAME_FOLDER_NAME).join("Content"));
        assert(path_views(out@) =~= steam + other_game_folders(os@));
    } else if crate::folder_name::eq_str(os, "macos") {
        let mut bundle = owned(GAME_FOLDER_NAME);
        bundle.append(".app");
        out.push(
            path_with("/").join("Applications").join(bundle.as_str()).join("Contents").join(
                "Resources",
            ),
        );
        assert(path_views(out@) =~= steam + other_game_folders(os@));
    } else {
        assert(path_views(out@) =~= steam + other_game_folders(os@));
    }
    out
}

/// The first candidate, in order, whose DLC folder exists: that DLC folder.
/// `dlc_exists[i]` tells whether `candidates[i]` has a `DLC` folder.
pub open spec fn first_dlc_folder(candidates: Seq<Seq<Seq<char>>>, dlc_exists: Seq<bool>) -> Option<
    Seq<Seq<char>>,
>
    decreases candidates.len(),
{
    if candidates.len() == 0 || dlc_exists.len() == 0 {
        None
    } else if dlc_exists[0] {
        Some(candidates[0].push("DLC"@))
    } else {
        first_dlc_folder(candidates.drop_first(), dlc_exists.drop_first())
    }
}

/// The DLC folder of the game: that of the first candidate game folder
/// whose `DLC` folder exists (`dlc_exists[i]` for `candidates[i]`).
pub fn get_civ7_dlc_folder(candidates: &Vec<GamePath>, dlc_exists: &Vec<bool>) -> (r: Option<GamePath>)
    ensures
        match r {
            Some(p) => first_dlc_folder(path_views(candidates@), dlc_exists@) == Some(p@),
            None => first_dlc_folder(path_views(candidates@), dlc_exists@) is None,
        },
{
    let n = candidates.len();
    let m = dlc_exists.len();
    let mut i: usize = 0;
    assert(path_views(candidates@).skip(0) =~= path_views(candidates@));
    assert(dlc_exists@.skip(0) =~= dlc_exists@);
    while i < n && i < m
        invariant
            n == candidates@.len(),
            m == dlc_exists@.len(),
            i <= n,
            i <= m,
            first_dlc_folder(path_views(candidates@), dlc_exists@) == first_dlc_folder(
                path_views(candidates@).skip(i as int),
                dlc_exists@.skip(i as int),
            ),
        decreases n - i,
    {
        let ghost c = path_views(candidates@).skip(i as int);
        let ghost e = dlc_exists@.skip(i as int);
        assert(c[0] == candidates@[i as int]@);
        if dlc_exists[i] {
            return Some(candidates[i].join("DLC"));
        }
        assert(c.drop_first() =~= path_views(candidates@).skip(i + 1));
        assert(e.drop_first() =~= dlc_exists@.skip(i + 1));
        i = i + 1;
    }
    None
}

/// The DLC folder the user meant when selecting `selected`: the folder itself
/// when it is named `DLC` (any ASCII case), else its `DLC` subfolder when that
/// exists (`nested_is_dir`).
pub open spec fn normalized_dlc_folder(selected: Seq<Seq<char>>, nested_is_dir: bool) -> Option<
    Seq<Seq<char>>,
> {
    if selected.len() > 0 && eq_ignore_case(selected.last(), "DLC"@) {
        Some(selected)
    } else if nested_is_dir {
        Some(selected.push("DLC"@))
    } else {
        None
    }
}

/// Accepts the game folder or its DLC folder as the DLC folder.
/// `nested_is_dir` tells whether `selected` has a `DLC` subfolder.
pub fn normalize_dlc_folder(selected: &GamePath, nested_is_dir: bool) -> (r: Option<GamePath>)
    ensures
        match r {
            Some(p) => normalized_dlc_folder(selected@, nested_is_dir) == Some(p@),
            None => normalized_dlc_folder(selected@, nested_is_dir) is None,
        },
{
    let n = selected.parts.len();
    if n > 0 && eq_ignore_ascii_case(selected.parts[n - 1].as_str(), "DLC") {
        return Some(selected.copy());
    }
    if nested_is_dir {
        Some(selected.join("DLC"))
    } else {
        None
    }
}

// ---------------------------------------------------------------------------
// Properties

/// The library list keeps the roots first, in order; every listed library is
/// in it; it holds nothing that is neither a root nor listed; and it adds no
/// library twice: when the roots hold no path twice, neither does the list.
pub proof fn lemma_add_unique<A>(acc: Seq<A>, items: Seq<A>)
    ensures
        add_unique(acc, items).len() >= acc.len(),
        add_unique(acc, items).subrange(0, acc.len() as int) == acc,
        forall|x: A| items.contains(x) ==> #[trigger] add_unique(acc, items).contains(x),
        forall|x: A|
            #[trigger] add_unique(acc, items).contains(x) ==> acc.contains(x) || items.contains(x),
        acc.no_duplicates() ==> add_unique(acc, items).no_duplicates(),
    decreases items.len(),
{
    if items.len() > 0 {
        let next = if acc.contains(items[0]) {
            acc
        } else {
            acc.push(items[0])
        };
        lemma_add_unique(next, items.drop_first());
        let r = add_unique(acc, items);
        assert(r == add_unique(next, items.drop_first()));
        assert(r.subrange(0, acc.len() as int) =~= acc) by {
            assert(next.subrange(0, acc.len() as int) =~= acc);
            assert forall|i: int| 0 <= i < acc.len() implies r[i] == acc[i] by {
                assert(r.subrange(0, next.len() as int)[i] == next[i]);
            }
        }
        assert forall|x: A| items.contains(x) implies #[trigger] r.contains(x) by {
            if x == items[0] {
                let k = if acc.contains(items[0]) {
                    choose|k: int| 0 <= k < acc.len() && acc[k] == items[0]
                } else {
                    acc.len() as int
                };
                assert(next[k] == x);
                assert(r.subrange(0, next.len() as int)[k] == next[k]);
                assert(r[k] == x);
            } else {
                let j = choose|j: int| 0 <= j < items.len() && items[j] == x;
                assert(items.drop_first()[j - 1] == x);
            }
        }
        assert forall|x: A| #[trigger] r.contains(x) implies acc.contains(x) || items.contains(x) by {
            if next.contains(x) && !acc.contains(x) {
                assert(x == items[0]);
                assert(items[0] == x);
            }
            if items.drop_first().contains(x) {
                let j = choose|j: int| 0 <= j < items.drop_first().len() && items.drop_first()[j] == x;
                assert(items[j + 1] == x);
            }
        }
        if acc.no_duplicates() {
            assert(next.no_duplicates());
        }
    } else {
        assert(acc.subrange(0, acc.len() as int) =~= acc);
    }
}

/// The DLC folder found is that of a candidate whose DLC folder exists, and
/// no candidate before it has one; when none is found, no candidate has one.
pub proof fn lemma_first_dlc_folder(candidates: Seq<Seq<Seq<char>>>, dlc_exists: Seq<bool>)
    ensures
        first_dlc_folder(candidates, dlc_exists) matches Some(p) ==> exists|i: int|
            0 <= i < candidates.len() && i < dlc_exists.len() && #[trigger] dlc_exists[i] && p
                == candidates[i].push("DLC"@) && forall|j: int| 0 <= j < i ==> !dlc_exists[j],
        first_dlc_folder(candidates, dlc_exists) is None ==> forall|i: int|
            0 <= i < candidates.len() && i < dlc_exists.len() ==> !#[trigger] dlc_exists[i],
    decreases candidates.len(),
{
    if candidates.len() > 0 && dlc_exists.len() > 0 && !dlc_exists[0] {
        let c = candidates.drop_first();
        let e = dlc_exists.drop_first();
        lemma_first_dlc_folder(c, e);
        if let Some(p) = first_dlc_folder(candidates, dlc_exists) {
            let i = choose|i: int|
                0 <= i < c.len() && i < e.len() && #[trigger] e[i] && p == c[i].push("DLC"@)
                    && forall|j: int| 0 <= j < i ==> !e[j];
            assert(dlc_exists[i + 1]);
            assert forall|j: int| 0 <= j < i + 1 implies !dlc_exists[j] by {
                if j > 0 {
                    assert(dlc_exists[j] == e[j - 1]);
                }
            }
        } else {
            assert forall|i: int| 0 <= i < candidates.len() && i < dlc_exists.len() implies !#[trigger] dlc_exists[i] by {
                if i > 0 {
                    assert(dlc_exists[i] == e[i - 1]);
                }
            }
        }
    } else if candidates.len() > 0 && dlc_exists.len() > 0 {
        assert(dlc_exists[0]);
    }
}

/// The folder accepted as the DLC folder is named `DLC`, and accepting it
/// again gives it back unchanged.
pub proof fn lemma_normalized_is_dlc(selected: Seq<Seq<char>>, nested_is_dir: bool, again: bool)
    ensures
        normalized_dlc_folder(selected, nested_is_dir) matches Some(p) ==> p.len() > 0
            && eq_ignore_case(p.last(), "DLC"@) && normalized_dlc_folder(p, again) == Some(p),
{
}

/// Cutting `s`, a separator, then `t` gives the pieces of `s` followed by
/// those of `t`.
pub proof fn lemma_split_on_joined(s: Seq<char>, t: Seq<char>, sep: char)
    ensures
        split_on(s + seq![sep] + t, sep) == split_on(s, sep) + split_on(t, sep),
    decreases t.len(),
{
    let whole = s + seq![sep] + t;
    if t.len() == 0 {
        assert(whole.drop_last() =~= s);
        assert(whole.last() == sep);
        assert(split_on(t, sep) =~= seq![Seq::<char>::empty()]);
        assert(split_on(whole, sep) =~= split_on(s, sep) + split_on(t, sep));
    } else {
        lemma_split_on_joined(s, t.drop_last(), sep);
        crate::text::lemma_split_on_nonempty(s, sep);
        crate::text::lemma_split_on_nonempty(t.drop_last(), sep);
        assert(whole.drop_last() =~= s + seq![sep] + t.drop_last());
        assert(whole.last() == t.last());
        let x = split_on(s, sep);
        let y = split_on(t.drop_last(), sep);
        assert(split_on(whole.drop_last(), sep) == x + y);
        if t.last() == sep {
            assert(split_on(whole, sep) =~= x + y.push(Seq::empty()));
        } else {
            assert((x + y).last() == y.last());
            assert(split_on(whole, sep) =~= x + y.update(y.len() - 1, y.last().push(t.last())));
        }
    }
}

/// The library paths of two runs of lines are those of each run in turn.
pub proof fn lemma_library_paths_append(x: Seq<Seq<char>>, y: Seq<Seq<char>>)
    ensures
        library_paths_of_lines(x + y) == library_paths_of_lines(x) + library_paths_of_lines(y),
    decreases y.len(),
{
    if y.len() == 0 {
        assert(x + y =~= x);
        assert(library_paths_of_lines(x) + library_paths_of_lines(y) =~= library_paths_of_lines(x));
    } else {
        lemma_library_paths_append(x, y.drop_last());
        assert((x + y).drop_last() =~= x + y.drop_last());
        assert((x + y).last() == y.last());
        assert(library_paths_of_lines(x + y) =~= library_paths_of_lines(x) + library_paths_of_lines(y));
    }
}

/// Steam's library file is read line by line, in order: the paths listed in
/// two texts joined by a line break are those of the first text followed by
/// those of the second.
pub proof fn lemma_library_paths_of_joined_text(a: Seq<char>, b: Seq<char>)
    ensures
        steam_library_paths(a + "\n"@ + b) == steam_library_paths(a) + steam_library_paths(b),
{
    reveal_strlit("\n");
    assert("\n"@ =~= seq!['\n']);
    lemma_split_on_joined(a, b, '\n');
    lemma_library_paths_append(split_on(a, '\n'), split_on(b, '\n'));
}

/// On every system whose Steam folders are searched, each Steam root and
/// each library listed in `libraryfolders.vdf` gives a candidate game folder
/// (`<library>/steamapps/common/<game>`), and these come before the other
/// candidates. On a system with no Steam folder to search, only the other
/// candidates are tried.
pub proof fn lemma_every_library_is_searched(
    os: Seq<char>,
    home: Option<Seq<Seq<char>>>,
    listed: Seq<Seq<Seq<char>>>,
)
    ensures
        ({
            let roots = steam_roots_for(os, home);
            let cands = candidate_folders(os, home, listed);
            &&& roots.len() > 0 ==> forall|l: Seq<Seq<char>>|
                #![trigger listed.contains(l)]
                #![trigger roots.contains(l)]
                (listed.contains(l) || roots.contains(l)) ==> cands.contains(game_folder_in(l))
            &&& roots.len() > 0 ==> forall|i: int|
                0 <= i < roots.len() ==> cands[i] == game_folder_in(#[trigger] roots[i])
            &&& roots.len() == 0 ==> cands == other_game_folders(os)
            &&& forall|j: int|
                0 <= j < other_game_folders(os).len() ==> cands[cands.len() - other_game_folders(
                    os,
                ).len() + j] == #[trigger] other_game_folders(os)[j]
        }),
{
    let roots = steam_roots_for(os, home);
    let cands = candidate_folders(os, home, listed);
    let others = other_game_folders(os);
    if roots.len() > 0 {
        lemma_add_unique(roots, listed);
        let libs = add_unique(roots, listed);
        let steam = libs.map_values(|l: Seq<Seq<char>>| game_folder_in(l));
        assert(cands == steam + others);
        assert forall|l: Seq<Seq<char>>|
            #![trigger listed.contains(l)]
            #![trigger roots.contains(l)]
            (listed.contains(l) || roots.contains(l)) implies cands.contains(game_folder_in(l)) by {
            if roots.contains(l) {
                let k = choose|k: int| 0 <= k < roots.len() && roots[k] == l;
                assert(libs.subrange(0, roots.len() as int)[k] == roots[k]);
                assert(libs[k] == l);
            }
            assert(libs.contains(l));
            let k = choose|k: int| 0 <= k < libs.len() && libs[k] == l;
            assert(steam[k] == game_folder_in(l));
            assert(cands[k] == steam[k]);
        }
        assert forall|i: int| 0 <= i < roots.len() implies cands[i] == game_folder_in(
            #[trigger] roots[i],
        ) by {
            assert(libs.subrange(0, roots.len() as int)[i] == roots[i]);
            assert(cands[i] == steam[i]);
        }
        assert forall|j: int| 0 <= j < others.len() implies cands[cands.len() - others.len() + j]
            == #[trigger] others[j] by {
            assert(cands[steam.len() + j] == others[j]);
        }
    } else {
        assert(cands =~= others);
    }
}

} // verus!
