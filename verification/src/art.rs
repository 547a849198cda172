//! Installing a mod's art into the game's DLC folder.
//!
//! The game never scans the Mods locations for `.blp` art, so art is
//! installed into the DLC folder of the game: a `.dep` file and a
//! `Platforms` folder, under the name the modinfo's `<UpdateArt><Item>`
//! uses (or, failing that, the mod's name). A marker file tells folders this
//! library installed from the game's own DLC, which is never touched.

use vstd::prelude::*;
use crate::dlc_folder::{GamePath, path_views, copy_paths};
use crate::folder_name::{validate_folder_name, folder_name_problem, invalid_name_message, problem_reason};
use crate::text::{
    eq_ignore_ascii_case, eq_ignore_case, extension_of, file_extension, owned, trim, trim_str,
};

verus! {

/// A file that marks a DLC folder as installed by this library.
pub const ART_DLC_MARKER_FILE: &'static str = ".civmods-art-dlc";

/// What an art installation did.
#[derive(Debug)]
pub struct ArtDlcInstallInfo {
    pub folder_name: String,
    /// Absolute path of the installed folder.
    pub installed_path: String,
    /// Number of `.dep` files copied.
    pub dep_files: usize,
    /// Number of `Platforms` folders copied.
    pub platforms_dirs: usize,
}

/// One entry of a directory walk, as `walkdir` yields it (in its order).
#[derive(Debug)]
pub struct WalkEntry {
    pub path: GamePath,
    /// How far below the walk's root the entry is (the root is at 0).
    pub depth: usize,
    pub is_dir: bool,
    pub is_file: bool,
}

pub struct WalkEntryView {
    pub path: Seq<Seq<char>>,
    pub depth: nat,
    pub is_dir: bool,
    pub is_file: bool,
}

impl View for WalkEntry {
    type V = WalkEntryView;

    open spec fn view(&self) -> WalkEntryView {
        WalkEntryView {
            path: self.path@,
            depth: self.depth as nat,
            is_dir: self.is_dir,
            is_file: self.is_file,
        }
    }
}

pub open spec fn entry_views(v: Seq<WalkEntry>) -> Seq<WalkEntryView> {
    Seq::new(v.len(), |i: int| v[i]@)
}

/// The last component of a path (its file name).
pub open spec fn last_name(path: Seq<Seq<char>>) -> Seq<char> {
    if path.len() > 0 {
        path.last()
    } else {
        Seq::empty()
    }
}

/// Names the art search skips: hidden ones and macOS resource folders.
pub open spec fn is_hidden_name(name: Seq<char>) -> bool {
    (name.len() > 0 && name[0] == '.') || eq_ignore_case(name, "__MACOSX"@)
}

pub fn is_hidden(name: &str) -> (r: bool)
    ensures
        r == is_hidden_name(name@),
{
    (name.unicode_len() > 0 && name.get_char(0) == '.') || eq_ignore_ascii_case(name, "__MACOSX")
}

/// Whether the walk reaches the entry: no component below the walk's root
/// (the last `depth` ones) is hidden.
pub open spec fn is_visible(e: WalkEntryView) -> bool {
    forall|k: int|
        e.path.len() - e.depth <= k < e.path.len() && 0 <= k ==> !is_hidden_name(#[trigger] e.path[k])
}

/// `dir` is `path` or a folder above it (`Path::starts_with`).
pub open spec fn is_within(dir: Seq<Seq<char>>, path: Seq<Seq<char>>) -> bool {
    dir.len() <= path.len() && path.subrange(0, dir.len() as int) == dir
}

/// A `.dep` file name (extension in any ASCII case).
pub open spec fn is_dep_name(name: Seq<char>) -> bool {
    match file_extension(name) {
        Some(x) => eq_ignore_case(x, "dep"@),
        None => false,
    }
}

/// The art files next to a `.modinfo`: `Platforms` folders (whose content
/// goes along with them) and `.dep` files.
#[derive(Debug)]
pub struct ArtPayload {
    pub platforms_dirs: Vec<GamePath>,
    pub dep_files: Vec<GamePath>,
}

pub struct ArtPayloadView {
    pub platforms_dirs: Seq<Seq<Seq<char>>>,
    pub dep_files: Seq<Seq<Seq<char>>>,
}

impl View for ArtPayload {
    type V = ArtPayloadView;

    open spec fn view(&self) -> ArtPayloadView {
        ArtPayloadView {
            platforms_dirs: path_views(self.platforms_dirs@),
            dep_files: path_views(self.dep_files@),
        }
    }
}

impl ArtPayload {
    pub fn is_empty(&self) -> (r: bool)
        ensures
            r == (self@.platforms_dirs.len() == 0 && self@.dep_files.len() == 0),
    {
        self.platforms_dirs.len() == 0 && self.dep_files.len() == 0
    }

    pub fn copy(&self) -> (r: ArtPayload)
        ensures
            r@ == self@,
    {
        ArtPayload {
            platforms_dirs: copy_paths(&self.platforms_dirs),
            dep_files: copy_paths(&self.dep_files),
        }
    }
}

/// What one more walk entry adds to the payload found so far.
pub open spec fn payload_step(acc: ArtPayloadView, e: WalkEntryView) -> ArtPayloadView {
    if !is_visible(e) {
        acc
    } else if exists|i: int|
        0 <= i < acc.platforms_dirs.len() && is_within(#[trigger] acc.platforms_dirs[i], e.path) {
        acc
    } else if e.is_dir {
        if eq_ignore_case(last_name(e.path), "Platforms"@) {
            ArtPayloadView { platforms_dirs: acc.platforms_dirs.push(e.path), dep_files: acc.dep_files }
        } else {
            acc
        }
    } else if e.is_file && is_dep_name(last_name(e.path)) {
        ArtPayloadView { platforms_dirs: acc.platforms_dirs, dep_files: acc.dep_files.push(e.path) }
    } else {
        acc
    }
}

/// The payload a walk finds: each `Platforms` folder that is not inside one
/// found before, and each `.dep` file that is not inside one, in walk order;
/// hidden entries and everything below them are passed over.
pub open spec fn art_payload_of(entries: Seq<WalkEntryView>) -> ArtPayloadView
    decreases entries.len(),
{
    if entries.len() == 0 {
        ArtPayloadView { platforms_dirs: Seq::empty(), dep_files: Seq::empty() }
    } else {
        payload_step(art_payload_of(entries.drop_last()), entries.last())
    }
}

fn within(dir: &GamePath, path: &GamePath) -> (r: bool)
    ensures
        r == is_within(dir@, path@),
{
    let n = dir.parts.len();
    if n > path.parts.len() {
        return false;
    }
    let mut i: usize = 0;
    while i < n
        invariant
            n == dir@.len(),
            n <= path@.len(),
            i <= n,
            forall|k: int| 0 <= k < i ==> dir@[k] == path@[k],
        decreases n - i,
    {
        if dir.parts[i] != path.parts[i] {
            assert(path@.subrange(0, n as int)[i as int] != dir@[i as int]);
            return false;
        }
        i = i + 1;
    }
    assert(path@.subrange(0, n as int) =~= dir@);
    true
}

fn entry_is_visible(e: &WalkEntry) -> (r: bool)
    ensures
        r == is_visible(e@),
{
    let n = e.path.parts.len();
    let start: usize = if e.depth <= n {
        n - e.depth
    } else {
        0
    };
    let mut k: usize = start;
    while k < n
        invariant
            n == e@.path.len(),
            start == (if e.depth <= n { n - e.depth } else { 0 }),
            start <= k <= n,
            forall|j: int| start <= j < k ==> !is_hidden_name(#[trigger] e@.path[j]),
        decreases n - k,
    {
        if is_hidden(e.path.parts[k].as_str()) {
            assert(is_hidden_name(e@.path[k as int]));
            return false;
        }
        k = k + 1;
    }
    true
}

fn inside_any(dirs: &Vec<GamePath>, path: &GamePath) -> (r: bool)
    ensures
        r == exists|i: int|
            0 <= i < path_views(dirs@).len() && is_within(#[trigger] path_views(dirs@)[i], path@),
{
    let n = dirs.len();
    let mut i: usize = 0;
    while i < n
        invariant
            n == dirs@.len(),
            i <= n,
            forall|k: int| 0 <= k < i ==> !is_within(#[trigger] path_views(dirs@)[k], path@),
        decreases n - i,
    {
        if within(&dirs[i], path) {
            assert(is_within(path_views(dirs@)[i as int], path@));
            return true;
        }
        i = i + 1;
    }
    false
}

fn name_of(path: &GamePath) -> (r: &str)
    ensures
        r@ == last_name(path@),
{
    let n = path.parts.len();
    if n > 0 {
        path.parts[n - 1].as_str()
    } else {
        proof {
            reveal_strlit("");
        }
        ""
    }
}

fn dep_name(name: &str) -> (r: bool)
    ensures
        r == is_dep_name(name@),
{
    match extension_of(name) {
        Some(x) => eq_ignore_ascii_case(x, "dep"),
        None => false,
    }
}

/// Finds the art payload among the entries of a directory walk.
pub fn find_art_payload(entries: &Vec<WalkEntry>) -> (r: ArtPayload)
    ensures
        r@ == art_payload_of(entry_views(entries@)),
{
    let mut platforms_dirs: Vec<GamePath> = Vec::new();
    let mut dep_files: Vec<GamePath> = Vec::new();
    let n = entries.len();
    let mut i: usize = 0;
    assert(entry_views(entries@).subrange(0, 0) =~= Seq::<WalkEntryView>::empty());
    assert(path_views(platforms_dirs@) =~= Seq::<Seq<Seq<char>>>::empty());
    assert(path_views(dep_files@) =~= Seq::<Seq<Seq<char>>>::empty());
    while i < n
        invariant
            n == entries@.len(),
            i <= n,
            (ArtPayloadView {
                platforms_dirs: path_views(platforms_dirs@),
                dep_files: path_views(dep_files@),
            }) == art_payload_of(entry_views(entries@).subrange(0, i as int)),
        decreases n - i,
    {
        let ghost pre = entry_views(entries@).subrange(0, i + 1);
        assert(pre.drop_last() =~= entry_views(entries@).subrange(0, i as int));
        let e = &entries[i];
        assert(pre.last() == e@);
        let ghost pd = path_views(platforms_dirs@);
        let ghost df = path_views(dep_files@);
        if !entry_is_visible(e) {
        } else if inside_any(&platforms_dirs, &e.path) {
        } else if e.is_dir {
            if eq_ignore_ascii_case(name_of(&e.path), "Platforms") {
                platforms_dirs.push(e.path.copy());
                assert(path_views(platforms_dirs@) =~= pd.push(e@.path));
            }
        } else if e.is_file && dep_name(name_of(&e.path)) {
            dep_files.push(e.path.copy());
            assert(path_views(dep_files@) =~= df.push(e@.path));
        }
        i = i + 1;
    }
    assert(entry_views(entries@).subrange(0, n as int) =~= entry_views(entries@));
    ArtPayload { platforms_dirs, dep_files }
}

// ---------------------------------------------------------------------------
// Deciding the installation

/// The message when the DLC folder is not there.
pub open spec fn missing_dlc_folder_message(dlc_folder: Seq<char>) -> Seq<char> {
    "The game's DLC folder '"@ + dlc_folder + "' does not exist. Set it in the Settings."@
}

/// The folder name the art is installed under: the `UpdateArt` name if the
/// modinfo has one, else the fallback name trimmed; either must be a usable
/// folder name.
pub open spec fn art_folder_name(update_art: Option<Seq<char>>, fallback: Seq<char>) -> Result<
    Seq<char>,
    Seq<char>,
> {
    let name = match update_art {
        Some(n) => n,
        None => trim(fallback),
    };
    match folder_name_problem(name) {
        None => Ok(name),
        Some(p) => Err(invalid_name_message(name, problem_reason(p))),
    }
}

/// What an installation request comes to: nothing to install (no payload
/// next to the modinfo nor at the archive root), an error, or a payload and
/// the folder name to install it under.
pub open spec fn art_install_plan(
    from_modinfo_dir: ArtPayloadView,
    from_archive_root: ArtPayloadView,
    dlc_folder_is_dir: bool,
    dlc_folder: Seq<char>,
    update_art: Option<Seq<char>>,
    fallback: Seq<char>,
) -> Result<Option<(ArtPayloadView, Seq<char>)>, Seq<char>> {
    let empty1 = from_modinfo_dir.platforms_dirs.len() == 0 && from_modinfo_dir.dep_files.len() == 0;
    let empty2 = from_archive_root.platforms_dirs.len() == 0 && from_archive_root.dep_files.len()
        == 0;
    if empty1 && empty2 {
        Ok(None)
    } else if !dlc_folder_is_dir {
        Err(missing_dlc_folder_message(dlc_folder))
    } else {
        let payload = if empty1 {
            from_archive_root
        } else {
            from_modinfo_dir
        };
        match art_folder_name(update_art, fallback) {
            Ok(name) => Ok(Some((payload, name))),
            Err(e) => Err(e),
        }
    }
}

/// Decides an art installation: which payload (the one next to the modinfo,
/// else the one at the archive root), whether there is anything to do, and
/// under which folder name.
pub fn plan_art_install(
    from_modinfo_dir: &ArtPayload,
    from_archive_root: &ArtPayload,
    dlc_folder_is_dir: bool,
    dlc_folder: &str,
    update_art_name: &Option<String>,
    fallback_name: &str,
) -> (r: Result<Option<(ArtPayload, String)>, String>)
    ensures
        match (
            r,
            art_install_plan(
                from_modinfo_dir@,
                from_archive_root@,
                dlc_folder_is_dir,
                dlc_folder@,
                match update_art_name {
                    Some(n) => Some(n@),
                    None => None,
                },
                fallback_name@,
            ),
        ) {
            (Ok(None), Ok(None)) => true,
            (Ok(Some((p, n))), Ok(Some((sp, sn)))) => p@ == sp && n@ == sn,
            (Err(e), Err(se)) => e@ == se,
            _ => false,
        },
{
    let use_root = from_modinfo_dir.is_empty();
    if use_root && from_archive_root.is_empty() {
        return Ok(None);
    }
    if !dlc_folder_is_dir {
        let mut msg = owned("The game's DLC folder '");
        msg.append(dlc_folder);
        msg.append("' does not exist. Set it in the Settings.");
        return Err(msg);
    }
    let payload = if use_root {
        from_archive_root.copy()
    } else {
        from_modinfo_dir.copy()
    };
    let checked = match update_art_name {
        Some(name) => validate_folder_name(name.as_str()),
        None => validate_folder_name(trim_str(fallback_name)),
    };
    match checked {
        Ok(name) => Ok(Some((payload, name))),
        Err(e) => Err(e),
    }
}

/// The message when the target folder exists but was not installed here.
pub open spec fn foreign_folder_message(folder_name: Seq<char>) -> Seq<char> {
    "When installing art, provided '"@ + folder_name
        + "' already exists in the DLC folder and was not installed by CivMods. Skipping art installation to avoid overwriting game files."@
}

/// Refuses a target folder that exists without the marker file: it belongs to
/// the game (or someone else), and is left alone.
pub fn check_art_target(folder_name: &str, target_exists: bool, marker_exists: bool) -> (r: Result<
    (),
    String,
>)
    ensures
        (target_exists && !marker_exists) ==> (r matches Err(e) && e@ == foreign_folder_message(
            folder_name@,
        )),
        !(target_exists && !marker_exists) ==> r is Ok,
{
    if target_exists && !marker_exists {
        let mut msg = owned("When installing art, provided '");
        msg.append(folder_name);
        msg.append(
            "' already exists in the DLC folder and was not installed by CivMods. Skipping art installation to avoid overwriting game files.",
        );
        return Err(msg);
    }
    Ok(())
}

/// One copy the installation makes.
#[derive(Debug)]
pub struct CopyJob {
    pub from: GamePath,
    pub to: GamePath,
    /// A whole folder, merged into `to`; otherwise a single file.
    pub tree: bool,
}

pub struct CopyJobView {
    pub from: Seq<Seq<char>>,
    pub to: Seq<Seq<char>>,
    pub tree: bool,
}

impl View for CopyJob {
    type V = CopyJobView;

    open spec fn view(&self) -> CopyJobView {
        CopyJobView { from: self.from@, to: self.to@, tree: self.tree }
    }
}

pub open spec fn job_views(v: Seq<CopyJob>) -> Seq<CopyJobView> {
    Seq::new(v.len(), |i: int| v[i]@)
}

/// The `.dep` copies: each file with a name goes to `target/<name>`.
pub open spec fn dep_jobs(target: Seq<Seq<char>>, files: Seq<Seq<Seq<char>>>) -> Seq<CopyJobView>
    decreases files.len(),
{
    if files.len() == 0 {
        Seq::empty()
    } else {
        let prev = dep_jobs(target, files.drop_last());
        let f = files.last();
        if f.len() > 0 {
            prev.push(CopyJobView { from: f, to: target.push(f.last()), tree: false })
        } else {
            prev
        }
    }
}

/// The copies that install `payload` into `target`, in order: every
/// `Platforms` folder merged into `target/Platforms`, then every `.dep` file
/// into `target`.
pub open spec fn art_copy_jobs(target: Seq<Seq<char>>, payload: ArtPayloadView) -> Seq<CopyJobView> {
    payload.platforms_dirs.map_values(
        |d: Seq<Seq<char>>| CopyJobView { from: d, to: target.push("Platforms"@), tree: true },
    ) + dep_jobs(target, payload.dep_files)
}

/// Lists the copies that install `payload` into `target`.
pub fn copy_jobs(target: &GamePath, payload: &ArtPayload) -> (r: Vec<CopyJob>)
    ensures
        job_views(r@) == art_copy_jobs(target@, payload@),
{
    let mut jobs: Vec<CopyJob> = Vec::new();
    let n = payload.platforms_dirs.len();
    let mut i: usize = 0;
    while i < n
        invariant
            n == payload@.platforms_dirs.len(),
            i <= n,
            jobs@.len() == i,
            forall|k: int|
                0 <= k < i ==> (#[trigger] jobs@[k])@ == (CopyJobView {
                    from: payload@.platforms_dirs[k],
                    to: target@.push("Platforms"@),
                    tree: true,
                }),
        decreases n - i,
    {
        jobs.push(CopyJob { from: payload.platforms_dirs[i].copy(), to: target.join("Platforms"), tree: true });
        i = i + 1;
    }
    assert(job_views(jobs@) =~= payload@.platforms_dirs.map_values(
        |d: Seq<Seq<char>>| CopyJobView { from: d, to: target@.push("Platforms"@), tree: true },
    ));
    let ghost dirs_part = job_views(jobs@);
    let m = payload.dep_files.len();
    let mut k: usize = 0;
    assert(dirs_part + dep_jobs(target@, payload@.dep_files.subrange(0, 0)) =~= dirs_part);
    while k < m
        invariant
            m == payload@.dep_files.len(),
            k <= m,
            job_views(jobs@) == dirs_part + dep_jobs(target@, payload@.dep_files.subrange(0, k as int)),
        decreases m - k,
    {
        let ghost pre = payload@.dep_files.subrange(0, k + 1);
        assert(pre.drop_last() =~= payload@.dep_files.subrange(0, k as int));
        let f = &payload.dep_files[k];
        assert(pre.last() == f@);
        let c = f.parts.len();
        let ghost before = job_views(jobs@);
        if c > 0 {
            let job = CopyJob { from: f.copy(), to: target.join(f.parts[c - 1].as_str()), tree: false };
            assert(job@ == (CopyJobView { from: f@, to: target@.push(f@.last()), tree: false }));
            jobs.push(job);
            assert(job_views(jobs@) =~= before.push(job@));
        }
        assert(job_views(jobs@) =~= dirs_part + dep_jobs(target@, pre));
        k = k + 1;
    }
    assert(payload@.dep_files.subrange(0, m as int) =~= payload@.dep_files);
    jobs
}

/// The message for a failed write to `path`.
pub open spec fn io_error_message(path: Seq<char>, permission_denied: bool, error: Seq<char>) -> Seq<
    char,
> {
    if permission_denied {
        "When installing art assets, permission was denied writing to '"@ + path
            + "'. Try rerunning as administrator."@
    } else {
        "Failed to write '"@ + path + "': "@ + error
    }
}

/// Describes a failed write to `path` (shown as it is displayed), for the
/// user: a refused permission gets advice, anything else its error text.
pub fn describe_io_error(path: &str, permission_denied: bool, error: &str) -> (r: String)
    ensures
        r@ == io_error_message(path@, permission_denied, error@),
{
    if permission_denied {
        let mut msg = owned("When installing art assets, permission was denied writing to '");
        msg.append(path);
        msg.append("'. Try rerunning as administrator.");
        msg
    } else {
        let mut msg = owned("Failed to write '");
        msg.append(path);
        msg.append("': ");
        msg.append(error);
        msg
    }
}

/// The report of an installation of `payload` under `folder_name`.
pub fn art_install_info(folder_name: String, installed_path: String, payload: &ArtPayload) -> (r:
    ArtDlcInstallInfo)
    ensures
        r.folder_name@ == folder_name@,
        r.installed_path@ == installed_path@,
        r.dep_files == payload@.dep_files.len(),
        r.platforms_dirs == payload@.platforms_dirs.len(),
{
    ArtDlcInstallInfo {
        folder_name,
        installed_path,
        dep_files: payload.dep_files.len(),
        platforms_dirs: payload.platforms_dirs.len(),
    }
}

// ---------------------------------------------------------------------------
// Properties

/// A payload holds only folders named `Platforms` and `.dep` files, and no
/// `Platforms` folder inside one found before it (so nothing is copied twice).
pub proof fn lemma_payload_shape(entries: Seq<WalkEntryView>)
    ensures
        forall|i: int|
            0 <= i < art_payload_of(entries).platforms_dirs.len() ==> eq_ignore_case(
                last_name(#[trigger] art_payload_of(entries).platforms_dirs[i]),
                "Platforms"@,
            ),
        forall|k: int|
            0 <= k < art_payload_of(entries).dep_files.len() ==> is_dep_name(
                last_name(#[trigger] art_payload_of(entries).dep_files[k]),
            ),
        forall|i: int, j: int|
            0 <= i < j < art_payload_of(entries).platforms_dirs.len() ==> !is_within(
                #[trigger] art_payload_of(entries).platforms_dirs[i],
                #[trigger] art_payload_of(entries).platforms_dirs[j],
            ),
    decreases entries.len(),
{
    if entries.len() > 0 {
        lemma_payload_shape(entries.drop_last());
        let prev = art_payload_of(entries.drop_last());
        let e = entries.last();
        let cur = art_payload_of(entries);
        assert(cur == payload_step(prev, e));
        let nested = exists|i: int|
            0 <= i < prev.platforms_dirs.len() && is_within(#[trigger] prev.platforms_dirs[i], e.path);
        if is_visible(e) && !nested && e.is_dir && eq_ignore_case(last_name(e.path), "Platforms"@) {
            assert(cur.platforms_dirs == prev.platforms_dirs.push(e.path));
            assert(cur.dep_files == prev.dep_files);
            assert forall|i: int, j: int|
                0 <= i < j < cur.platforms_dirs.len() implies !is_within(
                #[trigger] cur.platforms_dirs[i],
                #[trigger] cur.platforms_dirs[j],
            ) by {
                if j == prev.platforms_dirs.len() {
                    assert(cur.platforms_dirs[i] == prev.platforms_dirs[i]);
                } else {
                    assert(cur.platforms_dirs[i] == prev.platforms_dirs[i]);
                    assert(cur.platforms_dirs[j] == prev.platforms_dirs[j]);
                }
            }
        } else if is_visible(e) && !nested && !e.is_dir && e.is_file && is_dep_name(last_name(e.path)) {
            assert(cur.platforms_dirs == prev.platforms_dirs);
            assert(cur.dep_files == prev.dep_files.push(e.path));
        } else {
            assert(cur == prev);
        }
    }
}

/// An installation goes ahead only with a payload that is not empty and a
/// folder name that passes validation; there is nothing to do exactly when
/// neither place holds art; and an `UpdateArt` name that cannot name a folder
/// fails the installation, whatever the fallback name (the art is never
/// installed under a name the game would not look for).
pub proof fn lemma_planned_install_is_valid(
    from_modinfo_dir: ArtPayloadView,
    from_archive_root: ArtPayloadView,
    dlc_folder_is_dir: bool,
    dlc_folder: Seq<char>,
    update_art: Option<Seq<char>>,
    fallback: Seq<char>,
)
    ensures
        art_install_plan(
            from_modinfo_dir,
            from_archive_root,
            dlc_folder_is_dir,
            dlc_folder,
            update_art,
            fallback,
        ) matches Ok(Some((p, n))) ==> folder_name_problem(n) is None && !(p.platforms_dirs.len()
            == 0 && p.dep_files.len() == 0) && dlc_folder_is_dir,
        (art_install_plan(
            from_modinfo_dir,
            from_archive_root,
            dlc_folder_is_dir,
            dlc_folder,
            update_art,
            fallback,
        ) == Ok::<Option<(ArtPayloadView, Seq<char>)>, Seq<char>>(None)) <==> (
        from_modinfo_dir.platforms_dirs.len() == 0 && from_modinfo_dir.dep_files.len() == 0
            && from_archive_root.platforms_dirs.len() == 0 && from_archive_root.dep_files.len() == 0),
        update_art matches Some(n) && folder_name_problem(n) is Some && !(
        from_modinfo_dir.platforms_dirs.len() == 0 && from_modinfo_dir.dep_files.len() == 0
            && from_archive_root.platforms_dirs.len() == 0 && from_archive_root.dep_files.len() == 0)
            ==> art_install_plan(
            from_modinfo_dir,
            from_archive_root,
            dlc_folder_is_dir,
            dlc_folder,
            update_art,
            fallback,
        ) is Err,
{
}

/// Every copy lands directly inside the target folder.
pub proof fn lemma_copies_stay_in_target(target: Seq<Seq<char>>, payload: ArtPayloadView)
    ensures
        forall|j: int|
            0 <= j < art_copy_jobs(target, payload).len() ==> {
                let to = (#[trigger] art_copy_jobs(target, payload)[j]).to;
                to.len() == target.len() + 1 && is_within(target, to)
            },
{
    let dirs = payload.platforms_dirs.map_values(
        |d: Seq<Seq<char>>| CopyJobView { from: d, to: target.push("Platforms"@), tree: true },
    );
    lemma_dep_jobs_in_target(target, payload.dep_files);
    let jobs = art_copy_jobs(target, payload);
    assert forall|j: int| 0 <= j < jobs.len() implies {
        let to = (#[trigger] jobs[j]).to;
        to.len() == target.len() + 1 && is_within(target, to)
    } by {
        if j < dirs.len() {
            assert(jobs[j] == dirs[j]);
            assert(target.push("Platforms"@).subrange(0, target.len() as int) =~= target);
        } else {
            assert(jobs[j] == dep_jobs(target, payload.dep_files)[j - dirs.len()]);
        }
    }
}

proof fn lemma_dep_jobs_in_target(target: Seq<Seq<char>>, files: Seq<Seq<Seq<char>>>)
    ensures
        forall|j: int|
            0 <= j < dep_jobs(target, files).len() ==> {
                let to = (#[trigger] dep_jobs(target, files)[j]).to;
                to.len() == target.len() + 1 && is_within(target, to)
            },
    decreases files.len(),
{
    if files.len() > 0 {
        lemma_dep_jobs_in_target(target, files.drop_last());
        let prev = dep_jobs(target, files.drop_last());
        let f = files.last();
        if f.len() > 0 {
            assert(target.push(f.last()).subrange(0, target.len() as int) =~= target);
            let cur = dep_jobs(target, files);
            assert(cur == prev.push(CopyJobView { from: f, to: target.push(f.last()), tree: false }));
            assert forall|j: int| 0 <= j < cur.len() implies {
                let to = (#[trigger] cur[j]).to;
                to.len() == target.len() + 1 && is_within(target, to)
            } by {
                if j < prev.len() {
                    assert(cur[j] == prev[j]);
                }
            }
        }
    }
}

/// What an installation request comes to once the planned target folder is
/// looked at: a target that exists without the marker file refuses it.
pub open spec fn art_install_outcome(
    plan: Result<Option<(ArtPayloadView, Seq<char>)>, Seq<char>>,
    target_exists: bool,
    marker_exists: bool,
) -> Result<Option<(ArtPayloadView, Seq<char>)>, Seq<char>> {
    match plan {
        Ok(Some((p, n))) => if target_exists && !marker_exists {
            Err(foreign_folder_message(n))
        } else {
            Ok(Some((p, n)))
        },
        other => other,
    }
}

/// Installing twice is allowed: an installation that goes ahead leaves its
/// target folder with the marker file, and the same request made again over
/// that folder goes ahead with the same payload and folder name (so it reports
/// the same name and counts).
pub proof fn lemma_reinstall_over_own_folder(
    from_modinfo_dir: ArtPayloadView,
    from_archive_root: ArtPayloadView,
    dlc_folder_is_dir: bool,
    dlc_folder: Seq<char>,
    update_art: Option<Seq<char>>,
    fallback: Seq<char>,
    target_exists: bool,
    marker_exists: bool,
)
    ensures
        ({
            let plan = art_install_plan(
                from_modinfo_dir,
                from_archive_root,
                dlc_folder_is_dir,
                dlc_folder,
                update_art,
                fallback,
            );
            art_install_outcome(plan, target_exists, marker_exists) matches Ok(Some(x))
                ==> art_install_outcome(plan, true, true) == Ok::<
                Option<(ArtPayloadView, Seq<char>)>,
                Seq<char>,
            >(Some(x))
        }),
{
}

/// Every `.dep` copy reads the `.dep` file it is made for, and every copy
/// reads a folder or file of the payload:
/// - the copy for the `i`-th `Platforms` folder reads that folder and merges
///   it into `target/Platforms`;
/// - when every `.dep` path has a name (as every walked file does), there is
///   one copy per `.dep` file, after the folders and in the same order, and the
///   copy for `dep_files[k]` reads `dep_files[k]` and writes
///   `target/<its name>`;
/// - whatever the paths, each copy's source is one of the payload's folders or files.
pub proof fn lemma_copy_jobs_sources(target: Seq<Seq<char>>, payload: ArtPayloadView)
    ensures
        ({
            let jobs = art_copy_jobs(target, payload);
            let dirs = payload.platforms_dirs;
            let deps = payload.dep_files;
            &&& jobs.len() >= dirs.len()
            &&& forall|i: int|
                0 <= i < dirs.len() ==> #[trigger] jobs[i] == (CopyJobView {
                    from: dirs[i],
                    to: target.push("Platforms"@),
                    tree: true,
                })
            &&& (forall|k: int| 0 <= k < deps.len() ==> (#[trigger] deps[k]).len() > 0) ==> {
                &&& jobs.len() == dirs.len() + deps.len()
                &&& forall|k: int|
                    0 <= k < deps.len() ==> jobs[dirs.len() + k] == (CopyJobView {
                        from: #[trigger] deps[k],
                        to: target.push(deps[k].last()),
                        tree: false,
                    })
            }
            &&& forall|j: int|
                0 <= j < jobs.len() ==> dirs.contains(#[trigger] jobs[j].from) || deps.contains(
                    jobs[j].from,
                )
        }),
{
    let jobs = art_copy_jobs(target, payload);
    let dirs = payload.platforms_dirs;
    let deps = payload.dep_files;
    let dir_jobs = dirs.map_values(
        |d: Seq<Seq<char>>| CopyJobView { from: d, to: target.push("Platforms"@), tree: true },
    );
    lemma_dep_jobs_sources(target, deps);
    let dj = dep_jobs(target, deps);
    assert(jobs == dir_jobs + dj);
    assert forall|i: int| 0 <= i < dirs.len() implies #[trigger] jobs[i] == (CopyJobView {
        from: dirs[i],
        to: target.push("Platforms"@),
        tree: true,
    }) by {
        assert(jobs[i] == dir_jobs[i]);
    }
    if forall|k: int| 0 <= k < deps.len() ==> (#[trigger] deps[k]).len() > 0 {
        assert forall|k: int| 0 <= k < deps.len() implies jobs[dirs.len() + k] == (CopyJobView {
            from: #[trigger] deps[k],
            to: target.push(deps[k].last()),
            tree: false,
        }) by {
            assert(jobs[dirs.len() + k] == dj[k]);
        }
    }
    assert forall|j: int| 0 <= j < jobs.len() implies dirs.contains(#[trigger] jobs[j].from)
        || deps.contains(jobs[j].from) by {
        if j < dirs.len() {
            assert(jobs[j] == dir_jobs[j]);
            assert(dirs[j] == jobs[j].from);
        } else {
            assert(jobs[j] == dj[j - dirs.len()]);
        }
    }
}

proof fn lemma_dep_jobs_sources(target: Seq<Seq<char>>, files: Seq<Seq<Seq<char>>>)
    ensures
        forall|j: int|
            0 <= j < dep_jobs(target, files).len() ==> files.contains(
                #[trigger] dep_jobs(target, files)[j].from,
            ),
        (forall|k: int| 0 <= k < files.len() ==> (#[trigger] files[k]).len() > 0) ==> {
            &&& dep_jobs(target, files).len() == files.len()
            &&& forall|k: int|
                0 <= k < files.len() ==> dep_jobs(target, files)[k] == (CopyJobView {
                    from: #[trigger] files[k],
                    to: target.push(files[k].last()),
                    tree: false,
                })
        },
    decreases files.len(),
{
    if files.len() > 0 {
        let rest = files.drop_last();
        lemma_dep_jobs_sources(target, rest);
        let prev = dep_jobs(target, rest);
        let f = files.last();
        let cur = dep_jobs(target, files);
        assert forall|j: int| 0 <= j < cur.len() implies files.contains(#[trigger] cur[j].from) by {
            if j < prev.len() {
                assert(cur[j] == prev[j]);
                let k = choose|k: int| 0 <= k < rest.len() && rest[k] == prev[j].from;
                assert(files[k] == rest[k]);
            } else {
                assert(cur[j].from == f);
                assert(files[files.len() - 1] == f);
            }
        }
        if forall|k: int| 0 <= k < files.len() ==> (#[trigger] files[k]).len() > 0 {
            assert forall|k: int| 0 <= k < rest.len() implies (#[trigger] rest[k]).len() > 0 by {
                assert(rest[k] == files[k]);
            }
            assert(f.len() > 0) by {
                assert(files[files.len() - 1] == f);
            }
            assert forall|k: int| 0 <= k < files.len() implies cur[k] == (CopyJobView {
                from: #[trigger] files[k],
                to: target.push(files[k].last()),
                tree: false,
            }) by {
                if k < rest.len() {
                    assert(cur[k] == prev[k]);
                    assert(rest[k] == files[k]);
                }
            }
        }
    }
}

/// The payload installed is the one next to the modinfo whenever there is
/// one; the archive root's payload is used only when nothing is next to the
/// modinfo (so the art of another variant in the same archive is not
/// installed). The folder name is the `UpdateArt` name when the modinfo has
/// one, else the fallback name trimmed; with a payload next to the modinfo, a
/// DLC folder that exists and a usable name, the installation goes ahead.
pub proof fn lemma_plan_prefers_payload_next_to_modinfo(
    from_modinfo_dir: ArtPayloadView,
    from_archive_root: ArtPayloadView,
    dlc_folder_is_dir: bool,
    dlc_folder: Seq<char>,
    update_art: Option<Seq<char>>,
    fallback: Seq<char>,
)
    ensures
        ({
            let plan = art_install_plan(
                from_modinfo_dir,
                from_archive_root,
                dlc_folder_is_dir,
                dlc_folder,
                update_art,
                fallback,
            );
            let next_to_modinfo_empty = from_modinfo_dir.platforms_dirs.len() == 0
                && from_modinfo_dir.dep_files.len() == 0;
            &&& !next_to_modinfo_empty ==> (plan matches Ok(Some((p, _))) ==> p == from_modinfo_dir)
            &&& next_to_modinfo_empty ==> (plan matches Ok(Some((p, _))) ==> p == from_archive_root)
            &&& plan matches Ok(Some((_, n))) ==> n == match update_art {
                Some(u) => u,
                None => trim(fallback),
            }
            &&& (!next_to_modinfo_empty && dlc_folder_is_dir && folder_name_problem(
                match update_art {
                    Some(n) => n,
                    None => trim(fallback),
                },
            ) is None) ==> plan is Ok && plan->Ok_0 is Some
        }),
{
}

} // verus!
