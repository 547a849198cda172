//! The mods folder: what is known of each mod, which `.modinfo` file a mod
//! folder has, a fingerprint of a mod's files, and which mods are unlocked.

use vstd::prelude::*;
use vstd::utf8::{
    char_is_scalar, char_u32_cast, encode_scalar, encode_utf8, encode_utf8_decode_utf8, last_continuation_byte,
    leading_byte_width_1, leading_byte_width_2, leading_byte_width_3, leading_byte_width_4,
    second_last_continuation_byte, third_last_continuation_byte,
};
use sha2::Digest;
use crate::art::{WalkEntry, WalkEntryView, entry_views, last_name};
use crate::dlc_folder::GamePath;
use crate::text::{eq_ignore_ascii_case, eq_ignore_case, extension_of, file_extension, owned, push_char};

verus! {

/// What the mods list shows of one installed mod.
#[derive(Debug)]
pub struct ModInfo {
    pub mod_name: String,
    pub modinfo_path: String,
    /// The `id` of the `<Mod>` element.
    pub modinfo_id: Option<String>,
    pub folder_hash: String,
    pub folder_name: String,
    pub civmods_internal_version_id: Option<String>,
}

/// The parts of a `.modinfo` file that are read.
#[derive(Debug)]
pub struct ModXml {
    /// The `id` attribute of `<Mod>`.
    pub id: Option<String>,
    /// `<Properties>` (empty when missing).
    pub properties: Properties,
}

/// The `<Properties>` of a `.modinfo` file.
#[derive(Debug)]
pub struct Properties {
    /// `<CivModsInternalVersionId>`
    pub civ_mods_internal_version_id: Option<String>,
    /// `<Name>`
    pub name: Option<String>,
}

impl Default for Properties {
    fn default() -> (r: Properties)
        ensures
            r.civ_mods_internal_version_id is None,
            r.name is None,
    {
        Properties { civ_mods_internal_version_id: None, name: None }
    }
}

/// Names the mod scan passes over. Keep in line with the ignore list of the
/// web backend.
pub open spec fn is_hidden_entry_name(name: Seq<char>) -> bool {
    ||| (name.len() > 0 && name[0] == '.')
    ||| eq_ignore_case(name, "__MACOSX"@)
    ||| eq_ignore_case(name, "thumbs.db"@)
}

pub fn is_entry_hidden(name: &str) -> (r: bool)
    ensures
        r == is_hidden_entry_name(name@),
{
    (name.unicode_len() > 0 && name.get_char(0) == '.') || eq_ignore_ascii_case(name, "__MACOSX")
        || eq_ignore_ascii_case(name, "thumbs.db")
}

/// A `.modinfo` file name that is not hidden.
pub open spec fn is_modinfo_name(name: Seq<char>) -> bool {
    file_extension(name) == Some("modinfo"@) && !(name.len() > 0 && name[0] == '.')
}

pub fn is_modinfo_file_name(name: &str) -> (r: bool)
    ensures
        r == is_modinfo_name(name@),
{
    let ext_ok = match extension_of(name) {
        Some(x) => crate::folder_name::eq_str(x, "modinfo"),
        None => false,
    };
    ext_ok && !(name.unicode_len() > 0 && name.get_char(0) == '.')
}

/// The first entry of a walk, in walk order, that is a `.modinfo` file.
pub open spec fn first_modinfo(entries: Seq<WalkEntryView>) -> Option<Seq<Seq<char>>>
    decreases entries.len(),
{
    if entries.len() == 0 {
        None
    } else if entries[0].is_file && is_modinfo_name(last_name(entries[0].path)) {
        Some(entries[0].path)
    } else {
        first_modinfo(entries.drop_first())
    }
}

/// Finds the `.modinfo` file among the entries of a walk of a folder.
pub fn find_modinfo_file(entries: &Vec<WalkEntry>) -> (r: Option<GamePath>)
    ensures
        match r {
            Some(p) => first_modinfo(entry_views(entries@)) == Some(p@),
            None => first_modinfo(entry_views(entries@)) is None,
        },
{
    let n = entries.len();
    let mut i: usize = 0;
    assert(entry_views(entries@).skip(0) =~= entry_views(entries@));
    while i < n
        invariant
            n == entries@.len(),
            i <= n,
            first_modinfo(entry_views(entries@)) == first_modinfo(entry_views(entries@).skip(i as int)),
        decreases n - i,
    {
        let ghost rest = entry_views(entries@).skip(i as int);
        assert(rest[0] == entries@[i as int]@);
        let e = &entries[i];
        let k = e.path.parts.len();
        let name = if k > 0 {
            e.path.parts[k - 1].as_str()
        } else {
            proof {
                reveal_strlit("");
            }
            ""
        };
        if e.is_file && is_modinfo_file_name(name) {
            return Some(e.path.copy());
        }
        assert(rest.drop_first() =~= entry_views(entries@).skip(i + 1));
        i = i + 1;
    }
    None
}

// ---------------------------------------------------------------------------
// Folder fingerprint

/// A running SHA-256 computation (sha2's `Sha256`), which holds the bytes
/// fed to it. Its field is opaque: `Sha256` is an alias of digest's generic
/// wrappers, whose declarations carry where-clauses over digest's and
/// typenum's traits, so the hasher is held here instead of being declared.
#[verifier::external_body]
pub struct Sha256State {
    state: sha2::Sha256,
}

/// The bytes fed so far to a SHA-256 computation.
pub uninterp spec fn sha256_fed(state: Sha256State) -> Seq<u8>;

/// The SHA-256 digest of `data`.
pub uninterp spec fn sha256_digest(data: Seq<u8>) -> Seq<u8>;

/// sha2's `Sha256::new`: a computation that has been fed nothing.
#[verifier::external_body]
fn sha256_new() -> (r: Sha256State)
    ensures
        sha256_fed(r) == Seq::<u8>::empty(),
{
    Sha256State { state: sha2::Sha256::new() }
}

/// sha2's `Digest::update`: feeds `data` after what was fed before.
#[verifier::external_body]
fn sha256_update(s: &mut Sha256State, data: &[u8])
    ensures
        sha256_fed(*final(s)) == sha256_fed(*old(s)) + data@,
{
    s.state.update(data)
}

/// sha2's `Digest::finalize`: the 32-byte digest of all that was fed.
#[verifier::external_body]
fn sha256_finalize(s: Sha256State) -> (r: Vec<u8>)
    ensures
        r@ == sha256_digest(sha256_fed(s)),
        r@.len() == 32,
{
    s.state.finalize().to_vec()
}

pub const HEX_LOWER: [char; 16] = [
    '0', '1', '2', '3', '4', '5', '6', '7', '8', '9', 'a', 'b', 'c', 'd', 'e', 'f',
];

/// Bytes as lowercase hexadecimal, two digits each, as `{:x}` prints a digest.
pub open spec fn hex_lower(data: Seq<u8>) -> Seq<char>
    decreases data.len(),
{
    if data.len() == 0 {
        Seq::empty()
    } else {
        hex_lower(data.drop_last()) + seq![
            HEX_LOWER@[(data.last() / 16) as int],
            HEX_LOWER@[(data.last() % 16) as int],
        ]
    }
}

pub fn to_hex_lower(data: &[u8]) -> (r: String)
    ensures
        r@ == hex_lower(data@),
{
    let mut out = String::new();
    let n = data.len();
    let mut i: usize = 0;
    while i < n
        invariant
            n == data@.len(),
            i <= n,
            out@ == hex_lower(data@.subrange(0, i as int)),
        decreases n - i,
    {
        let b = data[i];
        let ghost pre = data@.subrange(0, i + 1);
        assert(pre.drop_last() =~= data@.subrange(0, i as int));
        push_char(&mut out, HEX_LOWER[(b / 16) as usize]);
        push_char(&mut out, HEX_LOWER[(b % 16) as usize]);
        assert(out@ =~= hex_lower(pre));
        i = i + 1;
    }
    assert(data@.subrange(0, n as int) =~= data@);
    out
}

/// What the fingerprint takes in for one file: its path relative to the mod
/// folder (UTF-8), a zero byte, then the file's content.
pub open spec fn file_record(relative_path: Seq<char>, content: Seq<u8>) -> Seq<u8> {
    encode_utf8(relative_path) + seq![0u8] + content
}

/// What the fingerprint takes in for the given files (relative path and
/// content), one after another.
pub open spec fn fingerprint_input(files: Seq<(Seq<char>, Seq<u8>)>) -> Seq<u8>
    decreases files.len(),
{
    if files.len() == 0 {
        Seq::empty()
    } else {
        fingerprint_input(files.drop_last()) + file_record(files.last().0, files.last().1)
    }
}

/// Fingerprints a mod folder: the SHA-256 of each file's relative path and
/// content, in the order the files are added, as lowercase hexadecimal.
pub struct FolderHasher {
    state: Sha256State,
}

impl View for FolderHasher {
    type V = Seq<u8>;

    closed spec fn view(&self) -> Seq<u8> {
        sha256_fed(self.state)
    }
}

impl FolderHasher {
    pub fn new() -> (r: FolderHasher)
        ensures
            r@ == Seq::<u8>::empty(),
    {
        FolderHasher { state: sha256_new() }
    }

    /// Adds the next file: its path relative to the mod folder, and its content.
    pub fn add_file(&mut self, relative_path: &str, content: &[u8])
        ensures
            final(self)@ == old(self)@ + file_record(relative_path@, content@),
    {
        let mut separator: Vec<u8> = Vec::new();
        separator.push(0u8);
        sha256_update(&mut self.state, relative_path.as_bytes());
        sha256_update(&mut self.state, separator.as_slice());
        sha256_update(&mut self.state, content);
        assert(sha256_fed(self.state) =~= sha256_fed(old(self).state) + file_record(
            relative_path@,
            content@,
        ));
    }

    /// The fingerprint of all the files added.
    pub fn finish(self) -> (r: String)
        ensures
            r@ == hex_lower(sha256_digest(self@)),
            r@.len() == 64,
    {
        let digest = sha256_finalize(self.state);
        proof {
            lemma_hex_lower_len(digest@);
        }
        to_hex_lower(digest.as_slice())
    }
}

pub proof fn lemma_hex_lower_len(data: Seq<u8>)
    ensures
        hex_lower(data).len() == 2 * data.len(),
    decreases data.len(),
{
    if data.len() > 0 {
        lemma_hex_lower_len(data.drop_last());
    }
}

/// The key by which the fingerprint's walk orders the entries of a folder:
/// the entry's name in lower case, so that the order does not depend on case.
pub fn walk_order_key(name: &str) -> (r: String)
    ensures
        r@ == crate::archive::lowercase(name@),
        crate::text::is_ascii_text(name@) ==> r@ == name@.map_values(
            |c: char| crate::text::ascii_lower_char(c),
        ),
{
    crate::archive::to_lowercase(name)
}

/// Whether the fingerprint's walk reaches the entry: neither it nor any folder
/// above it, up to and including the walk's root, has a name the scan passes over.
pub open spec fn reached_by_hash_walk(e: WalkEntryView) -> bool {
    forall|k: int|
        e.path.len() - e.depth - 1 <= k < e.path.len() && 0 <= k ==> !is_hidden_entry_name(
            #[trigger] e.path[k],
        )
}

/// Whether an entry of the walk is one of the files the fingerprint covers.
pub open spec fn is_hashed(e: WalkEntryView) -> bool {
    e.is_file && reached_by_hash_walk(e)
}

/// `parts` joined by `/`.
pub open spec fn join_slash(parts: Seq<Seq<char>>) -> Seq<char>
    decreases parts.len(),
{
    if parts.len() == 0 {
        Seq::empty()
    } else if parts.len() == 1 {
        parts[0]
    } else {
        join_slash(parts.drop_last()) + "/"@ + parts.last()
    }
}

/// Where the components of an entry below the walk's root begin.
pub open spec fn below_root_start(e: WalkEntryView) -> int {
    if e.depth <= e.path.len() {
        e.path.len() - e.depth
    } else {
        0
    }
}

/// The path of an entry relative to the walk's root, its components joined by `/`.
pub open spec fn relative_path_of(e: WalkEntryView) -> Seq<char> {
    join_slash(e.path.subrange(below_root_start(e), e.path.len() as int))
}

/// The files the fingerprint of a folder covers, in walk order: each one's
/// path, and its path relative to the folder.
pub open spec fn hashed_files(entries: Seq<WalkEntryView>) -> Seq<(Seq<Seq<char>>, Seq<char>)>
    decreases entries.len(),
{
    if entries.len() == 0 {
        Seq::empty()
    } else {
        let prev = hashed_files(entries.drop_last());
        let e = entries.last();
        if is_hashed(e) {
            prev.push((e.path, relative_path_of(e)))
        } else {
            prev
        }
    }
}

fn entry_is_hashed(e: &WalkEntry) -> (r: bool)
    ensures
        r == is_hashed(e@),
{
    if !e.is_file {
        return false;
    }
    let n = e.path.parts.len();
    let start: usize = if e.depth < n {
        n - e.depth - 1
    } else {
        0
    };
    let mut k: usize = start;
    while k < n
        invariant
            n == e@.path.len(),
            start == (if e.depth < n { n - e.depth - 1 } else { 0 }),
            start <= k <= n,
            forall|j: int| start <= j < k ==> !is_hidden_entry_name(#[trigger] e@.path[j]),
        decreases n - k,
    {
        if is_entry_hidden(e.path.parts[k].as_str()) {
            assert(is_hidden_entry_name(e@.path[k as int]));
            return false;
        }
        k = k + 1;
    }
    true
}

/// The path of a walk entry relative to the walk's root.
pub fn relative_path(e: &WalkEntry) -> (r: String)
    ensures
        r@ == relative_path_of(e@),
{
    let n = e.path.parts.len();
    let start: usize = if e.depth <= n {
        n - e.depth
    } else {
        0
    };
    let mut out = String::new();
    let mut k: usize = start;
    proof {
        reveal_strlit("/");
        assert(e@.path.subrange(start as int, start as int) =~= Seq::<Seq<char>>::empty());
    }
    while k < n
        invariant
            n == e@.path.len(),
            start == below_root_start(e@),
            start <= k <= n,
            out@ == join_slash(e@.path.subrange(start as int, k as int)),
        decreases n - k,
    {
        let ghost parts = e@.path.subrange(start as int, k + 1);
        assert(parts.drop_last() =~= e@.path.subrange(start as int, k as int));
        assert(parts.last() == e@.path[k as int]);
        if k > start {
            out.append("/");
        } else {
            assert(parts.len() == 1);
        }
        out.append(e.path.parts[k].as_str());
        assert(out@ =~= join_slash(parts));
        k = k + 1;
    }
    out
}

/// A file the fingerprint covers: where it is, and its path relative to the
/// mod folder.
#[derive(Debug)]
pub struct HashedFile {
    pub path: GamePath,
    pub relative_path: String,
}

pub open spec fn hashed_file_views(v: Seq<HashedFile>) -> Seq<(Seq<Seq<char>>, Seq<char>)> {
    Seq::new(v.len(), |i: int| (v[i].path@, v[i].relative_path@))
}

/// Picks, among the entries of a walk of a mod folder, the files its
/// fingerprint covers (files not hidden and not inside a hidden folder), each
/// with its path relative to the folder.
pub fn files_to_hash(entries: &Vec<WalkEntry>) -> (r: Vec<HashedFile>)
    ensures
        hashed_file_views(r@) == hashed_files(entry_views(entries@)),
{
    let mut out: Vec<HashedFile> = Vec::new();
    let n = entries.len();
    let mut i: usize = 0;
    assert(entry_views(entries@).subrange(0, 0) =~= Seq::<WalkEntryView>::empty());
    assert(hashed_file_views(out@) =~= Seq::<(Seq<Seq<char>>, Seq<char>)>::empty());
    while i < n
        invariant
            n == entries@.len(),
            i <= n,
            hashed_file_views(out@) == hashed_files(entry_views(entries@).subrange(0, i as int)),
        decreases n - i,
    {
        let ghost pre = entry_views(entries@).subrange(0, i + 1);
        assert(pre.drop_last() =~= entry_views(entries@).subrange(0, i as int));
        let e = &entries[i];
        assert(pre.last() == e@);
        let ghost before = hashed_file_views(out@);
        if entry_is_hashed(e) {
            let f = HashedFile { path: e.path.copy(), relative_path: relative_path(e) };
            out.push(f);
            assert(hashed_file_views(out@) =~= before.push((e@.path, relative_path_of(e@))));
        }
        i = i + 1;
    }
    assert(entry_views(entries@).subrange(0, n as int) =~= entry_views(entries@));
    out
}

/// A file of a mod folder: its path relative to the folder, and its content.
#[derive(Debug)]
pub struct FileContent {
    pub relative_path: String,
    pub content: Vec<u8>,
}

pub open spec fn file_content_views(files: Seq<FileContent>) -> Seq<(Seq<char>, Seq<u8>)> {
    Seq::new(files.len(), |i: int| (files[i].relative_path@, files[i].content@))
}

/// The fingerprint of a mod folder whose files (in walk order, hidden ones
/// left out) have these relative paths and contents: the SHA-256 of each
/// file's relative path and content, as lowercase hexadecimal.
pub fn compute_folder_hash(files: &Vec<FileContent>) -> (r: String)
    ensures
        r@ == hex_lower(sha256_digest(fingerprint_input(file_content_views(files@)))),
{
    let mut hasher = FolderHasher::new();
    let n = files.len();
    let mut i: usize = 0;
    assert(file_content_views(files@).subrange(0, 0) =~= Seq::<(Seq<char>, Seq<u8>)>::empty());
    while i < n
        invariant
            n == files@.len(),
            i <= n,
            hasher@ == fingerprint_input(file_content_views(files@).subrange(0, i as int)),
        decreases n - i,
    {
        let ghost pre = file_content_views(files@).subrange(0, i + 1);
        assert(pre.drop_last() =~= file_content_views(files@).subrange(0, i as int));
        assert(pre.last() == (files@[i as int].relative_path@, files@[i as int].content@));
        hasher.add_file(files[i].relative_path.as_str(), files[i].content.as_slice());
        i = i + 1;
    }
    assert(file_content_views(files@).subrange(0, n as int) =~= file_content_views(files@));
    hasher.finish()
}

// ---------------------------------------------------------------------------
// Scanning the mods folder

/// The mods folder to scan, or why it cannot be scanned.
pub fn check_mods_folder(mods_folder_path: &Option<String>, is_existing_dir: bool) -> (r: Result<
    String,
    String,
>)
    ensures
        match *mods_folder_path {
            None => r matches Err(e) && e@ == "Mods folder path is missing. Set it in the Settings"@,
            Some(p) => if is_existing_dir {
                r matches Ok(f) && f@ == p@
            } else {
                r matches Err(e) && e@ == "Invalid Mods folder path"@
            },
        },
{
    match mods_folder_path {
        None => Err(owned("Mods folder path is missing. Set it in the Settings")),
        Some(p) => {
            if !is_existing_dir {
                Err(owned("Invalid Mods folder path"))
            } else {
                Ok(p.clone())
            }
        },
    }
}

fn copy_opt(s: &Option<String>) -> (r: Option<String>)
    ensures
        match (r, *s) {
            (Some(a), Some(b)) => a@ == b@,
            (None, None) => true,
            _ => false,
        },
{
    match s {
        Some(v) => Some(v.clone()),
        None => None,
    }
}

/// What the mods list shows of a mod folder that has a `.modinfo` file.
/// `mod_name` is the folder's name when it is valid Unicode; `folder_hash`
/// is the fingerprint when the files could be read.
pub fn mod_info(
    mod_name: Option<String>,
    modinfo_path: String,
    modinfo_xml: &Option<ModXml>,
    folder_hash: Option<String>,
    folder_name: String,
) -> (r: ModInfo)
    ensures
        r.mod_name@ == (match mod_name {
            Some(n) => n@,
            None => "Unknown Mod"@,
        }),
        r.modinfo_path@ == modinfo_path@,
        match (r.modinfo_id, *modinfo_xml) {
            (Some(a), Some(x)) => x.id matches Some(b) && a@ == b@,
            (None, Some(x)) => x.id is None,
            (None, None) => true,
            _ => false,
        },
        r.folder_hash@ == (match folder_hash {
            Some(h) => h@,
            None => "<unable to compute folder hash>"@,
        }),
        r.folder_name@ == folder_name@,
        match (r.civmods_internal_version_id, *modinfo_xml) {
            (Some(a), Some(x)) => x.properties.civ_mods_internal_version_id matches Some(b) && a@ == b@,
            (None, Some(x)) => x.properties.civ_mods_internal_version_id is None,
            (None, None) => true,
            _ => false,
        },
{
    let mod_name = match mod_name {
        Some(n) => n,
        None => owned("Unknown Mod"),
    };
    let folder_hash = match folder_hash {
        Some(h) => h,
        None => owned("<unable to compute folder hash>"),
    };
    let (modinfo_id, civmods_internal_version_id) = match modinfo_xml {
        Some(x) => (copy_opt(&x.id), copy_opt(&x.properties.civ_mods_internal_version_id)),
        None => (None, None),
    };
    ModInfo { mod_name, modinfo_path, modinfo_id, folder_hash, folder_name, civmods_internal_version_id }
}

/// The mods list from what each mod folder gave, in order: the mod of each
/// folder that has a `.modinfo` file; a folder without one (`None`) is passed over.
pub open spec fn listed_mods(found: Seq<Option<ModInfo>>) -> Seq<ModInfo>
    decreases found.len(),
{
    if found.len() == 0 {
        Seq::empty()
    } else {
        let rest = listed_mods(found.drop_first());
        match found[0] {
            Some(m) => seq![m] + rest,
            None => rest,
        }
    }
}

/// Builds the mods list from what each mod folder gave, in order, passing
/// over the folders without a `.modinfo` file.
pub fn mods_list(found: Vec<Option<ModInfo>>) -> (r: Vec<ModInfo>)
    ensures
        r@ == listed_mods(found@),
{
    let ghost all = found@;
    let mut found = found;
    let mut out: Vec<ModInfo> = Vec::new();
    while found.len() > 0
        invariant
            out@ + listed_mods(found@) == listed_mods(all),
        decreases found.len(),
    {
        let ghost before = found@;
        let next = found.remove(0);
        assert(found@ =~= before.drop_first());
        match next {
            Some(m) => {
                let ghost done = out@;
                out.push(m);
                assert(out@ + listed_mods(found@) =~= done + listed_mods(before));
            },
            None => {},
        }
    }
    assert(out@ + Seq::<ModInfo>::empty() =~= out@);
    out
}

/// The folder names of the mods that are unlocked: those whose `.modinfo` id
/// is not among the excluded ids (a mod without an id is always unlocked), in order.
pub open spec fn unlocked_folders(mods: Seq<ModInfo>, excluded: Seq<Seq<char>>) -> Seq<Seq<char>>
    decreases mods.len(),
{
    if mods.len() == 0 {
        Seq::empty()
    } else {
        let prev = unlocked_folders(mods.drop_last(), excluded);
        let m = mods.last();
        let locked = match m.modinfo_id {
            Some(id) => excluded.contains(id@),
            None => false,
        };
        if locked {
            prev
        } else {
            prev.push(m.folder_name@)
        }
    }
}

fn contains_string(v: &Vec<String>, s: &String) -> (r: bool)
    ensures
        r == crate::text::string_views(v@).contains(s@),
{
    let n = v.len();
    let mut i: usize = 0;
    while i < n
        invariant
            n == v@.len(),
            i <= n,
            forall|k: int| 0 <= k < i ==> crate::text::string_views(v@)[k] != s@,
        decreases n - i,
    {
        if v[i] == *s {
            assert(crate::text::string_views(v@)[i as int] == s@);
            return true;
        }
        i = i + 1;
    }
    false
}

/// The folder names of the scanned mods that are not excluded by id.
pub fn get_unlocked_mod_folders(all_mods: &Vec<ModInfo>, excluded_modinfo_ids: &Vec<String>) -> (r:
    Vec<String>)
    ensures
        crate::text::string_views(r@) == unlocked_folders(
            all_mods@,
            crate::text::string_views(excluded_modinfo_ids@),
        ),
{
    let mut out: Vec<String> = Vec::new();
    let n = all_mods.len();
    let mut i: usize = 0;
    let ghost ex = crate::text::string_views(excluded_modinfo_ids@);
    assert(all_mods@.subrange(0, 0) =~= Seq::<ModInfo>::empty());
    assert(crate::text::string_views(out@) =~= Seq::<Seq<char>>::empty());
    while i < n
        invariant
            n == all_mods@.len(),
            i <= n,
            ex == crate::text::string_views(excluded_modinfo_ids@),
            crate::text::string_views(out@) == unlocked_folders(all_mods@.subrange(0, i as int), ex),
        decreases n - i,
    {
        let ghost pre = all_mods@.subrange(0, i + 1);
        assert(pre.drop_last() =~= all_mods@.subrange(0, i as int));
        let m = &all_mods[i];
        assert(pre.last() == *m);
        let locked = match &m.modinfo_id {
            Some(id) => contains_string(excluded_modinfo_ids, id),
            None => false,
        };
        let ghost before = crate::text::string_views(out@);
        if !locked {
            out.push(m.folder_name.clone());
            assert(crate::text::string_views(out@) =~= before.push(m.folder_name@));
        }
        i = i + 1;
    }
    assert(all_mods@.subrange(0, n as int) =~= all_mods@);
    out
}

// ---------------------------------------------------------------------------
// Properties

/// Picking the hashed files of two runs of a walk, one after the other, picks
/// those of each run in turn.
pub proof fn lemma_hashed_files_append(a: Seq<WalkEntryView>, b: Seq<WalkEntryView>)
    ensures
        hashed_files(a + b) == hashed_files(a) + hashed_files(b),
    decreases b.len(),
{
    if b.len() == 0 {
        assert(a + b =~= a);
        assert(hashed_files(a) + hashed_files(b) =~= hashed_files(a));
    } else {
        lemma_hashed_files_append(a, b.drop_last());
        assert((a + b).drop_last() =~= a + b.drop_last());
        assert((a + b).last() == b.last());
        if is_hashed(b.last()) {
            assert(hashed_files(a + b) =~= hashed_files(a) + hashed_files(b));
        } else {
            assert(hashed_files(a + b) =~= hashed_files(a) + hashed_files(b));
        }
    }
}

/// A hidden file, anything inside a hidden folder, and every folder leave the
/// fingerprint's input unchanged: adding such an entry anywhere in the walk
/// hashes the same files.
pub proof fn lemma_skipped_entry_not_hashed(
    before: Seq<WalkEntryView>,
    e: WalkEntryView,
    after: Seq<WalkEntryView>,
)
    requires
        !is_hashed(e),
    ensures
        hashed_files(before + seq![e] + after) == hashed_files(before + after),
{
    lemma_hashed_files_append(before + seq![e], after);
    lemma_hashed_files_append(before, seq![e]);
    lemma_hashed_files_append(before, after);
    let one = seq![e];
    assert(one.drop_last() =~= Seq::<WalkEntryView>::empty());
    assert(one.last() == e);
    assert(hashed_files(one.drop_last()) =~= Seq::<(Seq<Seq<char>>, Seq<char>)>::empty());
    assert(hashed_files(one) =~= Seq::<(Seq<Seq<char>>, Seq<char>)>::empty());
    assert(hashed_files(before) + hashed_files(one) =~= hashed_files(before));
}

/// With no id excluded every mod is unlocked; with any, no more mods are
/// unlocked than there are.
pub proof fn lemma_unlocked_folders(mods: Seq<ModInfo>, excluded: Seq<Seq<char>>)
    ensures
        unlocked_folders(mods, excluded).len() <= mods.len(),
        excluded.len() == 0 ==> unlocked_folders(mods, excluded) == mods.map_values(
            |m: ModInfo| m.folder_name@,
        ),
    decreases mods.len(),
{
    if mods.len() > 0 {
        lemma_unlocked_folders(mods.drop_last(), excluded);
        if excluded.len() == 0 {
            assert(mods.drop_last().map_values(|m: ModInfo| m.folder_name@).push(mods.last().folder_name@)
                =~= mods.map_values(|m: ModInfo| m.folder_name@));
        }
    } else {
        assert(mods.map_values(|m: ModInfo| m.folder_name@) =~= Seq::<Seq<char>>::empty());
    }
}

/// The UTF-8 bytes of one character other than NUL are none of them zero.
proof fn lemma_scalar_bytes_nonzero(v: u32)
    requires
        v != 0,
        v <= 0x10FFFF,
    ensures
        forall|i: int| 0 <= i < encode_scalar(v).len() ==> #[trigger] encode_scalar(v)[i] != 0u8,
{
    assert(v <= 0x7F && v != 0 ==> leading_byte_width_1(v) != 0u8) by (bit_vector);
    assert(leading_byte_width_2(v) != 0u8) by (bit_vector);
    assert(leading_byte_width_3(v) != 0u8) by (bit_vector);
    assert(leading_byte_width_4(v) != 0u8) by (bit_vector);
    assert(last_continuation_byte(v) != 0u8) by (bit_vector);
    assert(second_last_continuation_byte(v) != 0u8) by (bit_vector);
    assert(third_last_continuation_byte(v) != 0u8) by (bit_vector);
}

/// Text without NUL encodes to UTF-8 without a zero byte.
proof fn lemma_utf8_without_zero(t: Seq<char>)
    requires
        forall|i: int| 0 <= i < t.len() ==> t[i] != '\0',
    ensures
        forall|i: int| 0 <= i < encode_utf8(t).len() ==> #[trigger] encode_utf8(t)[i] != 0u8,
    decreases t.len(),
{
    if t.len() > 0 {
        let rest = t.drop_first();
        assert forall|i: int| 0 <= i < rest.len() implies rest[i] != '\0' by {
            assert(rest[i] == t[i + 1]);
        }
        lemma_utf8_without_zero(rest);
        assert(t[0] != '\0');
        char_is_scalar(t[0]);
        char_u32_cast(t[0], t[0] as u32);
        char_u32_cast('\0', '\0' as u32);
        assert('\0' as u32 == 0);
        assert(t[0] as u32 != 0);
        lemma_scalar_bytes_nonzero(t[0] as u32);
        let head = encode_scalar(t[0] as u32);
        assert(encode_utf8(t) == head + encode_utf8(rest));
        assert forall|i: int| 0 <= i < encode_utf8(t).len() implies #[trigger] encode_utf8(t)[i]
            != 0u8 by {
            if i < head.len() {
                assert(encode_utf8(t)[i] == head[i]);
            } else {
                assert(encode_utf8(t)[i] == encode_utf8(rest)[i - head.len()]);
            }
        }
    }
}

/// No NUL character in the text (file names never hold one).
pub open spec fn has_no_nul(t: Seq<char>) -> bool {
    forall|i: int| 0 <= i < t.len() ==> t[i] != '\0'
}

/// The fingerprint input of two runs of files is that of the first run
/// followed by that of the second.
pub proof fn lemma_fingerprint_input_append(
    a: Seq<(Seq<char>, Seq<u8>)>,
    b: Seq<(Seq<char>, Seq<u8>)>,
)
    ensures
        fingerprint_input(a + b) == fingerprint_input(a) + fingerprint_input(b),
    decreases b.len(),
{
    if b.len() == 0 {
        assert(a + b =~= a);
        assert(fingerprint_input(a) + fingerprint_input(b) =~= fingerprint_input(a));
    } else {
        lemma_fingerprint_input_append(a, b.drop_last());
        assert((a + b).drop_last() =~= a + b.drop_last());
        assert((a + b).last() == b.last());
        assert(fingerprint_input(a + b) =~= fingerprint_input(a) + fingerprint_input(b));
    }
}

/// Two inputs that start with records of the same content, whatever follows,
/// are equal only when the records' paths are equal and what follows is too.
proof fn lemma_record_prefix(p: Seq<char>, q: Seq<char>, c: Seq<u8>, x: Seq<u8>, y: Seq<u8>)
    requires
        has_no_nul(p),
        has_no_nul(q),
        file_record(p, c) + x == file_record(q, c) + y,
    ensures
        p == q,
        x == y,
{
    let e1 = encode_utf8(p);
    let e2 = encode_utf8(q);
    let l = file_record(p, c) + x;
    let r = file_record(q, c) + y;
    lemma_utf8_without_zero(p);
    lemma_utf8_without_zero(q);
    assert(l[e1.len() as int] == 0u8);
    assert(r[e2.len() as int] == 0u8);
    if e1.len() < e2.len() {
        assert(r[e1.len() as int] == e2[e1.len() as int]);
    } else if e2.len() < e1.len() {
        assert(l[e2.len() as int] == e1[e2.len() as int]);
    }
    assert(e1 =~= l.subrange(0, e1.len() as int));
    assert(e2 =~= r.subrange(0, e2.len() as int));
    encode_utf8_decode_utf8(p);
    encode_utf8_decode_utf8(q);
    let k = file_record(p, c).len();
    assert(x =~= l.subrange(k as int, l.len() as int));
    assert(y =~= r.subrange(k as int, r.len() as int));
}

/// The fingerprint input tells apart folders that differ only in names: for
/// two lists of files of the same length whose contents are equal one by one
/// (and whose paths hold no NUL), the inputs are equal only when every
/// relative path is equal. So if some file's name or relative path differs,
/// SHA-256 is fed different bytes.
pub proof fn lemma_fingerprint_input_tells_paths_apart(
    f1: Seq<(Seq<char>, Seq<u8>)>,
    f2: Seq<(Seq<char>, Seq<u8>)>,
)
    requires
        f1.len() == f2.len(),
        forall|i: int| 0 <= i < f1.len() ==> #[trigger] f1[i].1 == f2[i].1,
        forall|i: int| 0 <= i < f1.len() ==> has_no_nul(#[trigger] f1[i].0),
        forall|i: int| 0 <= i < f2.len() ==> has_no_nul(#[trigger] f2[i].0),
    ensures
        fingerprint_input(f1) == fingerprint_input(f2) ==> forall|i: int|
            0 <= i < f1.len() ==> #[trigger] f1[i].0 == f2[i].0,
        (exists|i: int| 0 <= i < f1.len() && #[trigger] f1[i].0 != f2[i].0) ==> fingerprint_input(
            f1,
        ) != fingerprint_input(f2),
    decreases f1.len(),
{
    if f1.len() > 0 && fingerprint_input(f1) == fingerprint_input(f2) {
        let (h1, t1) = (seq![f1[0]], f1.drop_first());
        let (h2, t2) = (seq![f2[0]], f2.drop_first());
        assert(f1 =~= h1 + t1);
        assert(f2 =~= h2 + t2);
        lemma_fingerprint_input_append(h1, t1);
        lemma_fingerprint_input_append(h2, t2);
        assert(h1.drop_last() =~= Seq::<(Seq<char>, Seq<u8>)>::empty());
        assert(h2.drop_last() =~= Seq::<(Seq<char>, Seq<u8>)>::empty());
        assert(fingerprint_input(h1.drop_last()) =~= Seq::<u8>::empty());
        assert(fingerprint_input(h2.drop_last()) =~= Seq::<u8>::empty());
        assert(fingerprint_input(h1) =~= file_record(f1[0].0, f1[0].1));
        assert(fingerprint_input(h2) =~= file_record(f2[0].0, f2[0].1));
        assert(f1[0].1 == f2[0].1);
        assert(has_no_nul(f1[0].0));
        assert(has_no_nul(f2[0].0));
        lemma_record_prefix(f1[0].0, f2[0].0, f1[0].1, fingerprint_input(t1), fingerprint_input(t2));
        assert forall|i: int| 0 <= i < t1.len() implies #[trigger] t1[i].1 == t2[i].1 && has_no_nul(
            t1[i].0,
        ) && has_no_nul(t2[i].0) by {
            assert(t1[i] == f1[i + 1] && t2[i] == f2[i + 1]);
        }
        lemma_fingerprint_input_tells_paths_apart(t1, t2);
        assert forall|i: int| 0 <= i < f1.len() implies #[trigger] f1[i].0 == f2[i].0 by {
            if i > 0 {
                assert(t1[i - 1] == f1[i] && t2[i - 1] == f2[i]);
            }
        }
    }
}

/// A file's record tells its relative path and its content apart (paths
/// hold no NUL): two records are equal only for the same path and the same
/// content. So two folders of one file each, holding the same bytes under
/// different names, take in different input.
pub proof fn lemma_file_record_is_unambiguous(
    path1: Seq<char>,
    content1: Seq<u8>,
    path2: Seq<char>,
    content2: Seq<u8>,
)
    requires
        forall|i: int| 0 <= i < path1.len() ==> path1[i] != '\0',
        forall|i: int| 0 <= i < path2.len() ==> path2[i] != '\0',
    ensures
        file_record(path1, content1) == file_record(path2, content2) <==> (path1 == path2
            && content1 == content2),
        path1 != path2 ==> fingerprint_input(seq![(path1, content1)]) != fingerprint_input(
            seq![(path2, content2)],
        ),
{
    let e1 = encode_utf8(path1);
    let e2 = encode_utf8(path2);
    let r1 = file_record(path1, content1);
    let r2 = file_record(path2, content2);
    lemma_utf8_without_zero(path1);
    lemma_utf8_without_zero(path2);
    if r1 == r2 {
        assert(r1[e1.len() as int] == 0u8);
        assert(r2[e2.len() as int] == 0u8);
        if e1.len() < e2.len() {
            assert(r2[e1.len() as int] == e2[e1.len() as int]);
        } else if e2.len() < e1.len() {
            assert(r1[e2.len() as int] == e1[e2.len() as int]);
        }
        assert(e1.len() == e2.len());
        assert(e1 =~= r1.subrange(0, e1.len() as int));
        assert(e2 =~= r2.subrange(0, e2.len() as int));
        assert(content1 =~= r1.subrange(e1.len() as int + 1, r1.len() as int));
        assert(content2 =~= r2.subrange(e2.len() as int + 1, r2.len() as int));
        encode_utf8_decode_utf8(path1);
        encode_utf8_decode_utf8(path2);
    }
    let one1 = seq![(path1, content1)];
    let one2 = seq![(path2, content2)];
    assert(one1.drop_last() =~= Seq::<(Seq<char>, Seq<u8>)>::empty());
    assert(one2.drop_last() =~= Seq::<(Seq<char>, Seq<u8>)>::empty());
    assert(one1.last() == (path1, content1));
    assert(one2.last() == (path2, content2));
    assert(fingerprint_input(one1.drop_last()) =~= Seq::<u8>::empty());
    assert(fingerprint_input(one2.drop_last()) =~= Seq::<u8>::empty());
    assert(fingerprint_input(one1) =~= r1);
    assert(fingerprint_input(one2) =~= r2);
}

/// `x` is what is left of `y` after leaving out some of its items, the rest
/// kept in order.
pub open spec fn is_subsequence<A>(x: Seq<A>, y: Seq<A>) -> bool
    decreases y.len(),
{
    if y.len() == 0 {
        x.len() == 0
    } else {
        is_subsequence(x, y.drop_last()) || (x.len() > 0 && x.last() == y.last() && is_subsequence(
            x.drop_last(),
            y.drop_last(),
        ))
    }
}

/// Excluding more ids never unlocks another folder: with every id of `ex1`
/// also in `ex2`, the folders unlocked under `ex2` are some of those
/// unlocked under `ex1`, in the same order.
pub proof fn lemma_excluding_more_unlocks_fewer(
    mods: Seq<ModInfo>,
    ex1: Seq<Seq<char>>,
    ex2: Seq<Seq<char>>,
)
    requires
        forall|id: Seq<char>| ex1.contains(id) ==> ex2.contains(id),
    ensures
        is_subsequence(unlocked_folders(mods, ex2), unlocked_folders(mods, ex1)),
    decreases mods.len(),
{
    if mods.len() > 0 {
        let rest = mods.drop_last();
        lemma_excluding_more_unlocks_fewer(rest, ex1, ex2);
        let p1 = unlocked_folders(rest, ex1);
        let p2 = unlocked_folders(rest, ex2);
        let m = mods.last();
        let locked1 = match m.modinfo_id {
            Some(id) => ex1.contains(id@),
            None => false,
        };
        let locked2 = match m.modinfo_id {
            Some(id) => ex2.contains(id@),
            None => false,
        };
        if locked1 {
            assert(locked2);
        } else if locked2 {
            let u1 = p1.push(m.folder_name@);
            assert(u1.drop_last() =~= p1);
            assert(is_subsequence(p2, u1));
        } else {
            let u1 = p1.push(m.folder_name@);
            let u2 = p2.push(m.folder_name@);
            assert(u1.drop_last() =~= p1);
            assert(u2.drop_last() =~= p2);
            assert(is_subsequence(u2, u1));
        }
    }
}

/// The `.modinfo` file found is the first entry of the walk, in walk order,
/// that is a file whose extension is exactly `modinfo` and whose name does not
/// start with a dot; when none is found, the walk holds no such file.
pub proof fn lemma_found_modinfo_is_first(entries: Seq<WalkEntryView>)
    ensures
        ({
            let wanted = |e: WalkEntryView|
                e.is_file && file_extension(last_name(e.path)) == Some("modinfo"@) && !(last_name(
                    e.path,
                ).len() > 0 && last_name(e.path)[0] == '.');
            &&& first_modinfo(entries) matches Some(p) ==> exists|i: int|
                0 <= i < entries.len() && #[trigger] entries[i].path == p && wanted(entries[i])
                    && forall|j: int| 0 <= j < i ==> !wanted(#[trigger] entries[j])
            &&& first_modinfo(entries) is None ==> forall|i: int|
                0 <= i < entries.len() ==> !wanted(#[trigger] entries[i])
        }),
    decreases entries.len(),
{
    let wanted = |e: WalkEntryView|
        e.is_file && file_extension(last_name(e.path)) == Some("modinfo"@) && !(last_name(
            e.path,
        ).len() > 0 && last_name(e.path)[0] == '.');
    if entries.len() > 0 {
        let rest = entries.drop_first();
        lemma_found_modinfo_is_first(rest);
        if wanted(entries[0]) {
            assert(entries[0].path == entries[0].path);
        } else {
            if let Some(p) = first_modinfo(entries) {
                let i = choose|i: int|
                    0 <= i < rest.len() && #[trigger] rest[i].path == p && wanted(rest[i])
                        && forall|j: int| 0 <= j < i ==> !wanted(#[trigger] rest[j]);
                assert(entries[i + 1] == rest[i]);
                assert forall|j: int| 0 <= j < i + 1 implies !wanted(#[trigger] entries[j]) by {
                    if j > 0 {
                        assert(entries[j] == rest[j - 1]);
                    }
                }
            } else {
                assert forall|i: int| 0 <= i < entries.len() implies !wanted(#[trigger] entries[i]) by {
                    if i > 0 {
                        assert(entries[i] == rest[i - 1]);
                    }
                }
            }
        }
    }
}

} // verus!
