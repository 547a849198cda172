//! Installing a mod from an archive: which extractor an archive needs, where
//! it is unpacked first, the name its art falls back on, and what the
//! installation reports.

use vstd::prelude::*;
use crate::art::ArtDlcInstallInfo;
use crate::mods::ModXml;
use crate::text::{ascii_lower_char, is_ascii_text, owned};

verus! {

/// What an archive installation reports.
#[derive(Debug)]
pub struct ExtractModArchiveResult {
    /// The art installation, when it succeeded.
    pub art_dlc: Option<ArtDlcInstallInfo>,
    /// Why art files that were present were not installed.
    pub art_dlc_error: Option<String>,
}

impl Default for ExtractModArchiveResult {
    fn default() -> (r: ExtractModArchiveResult)
        ensures
            r.art_dlc is None,
            r.art_dlc_error is None,
    {
        ExtractModArchiveResult { art_dlc: None, art_dlc_error: None }
    }
}

/// What extracting an archive into the mods folder came to.
#[derive(Debug)]
pub struct ExtractArchiveInfo {
    pub modinfo_path: String,
    pub modinfo_dir: String,
    pub art_dlc: Option<ArtDlcInstallInfo>,
    pub art_dlc_error: Option<String>,
}

/// The archive formats that can be extracted.
#[derive(Clone, Copy, Debug, PartialEq, Eq, Structural)]
pub enum ArchiveFormat {
    Zip,
    SevenZip,
    Rar,
    TarGz,
}

/// What `str::to_lowercase` gives for `s`.
pub uninterp spec fn lowercase(s: Seq<char>) -> Seq<char>;

/// `str::to_lowercase`: `s` in lower case (Unicode's `Lowercase` mapping);
/// on ASCII text that maps `A`..`Z` to `a`..`z` and keeps every other character.
#[verifier::external_body]
pub(crate) fn to_lowercase(s: &str) -> (r: String)
    ensures
        r@ == lowercase(s@),
        is_ascii_text(s@) ==> r@ == s@.map_values(|c: char| ascii_lower_char(c)),
{
    s.to_lowercase()
}

/// The format a lower-cased extension stands for, or the error for one that
/// is not supported.
pub open spec fn format_of_lowercase(e: Seq<char>) -> Result<ArchiveFormat, Seq<char>> {
    if e == "zip"@ {
        Ok(ArchiveFormat::Zip)
    } else if e == "7z"@ {
        Ok(ArchiveFormat::SevenZip)
    } else if e == "rar"@ {
        Ok(ArchiveFormat::Rar)
    } else if e == "tgz"@ || e == "gz"@ {
        Ok(ArchiveFormat::TarGz)
    } else {
        Err("Unsupported file format: "@ + e)
    }
}

/// Picks the extractor for an extension that is already in lower case.
pub fn format_for_lowercase_extension(ext: &str) -> (r: Result<ArchiveFormat, String>)
    ensures
        match (r, format_of_lowercase(ext@)) {
            (Ok(f), Ok(g)) => f == g,
            (Err(e), Err(m)) => e@ == m,
            _ => false,
        },
{
    if crate::folder_name::eq_str(ext, "zip") {
        Ok(ArchiveFormat::Zip)
    } else if crate::folder_name::eq_str(ext, "7z") {
        Ok(ArchiveFormat::SevenZip)
    } else if crate::folder_name::eq_str(ext, "rar") {
        Ok(ArchiveFormat::Rar)
    } else if crate::folder_name::eq_str(ext, "tgz") || crate::folder_name::eq_str(ext, "gz") {
        Ok(ArchiveFormat::TarGz)
    } else {
        let mut msg = owned("Unsupported file format: ");
        msg.append(ext);
        Err(msg)
    }
}

/// Picks the extractor for an archive by its extension (the empty text when
/// the archive's name has none), compared in lower case. A `.tar.gz` counts
/// by its last extension.
pub fn archive_format(extension: &str) -> (r: Result<ArchiveFormat, String>)
    ensures
        match (r, format_of_lowercase(lowercase(extension@))) {
            (Ok(f), Ok(g)) => f == g,
            (Err(e), Err(m)) => e@ == m,
            _ => false,
        },
        is_ascii_text(extension@) ==> match (
            r,
            format_of_lowercase(extension@.map_values(|c: char| ascii_lower_char(c))),
        ) {
            (Ok(f), Ok(g)) => f == g,
            (Err(e), Err(m)) => e@ == m,
            _ => false,
        },
{
    let ext = to_lowercase(extension);
    format_for_lowercase_extension(ext.as_str())
}

/// `prefix` followed by `detail`.
pub fn with_prefix(prefix: &str, detail: &str) -> (r: String)
    ensures
        r@ == prefix@ + detail@,
{
    let mut msg = owned(prefix);
    msg.append(detail);
    msg
}

/// The message for an archive that could not be extracted.
pub fn extraction_error(detail: &str) -> (r: String)
    ensures
        r@ == "Failed to extract archive: "@ + detail@,
{
    with_prefix("Failed to extract archive: ", detail)
}

/// Where an archive is unpacked before its mod folder is copied to
/// `extract_to`: the same path with `__temp` added.
pub fn temp_target(extract_to: &str) -> (r: String)
    ensures
        r@ == extract_to@ + "__temp"@,
{
    with_prefix(extract_to, "__temp")
}

/// The name art is installed under when the modinfo names no `UpdateArt`:
/// the mod's `<Name>`, else its `id`, else the name of the folder it is
/// extracted to (`extract_to_name`), else nothing.
pub open spec fn fallback_art_name(xml: Option<ModXml>, extract_to_name: Option<Seq<char>>) -> Seq<char> {
    match xml {
        Some(x) => match x.properties.name {
            Some(n) => n@,
            None => match x.id {
                Some(i) => i@,
                None => match extract_to_name {
                    Some(f) => f,
                    None => Seq::empty(),
                },
            },
        },
        None => match extract_to_name {
            Some(f) => f,
            None => Seq::empty(),
        },
    }
}

pub fn art_fallback_name(modinfo_xml: &Option<ModXml>, extract_to_name: &Option<String>) -> (r: String)
    ensures
        r@ == fallback_art_name(
            *modinfo_xml,
            match extract_to_name {
                Some(f) => Some(f@),
                None => None,
            },
        ),
{
    match modinfo_xml {
        Some(x) => match &x.properties.name {
            Some(n) => return n.clone(),
            None => match &x.id {
                Some(i) => return i.clone(),
                None => {},
            },
        },
        None => {},
    }
    match extract_to_name {
        Some(f) => f.clone(),
        None => String::new(),
    }
}

/// Files the outcome of an art installation: the report when it installed
/// something, the error when it failed, neither when there was no art.
pub fn record_art_install(outcome: Result<Option<ArtDlcInstallInfo>, String>) -> (r: (
    Option<ArtDlcInstallInfo>,
    Option<String>,
))
    ensures
        match outcome {
            Ok(Some(info)) => r.0 == Some(info) && r.1 is None,
            Ok(None) => r.0 is None && r.1 is None,
            Err(e) => r.0 is None && r.1 == Some(e),
        },
{
    match outcome {
        Ok(Some(info)) => (Some(info), None),
        Ok(None) => (None, None),
        Err(e) => (None, Some(e)),
    }
}

/// What the installation of an archive reports from what extracting it came to.
pub fn extract_mod_archive_result(info: ExtractArchiveInfo) -> (r: ExtractModArchiveResult)
    ensures
        r.art_dlc == info.art_dlc,
        r.art_dlc_error == info.art_dlc_error,
{
    ExtractModArchiveResult { art_dlc: info.art_dlc, art_dlc_error: info.art_dlc_error }
}

} // verus!
