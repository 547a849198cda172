use civmods::archive::{
    archive_format, format_for_lowercase_extension, art_fallback_name, extract_mod_archive_result, extraction_error,
    record_art_install, temp_target, ArchiveFormat, ExtractArchiveInfo,
};
use civmods::art::ArtDlcInstallInfo;
use civmods::mods::{ModXml, Properties};

fn art_info() -> ArtDlcInstallInfo {
    ArtDlcInstallInfo { folder_name: "a".to_string(), installed_path: "/dlc/a".to_string(), dep_files: 1, platforms_dirs: 1 }
}

#[test]
fn formats_by_extension() {
    assert_eq!(archive_format("zip"), Ok(ArchiveFormat::Zip));
    assert_eq!(archive_format("ZIP"), Ok(ArchiveFormat::Zip));
    assert_eq!(archive_format("7z"), Ok(ArchiveFormat::SevenZip));
    assert_eq!(archive_format("Rar"), Ok(ArchiveFormat::Rar));
    assert_eq!(archive_format("tgz"), Ok(ArchiveFormat::TarGz));
    assert_eq!(archive_format("GZ"), Ok(ArchiveFormat::TarGz));
    assert_eq!(archive_format("EXE"), Err("Unsupported file format: exe".to_string()));
    assert_eq!(archive_format("ÄRAR"), Err("Unsupported file format: ärar".to_string()));
    assert_eq!(archive_format(""), Err("Unsupported file format: ".to_string()));
}

#[test]
fn temp_folder_and_errors() {
    assert_eq!(temp_target("/mods/x"), "/mods/x__temp");
    assert_eq!(extraction_error("boom"), "Failed to extract archive: boom");
}

#[test]
fn fallback_name_order() {
    let both = ModXml { id: Some("id".to_string()), properties: Properties { civ_mods_internal_version_id: None, name: Some("Name".to_string()) } };
    let id_only = ModXml { id: Some("id".to_string()), properties: Properties { civ_mods_internal_version_id: None, name: None } };
    let neither = ModXml { id: None, properties: Properties { civ_mods_internal_version_id: None, name: None } };
    let folder = Some("folder".to_string());
    assert_eq!(art_fallback_name(&Some(both), &folder), "Name");
    assert_eq!(art_fallback_name(&Some(id_only), &folder), "id");
    assert_eq!(art_fallback_name(&Some(neither), &folder), "folder");
    assert_eq!(art_fallback_name(&None, &folder), "folder");
    assert_eq!(art_fallback_name(&None, &None), "");
}

#[test]
fn art_outcomes_are_recorded() {
    let (ok, err) = record_art_install(Ok(Some(art_info())));
    assert_eq!(ok.unwrap().folder_name, "a");
    assert!(err.is_none());
    let (ok, err) = record_art_install(Ok(None));
    assert!(ok.is_none() && err.is_none());
    let (ok, err) = record_art_install(Err("bad".to_string()));
    assert!(ok.is_none());
    assert_eq!(err.as_deref(), Some("bad"));
}

#[test]
fn result_carries_the_art_outcome() {
    let info = ExtractArchiveInfo {
        modinfo_path: "/mods/a/a.modinfo".to_string(),
        modinfo_dir: "/mods/a".to_string(),
        art_dlc: Some(art_info()),
        art_dlc_error: Some("e".to_string()),
    };
    let result = extract_mod_archive_result(info);
    assert_eq!(result.art_dlc.unwrap().installed_path, "/dlc/a");
    assert_eq!(result.art_dlc_error.as_deref(), Some("e"));
}

#[test]
fn formats_of_lowercase_extensions() {
    assert_eq!(format_for_lowercase_extension("gz"), Ok(ArchiveFormat::TarGz));
    // no lower-casing here: the extension is taken as given
    assert_eq!(format_for_lowercase_extension("ZIP"), Err("Unsupported file format: ZIP".to_string()));
}
