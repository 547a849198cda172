use civmods::folder_name::validate_folder_name;

#[test]
fn test_validate_folder_name() {
    assert_eq!(validate_folder_name("aaa_mansa").unwrap(), "aaa_mansa");
    assert_eq!(validate_folder_name("Mansa Art").unwrap(), "Mansa Art");

    for invalid in ["", "a/b", "a\\b", "a:b", "a?b", "a|b", "trailing.", " padded", "..", "CON", "nul.dep"] {
        assert!(
            validate_folder_name(invalid).is_err(),
            "expected '{invalid}' to be rejected"
        );
    }
}

use civmods::folder_name::{reason_text, FolderNameProblem, RESERVED_WINDOWS_NAMES};

fn rejection(name: &str, reason: &str) -> String {
    format!(
        "'{name}' cannot be used as a DLC folder name ({reason}). The mod's UpdateArt name has to be usable as a folder name."
    )
}

#[test]
fn accepts_ordinary_names() {
    for name in ["aaa_mansa", "Mansa Art", "my-art", "Ünïcödé", "COM10", "CONSOLE", "a.b", ".hidden"] {
        assert_eq!(validate_folder_name(name).unwrap(), name);
    }
}

#[test]
fn empty_name_message() {
    assert_eq!(validate_folder_name("").unwrap_err(), rejection("", "it is empty"));
}

#[test]
fn forbidden_characters_message() {
    for name in ["a/b", "a\\b", "a:b", "a*b", "a?b", "a\"b", "a<b", "a>b", "a|b", "a\tb", "a\u{7f}b", "a\u{85}b"] {
        assert_eq!(
            validate_folder_name(name).unwrap_err(),
            rejection(name, "it contains characters that are not allowed in a folder name")
        );
    }
}

#[test]
fn edges_message() {
    for name in [" padded", "padded ", "trailing.", "\u{3000}wide", "..", "."] {
        assert_eq!(
            validate_folder_name(name).unwrap_err(),
            rejection(name, "it starts or ends with a space or a dot")
        );
    }
}

#[test]
fn reserved_names_message() {
    for name in ["CON", "con", "nul.dep", "Com1", "lpt9.txt.bak", "AUX.x"] {
        assert_eq!(
            validate_folder_name(name).unwrap_err(),
            rejection(name, "it is a reserved Windows device name")
        );
    }
    assert_eq!(RESERVED_WINDOWS_NAMES.len(), 22);
}

#[test]
fn forbidden_characters_are_checked_before_edges() {
    // both rules are broken; the first one checked is reported
    assert_eq!(
        validate_folder_name(" a:b").unwrap_err(),
        rejection(" a:b", "it contains characters that are not allowed in a folder name")
    );
}

#[test]
fn reason_texts() {
    assert_eq!(reason_text(FolderNameProblem::RelativePath), "it is a relative path");
    assert_eq!(reason_text(FolderNameProblem::Empty), "it is empty");
}

#[test]
fn ascii_case_does_not_change_the_answer() {
    for name in ["con", "Con.txt", "CON", "Lpt1", "Mansa Art", "aaa_mansa", "a:b", " padded"] {
        let upper = name.to_ascii_uppercase();
        let lower = name.to_ascii_lowercase();
        assert_eq!(validate_folder_name(name).is_ok(), validate_folder_name(&upper).is_ok(), "{name}");
        assert_eq!(validate_folder_name(name).is_ok(), validate_folder_name(&lower).is_ok(), "{name}");
    }
    assert!(validate_folder_name("con").is_err());
    assert!(validate_folder_name("Con.txt").is_err());
    assert!(validate_folder_name("MANSA ART").is_ok());
}
