//! Tests for matching archive entry paths against candidate icon names.

use ipa_parser::icon_extractor::is_icon_match;

#[test]
fn test_is_icon_match() {
    let icon_names = vec!["AppIcon60x60@2x.png".to_string(), "AppIcon76x76".to_string()];

    assert!(is_icon_match("Payload/App.app/AppIcon60x60@2x.png", &icon_names));
    assert!(is_icon_match("Payload/App.app/AppIcon76x76.png", &icon_names));
    assert!(is_icon_match("Payload/App.app/AppIcon76x76@2x.png", &icon_names));
    assert!(!is_icon_match("Payload/App.app/SomeOther.png", &icon_names));
}

#[test]
fn test_is_icon_match_trims_png_extension() {
    // "Icon.png" as candidate also matches "Icon@2x.png": the candidate's
    // extension is trimmed before the prefix test
    let icon_names = vec!["Icon.png".to_string()];
    assert!(is_icon_match("Payload/App.app/Icon@2x.png", &icon_names));
    assert!(is_icon_match("Icon.png", &icon_names));
    assert!(!is_icon_match("Payload/App.app/Logo.png", &icon_names));
}

#[test]
fn test_is_icon_match_empty_candidates() {
    let icon_names: Vec<String> = Vec::new();
    assert!(!is_icon_match("Payload/App.app/AppIcon.png", &icon_names));
}

#[test]
fn test_is_icon_match_uses_file_name_only() {
    // the candidate is compared against the last path component, not the
    // whole path
    let icon_names = vec!["App.app".to_string()];
    assert!(!is_icon_match("Payload/App.app/Other.png", &icon_names));
    assert!(is_icon_match("Payload/App.app/App.app.png", &icon_names));
}

#[test]
fn test_is_icon_match_path_components() {
    // trailing slashes and '.' components are ignored; a '..' component
    // leaves no file name to match
    let icon_names = vec!["AppIcon".to_string()];
    assert!(is_icon_match("Payload/App.app/AppIcon.png/", &icon_names));
    assert!(is_icon_match("Payload/App.app/AppIcon.png/.", &icon_names));
    assert!(!is_icon_match("Payload/App.app/..", &icon_names));
}
