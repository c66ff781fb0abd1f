//! Tests for the property-list field selection and icon-name merging.

use ipa_parser::plist_parser::{
    extract_icon_names, is_info_plist_path, select_plist_info, PlistFieldError,
};

fn strings(items: &[&str]) -> Vec<String> {
    items.iter().map(|s| s.to_string()).collect()
}

#[test]
fn test_extract_icon_names() {
    let icon_files = strings(&["Icon-60@2x.png", "Icon-76.png"]);

    let result = extract_icon_names(&icon_files, None, &Vec::new());
    assert_eq!(result.len(), 2);
    assert!(result.contains(&"Icon-60@2x.png".to_string()));
}

#[test]
fn test_extract_icon_names_single_field() {
    let single = "Icon-Small.png".to_string();
    let result = extract_icon_names(&Vec::new(), Some(&single), &Vec::new());
    assert_eq!(result, strings(&["Icon-Small.png"]));

    // already present in the array field: not added again
    let arr = strings(&["Icon-Small.png"]);
    let result = extract_icon_names(&arr, Some(&single), &Vec::new());
    assert_eq!(result, strings(&["Icon-Small.png"]));
}

#[test]
fn test_extract_icon_names_primary_and_dedup() {
    let arr = strings(&["A.png", "A.png", "B.png"]);
    let single = "C.png".to_string();
    let primary = strings(&["B.png", "D.png"]);
    let result = extract_icon_names(&arr, Some(&single), &primary);
    // consecutive duplicate collapsed, present names not re-added
    assert_eq!(result, strings(&["A.png", "B.png", "C.png", "D.png"]));
}

#[test]
fn test_select_plist_info_fallbacks() {
    let info = select_plist_info(
        None,
        Some("Display".to_string()),
        None,
        Some("7.1".to_string()),
        Some("com.example.app".to_string()),
        strings(&["Icon.png"]),
    )
    .unwrap();
    assert_eq!(info.app_name, "Display");
    assert_eq!(info.app_version, "7.1");
    assert_eq!(info.bundle_identifier, "com.example.app");
    assert_eq!(info.icon_files, strings(&["Icon.png"]));

    let info = select_plist_info(
        Some("Name".to_string()),
        Some("Display".to_string()),
        Some("2.0".to_string()),
        Some("7.1".to_string()),
        Some("com.example.app".to_string()),
        Vec::new(),
    )
    .unwrap();
    assert_eq!(info.app_name, "Name");
    assert_eq!(info.app_version, "2.0");
}

#[test]
fn test_select_plist_info_missing_fields() {
    let r = select_plist_info(None, None, Some("1".to_string()), None, None, Vec::new());
    assert_eq!(r.unwrap_err(), PlistFieldError::MissingName);

    let r = select_plist_info(Some("N".to_string()), None, None, None, None, Vec::new());
    assert_eq!(r.unwrap_err(), PlistFieldError::MissingVersion);

    let r = select_plist_info(
        Some("N".to_string()),
        None,
        Some("1".to_string()),
        None,
        None,
        Vec::new(),
    );
    assert_eq!(r.unwrap_err(), PlistFieldError::MissingIdentifier);
}

#[test]
fn test_is_info_plist_path() {
    assert!(is_info_plist_path("Payload/App.app/Info.plist"));
    assert!(!is_info_plist_path("Payload/App.app/Sub/Other.plist"));
    assert!(!is_info_plist_path("Other/App.app/Info.plist"));
    assert!(!is_info_plist_path("Payload/App.app/Info.plist.bak"));
}
