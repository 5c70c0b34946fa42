use companion_core::cost::micros_of;
use companion_core::files::compute_hash;
use companion_core::files::check_modified;
use companion_core::files::decide_edit;
use companion_core::files::extension_matches;
use companion_core::files::ApplyResult;
use companion_core::mcp::get_mcp_config_paths;

#[test]
fn test_compute_hash() {
    let hash1 = compute_hash("hello");
    let hash2 = compute_hash("world");
    assert_ne!(hash1, hash2);
    assert_eq!(hash1.len(), 64);
}

// The exact, well-known SHA-256 digest of "hello": this fails if either
// the digest or the hexadecimal rendering were not the real thing.
#[test]
fn test_compute_hash_known_value() {
    assert_eq!(
        compute_hash("hello"),
        "2cf24dba5fb0a30e26e83b2ac5b9e29e1b161e5c1fa7425e73043362938b9824"
    );
}

#[test]
fn test_check_modified() {
    let hash = compute_hash("content");
    assert!(!check_modified("content", &hash));
    assert!(check_modified("changed", &hash));
}

#[test]
fn test_decide_edit_applies_when_unchanged() {
    assert!(matches!(decide_edit("original", "original", "new"), ApplyResult::Success));
}

#[test]
fn test_decide_edit_new_file() {
    assert!(matches!(decide_edit("", "", "new content"), ApplyResult::Success));
    // an empty base applies even over unexpected existing content
    assert!(matches!(decide_edit("whatever", "", "new content"), ApplyResult::Success));
}

#[test]
fn test_decide_edit_conflict() {
    match decide_edit("modified externally", "original", "proposed") {
        ApplyResult::Conflict { current_content, base_content, proposed_content } => {
            assert_eq!(current_content, "modified externally");
            assert_eq!(base_content, "original");
            assert_eq!(proposed_content, "proposed");
        }
        _ => panic!("Expected a conflict"),
    }
}

#[test]
fn test_extension_matching() {
    assert!(extension_matches("rs", "*.rs"));
    assert!(extension_matches("txt", "*"));
    assert!(!extension_matches("txt", "*.rs"));
    // repeated wildcard prefixes are all stripped
    assert!(extension_matches("rs", "*.*.rs"));
}

#[test]
fn test_get_mcp_config_paths() {
    let paths = get_mcp_config_paths("/home/user", "/test/dir");
    assert_eq!(paths.len(), 3);
    assert!(paths[0].contains(".assistant"));
    assert!(paths[1].starts_with("/test/dir"));
    assert_eq!(paths[1], "/test/dir/.mcp.json");
    assert_eq!(paths[2], "/test/dir/.assistant/mcp.json");
}

#[test]
fn test_micros_of_decimals() {
    assert_eq!(micros_of("0.05"), Some(50_000));
    assert_eq!(micros_of("1"), Some(1_000_000));
    assert_eq!(micros_of("1.0"), Some(1_000_000));
    assert_eq!(micros_of("12.345678"), Some(12_345_678));
    // digits beyond the sixth are truncated
    assert_eq!(micros_of("0.0000009"), Some(0));
}

#[test]
fn test_micros_of_rejects() {
    assert_eq!(micros_of(""), None);
    assert_eq!(micros_of("-1"), None);
    assert_eq!(micros_of("1e3"), None);
    assert_eq!(micros_of("1."), None);
    assert_eq!(micros_of(".5"), None);
    assert_eq!(micros_of("1.2.3"), None);
    // more micro-units than u64 can hold
    assert_eq!(micros_of("99999999999999999999"), None);
}

#[test]
fn test_fetch_mcp_capabilities_empty() {
    let caps = companion_core::mcp::fetch_mcp_capabilities("any-server");
    assert!(caps.tools.is_empty());
    assert!(caps.resources.is_empty());
    assert!(caps.prompts.is_empty());
}
