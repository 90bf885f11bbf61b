use sentinel_dbms::collection::Collection;

#[test]
fn collection_test_validate_document_id_valid() {
    assert!(Collection::validate_document_id("user-123").is_ok());
    assert!(Collection::validate_document_id("user_456").is_ok());
    assert!(Collection::validate_document_id("data-item").is_ok());
    assert!(Collection::validate_document_id("test_collection_123").is_ok());
    assert!(Collection::validate_document_id("file-txt").is_ok());
    assert!(Collection::validate_document_id("a").is_ok());
    assert!(Collection::validate_document_id("123").is_ok());
}

#[test]
fn collection_test_validate_document_id_invalid_empty() {
    assert!(Collection::validate_document_id("").is_err());
}

#[test]
fn collection_test_validate_document_id_invalid_path_separators() {
    assert!(Collection::validate_document_id("path/traversal").is_err());
    assert!(Collection::validate_document_id("path\\traversal").is_err());
}

#[test]
fn collection_test_validate_document_id_invalid_control_characters() {
    assert!(Collection::validate_document_id("file\nname").is_err());
    assert!(Collection::validate_document_id("file\x00name").is_err());
}

#[test]
fn collection_test_validate_document_id_invalid_windows_reserved_characters() {
    assert!(Collection::validate_document_id("file<name>").is_err());
    assert!(Collection::validate_document_id("file>name").is_err());
    assert!(Collection::validate_document_id("file:name").is_err());
    assert!(Collection::validate_document_id("file\"name").is_err());
    assert!(Collection::validate_document_id("file|name").is_err());
    assert!(Collection::validate_document_id("file?name").is_err());
    assert!(Collection::validate_document_id("file*name").is_err());
}

#[test]
fn collection_test_validate_document_id_invalid_other_characters() {
    assert!(Collection::validate_document_id("file name").is_err());
    assert!(Collection::validate_document_id("file@name").is_err());
    assert!(Collection::validate_document_id("file!name").is_err());
    assert!(Collection::validate_document_id("file\u{1F680}name").is_err());
    assert!(Collection::validate_document_id("file\u{e9}name").is_err());
    assert!(Collection::validate_document_id("file.name").is_err());
}

#[test]
fn collection_test_validate_document_id_invalid_windows_reserved_names() {
    assert!(Collection::validate_document_id("CON").is_err());
    assert!(Collection::validate_document_id("con").is_err());
    assert!(Collection::validate_document_id("Con").is_err());
    assert!(Collection::validate_document_id("PRN").is_err());
    assert!(Collection::validate_document_id("AUX").is_err());
    assert!(Collection::validate_document_id("NUL").is_err());
    assert!(Collection::validate_document_id("COM1").is_err());
    assert!(Collection::validate_document_id("LPT9").is_err());
    assert!(Collection::validate_document_id("CON.txt").is_err());
    assert!(Collection::validate_document_id("prn.backup").is_err());
}

#[test]
fn tests_test_validate_document_id_valid() {
    assert!(Collection::validate_document_id("user-123").is_ok());
    assert!(Collection::validate_document_id("user_456").is_ok());
    assert!(Collection::validate_document_id("data-item").is_ok());
    assert!(Collection::validate_document_id("test_collection_123").is_ok());
    assert!(Collection::validate_document_id("file-txt").is_ok());
    assert!(Collection::validate_document_id("a").is_ok());
    assert!(Collection::validate_document_id("123").is_ok());
}

#[test]
fn tests_test_validate_document_id_invalid_empty() {
    assert!(Collection::validate_document_id("").is_err());
}

#[test]
fn tests_test_validate_document_id_invalid_path_separators() {
    assert!(Collection::validate_document_id("path/traversal").is_err());
    assert!(Collection::validate_document_id("path\\traversal").is_err());
}

#[test]
fn tests_test_validate_document_id_invalid_control_characters() {
    assert!(Collection::validate_document_id("file\nname").is_err());
    assert!(Collection::validate_document_id("file\x00name").is_err());
}

#[test]
fn tests_test_validate_document_id_invalid_windows_reserved_characters() {
    assert!(Collection::validate_document_id("file<name>").is_err());
    assert!(Collection::validate_document_id("file>name").is_err());
    assert!(Collection::validate_document_id("file:name").is_err());
    assert!(Collection::validate_document_id("file\"name").is_err());
    assert!(Collection::validate_document_id("file|name").is_err());
    assert!(Collection::validate_document_id("file?name").is_err());
    assert!(Collection::validate_document_id("file*name").is_err());
}

#[test]
fn tests_test_validate_document_id_invalid_other_characters() {
    assert!(Collection::validate_document_id("file name").is_err());
    assert!(Collection::validate_document_id("file@name").is_err());
    assert!(Collection::validate_document_id("file!name").is_err());
    assert!(Collection::validate_document_id("file\u{1F680}name").is_err());
    assert!(Collection::validate_document_id("file\u{e9}name").is_err());
    assert!(Collection::validate_document_id("file.name").is_err());
}

#[test]
fn tests_test_validate_document_id_invalid_windows_reserved_names() {
    assert!(Collection::validate_document_id("CON").is_err());
    assert!(Collection::validate_document_id("con").is_err());
    assert!(Collection::validate_document_id("Con").is_err());
    assert!(Collection::validate_document_id("PRN").is_err());
    assert!(Collection::validate_document_id("AUX").is_err());
    assert!(Collection::validate_document_id("NUL").is_err());
    assert!(Collection::validate_document_id("COM1").is_err());
    assert!(Collection::validate_document_id("LPT9").is_err());
    assert!(Collection::validate_document_id("CON.txt").is_err());
    assert!(Collection::validate_document_id("prn.backup").is_err());
}
