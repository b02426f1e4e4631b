use lethe_manifest::directives::{
    open_file_path_directive, write_file_path_directive, write_key_path_directive,
};
use lethe_manifest::{add_directive, remove_directive, CacheDirectories};

#[test]
fn add_appends_on_a_new_line() {
    let updated = add_directive("[Box]\nEnabled=y", "OpenFilePath=C:\\game");
    assert_eq!(updated, "[Box]\nEnabled=y\nOpenFilePath=C:\\game");
}

#[test]
fn add_is_idempotent_when_present() {
    let content = "[Box]\nOpenFilePath=C:\\game\nEnabled=y";
    assert_eq!(add_directive(content, "OpenFilePath=C:\\game"), content);
}

#[test]
fn add_matches_lines_after_trimming() {
    let content = "[Box]\n   OpenFilePath=C:\\game   ";
    assert_eq!(add_directive(content, "OpenFilePath=C:\\game"), content);
}

#[test]
fn remove_drops_every_matching_line() {
    let content = "[Box]\nWriteKeyPath=HKEY_CURRENT_USER\\Software\nEnabled=y\n  WriteKeyPath=HKEY_CURRENT_USER\\Software";
    let updated = remove_directive(content, "WriteKeyPath=HKEY_CURRENT_USER\\Software");
    assert_eq!(updated, "[Box]\nEnabled=y");
}

#[test]
fn remove_keeps_unrelated_lines_and_joins_with_line_feeds() {
    let content = "a\r\nOpenFilePath=x\r\nb";
    let updated = remove_directive(content, "OpenFilePath=x");
    assert_eq!(updated, "a\nb");
}

#[test]
fn remove_of_absent_directive_keeps_all_lines() {
    let content = "a\nb\nc";
    assert_eq!(remove_directive(content, "nothere"), content);
}

#[test]
fn directive_lines_are_built_from_their_paths() {
    assert_eq!(open_file_path_directive("C:\\plugins"), "OpenFilePath=C:\\plugins");
    assert_eq!(write_file_path_directive("C:\\cache"), "WriteFilePath=C:\\cache");
    assert_eq!(
        write_key_path_directive("HKEY_CURRENT_USER\\Software"),
        "WriteKeyPath=HKEY_CURRENT_USER\\Software"
    );
}

#[test]
fn cache_directories_yield_three_write_directives() {
    let dirs = CacheDirectories {
        local_app_data: "C:\\Users\\u\\AppData\\Local".to_string(),
        roaming: "C:\\Users\\u\\AppData\\Roaming".to_string(),
        local_low: "C:\\Users\\u\\AppData\\LocalLow".to_string(),
    };
    let directives = dirs.write_directives();
    assert_eq!(
        directives,
        vec![
            "WriteFilePath=C:\\Users\\u\\AppData\\Local".to_string(),
            "WriteFilePath=C:\\Users\\u\\AppData\\Roaming".to_string(),
            "WriteFilePath=C:\\Users\\u\\AppData\\LocalLow".to_string(),
        ]
    );
}
