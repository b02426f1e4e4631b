use lethe_manifest::parse_manifest;

const HEADER: &str = "          Size Chunks                 File SHA                 Flags Name";

/// A data line with the manifest's fixed columns: size in characters
/// [0, 14), hash in [22, 63), name from character 69 on.
fn data_line(size: &str, sha: &str, name: &str) -> String {
    assert_eq!(sha.len(), 40);
    format!("{:>14}{:>8}{:<41}{:>6}{}", size, 1, sha, 0, name)
}

#[test]
fn parses_a_data_line_exactly() {
    let sha = "0123456789ABCDEF0123456789ABCDEF01234567";
    let text = format!("{}\n{}\n", HEADER, data_line("            12", sha, "GameAssembly.dll"));
    let m = parse_manifest(&text).expect("well-formed manifest text");
    let info = m.get("GameAssembly.dll").expect("entry for the data line");
    assert_eq!(info.size, 12);
    assert_eq!(info.sha, sha);
    assert!(!info.is_folder());
    assert_eq!(m.len(), 1);
}

#[test]
fn lines_before_the_header_are_ignored() {
    let sha = "0123456789ABCDEF0123456789ABCDEF01234567";
    let early = data_line("           999", sha, "early.bin");
    let late = data_line("             7", sha, "late.bin");
    let text = format!("{}\n{}\n{}\n", early, HEADER, late);
    let m = parse_manifest(&text).expect("well-formed manifest text");
    assert!(m.get("early.bin").is_none());
    assert_eq!(m.get("late.bin").expect("entry after header").size, 7);
    assert_eq!(m.len(), 1);
}

#[test]
fn short_lines_after_the_header_are_ignored() {
    let sha = "0123456789ABCDEF0123456789ABCDEF01234567";
    let text = format!(
        "{}\nshort footer line\n{}\n\n",
        HEADER,
        data_line("             3", sha, "a.txt")
    );
    let m = parse_manifest(&text).expect("short lines cause no error");
    assert_eq!(m.len(), 1);
    assert_eq!(m.get("a.txt").expect("data line parsed").size, 3);
}

#[test]
fn bad_size_field_is_a_parse_error() {
    let sha = "0123456789ABCDEF0123456789ABCDEF01234567";
    let text = format!("{}\n{}\n", HEADER, data_line("      notanum", sha, "a.txt"));
    assert!(parse_manifest(&text).is_err());
}

#[test]
fn size_field_with_plus_sign_parses() {
    let sha = "0123456789ABCDEF0123456789ABCDEF01234567";
    let text = format!("{}\n{}\n", HEADER, data_line("           +42", sha, "a.txt"));
    let m = parse_manifest(&text).expect("plus-signed decimal is a number");
    assert_eq!(m.get("a.txt").expect("entry").size, 42);
}

#[test]
fn duplicate_names_overwrite() {
    let sha1 = "0123456789ABCDEF0123456789ABCDEF01234567";
    let sha2 = "89ABCDEF0123456789ABCDEF0123456789ABCDEF";
    let text = format!(
        "{}\n{}\n{}\n",
        HEADER,
        data_line("             1", sha1, "dup.bin"),
        data_line("             2", sha2, "dup.bin")
    );
    let m = parse_manifest(&text).expect("well-formed manifest text");
    assert_eq!(m.len(), 1);
    let info = m.get("dup.bin").expect("entry");
    assert_eq!(info.size, 2);
    assert_eq!(info.sha, sha2);
}

#[test]
fn directory_entries_are_detected_by_the_sentinel_hash() {
    let zeros = "0000000000000000000000000000000000000000";
    let text = format!(
        "{}\n{}\n{}\n",
        HEADER,
        data_line("             0", zeros, "LimbusCompany_Data"),
        data_line("             5", zeros, "nonzero_dir")
    );
    let m = parse_manifest(&text).expect("well-formed manifest text");
    assert!(m.get("LimbusCompany_Data").expect("entry").is_folder());
    // the size field plays no part in the classification
    assert!(m.get("nonzero_dir").expect("entry").is_folder());
}

#[test]
fn header_recognized_with_arbitrary_whitespace() {
    let sha = "0123456789ABCDEF0123456789ABCDEF01234567";
    let header = "   Size\tChunks   File SHA  Flags Name   ";
    let text = format!("{}\n{}\n", header, data_line("             9", sha, "x"));
    let m = parse_manifest(&text).expect("well-formed manifest text");
    assert_eq!(m.get("x").expect("entry").size, 9);
}

#[test]
fn near_header_lines_do_not_start_parsing() {
    let sha = "0123456789ABCDEF0123456789ABCDEF01234567";
    // "File SHA" and "Flags Name" must appear verbatim, one space each, so
    // this text has no header at all and is malformed
    let not_header = "Size Chunks FileSHA Flags Name";
    let text = format!("{}\n{}\n", not_header, data_line("             9", sha, "x"));
    assert!(parse_manifest(&text).is_err());
}

#[test]
fn missing_header_is_a_parse_error() {
    // a headerless text signals a remote format change, never an empty manifest
    assert!(parse_manifest("").is_err());
    assert!(parse_manifest("just a footer\nand another line\n").is_err());
}

#[test]
fn carriage_return_line_endings_are_accepted() {
    let sha = "0123456789ABCDEF0123456789ABCDEF01234567";
    let text = format!("{}\r\n{}\r\n", HEADER, data_line("            11", sha, "crlf.bin"));
    let m = parse_manifest(&text).expect("well-formed manifest text");
    assert_eq!(m.get("crlf.bin").expect("entry").size, 11);
}

#[test]
fn names_and_hashes_are_trimmed_but_kept_verbatim() {
    let sha = "abcdef0123456789abcdef0123456789abcdef01";
    let text = format!(
        "{}\n{}\n",
        HEADER,
        data_line("             1", sha, "   dir/with space.txt   ")
    );
    let m = parse_manifest(&text).expect("well-formed manifest text");
    let info = m.get("dir/with space.txt").expect("trimmed name is the key");
    // lowercase hash is not case-normalized
    assert_eq!(info.sha, sha);
}
