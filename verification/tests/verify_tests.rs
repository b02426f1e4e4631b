use lethe_manifest::{
    calculate_checksum, catalog_relative_path, ChunkSink, FileInfo, ManifestError, PathState,
    VersionManifest,
};

const ZEROS: &str = "0000000000000000000000000000000000000000";

/// A sink that writes every chunk into a growing buffer, the way the copier's
/// destination file handle does.
struct BufferSink {
    written: Vec<u8>,
    flushed: bool,
}

impl ChunkSink for BufferSink {
    fn accept(&mut self, chunk: &[u8]) -> Result<(), ()> {
        if chunk.is_empty() {
            self.flushed = true;
        } else {
            self.written.extend_from_slice(chunk);
        }
        Ok(())
    }
}

/// A sink that rejects every chunk.
struct RejectSink;

impl ChunkSink for RejectSink {
    fn accept(&mut self, _chunk: &[u8]) -> Result<(), ()> {
        Err(())
    }
}

fn file_entry(bytes: &[u8]) -> FileInfo {
    FileInfo { size: bytes.len() as u64, sha: calculate_checksum(bytes) }
}

fn file_state(bytes: &[u8]) -> PathState {
    PathState::File { size: bytes.len() as u64, bytes: bytes.to_vec() }
}

fn sample_manifest() -> VersionManifest {
    let mut m = VersionManifest::new();
    m.insert("data".to_string(), FileInfo { size: 0, sha: ZEROS.to_string() });
    m.insert("data/a.bin".to_string(), file_entry(b"alpha"));
    m.insert("data/b.bin".to_string(), file_entry(b"bravo bytes"));
    m
}

#[test]
fn matching_file_passes() {
    let m = sample_manifest();
    let st = file_state(b"alpha");
    assert_eq!(m.check_path("data/a.bin", &st), Ok(()));
}

#[test]
fn unknown_path_is_reported() {
    let m = sample_manifest();
    let st = file_state(b"alpha");
    assert_eq!(m.check_path("no/such/path", &st), Err(ManifestError::UnknownFile));
}

#[test]
fn missing_path_is_reported() {
    let m = sample_manifest();
    assert_eq!(m.check_path("data/a.bin", &PathState::Missing), Err(ManifestError::FileDoesNotExist));
}

#[test]
fn type_mismatch_carries_the_manifest_side() {
    let m = sample_manifest();
    // manifest says directory, disk has a regular file
    assert_eq!(
        m.check_path("data", &file_state(b"not a dir")),
        Err(ManifestError::MismatchedType { wanted_dir: true })
    );
    // manifest says file, disk has a directory
    assert_eq!(
        m.check_path("data/a.bin", &PathState::Directory),
        Err(ManifestError::MismatchedType { wanted_dir: false })
    );
}

#[test]
fn directory_with_zero_size_short_circuits() {
    let m = sample_manifest();
    assert_eq!(m.check_path("data", &PathState::Directory), Ok(()));
}

#[test]
fn directory_with_declared_size_is_impossible() {
    let mut m = VersionManifest::new();
    m.insert("odd_dir".to_string(), FileInfo { size: 5, sha: ZEROS.to_string() });
    assert_eq!(m.check_path("odd_dir", &PathState::Directory), Err(ManifestError::ImpossibleError));
}

#[test]
fn special_file_is_impossible() {
    let m = sample_manifest();
    assert_eq!(m.check_path("data/a.bin", &PathState::Special), Err(ManifestError::ImpossibleError));
}

#[test]
fn size_mismatch_is_content_mismatch() {
    let m = sample_manifest();
    let st = PathState::File { size: 999, bytes: b"alpha".to_vec() };
    assert_eq!(m.check_path("data/a.bin", &st), Err(ManifestError::MismatchedContent));
}

#[test]
fn flipping_one_byte_is_detected() {
    let m = sample_manifest();
    let mut tampered = b"alpha".to_vec();
    tampered[2] ^= 0x01;
    let st = PathState::File { size: tampered.len() as u64, bytes: tampered };
    assert_eq!(m.check_path("data/a.bin", &st), Err(ManifestError::MismatchedContent));
}

#[test]
fn rejecting_sink_is_a_sink_error() {
    let m = sample_manifest();
    let mut sink = RejectSink;
    assert_eq!(
        m.check_file("data/a.bin", &file_state(b"alpha"), &mut sink),
        Err(ManifestError::SinkError)
    );
}

#[test]
fn copy_then_check_round_trips() {
    let tree: [(&str, &[u8]); 2] = [("data/a.bin", b"alpha"), ("data/b.bin", b"bravo bytes")];
    let m = sample_manifest();

    // directory phase: collect the directories to create
    let mut dirs: Vec<String> = Vec::new();
    for i in 0..m.entry_count() {
        let e = m.entry_at(i);
        if e.info.is_folder() {
            dirs.push(e.name.clone());
        }
    }
    assert_eq!(dirs, vec!["data".to_string()]);

    // file phase: stream each source file into its destination while hashing
    for (name, bytes) in tree.iter() {
        let info = m.get(name).expect("entry");
        let mut dst = BufferSink { written: Vec::new(), flushed: false };
        assert_eq!(info.verify_bytes(bytes, &mut dst), Ok(()));
        assert!(dst.flushed);
        assert_eq!(dst.written, bytes.to_vec());

        // afterwards, checking the copied file against the manifest succeeds
        let copied = PathState::File { size: dst.written.len() as u64, bytes: dst.written };
        assert_eq!(m.check_path(name, &copied), Ok(()));
    }
    // and the directory marker checks out as well
    assert_eq!(m.check_path("data", &PathState::Directory), Ok(()));
}

#[test]
fn copy_detects_a_corrupted_source() {
    let m = sample_manifest();
    let info = m.get("data/a.bin").expect("entry");
    let mut dst = BufferSink { written: Vec::new(), flushed: false };
    assert_eq!(info.verify_bytes(b"alphX", &mut dst), Err(ManifestError::MismatchedContent));
    // the destination was still written: the copier does not roll back
    assert_eq!(dst.written, b"alphX".to_vec());
}

fn catalog_manifest(bytes: &[u8]) -> VersionManifest {
    let mut m = VersionManifest::new();
    m.insert(catalog_relative_path().to_string(), file_entry(bytes));
    m
}

#[test]
fn probe_maps_content_mismatch_to_stale() {
    let m = catalog_manifest(b"{\"catalog\":1}");
    let diverged = file_state(b"{\"catalog\":2}");
    assert_eq!(m.check_is_up_to_date(&diverged), Ok(false));
}

#[test]
fn probe_reports_fresh_catalog() {
    let m = catalog_manifest(b"{\"catalog\":1}");
    let same = file_state(b"{\"catalog\":1}");
    assert_eq!(m.check_is_up_to_date(&same), Ok(true));
}

#[test]
fn error_messages_describe_each_case() {
    assert_eq!(ManifestError::UnknownFile.message(), "File is not listed in the manifest");
    assert_eq!(
        ManifestError::MismatchedType { wanted_dir: true }.message(),
        "Expected directory but got a file"
    );
    assert_eq!(
        ManifestError::MismatchedType { wanted_dir: false }.message(),
        "Expected file but got a directory"
    );
    assert_eq!(ManifestError::MismatchedContent.message(), "File does not match the checksum");
}

#[test]
fn probe_propagates_a_missing_catalog() {
    let m = catalog_manifest(b"{\"catalog\":1}");
    assert_eq!(m.check_is_up_to_date(&PathState::Missing), Err(ManifestError::FileDoesNotExist));
}
