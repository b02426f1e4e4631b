//! The verifier: check a single relative path against the manifest and the
//! observed state of that path on disk, optionally streaming the file's
//! bytes through a caller-supplied sink so that one pass verifies and copies.
//! The freshness probe sits on top, answering a single up-to-date boolean
//! from one designated catalog file. The caller resolves and observes the
//! path (existence, kind, metadata length, bytes) and hands the observation
//! in; every decision taken on it is specified here.

use crate::checksum::{calculate_checksum, calculate_checksum_while, sha1_hex, ChunkSink};
use crate::manifest::{EntrySpec, FileInfo, ManifestError, VersionManifest};
use crate::text::str_eq;
use vstd::prelude::*;

verus! {

/// What the file system reports for a resolved path: nothing, a directory, a
/// regular file with its metadata length and its bytes, or some other kind
/// of node (a special file).
pub enum PathState {
    Missing,
    Directory,
    File { size: u64, bytes: Vec<u8> },
    Special,
}

/// The mathematical content of a [`PathState`].
pub enum PathStateSpec {
    Missing,
    Directory,
    File { size: u64, bytes: Seq<u8> },
    Special,
}

impl View for PathState {
    type V = PathStateSpec;

    open spec fn view(&self) -> PathStateSpec {
        match self {
            PathState::Missing => PathStateSpec::Missing,
            PathState::Directory => PathStateSpec::Directory,
            PathState::File { size, bytes } => PathStateSpec::File {
                size: *size,
                bytes: bytes@,
            },
            PathState::Special => PathStateSpec::Special,
        }
    }
}

/// The outcome of checking one path: unknown when the manifest has no entry;
/// missing when nothing stands at the path; a type mismatch when the local
/// kind contradicts the entry (`wanted_dir` carries the manifest's side); a
/// directory succeeds when the entry declares size 0; a regular file must
/// match the declared size and hash; everything else is an invariant
/// violation.
pub open spec fn check_spec(
    m: Map<Seq<char>, EntrySpec>,
    name: Seq<char>,
    st: PathStateSpec,
) -> Result<(), ManifestError> {
    if !m.contains_key(name) {
        Err(ManifestError::UnknownFile)
    } else {
        let e = m[name];
        match st {
            PathStateSpec::Missing => Err(ManifestError::FileDoesNotExist),
            PathStateSpec::Directory => if !e.is_folder() {
                Err(ManifestError::MismatchedType { wanted_dir: false })
            } else if e.size == 0 {
                Ok(())
            } else {
                Err(ManifestError::ImpossibleError)
            },
            PathStateSpec::File { size, bytes } => if e.is_folder() {
                Err(ManifestError::MismatchedType { wanted_dir: true })
            } else if size != e.size {
                Err(ManifestError::MismatchedContent)
            } else if sha1_hex(bytes) != e.sha {
                Err(ManifestError::MismatchedContent)
            } else {
                Ok(())
            },
            PathStateSpec::Special => if e.is_folder() {
                Err(ManifestError::MismatchedType { wanted_dir: true })
            } else {
                Err(ManifestError::ImpossibleError)
            },
        }
    }
}

/// The check reaches the hashing stage: the entry exists, declares a regular
/// file, and the observed file has the declared size. Only there can a sink
/// reject a chunk.
pub open spec fn reaches_hashing(
    m: Map<Seq<char>, EntrySpec>,
    name: Seq<char>,
    st: PathStateSpec,
) -> bool {
    &&& m.contains_key(name)
    &&& !m[name].is_folder()
    &&& st matches PathStateSpec::File { size, bytes } && size == m[name].size
}

impl VersionManifest {
    fn classify<'s, 'a>(&'s self, child: &str, st: &'a PathState) -> (r: Result<
        Option<(&'s FileInfo, &'a Vec<u8>)>,
        ManifestError,
    >)
        requires
            self.wf(),
        ensures
            match r {
                Err(e) => check_spec(self@, child@, st@) == Err::<(), ManifestError>(e),
                Ok(opt) => match opt {
                    None => check_spec(self@, child@, st@) == Ok::<(), ManifestError>(()),
                    Some(picked) => {
                        &&& reaches_hashing(self@, child@, st@)
                        &&& self@[child@] == picked.0@
                        &&& (st@ matches PathStateSpec::File { bytes, .. } && bytes == picked.1@)
                        &&& check_spec(self@, child@, st@) == (if sha1_hex(picked.1@)
                            == picked.0@.sha {
                            Ok::<(), ManifestError>(())
                        } else {
                            Err::<(), ManifestError>(ManifestError::MismatchedContent)
                        })
                    },
                },
            },
    {
        let info = match self.get(child) {
            None => {
                return Err(ManifestError::UnknownFile);
            },
            Some(info) => info,
        };
        let wanted_dir = info.is_folder();
        match st {
            PathState::Missing => Err(ManifestError::FileDoesNotExist),
            PathState::Directory => {
                if !wanted_dir {
                    Err(ManifestError::MismatchedType { wanted_dir: false })
                } else if info.size == 0 {
                    Ok(None)
                } else {
                    Err(ManifestError::ImpossibleError)
                }
            },
            PathState::File { size, bytes } => {
                if wanted_dir {
                    Err(ManifestError::MismatchedType { wanted_dir: true })
                } else if *size != info.size {
                    Err(ManifestError::MismatchedContent)
                } else {
                    Ok(Some((info, bytes)))
                }
            },
            PathState::Special => {
                if wanted_dir {
                    Err(ManifestError::MismatchedType { wanted_dir: true })
                } else {
                    Err(ManifestError::ImpossibleError)
                }
            },
        }
    }

    /// Check one relative path against the manifest and the observed state
    /// of the resolved path, exactly as [`check_spec`] decides.
    pub fn check_path(&self, child: &str, st: &PathState) -> (r: Result<(), ManifestError>)
        requires
            self.wf(),
        ensures
            r == check_spec(self@, child@, st@),
    {
        match self.classify(child, st) {
            Err(e) => Err(e),
            Ok(None) => Ok(()),
            Ok(Some((info, bytes))) => {
                let digest = calculate_checksum(bytes.as_slice());
                if str_eq(digest.as_str(), info.sha.as_str()) {
                    Ok(())
                } else {
                    Err(ManifestError::MismatchedContent)
                }
            },
        }
    }

    /// Check one relative path as [`check_spec`] decides, streaming the
    /// file's bytes (and a terminal empty chunk) through `sink` when the
    /// check reaches the hashing stage; a rejected chunk aborts the check
    /// with [`ManifestError::SinkError`].
    pub fn check_file<S: ChunkSink>(&self, child: &str, st: &PathState, sink: &mut S) -> (r: Result<
        (),
        ManifestError,
    >)
        requires
            self.wf(),
        ensures
            r == check_spec(self@, child@, st@) || (r == Err::<(), ManifestError>(
                ManifestError::SinkError,
            ) && reaches_hashing(self@, child@, st@)),
    {
        match self.classify(child, st) {
            Err(e) => Err(e),
            Ok(None) => Ok(()),
            Ok(Some((info, bytes))) => {
                let digest = match calculate_checksum_while(bytes.as_slice(), sink) {
                    Err(_) => {
                        return Err(ManifestError::SinkError);
                    },
                    Ok(d) => d,
                };
                if str_eq(digest.as_str(), info.sha.as_str()) {
                    Ok(())
                } else {
                    Err(ManifestError::MismatchedContent)
                }
            },
        }
    }

    /// Probe whether the tree is up to date from the observed state of the
    /// catalog file alone, as [`up_to_date_spec`] decides: a content
    /// mismatch means stale, success means fresh, and every other error
    /// propagates unchanged.
    pub fn check_is_up_to_date(&self, catalog: &PathState) -> (r: Result<bool, ManifestError>)
        requires
            self.wf(),
        ensures
            r == up_to_date_spec(self@, catalog@),
    {
        match self.check_path(catalog_relative_path(), catalog) {
            Ok(()) => Ok(true),
            Err(e) => {
                if e == (ManifestError::MismatchedContent) {
                    Ok(false)
                } else {
                    Err(e)
                }
            },
        }
    }
}

/// The fixed relative path of the catalog file that the freshness probe
/// checks as a stand-in for the whole tree.
pub open spec fn catalog_path() -> Seq<char> {
    "LimbusCompany_Data/StreamingAssets/aa/catalog.json"@
}

/// The relative path of the catalog file, for the caller that observes it.
pub fn catalog_relative_path() -> (r: &'static str)
    ensures
        r@ == catalog_path(),
{
    "LimbusCompany_Data/StreamingAssets/aa/catalog.json"
}

/// The freshness answer: the check of the catalog path, with a content
/// mismatch mapped to "stale" and success to "fresh"; every other error
/// propagates, since it means the probe itself is broken rather than the
/// tree merely out of date.
pub open spec fn up_to_date_spec(m: Map<Seq<char>, EntrySpec>, st: PathStateSpec) -> Result<
    bool,
    ManifestError,
> {
    match check_spec(m, catalog_path(), st) {
        Ok(u) => Ok(true),
        Err(e) => if e == (ManifestError::MismatchedContent) {
            Ok(false)
        } else {
            Err(e)
        },
    }
}

/// The copy phase accepts a file exactly when the digest of its source bytes
/// is the declared hash; the size field plays no part there.
pub open spec fn copy_check_spec(e: EntrySpec, bytes: Seq<u8>) -> Result<(), ManifestError> {
    if sha1_hex(bytes) == e.sha {
        Ok(())
    } else {
        Err(ManifestError::MismatchedContent)
    }
}

impl FileInfo {
    /// The copy-phase check for one file: stream the source bytes (and a
    /// terminal empty chunk) through `sink` — for a copying sink, this
    /// writes the destination — and compare the digest with the declared
    /// hash, as [`copy_check_spec`] decides; a rejected chunk aborts with
    /// [`ManifestError::SinkError`].
    pub fn verify_bytes<S: ChunkSink>(&self, bytes: &[u8], sink: &mut S) -> (r: Result<
        (),
        ManifestError,
    >)
        ensures
            r == copy_check_spec(self@, bytes@) || r == Err::<(), ManifestError>(
                ManifestError::SinkError,
            ),
    {
        let digest = match calculate_checksum_while(bytes, sink) {
            Err(_) => {
                return Err(ManifestError::SinkError);
            },
            Ok(d) => d,
        };
        if str_eq(digest.as_str(), self.sha.as_str()) {
            Ok(())
        } else {
            Err(ManifestError::MismatchedContent)
        }
    }
}

/// An observed state describes an entry exactly: a directory entry of size 0
/// over a directory, or a file entry over a regular file of the declared
/// size whose bytes hash to the declared digest.
pub open spec fn describes(e: EntrySpec, st: PathStateSpec) -> bool {
    if e.is_folder() {
        e.size == 0 && st == PathStateSpec::Directory
    } else {
        st matches PathStateSpec::File { size, bytes } && size == e.size && sha1_hex(bytes)
            == e.sha
    }
}

/// Round trip: when a manifest entry exactly describes what stands at its
/// path — as a verified copy leaves it — the copy phase accepts the file's
/// bytes and a subsequent check of the path succeeds.
pub proof fn lemma_round_trip(m: Map<Seq<char>, EntrySpec>, name: Seq<char>, st: PathStateSpec)
    requires
        m.contains_key(name),
        describes(m[name], st),
    ensures
        check_spec(m, name, st) == Ok::<(), ManifestError>(()),
        !m[name].is_folder() ==> (st matches PathStateSpec::File { bytes, .. } && copy_check_spec(
            m[name],
            bytes,
        ) == Ok::<(), ManifestError>(())),
{
}

/// Tamper detection: a regular file of the declared size whose bytes hash to
/// anything but the declared digest is reported as mismatched content.
pub proof fn lemma_tamper_detected(
    m: Map<Seq<char>, EntrySpec>,
    name: Seq<char>,
    size: u64,
    bytes: Seq<u8>,
)
    requires
        m.contains_key(name),
        !m[name].is_folder(),
        size == m[name].size,
        sha1_hex(bytes) != m[name].sha,
    ensures
        check_spec(m, name, PathStateSpec::File { size, bytes }) == Err::<(), ManifestError>(
            ManifestError::MismatchedContent,
        ),
{
}

/// Type mismatch: a regular file where the manifest declares a directory, or
/// a directory where it declares a file, is reported with `wanted_dir`
/// carrying the manifest's classification.
pub proof fn lemma_type_mismatch(m: Map<Seq<char>, EntrySpec>, name: Seq<char>, st: PathStateSpec)
    requires
        m.contains_key(name),
        m[name].is_folder() <==> st matches PathStateSpec::File { .. },
        st matches PathStateSpec::File { .. } || st is Directory,
    ensures
        check_spec(m, name, st) == Err::<(), ManifestError>(
            ManifestError::MismatchedType { wanted_dir: m[name].is_folder() },
        ),
{
}

/// A path that the manifest does not declare is unknown, whatever stands on
/// disk.
pub proof fn lemma_unknown_path(m: Map<Seq<char>, EntrySpec>, name: Seq<char>, st: PathStateSpec)
    requires
        !m.contains_key(name),
    ensures
        check_spec(m, name, st) == Err::<(), ManifestError>(ManifestError::UnknownFile),
{
}

/// The catalog file's content diverges from its manifest entry: the entry
/// declares a regular file and the observed file differs in size or in
/// digest.
pub open spec fn catalog_diverges(m: Map<Seq<char>, EntrySpec>, st: PathStateSpec) -> bool {
    &&& m.contains_key(catalog_path())
    &&& !m[catalog_path()].is_folder()
    &&& st matches PathStateSpec::File { size, bytes } && (size != m[catalog_path()].size
        || sha1_hex(bytes) != m[catalog_path()].sha)
}

/// Freshness probe mapping: a catalog file whose content diverges from the
/// manifest makes the probe answer "stale"; a catalog file that is
/// altogether missing propagates as an error rather than being mapped to
/// "stale"; a clean check answers "fresh".
pub proof fn lemma_probe_mapping(m: Map<Seq<char>, EntrySpec>, st: PathStateSpec)
    ensures
        catalog_diverges(m, st) ==> up_to_date_spec(m, st) == Ok::<bool, ManifestError>(false),
        check_spec(m, catalog_path(), st) == Err::<(), ManifestError>(
            ManifestError::MismatchedContent,
        ) ==> up_to_date_spec(m, st) == Ok::<bool, ManifestError>(false),
        m.contains_key(catalog_path()) && st is Missing ==> up_to_date_spec(m, st) == Err::<
            bool,
            ManifestError,
        >(ManifestError::FileDoesNotExist),
        check_spec(m, catalog_path(), st) == Ok::<(), ManifestError>(()) ==> up_to_date_spec(m, st)
            == Ok::<bool, ManifestError>(true),
{
}

} // verus!
