//! The manifest model: an immutable mapping from relative path to an entry
//! that records the expected size and content hash of that path, with an
//! all-zero hash marking a directory. The model is held as a record list with
//! pairwise distinct names and viewed as a `Map` from path to entry, so that
//! every contract over a manifest speaks of one mathematical mapping.

use crate::text::str_eq;
use vstd::prelude::*;

verus! {

/// The sentinel hash that marks a manifest entry as a directory.
pub open spec fn folder_sha() -> Seq<char> {
    "0000000000000000000000000000000000000000"@
}

/// One manifest record: the expected byte length of a path, and the expected
/// content hash of its bytes (40 hexadecimal characters as received).
pub struct FileInfo {
    pub size: u64,
    pub sha: String,
}

/// The mathematical content of a [`FileInfo`].
pub struct EntrySpec {
    pub size: u64,
    pub sha: Seq<char>,
}

impl EntrySpec {
    /// An entry describes a directory exactly when its hash is the sentinel,
    /// whatever its size field holds.
    pub open spec fn is_folder(self) -> bool {
        self.sha == folder_sha()
    }
}

impl View for FileInfo {
    type V = EntrySpec;

    open spec fn view(&self) -> EntrySpec {
        EntrySpec { size: self.size, sha: self.sha@ }
    }
}

impl FileInfo {
    /// Whether this entry marks a directory.
    pub fn is_folder(&self) -> (r: bool)
        ensures
            r == self@.is_folder(),
    {
        str_eq(self.sha.as_str(), "0000000000000000000000000000000000000000")
    }
}

/// Why a path failed verification against a manifest.
#[derive(Clone, Copy, Debug, PartialEq, Eq, Structural)]
pub enum ManifestError {
    /// The queried path does not appear in the manifest.
    UnknownFile,
    /// The manifest declares the path but nothing exists there locally.
    FileDoesNotExist,
    /// The local kind contradicts the manifest: `wanted_dir` is true when the
    /// manifest expected a directory and a file was found, false the other
    /// way around.
    MismatchedType { wanted_dir: bool },
    /// The size or the content hash of the path differs from the manifest.
    MismatchedContent,
    /// A state that the earlier checks should have made unreachable, such as
    /// a special file where a regular file or directory was expected.
    ImpossibleError,
    /// The caller-supplied sink rejected a chunk while the path's bytes were
    /// being streamed.
    SinkError,
}

/// The user-facing description of each error.
pub open spec fn message_spec(e: ManifestError) -> Seq<char> {
    match e {
        ManifestError::UnknownFile => "File is not listed in the manifest"@,
        ManifestError::FileDoesNotExist => "File should exist but does not"@,
        ManifestError::MismatchedType { wanted_dir: true } => "Expected directory but got a file"@,
        ManifestError::MismatchedType { wanted_dir: false } => "Expected file but got a directory"@,
        ManifestError::MismatchedContent => "File does not match the checksum"@,
        ManifestError::ImpossibleError => "Unknown error"@,
        ManifestError::SinkError => "The sink rejected a chunk"@,
    }
}

impl ManifestError {
    /// The user-facing description of the error, as [`message_spec`] gives
    /// it.
    pub fn message(&self) -> (r: &'static str)
        ensures
            r@ == message_spec(*self),
    {
        match self {
            ManifestError::UnknownFile => "File is not listed in the manifest",
            ManifestError::FileDoesNotExist => "File should exist but does not",
            ManifestError::MismatchedType { wanted_dir: true } => "Expected directory but got a file",
            ManifestError::MismatchedType { wanted_dir: false } => "Expected file but got a directory",
            ManifestError::MismatchedContent => "File does not match the checksum",
            ManifestError::ImpossibleError => "Unknown error",
            ManifestError::SinkError => "The sink rejected a chunk",
        }
    }
}

/// Directory classification looks at the hash alone: two entries with the
/// same hash are classified alike whatever their size fields hold, and the
/// classification holds exactly of the sentinel hash.
pub proof fn lemma_directory_detection(size_a: u64, size_b: u64, sha: Seq<char>)
    ensures
        (EntrySpec { size: size_a, sha }).is_folder() == (EntrySpec {
            size: size_b,
            sha,
        }).is_folder(),
        (EntrySpec { size: size_a, sha }).is_folder() <==> sha == folder_sha(),
{
}

/// One named manifest record.
pub struct ManifestEntry {
    pub name: String,
    pub info: FileInfo,
}

/// The mapping described by a record sequence; a later record with the same
/// name overwrites an earlier one.
pub open spec fn entries_map(s: Seq<ManifestEntry>) -> Map<Seq<char>, EntrySpec>
    decreases s.len(),
{
    if s.len() == 0 {
        Map::empty()
    } else {
        entries_map(s.drop_last()).insert(s.last().name@, s.last().info@)
    }
}

/// An immutable mapping from relative path (platform-neutral separators,
/// case-sensitive as received) to [`FileInfo`].
pub struct VersionManifest {
    entries: Vec<ManifestEntry>,
}

impl View for VersionManifest {
    type V = Map<Seq<char>, EntrySpec>;

    closed spec fn view(&self) -> Map<Seq<char>, EntrySpec> {
        entries_map(self.entries@)
    }
}

proof fn lemma_entries_map_contains(s: Seq<ManifestEntry>, n: Seq<char>)
    ensures
        entries_map(s).contains_key(n) <==> exists|i: int|
            0 <= i < s.len() && #[trigger] s[i].name@ == n,
    decreases s.len(),
{
    if s.len() == 0 {
    } else {
        lemma_entries_map_contains(s.drop_last(), n);
        if entries_map(s).contains_key(n) {
            if s.last().name@ == n {
                assert(s[s.len() - 1].name@ == n);
            } else {
                let i = choose|i: int| 0 <= i < s.drop_last().len() && #[trigger] s.drop_last()[i].name@
                    == n;
                assert(s[i].name@ == n);
            }
        }
        if exists|i: int| 0 <= i < s.len() && #[trigger] s[i].name@ == n {
            let i = choose|i: int| 0 <= i < s.len() && #[trigger] s[i].name@ == n;
            if i < s.len() - 1 {
                assert(s.drop_last()[i].name@ == n);
            }
        }
    }
}

proof fn lemma_entries_map_get(s: Seq<ManifestEntry>, i: int)
    requires
        0 <= i < s.len(),
        forall|j: int| i < j < s.len() ==> #[trigger] s[j].name@ != s[i].name@,
    ensures
        entries_map(s).contains_key(s[i].name@),
        entries_map(s)[s[i].name@] == s[i].info@,
    decreases s.len(),
{
    if i == s.len() - 1 {
    } else {
        assert forall|j: int| i < j < s.drop_last().len() implies #[trigger] s.drop_last()[j].name@
            != s.drop_last()[i].name@ by {
            assert(s.drop_last()[j] == s[j]);
        }
        lemma_entries_map_get(s.drop_last(), i);
        assert(s.last().name@ != s[i].name@);
    }
}

impl VersionManifest {
    /// The names of the records are pairwise distinct, so that the record
    /// list and the map view agree.
    pub closed spec fn wf(self) -> bool {
        forall|i: int, j: int|
            0 <= i < j < self.entries@.len() ==> #[trigger] self.entries@[i].name@
                != #[trigger] self.entries@[j].name@
    }

    /// The empty manifest.
    pub fn new() -> (r: VersionManifest)
        ensures
            r.wf(),
            r@ == Map::<Seq<char>, EntrySpec>::empty(),
    {
        VersionManifest { entries: Vec::new() }
    }

    /// The number of records, which is the size of the mapping.
    pub fn len(&self) -> (r: usize)
        requires
            self.wf(),
        ensures
            r == self@.dom().len(),
            self@.dom().finite(),
    {
        proof {
            Self::lemma_entries_map_len(self.entries@);
        }
        self.entries.len()
    }

    proof fn lemma_entries_map_len(s: Seq<ManifestEntry>)
        requires
            forall|i: int, j: int|
                0 <= i < j < s.len() ==> #[trigger] s[i].name@ != #[trigger] s[j].name@,
        ensures
            entries_map(s).dom().finite(),
            entries_map(s).dom().len() == s.len(),
        decreases s.len(),
    {
        if s.len() == 0 {
            assert(entries_map(s).dom() =~= Set::<Seq<char>>::empty());
        } else {
            assert forall|i: int, j: int|
                0 <= i < j < s.drop_last().len() implies #[trigger] s.drop_last()[i].name@
                != #[trigger] s.drop_last()[j].name@ by {
                assert(s.drop_last()[i] == s[i]);
                assert(s.drop_last()[j] == s[j]);
            }
            Self::lemma_entries_map_len(s.drop_last());
            lemma_entries_map_contains(s.drop_last(), s.last().name@);
            assert(forall|i: int|
                0 <= i < s.drop_last().len() ==> #[trigger] s.drop_last()[i].name@ != s.last().name@);
            assert(!entries_map(s.drop_last()).contains_key(s.last().name@));
            assert(entries_map(s).dom() =~= entries_map(s.drop_last()).dom().insert(
                s.last().name@,
            ));
            vstd::set::axiom_set_insert_finite(entries_map(s.drop_last()).dom(), s.last().name@);
            vstd::set::axiom_set_insert_len(entries_map(s.drop_last()).dom(), s.last().name@);
        }
    }

    /// Look up a path in the manifest.
    pub fn get(&self, name: &str) -> (r: Option<&FileInfo>)
        requires
            self.wf(),
        ensures
            match r {
                Some(info) => self@.contains_key(name@) && self@[name@] == info@,
                None => !self@.contains_key(name@),
            },
    {
        let n = self.entries.len();
        let mut i: usize = 0;
        while i < n
            invariant
                self.wf(),
                n == self.entries@.len(),
                i <= n,
                forall|j: int| 0 <= j < i ==> #[trigger] self.entries@[j].name@ != name@,
            decreases n - i,
        {
            let e = &self.entries[i];
            if str_eq(e.name.as_str(), name) {
                proof {
                    lemma_entries_map_get(self.entries@, i as int);
                }
                return Some(&e.info);
            }
            i = i + 1;
        }
        proof {
            lemma_entries_map_contains(self.entries@, name@);
        }
        None
    }

    fn find_index(&self, name: &str) -> (r: Option<usize>)
        ensures
            match r {
                Some(i) => i < self.entries@.len() && self.entries@[i as int].name@ == name@,
                None => forall|j: int|
                    0 <= j < self.entries@.len() ==> #[trigger] self.entries@[j].name@ != name@,
            },
    {
        let n = self.entries.len();
        let mut i: usize = 0;
        while i < n
            invariant
                n == self.entries@.len(),
                i <= n,
                forall|j: int| 0 <= j < i ==> #[trigger] self.entries@[j].name@ != name@,
            decreases n - i,
        {
            if str_eq(self.entries[i].name.as_str(), name) {
                return Some(i);
            }
            i = i + 1;
        }
        None
    }

    proof fn lemma_entries_map_update(s: Seq<ManifestEntry>, i: int, e: ManifestEntry)
        requires
            0 <= i < s.len(),
            forall|a: int, b: int|
                0 <= a < b < s.len() ==> #[trigger] s[a].name@ != #[trigger] s[b].name@,
            e.name@ == s[i].name@,
        ensures
            entries_map(s.update(i, e)) == entries_map(s).insert(e.name@, e.info@),
        decreases s.len(),
    {
        let t = s.update(i, e);
        if i == s.len() - 1 {
            assert(t.drop_last() =~= s.drop_last());
            assert(t.last() == e);
            assert(entries_map(s.update(i, e)) =~= entries_map(s).insert(e.name@, e.info@));
        } else {
            assert forall|a: int, b: int|
                0 <= a < b < s.drop_last().len() implies #[trigger] s.drop_last()[a].name@
                != #[trigger] s.drop_last()[b].name@ by {
                assert(s.drop_last()[a] == s[a]);
                assert(s.drop_last()[b] == s[b]);
            }
            Self::lemma_entries_map_update(s.drop_last(), i, e);
            assert(t.drop_last() =~= s.drop_last().update(i, e));
            assert(t.last() == s.last());
            assert(s.last().name@ != e.name@);
            assert(entries_map(t) =~= entries_map(s).insert(e.name@, e.info@));
        }
    }

    /// Insert a record, overwriting any record with the same name.
    pub fn insert(&mut self, name: String, info: FileInfo)
        requires
            old(self).wf(),
        ensures
            final(self).wf(),
            final(self)@ == old(self)@.insert(name@, info@),
    {
        let ghost s = self.entries@;
        match self.find_index(name.as_str()) {
            Some(i) => {
                let e = ManifestEntry { name, info };
                proof {
                    Self::lemma_entries_map_update(s, i as int, e);
                }
                self.entries[i] = e;
                assert forall|a: int, b: int|
                    0 <= a < b < self.entries@.len() implies #[trigger] self.entries@[a].name@
                    != #[trigger] self.entries@[b].name@ by {
                    assert(s[a].name@ == self.entries@[a].name@);
                    assert(s[b].name@ == self.entries@[b].name@);
                }
            },
            None => {
                let e = ManifestEntry { name, info };
                self.entries.push(e);
                proof {
                    assert(self.entries@.drop_last() =~= s);
                    assert forall|a: int, b: int|
                        0 <= a < b < self.entries@.len() implies #[trigger] self.entries@[a].name@
                        != #[trigger] self.entries@[b].name@ by {
                        if b < s.len() {
                            assert(s[a].name@ == self.entries@[a].name@);
                            assert(s[b].name@ == self.entries@[b].name@);
                        } else {
                            assert(self.entries@[a] == s[a]);
                        }
                    }
                }
            },
        }
    }

    /// The number of records, for iteration by index.
    pub fn entry_count(&self) -> (r: usize)
        ensures
            r == self.entries_seq().len(),
    {
        self.entries.len()
    }

    /// The record sequence behind the map view, for iteration by index.
    pub closed spec fn entries_seq(&self) -> Seq<ManifestEntry> {
        self.entries@
    }

    /// The record at an index; every record is in the map view.
    pub fn entry_at(&self, i: usize) -> (r: &ManifestEntry)
        requires
            self.wf(),
            i < self.entries_seq().len(),
        ensures
            *r == self.entries_seq()[i as int],
            self@.contains_key(r.name@),
            self@[r.name@] == r.info@,
    {
        proof {
            lemma_entries_map_get(self.entries@, i as int);
        }
        &self.entries[i]
    }
}

} // verus!
