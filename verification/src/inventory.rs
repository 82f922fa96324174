use vstd::prelude::*;

use crate::hash::{
    alg_index, digest_of, spec_name, spec_parse_name, HashAlgorithm, HashValue, Hasher,
};
use crate::util;

verus! {

/// Holds of an algorithm list that is strictly sorted in the canonical
/// order, and therefore free of duplicates.
pub open spec fn sorted_unique_algs(s: Seq<HashAlgorithm>) -> bool {
    forall|i: int, j: int| 0 <= i < j < s.len() ==> alg_index(s[i]) < alg_index(s[j])
}

/// The canonical sorted, duplicate-free list with exactly the algorithms
/// that occur in the given list.
pub open spec fn spec_normalize_algs(s: Seq<HashAlgorithm>) -> Seq<HashAlgorithm> {
    if s.contains(HashAlgorithm::Md5) && s.contains(HashAlgorithm::Sha1) {
        seq![HashAlgorithm::Md5, HashAlgorithm::Sha1]
    } else if s.contains(HashAlgorithm::Md5) {
        seq![HashAlgorithm::Md5]
    } else if s.contains(HashAlgorithm::Sha1) {
        seq![HashAlgorithm::Sha1]
    } else {
        Seq::empty()
    }
}

/// Inventory configuration.
pub struct Configuration {
    /// Version of the tool used to build the inventory.
    version: String,

    /// Skip hidden files.
    skip_hidden: bool,

    /// Hash algorithms to use, in canonical sorted order, without
    /// duplicates.
    hash_algorithms: Vec<HashAlgorithm>,
}

impl Configuration {
    /// Spec view of the recorded tool version.
    pub closed spec fn spec_version(&self) -> Seq<char> {
        self.version@
    }

    /// Spec view of the skip-hidden flag.
    pub closed spec fn spec_skip_hidden(&self) -> bool {
        self.skip_hidden
    }

    /// Spec view of the algorithm list.
    pub closed spec fn spec_algs(&self) -> Seq<HashAlgorithm> {
        self.hash_algorithms@
    }

    /// The algorithm list is kept sorted and free of duplicates.
    pub open spec fn wf(&self) -> bool {
        sorted_unique_algs(self.spec_algs())
    }

    /// Returns a configuration with no algorithms, not skipping hidden
    /// files, carrying this tool's version string.
    pub fn new() -> (r: Configuration)
        ensures
            r.spec_version() == crate::TOOL_VERSION@,
            r.spec_skip_hidden() == false,
            r.spec_algs() == Seq::<HashAlgorithm>::empty(),
            r.wf(),
    {
        let r = Configuration {
            version: crate::TOOL_VERSION.to_owned(),
            skip_hidden: false,
            hash_algorithms: Vec::new(),
        };
        proof {
            assert(r.spec_algs() =~= Seq::<HashAlgorithm>::empty());
        }
        r
    }

    /// Sets the `skip_hidden` mode.
    pub fn set_skip_hidden(&mut self, skip_hidden: bool)
        ensures
            final(self).spec_skip_hidden() == skip_hidden,
            final(self).spec_version() == old(self).spec_version(),
            final(self).spec_algs() == old(self).spec_algs(),
    {
        self.skip_hidden = skip_hidden;
    }

    /// Sets the hash algorithms to use; the stored list is sorted in the
    /// canonical order and holds each requested algorithm once.
    pub fn set_hash_algorithms(&mut self, algorithms: &[HashAlgorithm])
        ensures
            final(self).spec_algs() == spec_normalize_algs(algorithms@),
            final(self).spec_version() == old(self).spec_version(),
            final(self).spec_skip_hidden() == old(self).spec_skip_hidden(),
            final(self).wf(),
    {
        let len = algorithms.len();
        let mut has_md5 = false;
        let mut has_sha1 = false;
        let mut i: usize = 0;
        while i < len
            invariant
                len == algorithms@.len(),
                i <= len,
                has_md5 == algorithms@.take(i as int).contains(HashAlgorithm::Md5),
                has_sha1 == algorithms@.take(i as int).contains(HashAlgorithm::Sha1),
            decreases len - i,
        {
            let a = *vstd::slice::slice_index_get(algorithms, i);
            match a {
                HashAlgorithm::Md5 => {
                    has_md5 = true;
                },
                HashAlgorithm::Sha1 => {
                    has_sha1 = true;
                },
            }
            i = i + 1;
            proof {
                assert(algorithms@.take(i as int).drop_last() =~= algorithms@.take(i - 1));
                assert(algorithms@.take(i as int).last() == algorithms@[i - 1]);
                if algorithms@.take(i as int).contains(HashAlgorithm::Md5)
                    && !algorithms@.take(i - 1).contains(HashAlgorithm::Md5) {
                    let w = choose|w: int|
                        0 <= w < i && algorithms@.take(i as int)[w] == HashAlgorithm::Md5;
                    assert(w == i - 1);
                }
                if algorithms@.take(i as int).contains(HashAlgorithm::Sha1)
                    && !algorithms@.take(i - 1).contains(HashAlgorithm::Sha1) {
                    let w = choose|w: int|
                        0 <= w < i && algorithms@.take(i as int)[w] == HashAlgorithm::Sha1;
                    assert(w == i - 1);
                }
            }
        }
        proof {
            assert(algorithms@.take(len as int) =~= algorithms@);
        }
        let mut algs: Vec<HashAlgorithm> = Vec::new();
        if has_md5 {
            algs.push(HashAlgorithm::Md5);
        }
        if has_sha1 {
            algs.push(HashAlgorithm::Sha1);
        }
        proof {
            assert(algs@ =~= spec_normalize_algs(algorithms@));
        }
        self.hash_algorithms = algs;
    }

    /// Returns the recorded tool version.
    pub fn version(&self) -> (r: &str)
        ensures
            r@ == self.spec_version(),
    {
        self.version.as_str()
    }

    /// Returns the skip-hidden flag.
    pub fn skip_hidden(&self) -> (r: bool)
        ensures
            r == self.spec_skip_hidden(),
    {
        self.skip_hidden
    }

    /// Returns the algorithm list.
    pub fn hash_algorithms(&self) -> (r: &Vec<HashAlgorithm>)
        ensures
            r@ == self.spec_algs(),
    {
        &self.hash_algorithms
    }
}

/// The pairs of algorithm and digest that the configured algorithms assign
/// to a byte sequence, in the algorithms' order.
pub open spec fn hashes_of(algs: Seq<HashAlgorithm>, data: Seq<u8>) -> Seq<
    (HashAlgorithm, Seq<u8>),
> {
    Seq::new(algs.len(), |i: int| (algs[i], digest_of(algs[i], data)))
}

/// An inventory record: one tracked file's size and hash values.
pub struct Record {
    /// Hashes of the file, keyed by algorithm, in canonical sorted order.
    hashes: Vec<(HashAlgorithm, HashValue)>,

    /// Size of the file.
    size: u64,
}

/// The algorithm-and-digest pairs a hash list denotes.
pub open spec fn pairs_view(s: Seq<(HashAlgorithm, HashValue)>) -> Seq<(HashAlgorithm, Seq<u8>)> {
    s.map_values(|p: (HashAlgorithm, HashValue)| (p.0, p.1@))
}

impl Record {
    /// Spec view of the recorded size.
    pub closed spec fn spec_size(&self) -> u64 {
        self.size
    }

    /// Spec view of the recorded hash pairs.
    pub closed spec fn spec_hashes(&self) -> Seq<(HashAlgorithm, Seq<u8>)> {
        pairs_view(self.hashes@)
    }

    /// Creates a new inventory record.
    pub fn new(size: u64, hashes: Vec<(HashAlgorithm, HashValue)>) -> (r: Record)
        ensures
            r.spec_size() == size,
            r.spec_hashes() == pairs_view(hashes@),
    {
        Record { hashes, size }
    }

    /// Returns the recorded size.
    pub fn size(&self) -> (r: u64)
        ensures
            r == self.spec_size(),
    {
        self.size
    }

    /// Returns the recorded hash pairs.
    pub fn hashes(&self) -> (r: &Vec<(HashAlgorithm, HashValue)>)
        ensures
            pairs_view(r@) == self.spec_hashes(),
    {
        &self.hashes
    }

    /// Compares the recorded hash pairs with freshly computed ones.
    pub fn hashes_equal(&self, other: &Vec<(HashAlgorithm, HashValue)>) -> (r: bool)
        ensures
            r == (self.spec_hashes() == pairs_view(other@)),
    {
        let a_len = self.hashes.len();
        if a_len != other.len() {
            proof {
                assert(self.spec_hashes().len() != pairs_view(other@).len());
            }
            return false;
        }
        let mut i: usize = 0;
        while i < a_len
            invariant
                a_len == self.hashes@.len(),
                a_len == other@.len(),
                i <= a_len,
                forall|j: int|
                    0 <= j < i ==> self.spec_hashes()[j] == #[trigger] pairs_view(other@)[j],
            decreases a_len - i,
        {
            let (a1, h1) = (self.hashes[i].0, &self.hashes[i].1);
            let (a2, h2) = (other[i].0, &other[i].1);
            if !(a1 == a2 && h1.equals(h2)) {
                proof {
                    assert(self.spec_hashes()[i as int] != pairs_view(other@)[i as int]);
                }
                return false;
            }
            i = i + 1;
        }
        proof {
            assert(self.spec_hashes() =~= pairs_view(other@));
        }
        true
    }
}

/// Inventory verification failure kind.
#[derive(Debug, Copy, Clone, PartialEq, Eq, Hash, Structural)]
pub enum FailureKind {
    /// A file is present in the inventory but missing from the repository.
    MissingFromRepository,

    /// A file is found in the repository but missing from the inventory.
    MissingFromInventory,

    /// Actual file size does not match the size recorded in the inventory.
    SizeMismatch,

    /// Actual file hash value does not match the value recorded in the
    /// inventory.
    HashMismatch,
}

/// One file of a repository snapshot: its root-relative path (with `/`
/// separators), its size as reported by the filesystem metadata, and its
/// contents.
///
/// In quick verification mode the contents are never read; a caller that
/// does not hash may hand an empty `data`.
pub struct FileEntry {
    /// Repository-relative path.
    pub path: String,

    /// Size of the file in bytes, from the filesystem metadata.
    pub size: u64,

    /// Contents of the file.
    pub data: Vec<u8>,
}

/// Holds of a path that the given configuration does not prune: either
/// hidden files are kept, or no component of the path begins with a dot.
pub open spec fn spec_visible(skip_hidden: bool, path: Seq<char>) -> bool {
    !(skip_hidden && util::spec_has_hidden_component(path))
}

/// Holds of a snapshot whose file paths are pairwise distinct, as the paths
/// produced by one traversal of a directory tree always are.
pub open spec fn unique_paths(files: Seq<FileEntry>) -> bool {
    forall|i: int, j: int| 0 <= i < j < files.len() ==> files[i].path@ != files[j].path@
}

/// The views of the strings in a list.
pub open spec fn strs_view(s: Seq<String>) -> Seq<Seq<char>> {
    s.map_values(|x: String| x@)
}

/// Holds of a string list free of duplicates.
pub open spec fn unique_strs(s: Seq<Seq<char>>) -> bool {
    forall|i: int, j: int| 0 <= i < j < s.len() ==> s[i] != s[j]
}

/// Inserts a path into a duplicate-free list unless it is already present.
fn insert_unique(v: &mut Vec<String>, file: &str)
    requires
        unique_strs(strs_view(old(v)@)),
    ensures
        unique_strs(strs_view(final(v)@)),
        forall|p: Seq<char>|
            #[trigger] strs_view(final(v)@).contains(p) <==> (strs_view(old(v)@).contains(p) || p
                == file@),
{
    let len = v.len();
    let mut i: usize = 0;
    while i < len
        invariant
            v@ == old(v)@,
            unique_strs(strs_view(v@)),
            len == v@.len(),
            i <= len,
            forall|j: int| 0 <= j < i ==> strs_view(v@)[j] != file@,
        decreases len - i,
    {
        if util::str_eq(v[i].as_str(), file) {
            proof {
                assert(strs_view(v@)[i as int] == file@);
            }
            return ;
        }
        i = i + 1;
    }
    let ghost before = strs_view(v@);
    v.push(file.to_owned());
    proof {
        assert(strs_view(v@) =~= before.push(file@));
        assert forall|p: Seq<char>| #[trigger]
            strs_view(v@).contains(p) implies (before.contains(p) || p == file@) by {
            let w = choose|w: int| 0 <= w < strs_view(v@).len() && strs_view(v@)[w] == p;
            if w < before.len() {
                assert(before[w] == p);
            }
        }
        assert forall|p: Seq<char>| (before.contains(p) || p == file@) implies #[trigger]
            strs_view(v@).contains(p) by {
            if before.contains(p) {
                let w = choose|w: int| 0 <= w < before.len() && before[w] == p;
                assert(strs_view(v@)[w] == p);
            } else {
                assert(strs_view(v@)[before.len() as int] == p);
            }
        }
    }
}

/// Inventory verification report: the classified set of discrepancies
/// found by a check, each kind holding a duplicate-free list of paths.
pub struct Report {
    /// Files present in the inventory but missing from the repository.
    missing_from_repository: Vec<String>,

    /// Files found in the repository but missing from the inventory.
    missing_from_inventory: Vec<String>,

    /// Files whose actual size does not match the recorded size.
    size_mismatch: Vec<String>,

    /// Files whose actual hashes do not match the recorded values.
    hash_mismatch: Vec<String>,
}

impl Report {
    /// The paths recorded for one failure kind.
    pub closed spec fn kind_seq(&self, kind: FailureKind) -> Seq<Seq<char>> {
        match kind {
            FailureKind::MissingFromRepository => strs_view(self.missing_from_repository@),
            FailureKind::MissingFromInventory => strs_view(self.missing_from_inventory@),
            FailureKind::SizeMismatch => strs_view(self.size_mismatch@),
            FailureKind::HashMismatch => strs_view(self.hash_mismatch@),
        }
    }

    /// Whether a path is recorded under a failure kind.
    pub open spec fn spec_contains(&self, kind: FailureKind, p: Seq<char>) -> bool {
        self.kind_seq(kind).contains(p)
    }

    /// No kind records the same path twice.
    pub open spec fn wf(&self) -> bool {
        &&& unique_strs(self.kind_seq(FailureKind::MissingFromRepository))
        &&& unique_strs(self.kind_seq(FailureKind::MissingFromInventory))
        &&& unique_strs(self.kind_seq(FailureKind::SizeMismatch))
        &&& unique_strs(self.kind_seq(FailureKind::HashMismatch))
    }

    /// Whether the report records no discrepancy at all.
    pub open spec fn spec_is_empty(&self) -> bool {
        &&& self.kind_seq(FailureKind::MissingFromRepository).len() == 0
        &&& self.kind_seq(FailureKind::MissingFromInventory).len() == 0
        &&& self.kind_seq(FailureKind::SizeMismatch).len() == 0
        &&& self.kind_seq(FailureKind::HashMismatch).len() == 0
    }

    /// Returns a new empty report.
    pub fn new() -> (r: Report)
        ensures
            r.spec_is_empty(),
            r.wf(),
    {
        Report {
            missing_from_repository: Vec::new(),
            missing_from_inventory: Vec::new(),
            size_mismatch: Vec::new(),
            hash_mismatch: Vec::new(),
        }
    }

    /// Returns `true` if the report is empty, `false` otherwise.
    pub fn is_empty(&self) -> (r: bool)
        ensures
            r == self.spec_is_empty(),
    {
        self.missing_from_repository.is_empty() && self.missing_from_inventory.is_empty()
            && self.size_mismatch.is_empty() && self.hash_mismatch.is_empty()
    }

    /// Returns a list of the discovered failure kinds, each once, in a
    /// fixed order.
    pub fn failures(&self) -> (r: Vec<FailureKind>)
        ensures
            forall|k: FailureKind| #[trigger] r@.contains(k) <==> self.kind_seq(k).len() > 0,
            forall|i: int, j: int| 0 <= i < j < r@.len() ==> r@[i] != r@[j],
    {
        let mut r: Vec<FailureKind> = Vec::new();
        if !self.missing_from_repository.is_empty() {
            r.push(FailureKind::MissingFromRepository);
        }
        if !self.missing_from_inventory.is_empty() {
            r.push(FailureKind::MissingFromInventory);
        }
        if !self.size_mismatch.is_empty() {
            r.push(FailureKind::SizeMismatch);
        }
        if !self.hash_mismatch.is_empty() {
            r.push(FailureKind::HashMismatch);
        }
        proof {
            let s = r@;
            let n_mfr: int = if self.kind_seq(FailureKind::MissingFromRepository).len() > 0 {
                1
            } else {
                0
            };
            let n_mfi: int = if self.kind_seq(FailureKind::MissingFromInventory).len() > 0 {
                1
            } else {
                0
            };
            let n_sm: int = if self.kind_seq(FailureKind::SizeMismatch).len() > 0 {
                1
            } else {
                0
            };
            assert forall|k: FailureKind| self.kind_seq(k).len() > 0 implies #[trigger]
                s.contains(k) by {
                match k {
                    FailureKind::MissingFromRepository => {
                        assert(s[0] == k);
                    },
                    FailureKind::MissingFromInventory => {
                        assert(s[n_mfr] == k);
                    },
                    FailureKind::SizeMismatch => {
                        assert(s[n_mfr + n_mfi] == k);
                    },
                    FailureKind::HashMismatch => {
                        assert(s[n_mfr + n_mfi + n_sm] == k);
                    },
                }
            }
            assert forall|k: FailureKind| #[trigger]
                s.contains(k) implies self.kind_seq(k).len() > 0 by {
                let w = choose|w: int| 0 <= w < s.len() && s[w] == k;
            }
        }
        r
    }

    /// Returns the list of files that caused the specific failure, or
    /// `None` when the kind was never recorded.
    pub fn by_failure(&self, kind: FailureKind) -> (r: Option<Vec<String>>)
        ensures
            r.is_some() <==> self.kind_seq(kind).len() > 0,
            r.is_some() ==> strs_view(r->Some_0@) == self.kind_seq(kind),
    {
        let v = match kind {
            FailureKind::MissingFromRepository => &self.missing_from_repository,
            FailureKind::MissingFromInventory => &self.missing_from_inventory,
            FailureKind::SizeMismatch => &self.size_mismatch,
            FailureKind::HashMismatch => &self.hash_mismatch,
        };
        if v.is_empty() {
            return None;
        }
        let len = v.len();
        let mut out: Vec<String> = Vec::new();
        let mut i: usize = 0;
        while i < len
            invariant
                len == v@.len(),
                i <= len,
                out@.len() == i,
                forall|j: int| 0 <= j < i ==> strs_view(out@)[j] == strs_view(v@)[j],
            decreases len - i,
        {
            out.push(v[i].as_str().to_owned());
            i = i + 1;
        }
        proof {
            assert(strs_view(out@) =~= strs_view(v@));
        }
        Some(out)
    }

    /// Records a failure in the report; recording the same path under the
    /// same kind twice keeps a single entry.
    pub fn add_failure(&mut self, file: &str, kind: FailureKind)
        requires
            old(self).wf(),
        ensures
            final(self).wf(),
            forall|k: FailureKind, p: Seq<char>|
                #[trigger] final(self).spec_contains(k, p) <==> (old(self).spec_contains(k, p) || (
                k == kind && p == file@)),
            forall|k: FailureKind|
                k != kind ==> #[trigger] final(self).kind_seq(k) == old(self).kind_seq(k),
    {
        match kind {
            FailureKind::MissingFromRepository => insert_unique(
                &mut self.missing_from_repository,
                file,
            ),
            FailureKind::MissingFromInventory => insert_unique(
                &mut self.missing_from_inventory,
                file,
            ),
            FailureKind::SizeMismatch => insert_unique(&mut self.size_mismatch, file),
            FailureKind::HashMismatch => insert_unique(&mut self.hash_mismatch, file),
        }
    }
}

/// Holds of a path that a snapshot traversal would report: some file of
/// the snapshot has this path and the configuration does not prune it.
pub open spec fn spec_in_snapshot(files: Seq<FileEntry>, skip_hidden: bool, p: Seq<char>) -> bool {
    spec_visible(skip_hidden, p) && exists|i: int|
        0 <= i < files.len() && (#[trigger] files[i]).path@ == p
}

/// As `spec_in_snapshot`, restricted to the first `k` files.
pub open spec fn spec_in_snapshot_upto(
    files: Seq<FileEntry>,
    skip_hidden: bool,
    k: int,
    p: Seq<char>,
) -> bool {
    spec_visible(skip_hidden, p) && exists|i: int| 0 <= i < k && (#[trigger] files[i]).path@ == p
}

/// The algorithms a hash list is keyed by, in order.
pub open spec fn alg_list_of(hs: Seq<(HashAlgorithm, Seq<u8>)>) -> Seq<HashAlgorithm> {
    hs.map_values(|p: (HashAlgorithm, Seq<u8>)| p.0)
}

/// In a snapshot with unique paths, two files with the same path stand at
/// the same index.
proof fn lemma_file_index_unique(files: Seq<FileEntry>, a: int, b: int)
    requires
        unique_paths(files),
        0 <= a < files.len(),
        0 <= b < files.len(),
        files[a].path@ == files[b].path@,
    ensures
        a == b,
{
}

/// Returns whether the snapshot holds a visible file with the given path.
fn find_visible(files: &Vec<FileEntry>, skip_hidden: bool, path: &str) -> (r: bool)
    ensures
        r == spec_in_snapshot(files@, skip_hidden, path@),
{
    if skip_hidden && util::has_hidden_component(path) {
        return false;
    }
    let len = files.len();
    let mut i: usize = 0;
    while i < len
        invariant
            len == files@.len(),
            i <= len,
            spec_visible(skip_hidden, path@),
            forall|j: int| 0 <= j < i ==> (#[trigger] files@[j]).path@ != path@,
        decreases len - i,
    {
        if util::str_eq(files[i].path.as_str(), path) {
            return true;
        }
        i = i + 1;
    }
    false
}

/// The relation `build` establishes between its snapshot and the inventory
/// it returns: the configuration is the one handed in, the record paths
/// are exactly the snapshot paths the configuration does not prune, and
/// each record holds its file's size and digests.
pub open spec fn spec_built_from(
    inv: Inventory,
    configuration: Configuration,
    files: Seq<FileEntry>,
) -> bool {
    &&& inv.spec_config() == configuration
    &&& forall|i: int|
        0 <= i < files.len() && spec_visible(
            configuration.spec_skip_hidden(),
            (#[trigger] files[i]).path@,
        ) ==> inv.spec_contains_path(files[i].path@)
    &&& forall|j: int|
        0 <= j < inv.spec_records().len() ==> spec_in_snapshot(
            files,
            configuration.spec_skip_hidden(),
            (#[trigger] inv.spec_records()[j]).0,
        )
    &&& forall|i: int, j: int|
        #![trigger files[i], inv.spec_records()[j]]
        0 <= i < files.len() && 0 <= j < inv.spec_records().len() && inv.spec_records()[j].0
            == files[i].path@ ==> inv.spec_records()[j].1.spec_size() == files[i].size
            && inv.spec_records()[j].1.spec_hashes() == hashes_of(
            configuration.spec_algs(),
            files[i].data@,
        )
}

/// The relation `check` establishes between the inventory, the snapshot
/// and the report it returns: each failure kind holds exactly the paths
/// drifting in that way, with hash drift reported only in full mode.
pub open spec fn spec_check_report(
    inv: Inventory,
    files: Seq<FileEntry>,
    check_hashes: bool,
    r: Report,
) -> bool {
    &&& forall|p: Seq<char>|
        #[trigger] r.spec_contains(FailureKind::MissingFromInventory, p) <==> (spec_in_snapshot(
            files,
            inv.spec_config().spec_skip_hidden(),
            p,
        ) && !inv.spec_contains_path(p))
    &&& forall|p: Seq<char>|
        #[trigger] r.spec_contains(FailureKind::MissingFromRepository, p) <==> (
        inv.spec_contains_path(p) && !spec_in_snapshot(
            files,
            inv.spec_config().spec_skip_hidden(),
            p,
        ))
    &&& forall|p: Seq<char>|
        #[trigger] r.spec_contains(FailureKind::SizeMismatch, p) <==> inv.spec_size_drift(files, p)
    &&& forall|p: Seq<char>|
        #[trigger] r.spec_contains(FailureKind::HashMismatch, p) <==> (check_hashes
            && inv.spec_hash_drift(files, p))
}

/// Inventory structure: the configuration it was built with and one record
/// per tracked file, keyed by repository-relative path.
pub struct Inventory {
    /// Inventory configuration.
    configuration: Configuration,

    /// File records, keyed by repository-relative path, paths unique.
    records: Vec<(String, Record)>,
}

impl Inventory {
    /// Spec view of the configuration.
    pub closed spec fn spec_config(&self) -> Configuration {
        self.configuration
    }

    /// Spec view of the records: path view paired with the record.
    pub closed spec fn spec_records(&self) -> Seq<(Seq<char>, Record)> {
        self.records@.map_values(|p: (String, Record)| (p.0@, p.1))
    }

    /// Whether some record carries the given path.
    pub open spec fn spec_contains_path(&self, p: Seq<char>) -> bool {
        exists|j: int|
            0 <= j < self.spec_records().len() && (#[trigger] self.spec_records()[j]).0 == p
    }

    /// Whether the given path-record pair stands in the inventory.
    pub open spec fn spec_contains_pair(&self, pair: (Seq<char>, Record)) -> bool {
        exists|j: int|
            0 <= j < self.spec_records().len() && #[trigger] self.spec_records()[j] == pair
    }

    /// Paths are unique, and every record holds exactly the configured
    /// algorithms.
    pub open spec fn wf(&self) -> bool {
        &&& self.spec_config().wf()
        &&& forall|i: int, j: int|
            0 <= i < j < self.spec_records().len() ==> (#[trigger] self.spec_records()[i]).0 != (
            #[trigger] self.spec_records()[j]).0
        &&& forall|j: int|
            0 <= j < self.spec_records().len() ==> alg_list_of(
                (#[trigger] self.spec_records()[j]).1.spec_hashes(),
            ) == self.spec_config().spec_algs()
    }

    /// Whether a visible snapshot file and a record share the given path
    /// while disagreeing on the size, considering only the first `k` files.
    pub open spec fn spec_size_drift_upto(&self, files: Seq<FileEntry>, k: int, p: Seq<char>) -> bool {
        spec_visible(self.spec_config().spec_skip_hidden(), p) && exists|i: int, j: int|
            #![trigger files[i], self.spec_records()[j]]
            0 <= i < k && 0 <= j < self.spec_records().len() && files[i].path@ == p
                && self.spec_records()[j].0 == p && files[i].size != self.spec_records()[j].1.spec_size()
    }

    /// Whether a visible snapshot file and a record share the given path
    /// and the size, while the snapshot contents hash differently,
    /// considering only the first `k` files.
    pub open spec fn spec_hash_drift_upto(&self, files: Seq<FileEntry>, k: int, p: Seq<char>) -> bool {
        spec_visible(self.spec_config().spec_skip_hidden(), p) && exists|i: int, j: int|
            #![trigger files[i], self.spec_records()[j]]
            0 <= i < k && 0 <= j < self.spec_records().len() && files[i].path@ == p
                && self.spec_records()[j].0 == p && files[i].size == self.spec_records()[j].1.spec_size()
                && self.spec_records()[j].1.spec_hashes() != hashes_of(
                self.spec_config().spec_algs(),
                files[i].data@,
            )
    }

    /// Whether the snapshot contradicts the record stored for `p` on size.
    pub open spec fn spec_size_drift(&self, files: Seq<FileEntry>, p: Seq<char>) -> bool {
        self.spec_size_drift_upto(files, files.len() as int, p)
    }

    /// Whether the snapshot contradicts the record stored for `p` on
    /// content hashes while agreeing on size.
    pub open spec fn spec_hash_drift(&self, files: Seq<FileEntry>, p: Seq<char>) -> bool {
        self.spec_hash_drift_upto(files, files.len() as int, p)
    }

    /// In a well-formed inventory, two records with the same path stand at
    /// the same index.
    proof fn lemma_record_index_unique(&self, a: int, b: int)
        requires
            self.wf(),
            0 <= a < self.spec_records().len(),
            0 <= b < self.spec_records().len(),
            self.spec_records()[a].0 == self.spec_records()[b].0,
        ensures
            a == b,
    {
        if a < b {
            assert(self.spec_records()[a].0 != self.spec_records()[b].0);
        } else if b < a {
            assert(self.spec_records()[b].0 != self.spec_records()[a].0);
        }
    }

    /// Creates a new empty inventory with the provided configuration.
    pub fn new(configuration: Configuration) -> (r: Inventory)
        requires
            configuration.wf(),
        ensures
            r.spec_config() == configuration,
            r.spec_records() == Seq::<(Seq<char>, Record)>::empty(),
            r.wf(),
    {
        let r = Inventory { records: Vec::new(), configuration };
        proof {
            assert(r.spec_records() =~= Seq::<(Seq<char>, Record)>::empty());
        }
        r
    }

    /// Returns the configuration the inventory was built with.
    pub fn configuration(&self) -> (r: &Configuration)
        ensures
            *r == self.spec_config(),
    {
        &self.configuration
    }

    /// Returns the number of records.
    pub fn record_count(&self) -> (r: usize)
        ensures
            r == self.spec_records().len(),
    {
        self.records.len()
    }

    /// Returns the index of the record with the given path, if any.
    fn find(&self, path: &str) -> (r: Option<usize>)
        ensures
            r.is_some() <==> self.spec_contains_path(path@),
            r.is_some() ==> r->Some_0 < self.spec_records().len() && self.spec_records()[
                r->Some_0 as int
            ].0 == path@,
    {
        let len = self.records.len();
        let mut i: usize = 0;
        while i < len
            invariant
                len == self.records@.len(),
                i <= len,
                forall|j: int| 0 <= j < i ==> (#[trigger] self.spec_records()[j]).0 != path@,
            decreases len - i,
        {
            if util::str_eq(self.records[i].0.as_str(), path) {
                proof {
                    assert(self.spec_records()[i as int].0 == path@);
                }
                return Some(i);
            }
            i = i + 1;
        }
        None
    }

    /// Returns the record stored for the given path, if any.
    pub fn get(&self, path: &str) -> (r: Option<&Record>)
        ensures
            r.is_some() <==> self.spec_contains_path(path@),
            r.is_some() ==> self.spec_contains_pair((path@, *r->Some_0)),
    {
        match self.find(path) {
            Some(i) => {
                let rec = &self.records[i].1;
                proof {
                    assert(self.spec_records()[i as int] == (path@, *rec));
                }
                Some(rec)
            },
            None => None,
        }
    }

    /// Produces a record for one file and appends it to the inventory.
    fn add_file(&mut self, rel_path: &str, size: u64, data: &[u8], hasher: &mut Hasher)
        requires
            old(self).wf(),
            old(hasher).wf(),
            old(hasher).fed_all(Seq::<u8>::empty()),
            old(hasher).algs() == old(self).spec_config().spec_algs(),
            !old(self).spec_contains_path(rel_path@),
        ensures
            final(self).wf(),
            final(self).spec_config() == old(self).spec_config(),
            final(self).spec_records() == old(self).spec_records().push(
                (rel_path@, final(self).spec_records().last().1),
            ),
            final(self).spec_records().last().1.spec_size() == size,
            final(self).spec_records().last().1.spec_hashes() == hashes_of(
                old(self).spec_config().spec_algs(),
                data@,
            ),
            final(hasher).wf(),
            final(hasher).algs() == old(hasher).algs(),
            final(hasher).fed_all(Seq::<u8>::empty()),
    {
        let hashes = hasher.compute(data);
        let rec = Record::new(size, hashes);
        proof {
            assert(rec.spec_hashes() =~= hashes_of(old(self).spec_config().spec_algs(), data@));
        }
        let ghost before = self.spec_records();
        self.records.push((rel_path.to_owned(), rec));
        proof {
            assert(self.spec_records() =~= before.push((rel_path@, rec)));
            assert(alg_list_of(rec.spec_hashes()) =~= self.spec_config().spec_algs());
        }
    }

    /// Builds an inventory for the provided repository snapshot: every
    /// file the configuration does not prune gains a record holding its
    /// size and its digests under the configured algorithms.
    pub fn build(configuration: Configuration, files: &Vec<FileEntry>) -> (r: Inventory)
        requires
            configuration.wf(),
            configuration.spec_algs().len() > 0,
            unique_paths(files@),
        ensures
            r.wf(),
            spec_built_from(r, configuration, files@),
    {
        let ghost cfg = configuration;
        let skip = configuration.skip_hidden();
        let mut hasher = Hasher::new(configuration.hash_algorithms());
        let mut inventory = Inventory::new(configuration);
        let len = files.len();
        let mut i: usize = 0;
        while i < len
            invariant
                len == files@.len(),
                i <= len,
                unique_paths(files@),
                skip == cfg.spec_skip_hidden(),
                inventory.wf(),
                inventory.spec_config() == cfg,
                cfg.spec_algs().len() > 0,
                hasher.wf(),
                hasher.algs() == cfg.spec_algs(),
                hasher.fed_all(Seq::<u8>::empty()),
                forall|i2: int|
                    0 <= i2 < i && spec_visible(skip, (#[trigger] files@[i2]).path@)
                        ==> inventory.spec_contains_path(files@[i2].path@),
                forall|j: int|
                    0 <= j < inventory.spec_records().len() ==> spec_in_snapshot_upto(
                        files@,
                        skip,
                        i as int,
                        (#[trigger] inventory.spec_records()[j]).0,
                    ),
                forall|i2: int, j: int|
                    #![trigger files@[i2], inventory.spec_records()[j]]
                    0 <= i2 < len && 0 <= j < inventory.spec_records().len()
                        && inventory.spec_records()[j].0 == files@[i2].path@
                        ==> inventory.spec_records()[j].1.spec_size() == files@[i2].size
                        && inventory.spec_records()[j].1.spec_hashes() == hashes_of(
                        cfg.spec_algs(),
                        files@[i2].data@,
                    ),
            decreases len - i,
        {
            let f = &files[i];
            if !(skip && util::has_hidden_component(f.path.as_str())) {
                proof {
                    if inventory.spec_contains_path(f.path@) {
                        let j = choose|j: int|
                            0 <= j < inventory.spec_records().len() && (
                            #[trigger] inventory.spec_records()[j]).0 == f.path@;
                        assert(spec_in_snapshot_upto(
                            files@,
                            skip,
                            i as int,
                            inventory.spec_records()[j].0,
                        ));
                        let i2 = choose|i2: int|
                            0 <= i2 < i && (#[trigger] files@[i2]).path@ == f.path@;
                        lemma_file_index_unique(files@, i2, i as int);
                        assert(false);
                    }
                }
                let ghost before = inventory;
                inventory.add_file(f.path.as_str(), f.size, f.data.as_slice(), &mut hasher);
                proof {
                    let n = before.spec_records().len() as int;
                    assert(inventory.spec_records()[n].0 == f.path@);
                    assert forall|i2: int|
                        0 <= i2 < i + 1 && spec_visible(skip, (#[trigger] files@[i2]).path@)
                            implies inventory.spec_contains_path(files@[i2].path@) by {
                        if i2 == i as int {
                            assert(inventory.spec_records()[n].0 == files@[i2].path@);
                        } else {
                            let j = choose|j: int|
                                0 <= j < before.spec_records().len() && (
                                #[trigger] before.spec_records()[j]).0 == files@[i2].path@;
                            assert(inventory.spec_records()[j].0 == files@[i2].path@);
                        }
                    }
                    assert forall|j: int|
                        0 <= j < inventory.spec_records().len() implies spec_in_snapshot_upto(
                        files@,
                        skip,
                        i + 1,
                        (#[trigger] inventory.spec_records()[j]).0,
                    ) by {
                        if j < n {
                            assert(spec_in_snapshot_upto(
                                files@,
                                skip,
                                i as int,
                                before.spec_records()[j].0,
                            ));
                            let w = choose|w: int|
                                0 <= w < i && (#[trigger] files@[w]).path@
                                    == before.spec_records()[j].0;
                            assert(files@[w].path@ == inventory.spec_records()[j].0);
                        } else {
                            assert(files@[i as int].path@ == inventory.spec_records()[j].0);
                        }
                    }
                    assert forall|i2: int, j: int|
                        #![trigger files@[i2], inventory.spec_records()[j]]
                        0 <= i2 < len && 0 <= j < inventory.spec_records().len()
                            && inventory.spec_records()[j].0 == files@[i2].path@ implies
                        inventory.spec_records()[j].1.spec_size() == files@[i2].size
                            && inventory.spec_records()[j].1.spec_hashes() == hashes_of(
                            cfg.spec_algs(),
                            files@[i2].data@,
                        ) by {
                        if j < n {
                            assert(inventory.spec_records()[j] == before.spec_records()[j]);
                        } else {
                            lemma_file_index_unique(files@, i2, i as int);
                        }
                    }
                }
            } else {
                proof {
                    assert forall|j: int|
                        0 <= j < inventory.spec_records().len() implies spec_in_snapshot_upto(
                        files@,
                        skip,
                        i + 1,
                        (#[trigger] inventory.spec_records()[j]).0,
                    ) by {
                        let w = choose|w: int|
                            0 <= w < i && (#[trigger] files@[w]).path@
                                == inventory.spec_records()[j].0;
                    }
                }
            }
            i = i + 1;
        }
        inventory
    }

    /// Checks the repository snapshot against the inventory and produces
    /// the verification report.
    ///
    /// Size is compared first; hashes are compared only in full mode and
    /// only when the size already matches, so a file contributes to at
    /// most one of the two mismatch kinds. In quick mode the snapshot
    /// contents are never examined.
    pub fn check(&self, files: &Vec<FileEntry>, check_hashes: bool) -> (r: Report)
        requires
            self.wf(),
            self.spec_config().spec_algs().len() > 0,
            unique_paths(files@),
        ensures
            r.wf(),
            spec_check_report(*self, files@, check_hashes, r),
    {
        let skip = self.configuration.skip_hidden();
        let mut hasher = Hasher::new(self.configuration.hash_algorithms());
        let mut report = Report::new();
        let len = files.len();
        let mut i: usize = 0;
        while i < len
            invariant
                len == files@.len(),
                i <= len,
                self.wf(),
                unique_paths(files@),
                skip == self.spec_config().spec_skip_hidden(),
                self.spec_config().spec_algs().len() > 0,
                hasher.wf(),
                hasher.algs() == self.spec_config().spec_algs(),
                hasher.fed_all(Seq::<u8>::empty()),
                report.wf(),
                forall|p: Seq<char>|
                    #[trigger] report.spec_contains(FailureKind::MissingFromInventory, p) <==> (
                    spec_in_snapshot_upto(files@, skip, i as int, p) && !self.spec_contains_path(
                        p,
                    )),
                forall|p: Seq<char>|
                    #[trigger] report.spec_contains(FailureKind::SizeMismatch, p)
                        <==> self.spec_size_drift_upto(files@, i as int, p),
                forall|p: Seq<char>|
                    #[trigger] report.spec_contains(FailureKind::HashMismatch, p) <==> (
                    check_hashes && self.spec_hash_drift_upto(files@, i as int, p)),
                report.kind_seq(FailureKind::MissingFromRepository).len() == 0,
            decreases len - i,
        {
            let f = &files[i];
            let ghost p0 = f.path@;
            let visible = !(skip && util::has_hidden_component(f.path.as_str()));
            if visible {
                match self.find(f.path.as_str()) {
                    None => {
                        report.add_failure(f.path.as_str(), FailureKind::MissingFromInventory);
                        proof {
                            assert(files@[i as int].path@ == p0);
                            assert(spec_in_snapshot_upto(files@, skip, i + 1, p0));
                            // no record carries this path, so it cannot
                            // contribute a size or hash drift:
                            if self.spec_size_drift_upto(files@, i + 1, p0) {
                                let (w, j2): (int, int) = choose|w: int, j2: int|
                                    #![trigger files@[w], self.spec_records()[j2]]
                                    0 <= w < i + 1 && 0 <= j2 < self.spec_records().len()
                                        && files@[w].path@ == p0 && self.spec_records()[j2].0 == p0
                                        && files@[w].size != self.spec_records()[j2].1.spec_size();
                                assert(self.spec_contains_path(p0));
                            }
                            if self.spec_hash_drift_upto(files@, i + 1, p0) {
                                let (w, j2): (int, int) = choose|w: int, j2: int|
                                    #![trigger files@[w], self.spec_records()[j2]]
                                    0 <= w < i + 1 && 0 <= j2 < self.spec_records().len()
                                        && files@[w].path@ == p0 && self.spec_records()[j2].0 == p0
                                        && files@[w].size == self.spec_records()[j2].1.spec_size()
                                        && self.spec_records()[j2].1.spec_hashes() != hashes_of(
                                        self.spec_config().spec_algs(),
                                        files@[w].data@,
                                    );
                                assert(self.spec_contains_path(p0));
                            }
                        }
                    },
                    Some(j) => {
                        let rec = &self.records[j].1;
                        proof {
                            assert(self.spec_records()[j as int].1 == *rec);
                            assert(self.spec_records()[j as int].0 == p0);
                            assert(self.spec_contains_path(p0));
                            assert(files@[i as int].path@ == p0);
                        }
                        if rec.size() != f.size {
                            report.add_failure(f.path.as_str(), FailureKind::SizeMismatch);
                            proof {
                                assert(self.spec_size_drift_upto(files@, i + 1, p0));
                                // with the sizes apart, this file adds no
                                // hash drift:
                                if self.spec_hash_drift_upto(files@, i + 1, p0)
                                    && !self.spec_hash_drift_upto(files@, i as int, p0) {
                                    let (w, j2): (int, int) = choose|w: int, j2: int|
                                        #![trigger files@[w], self.spec_records()[j2]]
                                        0 <= w < i + 1 && 0 <= j2 < self.spec_records().len()
                                            && files@[w].path@ == p0 && self.spec_records()[j2].0
                                            == p0 && files@[w].size
                                            == self.spec_records()[j2].1.spec_size()
                                            && self.spec_records()[j2].1.spec_hashes() != hashes_of(
                                            self.spec_config().spec_algs(),
                                            files@[w].data@,
                                        );
                                    lemma_file_index_unique(files@, w, i as int);
                                    self.lemma_record_index_unique(j2, j as int);
                                }
                            }
                        } else {
                            if check_hashes {
                                let computed = hasher.compute(f.data.as_slice());
                                proof {
                                    assert(pairs_view(computed@) =~= hashes_of(
                                        self.spec_config().spec_algs(),
                                        f.data@,
                                    ));
                                }
                                if !rec.hashes_equal(&computed) {
                                    report.add_failure(f.path.as_str(), FailureKind::HashMismatch);
                                    proof {
                                        assert(self.spec_hash_drift_upto(files@, i + 1, p0));
                                    }
                                } else {
                                    proof {
                                        // hashes agree, so this file adds no
                                        // hash drift:
                                        if self.spec_hash_drift_upto(files@, i + 1, p0)
                                            && !self.spec_hash_drift_upto(files@, i as int, p0) {
                                            let (w, j2): (int, int) = choose|w: int, j2: int|
                                                #![trigger files@[w], self.spec_records()[j2]]
                                                0 <= w < i + 1 && 0 <= j2
                                                    < self.spec_records().len() && files@[w].path@
                                                    == p0 && self.spec_records()[j2].0 == p0
                                                    && files@[w].size
                                                    == self.spec_records()[j2].1.spec_size()
                                                    && self.spec_records()[j2].1.spec_hashes()
                                                    != hashes_of(
                                                    self.spec_config().spec_algs(),
                                                    files@[w].data@,
                                                );
                                            lemma_file_index_unique(files@, w, i as int);
                                            self.lemma_record_index_unique(j2, j as int);
                                        }
                                    }
                                }
                            }
                            proof {
                                // the sizes agree, so this file adds no size
                                // drift:
                                if self.spec_size_drift_upto(files@, i + 1, p0)
                                    && !self.spec_size_drift_upto(files@, i as int, p0) {
                                    let (w, j2): (int, int) = choose|w: int, j2: int|
                                        #![trigger files@[w], self.spec_records()[j2]]
                                        0 <= w < i + 1 && 0 <= j2 < self.spec_records().len()
                                            && files@[w].path@ == p0 && self.spec_records()[j2].0
                                            == p0 && files@[w].size
                                            != self.spec_records()[j2].1.spec_size();
                                    lemma_file_index_unique(files@, w, i as int);
                                    self.lemma_record_index_unique(j2, j as int);
                                }
                            }
                        }
                    },
                }
            }
            proof {
                // extending the scanned prefix by one file can only add
                // this file's path to any failure set:
                assert forall|p: Seq<char>|
                    spec_in_snapshot_upto(files@, skip, i + 1, p) && !spec_in_snapshot_upto(
                        files@,
                        skip,
                        i as int,
                        p,
                    ) implies p == p0 && spec_visible(skip, p0) by {
                    let w = choose|w: int| 0 <= w < i + 1 && (#[trigger] files@[w]).path@ == p;
                }
                assert forall|p: Seq<char>|
                    self.spec_size_drift_upto(files@, i + 1, p) && !self.spec_size_drift_upto(
                        files@,
                        i as int,
                        p,
                    ) implies p == p0 && spec_visible(skip, p0) by {
                    let (w, j2): (int, int) = choose|w: int, j2: int|
                        #![trigger files@[w], self.spec_records()[j2]]
                        0 <= w < i + 1 && 0 <= j2 < self.spec_records().len() && files@[w].path@
                            == p && self.spec_records()[j2].0 == p && files@[w].size
                            != self.spec_records()[j2].1.spec_size();
                }
                assert forall|p: Seq<char>|
                    self.spec_hash_drift_upto(files@, i + 1, p) && !self.spec_hash_drift_upto(
                        files@,
                        i as int,
                        p,
                    ) implies p == p0 && spec_visible(skip, p0) by {
                    let (w, j2): (int, int) = choose|w: int, j2: int|
                        #![trigger files@[w], self.spec_records()[j2]]
                        0 <= w < i + 1 && 0 <= j2 < self.spec_records().len() && files@[w].path@
                            == p && self.spec_records()[j2].0 == p && files@[w].size
                            == self.spec_records()[j2].1.spec_size()
                            && self.spec_records()[j2].1.spec_hashes() != hashes_of(
                            self.spec_config().spec_algs(),
                            files@[w].data@,
                        );
                }
            }
            i = i + 1;
        }
        let rlen = self.records.len();
        let mut k: usize = 0;
        while k < rlen
            invariant
                rlen == self.records@.len(),
                k <= rlen,
                len == files@.len(),
                self.wf(),
                skip == self.spec_config().spec_skip_hidden(),
                report.wf(),
                forall|p: Seq<char>|
                    #[trigger] report.spec_contains(FailureKind::MissingFromInventory, p) <==> (
                    spec_in_snapshot(files@, skip, p) && !self.spec_contains_path(p)),
                forall|p: Seq<char>|
                    #[trigger] report.spec_contains(FailureKind::SizeMismatch, p)
                        <==> self.spec_size_drift(files@, p),
                forall|p: Seq<char>|
                    #[trigger] report.spec_contains(FailureKind::HashMismatch, p) <==> (
                    check_hashes && self.spec_hash_drift(files@, p)),
                forall|p: Seq<char>|
                    #[trigger] report.spec_contains(FailureKind::MissingFromRepository, p) <==> (
                    exists|j: int|
                        0 <= j < k && (#[trigger] self.spec_records()[j]).0 == p
                            && !spec_in_snapshot(files@, skip, p)),
            decreases rlen - k,
        {
            let p = &self.records[k].0;
            let ghost p0 = p@;
            proof {
                assert(self.spec_records()[k as int].0 == p0);
            }
            if !find_visible(files, skip, p.as_str()) {
                report.add_failure(p.as_str(), FailureKind::MissingFromRepository);
                proof {
                    assert(exists|j: int|
                        0 <= j < k + 1 && (#[trigger] self.spec_records()[j]).0 == p0
                            && !spec_in_snapshot(files@, skip, p0));
                }
            }
            proof {
                // the one record looked at in this step is the only path
                // this step could have recorded:
                assert forall|p2: Seq<char>|
                    #![trigger spec_in_snapshot(files@, skip, p2)]
                    (exists|j: int|
                        0 <= j < k + 1 && (#[trigger] self.spec_records()[j]).0 == p2
                            && !spec_in_snapshot(files@, skip, p2)) && !(exists|j: int|
                        0 <= j < k && (#[trigger] self.spec_records()[j]).0 == p2
                            && !spec_in_snapshot(files@, skip, p2)) implies p2 == p0 by {
                    let j = choose|j: int|
                        0 <= j < k + 1 && (#[trigger] self.spec_records()[j]).0 == p2
                            && !spec_in_snapshot(files@, skip, p2);
                }
            }
            k = k + 1;
        }
        proof {
            assert forall|p: Seq<char>| #[trigger]
                report.spec_contains(FailureKind::MissingFromRepository, p) implies (
            self.spec_contains_path(p) && !spec_in_snapshot(files@, skip, p)) by {}
            assert forall|p: Seq<char>|
                (self.spec_contains_path(p) && !spec_in_snapshot(files@, skip, p)) implies
                #[trigger] report.spec_contains(FailureKind::MissingFromRepository, p) by {
                let j = choose|j: int|
                    0 <= j < self.spec_records().len() && (#[trigger] self.spec_records()[j]).0
                        == p;
            }
        }
        report
    }

    /// Updates the inventory from a repository snapshot: every visible
    /// snapshot file without a record gains one, records for paths the
    /// snapshot no longer holds are removed when `remove_missing` is set,
    /// and records whose path is still present are never re-examined.
    pub fn update(&mut self, files: &Vec<FileEntry>, remove_missing: bool)
        requires
            old(self).wf(),
            old(self).spec_config().spec_algs().len() > 0,
            unique_paths(files@),
        ensures
            final(self).wf(),
            final(self).spec_config() == old(self).spec_config(),
            // records whose path the snapshot still shows, and all records
            // when not removing, stay exactly as they were:
            forall|j: int|
                0 <= j < old(self).spec_records().len() && (!remove_missing || spec_in_snapshot(
                    files@,
                    old(self).spec_config().spec_skip_hidden(),
                    (#[trigger] old(self).spec_records()[j]).0,
                )) ==> final(self).spec_contains_pair(old(self).spec_records()[j]),
            // with remove_missing, records for paths the snapshot no
            // longer shows are gone:
            remove_missing ==> forall|j: int|
                0 <= j < old(self).spec_records().len() && !spec_in_snapshot(
                    files@,
                    old(self).spec_config().spec_skip_hidden(),
                    (#[trigger] old(self).spec_records()[j]).0,
                ) ==> !final(self).spec_contains_path(old(self).spec_records()[j].0),
            // every visible snapshot file is now tracked:
            forall|i: int|
                0 <= i < files@.len() && spec_visible(
                    old(self).spec_config().spec_skip_hidden(),
                    (#[trigger] files@[i]).path@,
                ) ==> final(self).spec_contains_path(files@[i].path@),
            // a record added for a previously untracked path holds the
            // snapshot file's size and digests:
            forall|i: int, j: int|
                #![trigger files@[i], final(self).spec_records()[j]]
                0 <= i < files@.len() && !old(self).spec_contains_path(files@[i].path@) && 0 <= j
                    < final(self).spec_records().len() && final(self).spec_records()[j].0
                    == files@[i].path@ ==> final(self).spec_records()[j].1.spec_size()
                    == files@[i].size && final(self).spec_records()[j].1.spec_hashes() == hashes_of(
                    old(self).spec_config().spec_algs(),
                    files@[i].data@,
                ),
            // nothing else appears:
            forall|j: int|
                0 <= j < final(self).spec_records().len() ==> old(self).spec_contains_path(
                    (#[trigger] final(self).spec_records()[j]).0,
                ) || spec_in_snapshot(
                    files@,
                    old(self).spec_config().spec_skip_hidden(),
                    final(self).spec_records()[j].0,
                ),
    {
        let skip = self.configuration.skip_hidden();
        let mut hasher = Hasher::new(self.configuration.hash_algorithms());
        let len = files.len();
        let ghost n0 = old(self).spec_records().len() as int;
        let mut i: usize = 0;
        while i < len
            invariant
                len == files@.len(),
                i <= len,
                unique_paths(files@),
                self.wf(),
                self.spec_config() == old(self).spec_config(),
                skip == self.spec_config().spec_skip_hidden(),
                self.spec_config().spec_algs().len() > 0,
                hasher.wf(),
                hasher.algs() == self.spec_config().spec_algs(),
                hasher.fed_all(Seq::<u8>::empty()),
                n0 <= self.spec_records().len(),
                n0 == old(self).spec_records().len(),
                forall|j: int|
                    0 <= j < n0 ==> #[trigger] self.spec_records()[j] == old(
                        self,
                    ).spec_records()[j],
                // new records come from visible files seen so far, with
                // previously untracked paths, and hold their content:
                forall|j: int|
                    n0 <= j < self.spec_records().len() ==> spec_in_snapshot_upto(
                        files@,
                        skip,
                        i as int,
                        (#[trigger] self.spec_records()[j]).0,
                    ) && !old(self).spec_contains_path(self.spec_records()[j].0),
                forall|i2: int, j: int|
                    #![trigger files@[i2], self.spec_records()[j]]
                    0 <= i2 < len && n0 <= j < self.spec_records().len()
                        && self.spec_records()[j].0 == files@[i2].path@
                        ==> self.spec_records()[j].1.spec_size() == files@[i2].size
                        && self.spec_records()[j].1.spec_hashes() == hashes_of(
                        self.spec_config().spec_algs(),
                        files@[i2].data@,
                    ),
                // every visible file seen so far is tracked:
                forall|i2: int|
                    0 <= i2 < i && spec_visible(skip, (#[trigger] files@[i2]).path@)
                        ==> self.spec_contains_path(files@[i2].path@),
            decreases len - i,
        {
            let f = &files[i];
            let ghost p0 = f.path@;
            if !(skip && util::has_hidden_component(f.path.as_str())) {
                match self.find(f.path.as_str()) {
                    Some(_) => {},
                    None => {
                        let ghost before = *self;
                        self.add_file(f.path.as_str(), f.size, f.data.as_slice(), &mut hasher);
                        proof {
                            let n = before.spec_records().len() as int;
                            assert(self.spec_records() == before.spec_records().push(
                                (p0, self.spec_records().last().1),
                            ));
                            assert(self.spec_records()[n].0 == p0);
                            assert(files@[i as int].path@ == p0);
                            assert forall|j: int|
                                0 <= j < n0 implies #[trigger] self.spec_records()[j]
                                == old(self).spec_records()[j] by {
                                assert(self.spec_records()[j] == before.spec_records()[j]);
                            }
                            assert forall|j: int|
                                n0 <= j < self.spec_records().len() implies spec_in_snapshot_upto(
                                files@,
                                skip,
                                i + 1,
                                (#[trigger] self.spec_records()[j]).0,
                            ) && !old(self).spec_contains_path(self.spec_records()[j].0) by {
                                if j < n {
                                    assert(self.spec_records()[j] == before.spec_records()[j]);
                                    assert(spec_in_snapshot_upto(
                                        files@,
                                        skip,
                                        i as int,
                                        before.spec_records()[j].0,
                                    ));
                                    let w = choose|w: int|
                                        0 <= w < i && (#[trigger] files@[w]).path@
                                            == before.spec_records()[j].0;
                                    assert(files@[w].path@ == self.spec_records()[j].0);
                                } else {
                                    assert(spec_in_snapshot_upto(files@, skip, i + 1, p0));
                                    // the path was not tracked before this
                                    // pass: it is not among the first n0
                                    // records, and the later ones were all
                                    // untracked themselves
                                    if old(self).spec_contains_path(p0) {
                                        let j2 = choose|j2: int|
                                            0 <= j2 < old(self).spec_records().len() && (
                                            #[trigger] old(self).spec_records()[j2]).0 == p0;
                                        assert(before.spec_records()[j2]
                                            == old(self).spec_records()[j2]);
                                        assert(before.spec_contains_path(p0));
                                        assert(false);
                                    }
                                }
                            }
                            assert forall|i2: int, j: int|
                                #![trigger files@[i2], self.spec_records()[j]]
                                0 <= i2 < len && n0 <= j < self.spec_records().len()
                                    && self.spec_records()[j].0 == files@[i2].path@ implies
                                self.spec_records()[j].1.spec_size() == files@[i2].size
                                    && self.spec_records()[j].1.spec_hashes() == hashes_of(
                                    self.spec_config().spec_algs(),
                                    files@[i2].data@,
                                ) by {
                                if j < n {
                                    assert(self.spec_records()[j] == before.spec_records()[j]);
                                } else {
                                    lemma_file_index_unique(files@, i2, i as int);
                                }
                            }
                            assert forall|i2: int|
                                0 <= i2 < i + 1 && spec_visible(
                                    skip,
                                    (#[trigger] files@[i2]).path@,
                                ) implies self.spec_contains_path(files@[i2].path@) by {
                                if i2 == i as int {
                                    assert(self.spec_records()[n].0 == files@[i2].path@);
                                } else {
                                    let j = choose|j: int|
                                        0 <= j < before.spec_records().len() && (
                                        #[trigger] before.spec_records()[j]).0 == files@[i2].path@;
                                    assert(self.spec_records()[j].0 == files@[i2].path@);
                                }
                            }
                        }
                    },
                }
            }
            proof {
                assert forall|j: int|
                    n0 <= j < self.spec_records().len() implies spec_in_snapshot_upto(
                    files@,
                    skip,
                    i + 1,
                    (#[trigger] self.spec_records()[j]).0,
                ) && !old(self).spec_contains_path(self.spec_records()[j].0) by {
                    let w = choose|w: int|
                        0 <= w < i + 1 && (#[trigger] files@[w]).path@ == self.spec_records()[j].0;
                }
            }
            i = i + 1;
        }
        proof {
            assert forall|j: int|
                0 <= j < old(self).spec_records().len() implies self.spec_contains_pair(
                #[trigger] old(self).spec_records()[j],
            ) by {
                assert(self.spec_records()[j] == old(self).spec_records()[j]);
            }
        }
        if remove_missing {
            let ghost mid = *self;
            let mut kept: Vec<(String, Record)> = Vec::new();
            let ghost orig = self.records@;
            let ghost mut done: int = 0;
            let ghost mut src: Seq<int> = Seq::empty();
            while self.records.len() > 0
                invariant
                    0 <= done <= orig.len(),
                    self.records@ == orig.subrange(done, orig.len() as int),
                    self.configuration == mid.configuration,
                    mid.records@ == orig,
                    mid.wf(),
                    len == files@.len(),
                    skip == mid.spec_config().spec_skip_hidden(),
                    src.len() == kept@.len(),
                    // each kept record is one of the processed records, in
                    // order, and the snapshot still shows its path:
                    forall|j2: int|
                        #![trigger src[j2]]
                        0 <= j2 < src.len() ==> 0 <= src[j2] < done && kept@[j2] == orig[src[j2]]
                            && spec_in_snapshot(files@, skip, orig[src[j2]].0@),
                    forall|a: int, b: int| 0 <= a < b < src.len() ==> src[a] < src[b],
                    // each processed record that the snapshot still shows
                    // was kept:
                    forall|j: int|
                        0 <= j < done && spec_in_snapshot(files@, skip, (#[trigger] orig[j]).0@)
                            ==> exists|j2: int| 0 <= j2 < src.len() && #[trigger] src[j2] == j,
                decreases self.records.len(),
            {
                let ghost k_pre = self.records@;
                let (p, rec) = self.records.remove(0);
                proof {
                    assert(k_pre[0] == orig[done]);
                    assert(self.records@ =~= orig.subrange(done + 1, orig.len() as int));
                }
                let keep = find_visible(files, skip, p.as_str());
                let ghost src_before = src;
                if keep {
                    kept.push((p, rec));
                    proof {
                        src = src.push(done);
                        assert(src[src.len() - 1] == done);
                        assert(kept@[src.len() - 1] == orig[done]);
                    }
                }
                proof {
                    assert forall|j: int|
                        0 <= j < done + 1 && spec_in_snapshot(files@, skip, (#[trigger] orig[j]).0@)
                            implies exists|j2: int|
                            0 <= j2 < src.len() && #[trigger] src[j2] == j by {
                        if j == done {
                            assert(keep);
                            assert(src[src.len() - 1] == j);
                        } else {
                            let j2 = choose|j2: int|
                                0 <= j2 < src_before.len() && #[trigger] src_before[j2] == j;
                            assert(src[j2] == j);
                        }
                    }
                    done = done + 1;
                }
            }
            self.records = kept;
            proof {
                assert(done == orig.len());
                // uniqueness carries over from the state before removal:
                assert forall|a: int, b: int|
                    0 <= a < b < self.spec_records().len() implies (
                #[trigger] self.spec_records()[a]).0 != (#[trigger] self.spec_records()[b]).0 by {
                    assert(src[a] < src[b]);
                    assert(mid.spec_records()[src[a]].0 == self.spec_records()[a].0);
                    assert(mid.spec_records()[src[b]].0 == self.spec_records()[b].0);
                }
                // every kept record is a record of the state before
                // removal whose path the snapshot still shows:
                assert forall|j2: int|
                    0 <= j2 < self.spec_records().len() implies (#[trigger] self.spec_records()[j2])
                    == mid.spec_records()[src[j2]] && spec_in_snapshot(
                    files@,
                    skip,
                    mid.spec_records()[src[j2]].0,
                ) by {
                    assert(kept@[j2] == orig[src[j2]]);
                }
                // every record of the state before removal whose path the
                // snapshot still shows was kept:
                assert forall|j: int|
                    0 <= j < mid.spec_records().len() && spec_in_snapshot(
                        files@,
                        skip,
                        (#[trigger] mid.spec_records()[j]).0,
                    ) implies self.spec_contains_pair(mid.spec_records()[j]) by {
                    assert(spec_in_snapshot(files@, skip, orig[j].0@));
                    let j2 = choose|j2: int| 0 <= j2 < src.len() && #[trigger] src[j2] == j;
                    assert(self.spec_records()[j2] == mid.spec_records()[j]);
                }
                // a removed path is gone entirely:
                assert forall|j: int|
                    0 <= j < mid.spec_records().len() && !spec_in_snapshot(
                        files@,
                        skip,
                        (#[trigger] mid.spec_records()[j]).0,
                    ) implies !self.spec_contains_path(mid.spec_records()[j].0) by {
                    if self.spec_contains_path(mid.spec_records()[j].0) {
                        let j2 = choose|j2: int|
                            0 <= j2 < self.spec_records().len() && (
                            #[trigger] self.spec_records()[j2]).0 == mid.spec_records()[j].0;
                        assert(self.spec_records()[j2] == mid.spec_records()[src[j2]]);
                        mid.lemma_record_index_unique(src[j2], j);
                        assert(false);
                    }
                }
            }
            proof {
                // carry the final ensures across the two phases:
                assert forall|j: int|
                    0 <= j < old(self).spec_records().len() && spec_in_snapshot(
                        files@,
                        skip,
                        (#[trigger] old(self).spec_records()[j]).0,
                    ) implies self.spec_contains_pair(old(self).spec_records()[j]) by {
                    assert(mid.spec_records()[j] == old(self).spec_records()[j]);
                }
                assert forall|j: int|
                    0 <= j < old(self).spec_records().len() && !spec_in_snapshot(
                        files@,
                        skip,
                        (#[trigger] old(self).spec_records()[j]).0,
                    ) implies !self.spec_contains_path(old(self).spec_records()[j].0) by {
                    assert(mid.spec_records()[j] == old(self).spec_records()[j]);
                }
                assert forall|i2: int|
                    0 <= i2 < files@.len() && spec_visible(skip, (#[trigger] files@[i2]).path@)
                        implies self.spec_contains_path(files@[i2].path@) by {
                    let j = choose|j: int|
                        0 <= j < mid.spec_records().len() && (#[trigger] mid.spec_records()[j]).0
                            == files@[i2].path@;
                    assert(spec_in_snapshot(files@, skip, mid.spec_records()[j].0));
                    assert(self.spec_contains_pair(mid.spec_records()[j]));
                    let j2 = choose|j2: int|
                        0 <= j2 < self.spec_records().len() && #[trigger] self.spec_records()[j2]
                            == mid.spec_records()[j];
                }
                assert forall|i2: int, j2: int|
                    #![trigger files@[i2], self.spec_records()[j2]]
                    0 <= i2 < files@.len() && !old(self).spec_contains_path(files@[i2].path@) && 0
                        <= j2 < self.spec_records().len() && self.spec_records()[j2].0
                        == files@[i2].path@ implies self.spec_records()[j2].1.spec_size()
                        == files@[i2].size && self.spec_records()[j2].1.spec_hashes() == hashes_of(
                        old(self).spec_config().spec_algs(),
                        files@[i2].data@,
                    ) by {
                    assert(self.spec_records()[j2] == mid.spec_records()[src[j2]]);
                    if src[j2] < n0 {
                        assert(mid.spec_records()[src[j2]] == old(self).spec_records()[src[j2]]);
                        assert(old(self).spec_records()[src[j2]].0 == files@[i2].path@);
                        assert(false);
                    }
                }
                assert forall|j2: int|
                    0 <= j2 < self.spec_records().len() implies old(self).spec_contains_path(
                    (#[trigger] self.spec_records()[j2]).0,
                ) || spec_in_snapshot(files@, skip, self.spec_records()[j2].0) by {
                    assert(self.spec_records()[j2] == mid.spec_records()[src[j2]]);
                    if src[j2] < n0 {
                        assert(mid.spec_records()[src[j2]] == old(self).spec_records()[src[j2]]);
                        assert(old(self).spec_records()[src[j2]].0 == self.spec_records()[j2].0);
                    }
                }
            }
        } else {
            proof {
                assert forall|j2: int|
                    0 <= j2 < self.spec_records().len() implies old(self).spec_contains_path(
                    (#[trigger] self.spec_records()[j2]).0,
                ) || spec_in_snapshot(files@, skip, self.spec_records()[j2].0) by {
                    if j2 < n0 {
                        assert(self.spec_records()[j2] == old(self).spec_records()[j2]);
                    } else {
                        let w = choose|w: int|
                            0 <= w < len && (#[trigger] files@[w]).path@
                                == self.spec_records()[j2].0;
                    }
                }
            }
        }
    }
}

/// The relation `to_document` establishes: the document renders the
/// inventory's configuration and records with canonical algorithm names
/// and lowercase hex strings, in order.
pub open spec fn spec_document_of(inv: Inventory, doc: crate::document::InventoryDoc) -> bool {
    &&& doc.version@ == inv.spec_config().spec_version()
    &&& doc.skip_hidden == inv.spec_config().spec_skip_hidden()
    &&& doc.spec_alg_names() == crate::document::spec_names_of_algs(inv.spec_config().spec_algs())
    &&& doc.spec_recs().len() == inv.spec_records().len()
    &&& forall|j: int|
        0 <= j < inv.spec_records().len() ==> (#[trigger] doc.spec_recs()[j]).0
            == inv.spec_records()[j].0 && doc.spec_recs()[j].1.size
            == inv.spec_records()[j].1.spec_size() && doc.spec_recs()[j].1.spec_hashes()
            == crate::document::spec_doc_hashes_of(inv.spec_records()[j].1.spec_hashes())
}

/// The relation `from_document` establishes on success: the inventory
/// holds what the document decodes to, record for record.
pub open spec fn spec_parsed_into(doc: crate::document::InventoryDoc, inv: Inventory) -> bool {
    &&& inv.spec_config().spec_version() == doc.version@
    &&& inv.spec_config().spec_skip_hidden() == doc.skip_hidden
    &&& inv.spec_config().spec_algs() == crate::document::spec_algs_of_names(doc.spec_alg_names())
    &&& inv.spec_records().len() == doc.spec_recs().len()
    &&& forall|j: int|
        0 <= j < inv.spec_records().len() ==> (#[trigger] inv.spec_records()[j]).0
            == doc.spec_recs()[j].0 && inv.spec_records()[j].1.spec_size()
            == doc.spec_recs()[j].1.size && inv.spec_records()[j].1.spec_hashes()
            == crate::document::spec_parsed_hashes_of(doc.spec_recs()[j].1.spec_hashes())
}

impl Inventory {
    /// Renders the inventory in the shape of the persisted document:
    /// plain strings and numbers, ready for a JSON encoder.
    pub fn to_document(&self) -> (doc: crate::document::InventoryDoc)
        ensures
            spec_document_of(*self, doc),
    {
        let mut names: Vec<String> = Vec::new();
        let n_algs = self.configuration.hash_algorithms.len();
        let mut i: usize = 0;
        while i < n_algs
            invariant
                n_algs == self.configuration.hash_algorithms@.len(),
                i <= n_algs,
                names@.len() == i,
                forall|k: int|
                    0 <= k < i ==> #[trigger] strs_view(names@)[k] == spec_name(
                        self.spec_config().spec_algs()[k],
                    ),
            decreases n_algs - i,
        {
            let a = self.configuration.hash_algorithms[i];
            let ghost prev = strs_view(names@);
            names.push(a.name().to_owned());
            proof {
                assert(strs_view(names@) =~= prev.push(
                    spec_name(self.spec_config().spec_algs()[i as int]),
                ));
            }
            i = i + 1;
        }
        proof {
            assert(strs_view(names@) =~= crate::document::spec_names_of_algs(
                self.spec_config().spec_algs(),
            ));
        }
        let n_recs = self.records.len();
        let mut records: Vec<(String, crate::document::RecordDoc)> = Vec::new();
        let mut j: usize = 0;
        while j < n_recs
            invariant
                n_recs == self.records@.len(),
                j <= n_recs,
                records@.len() == j,
                forall|k: int|
                    #![trigger records@[k]]
                    0 <= k < j ==> records@[k].0@ == self.spec_records()[k].0 && records@[k].1.size
                        == self.spec_records()[k].1.spec_size()
                        && records@[k].1.spec_hashes() == crate::document::spec_doc_hashes_of(
                        self.spec_records()[k].1.spec_hashes(),
                    ),
            decreases n_recs - j,
        {
            let rec = &self.records[j].1;
            let n_hs = rec.hashes.len();
            let mut hs: Vec<(String, String)> = Vec::new();
            let mut h: usize = 0;
            while h < n_hs
                invariant
                    n_hs == rec.hashes@.len(),
                    h <= n_hs,
                    hs@.len() == h,
                    forall|k: int|
                        0 <= k < h ==> #[trigger] crate::document::hash_pairs_view(hs@)[k] == (
                        spec_name(rec.spec_hashes()[k].0),
                        util::hex_of(rec.spec_hashes()[k].1),
                        ),
                decreases n_hs - h,
            {
                let a = rec.hashes[h].0;
                let v = &rec.hashes[h].1;
                proof {
                    assert(rec.spec_hashes()[h as int] == (a, v@));
                }
                let ghost prevh = crate::document::hash_pairs_view(hs@);
                hs.push((a.name().to_owned(), v.to_hex()));
                proof {
                    assert(crate::document::hash_pairs_view(hs@) =~= prevh.push(
                        (spec_name(a), util::hex_of(v@)),
                    ));
                }
                h = h + 1;
            }
            proof {
                assert(crate::document::hash_pairs_view(hs@)
                    =~= crate::document::spec_doc_hashes_of(rec.spec_hashes()));
            }
            let rd = crate::document::RecordDoc { hashes: hs, size: rec.size() };
            records.push((self.records[j].0.as_str().to_owned(), rd));
            proof {
                assert(self.spec_records()[j as int].1 == *rec);
            }
            j = j + 1;
        }
        let doc = crate::document::InventoryDoc {
            version: self.configuration.version.as_str().to_owned(),
            skip_hidden: self.configuration.skip_hidden,
            hash_algorithms: names,
            records,
        };
        proof {
            assert forall|k: int|
                0 <= k < self.spec_records().len() implies (#[trigger] doc.spec_recs()[k]).0
                == self.spec_records()[k].0 && doc.spec_recs()[k].1.size
                == self.spec_records()[k].1.spec_size() && doc.spec_recs()[k].1.spec_hashes()
                == crate::document::spec_doc_hashes_of(self.spec_records()[k].1.spec_hashes()) by {
                assert(doc.spec_recs()[k] == (doc.records@[k].0@, doc.records@[k].1));
            }
        }
        doc
    }

    /// Parses an inventory back from the document shape, rejecting
    /// unknown algorithm names, malformed hex, and any structure that no
    /// inventory would serialize to.
    pub fn from_document(doc: &crate::document::InventoryDoc) -> (r: Result<
        Inventory,
        crate::document::DocumentError,
    >)
        ensures
            r.is_ok() <==> crate::document::spec_valid_document(*doc),
            r.is_ok() ==> r->Ok_0.wf() && spec_parsed_into(*doc, r->Ok_0),
    {
        let na = doc.hash_algorithms.len();
        let mut algs: Vec<HashAlgorithm> = Vec::new();
        let mut i: usize = 0;
        while i < na
            invariant
                na == doc.hash_algorithms@.len(),
                i <= na,
                algs@.len() == i,
                forall|k: int|
                    0 <= k < i ==> #[trigger] spec_parse_name(doc.spec_alg_names()[k]) == Some(
                        algs@[k],
                    ),
            decreases na - i,
        {
            match HashAlgorithm::from_name(doc.hash_algorithms[i].as_str()) {
                Ok(a) => {
                    algs.push(a);
                },
                Err(e) => {
                    proof {
                        assert(spec_parse_name(doc.spec_alg_names()[i as int]).is_none());
                        assert(!crate::document::spec_parsed_algs_ok(doc.spec_alg_names()));
                    }
                    return Err(crate::document::DocumentError::Algorithm(e));
                },
            }
            i = i + 1;
        }
        proof {
            assert(algs@ =~= crate::document::spec_algs_of_names(doc.spec_alg_names()));
        }
        let mut i: usize = 1;
        while i < algs.len()
            invariant
                algs@ == crate::document::spec_algs_of_names(doc.spec_alg_names()),
                1 <= i,
                forall|a: int, b: int|
                    0 <= a < b < i ==> alg_index(algs@[a]) < alg_index(algs@[b]),
            decreases algs@.len() - i,
        {
            if algs[i - 1].order() >= algs[i].order() {
                proof {
                    assert(!sorted_unique_algs(algs@));
                }
                return Err(crate::document::DocumentError::Structure);
            }
            i = i + 1;
        }
        let configuration = Configuration {
            version: doc.version.as_str().to_owned(),
            skip_hidden: doc.skip_hidden,
            hash_algorithms: algs,
        };
        let ghost spec_algs = configuration.spec_algs();
        let nr = doc.records.len();
        let mut records: Vec<(String, Record)> = Vec::new();
        let mut j: usize = 0;
        while j < nr
            invariant
                nr == doc.records@.len(),
                j <= nr,
                records@.len() == j,
                spec_algs == configuration.spec_algs(),
                spec_algs == crate::document::spec_algs_of_names(doc.spec_alg_names()),
                sorted_unique_algs(spec_algs),
                forall|k: int|
                    #![trigger records@[k]]
                    0 <= k < j ==> records@[k].0@ == doc.spec_recs()[k].0
                        && records@[k].1.spec_size() == doc.spec_recs()[k].1.size
                        && records@[k].1.spec_hashes() == crate::document::spec_parsed_hashes_of(
                        doc.spec_recs()[k].1.spec_hashes(),
                    ) && alg_list_of(records@[k].1.spec_hashes()) == spec_algs,
                forall|k: int|
                    0 <= k < j ==> crate::document::spec_valid_record_doc(
                        (#[trigger] doc.spec_recs()[k]).1,
                        spec_algs,
                    ),
                forall|a: int, b: int|
                    0 <= a < b < j ==> (#[trigger] doc.spec_recs()[a]).0 != (
                    #[trigger] doc.spec_recs()[b]).0,
            decreases nr - j,
        {
            let path = &doc.records[j].0;
            let rd = &doc.records[j].1;
            proof {
                assert(doc.spec_recs()[j as int] == (path@, *rd));
            }
            // a path may appear only once:
            let mut k: usize = 0;
            while k < j
                invariant
                    k <= j,
                    j < doc.records@.len(),
                    path@ == doc.spec_recs()[j as int].0,
                    forall|k2: int|
                        0 <= k2 < k ==> (#[trigger] doc.spec_recs()[k2]).0 != doc.spec_recs()[
                            j as int
                        ].0,
                decreases j - k,
            {
                if util::str_eq(doc.records[k].0.as_str(), path.as_str()) {
                    proof {
                        assert(doc.spec_recs()[k as int].0 == doc.spec_recs()[j as int].0);
                    }
                    return Err(crate::document::DocumentError::Structure);
                }
                proof {
                    assert(doc.spec_recs()[k as int].0 == doc.records@[k as int].0@);
                }
                k = k + 1;
            }
            // each record is keyed by exactly the configured algorithms:
            let nh = rd.hashes.len();
            if nh != configuration.hash_algorithms.len() {
                proof {
                    assert(!crate::document::spec_valid_record_doc(
                        doc.spec_recs()[j as int].1,
                        spec_algs,
                    ));
                }
                return Err(crate::document::DocumentError::Structure);
            }
            let mut hv: Vec<(HashAlgorithm, HashValue)> = Vec::new();
            let mut h: usize = 0;
            while h < nh
                invariant
                    nh == rd.hashes@.len(),
                    nh == spec_algs.len(),
                    h <= nh,
                    hv@.len() == h,
                    j < doc.spec_recs().len(),
                    doc.spec_recs()[j as int].1 == *rd,
                    spec_algs == crate::document::spec_algs_of_names(doc.spec_alg_names()),
                    spec_algs == configuration.spec_algs(),
                    configuration.hash_algorithms@ == spec_algs,
                    forall|k2: int|
                        #![trigger hv@[k2]]
                        0 <= k2 < h ==> hv@[k2].0 == spec_algs[k2] && spec_parse_name(
                            rd.spec_hashes()[k2].0,
                        ) == Some(spec_algs[k2]) && util::valid_hex(rd.spec_hashes()[k2].1)
                            && hv@[k2].1@ == util::bytes_of_hex(rd.spec_hashes()[k2].1),
                decreases nh - h,
            {
                let name = &rd.hashes[h].0;
                let hex = &rd.hashes[h].1;
                proof {
                    assert(rd.spec_hashes()[h as int] == (name@, hex@));
                }
                let a = match HashAlgorithm::from_name(name.as_str()) {
                    Ok(a) => a,
                    Err(e) => {
                        proof {
                            assert(!crate::document::spec_valid_record_doc(
                                doc.spec_recs()[j as int].1,
                                spec_algs,
                            ));
                        }
                        return Err(crate::document::DocumentError::Algorithm(e));
                    },
                };
                let expected = configuration.hash_algorithms[h];
                if !(a == expected) {
                    proof {
                        assert(spec_parse_name(rd.spec_hashes()[h as int].0) != Some(
                            spec_algs[h as int],
                        ));
                        assert(!crate::document::spec_valid_record_doc(
                            doc.spec_recs()[j as int].1,
                            spec_algs,
                        ));
                    }
                    return Err(crate::document::DocumentError::Structure);
                }
                let v = match HashValue::from_hex(hex.as_str()) {
                    Ok(v) => v,
                    Err(e) => {
                        proof {
                            assert(!crate::document::spec_valid_record_doc(
                                doc.spec_recs()[j as int].1,
                                spec_algs,
                            ));
                        }
                        return Err(crate::document::DocumentError::HashValue(e));
                    },
                };
                hv.push((a, v));
                h = h + 1;
            }
            let rec = Record::new(rd.size, hv);
            proof {
                assert(rec.spec_hashes() =~= crate::document::spec_parsed_hashes_of(
                    rd.spec_hashes(),
                ));
                assert(alg_list_of(rec.spec_hashes()) =~= spec_algs);
                assert(crate::document::spec_valid_record_doc(
                    doc.spec_recs()[j as int].1,
                    spec_algs,
                ));
            }
            records.push((path.as_str().to_owned(), rec));
            j = j + 1;
        }
        let inv = Inventory { configuration, records };
        proof {
            assert forall|a: int, b: int|
                0 <= a < b < inv.spec_records().len() implies (#[trigger] inv.spec_records()[a]).0
                != (#[trigger] inv.spec_records()[b]).0 by {
                assert(inv.spec_records()[a].0 == doc.spec_recs()[a].0);
                assert(inv.spec_records()[b].0 == doc.spec_recs()[b].0);
            }
            assert(crate::document::spec_valid_document(*doc));
        }
        Ok(inv)
    }
}

} // verus!
