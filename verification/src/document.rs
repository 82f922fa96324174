use vstd::prelude::*;

use crate::hash::{
    spec_name, spec_parse_name, HashAlgorithm, ParseHashAlgorithmError, ParseHashValueError,
};
use crate::inventory::{sorted_unique_algs, strs_view};
use crate::util;

verus! {

/// The schema-shaped form of one record: hash values as (algorithm name,
/// lowercase hex) pairs, and the file size.
pub struct RecordDoc {
    /// Hashes keyed by algorithm name, in canonical sorted order.
    pub hashes: Vec<(String, String)>,

    /// Size of the file.
    pub size: u64,
}

/// The schema-shaped form of an inventory, holding plain strings and
/// numbers only: what the persisted JSON document holds, before any JSON
/// syntax is involved.
pub struct InventoryDoc {
    /// Version of the tool that built the inventory.
    pub version: String,

    /// Whether hidden files were skipped.
    pub skip_hidden: bool,

    /// Algorithm names, sorted, unique.
    pub hash_algorithms: Vec<String>,

    /// Records keyed by relative path.
    pub records: Vec<(String, RecordDoc)>,
}

/// An error returned when a document does not describe an inventory.
pub enum DocumentError {
    /// An algorithm name failed to parse.
    Algorithm(ParseHashAlgorithmError),

    /// A hash value hex string failed to parse.
    HashValue(ParseHashValueError),

    /// The document's shape is wrong: duplicate paths, unsorted or
    /// duplicated algorithms, or a record keyed by other algorithms than
    /// the configuration's.
    Structure,
}

/// The view of a hash list: name and hex string character sequences.
pub open spec fn hash_pairs_view(v: Seq<(String, String)>) -> Seq<(Seq<char>, Seq<char>)> {
    v.map_values(|p: (String, String)| (p.0@, p.1@))
}

impl RecordDoc {
    /// The view of the hash list.
    pub open spec fn spec_hashes(&self) -> Seq<(Seq<char>, Seq<char>)> {
        hash_pairs_view(self.hashes@)
    }
}

impl InventoryDoc {
    /// The views of the algorithm names.
    pub open spec fn spec_alg_names(&self) -> Seq<Seq<char>> {
        strs_view(self.hash_algorithms@)
    }

    /// The records, with paths as character sequences.
    pub open spec fn spec_recs(&self) -> Seq<(Seq<char>, RecordDoc)> {
        self.records@.map_values(|p: (String, RecordDoc)| (p.0@, p.1))
    }
}

/// Every name in the list is a known algorithm name.
pub open spec fn spec_parsed_algs_ok(names: Seq<Seq<char>>) -> bool {
    forall|i: int| 0 <= i < names.len() ==> (#[trigger] spec_parse_name(names[i])).is_some()
}

/// The algorithms the names denote.
pub open spec fn spec_algs_of_names(names: Seq<Seq<char>>) -> Seq<HashAlgorithm> {
    Seq::new(names.len(), |i: int| spec_parse_name(names[i])->Some_0)
}

/// Holds of a record document whose hash list is keyed by exactly the
/// given algorithms, in order, with decodable hex values.
pub open spec fn spec_valid_record_doc(rd: RecordDoc, algs: Seq<HashAlgorithm>) -> bool {
    &&& rd.spec_hashes().len() == algs.len()
    &&& forall|h: int|
        0 <= h < algs.len() ==> spec_parse_name((#[trigger] rd.spec_hashes()[h]).0) == Some(
            algs[h],
        ) && util::valid_hex(rd.spec_hashes()[h].1)
}

/// Holds of a document that describes an inventory: known algorithm
/// names in strictly sorted order, unique record paths, and every record
/// keyed by the configured algorithms with decodable hex values.
pub open spec fn spec_valid_document(doc: InventoryDoc) -> bool {
    &&& spec_parsed_algs_ok(doc.spec_alg_names())
    &&& sorted_unique_algs(spec_algs_of_names(doc.spec_alg_names()))
    &&& forall|a: int, b: int|
        0 <= a < b < doc.spec_recs().len() ==> (#[trigger] doc.spec_recs()[a]).0 != (
        #[trigger] doc.spec_recs()[b]).0
    &&& forall|j: int|
        0 <= j < doc.spec_recs().len() ==> spec_valid_record_doc(
            (#[trigger] doc.spec_recs()[j]).1,
            spec_algs_of_names(doc.spec_alg_names()),
        )
}

/// The names of the given algorithms, in order.
pub open spec fn spec_names_of_algs(algs: Seq<HashAlgorithm>) -> Seq<Seq<char>> {
    Seq::new(algs.len(), |i: int| spec_name(algs[i]))
}

/// The (name, hex) rendering of recorded hash pairs.
pub open spec fn spec_doc_hashes_of(hs: Seq<(HashAlgorithm, Seq<u8>)>) -> Seq<
    (Seq<char>, Seq<char>),
> {
    Seq::new(hs.len(), |h: int| (spec_name(hs[h].0), util::hex_of(hs[h].1)))
}

/// The (algorithm, bytes) pairs a valid hash list decodes to.
pub open spec fn spec_parsed_hashes_of(hs: Seq<(Seq<char>, Seq<char>)>) -> Seq<
    (HashAlgorithm, Seq<u8>),
> {
    Seq::new(hs.len(), |h: int| (spec_parse_name(hs[h].0)->Some_0, util::bytes_of_hex(hs[h].1)))
}

} // verus!
