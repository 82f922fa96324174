use vstd::prelude::*;

use crate::util;

verus! {

/// An error returned when the hash algorithm name cannot be parsed.
#[derive(Debug, Copy, Clone, PartialEq, Eq, Structural)]
pub struct ParseHashAlgorithmError;

/// Hash algorithm identifier.
#[derive(Debug, Copy, Clone, PartialEq, Eq, Hash, Structural)]
pub enum HashAlgorithm {
    /// MD5 hash algorithm.
    Md5,
    /// SHA1 hash algorithm.
    Sha1,
}

/// Position of an algorithm in the canonical sort order used for
/// deterministic iteration and serialization.
pub open spec fn alg_index(a: HashAlgorithm) -> int {
    match a {
        HashAlgorithm::Md5 => 0,
        HashAlgorithm::Sha1 => 1,
    }
}

/// The canonical lowercase name of an algorithm.
pub open spec fn spec_name(a: HashAlgorithm) -> Seq<char> {
    match a {
        HashAlgorithm::Md5 => "md5"@,
        HashAlgorithm::Sha1 => "sha1"@,
    }
}

/// The byte length of an algorithm's digest output.
pub open spec fn digest_len(a: HashAlgorithm) -> int {
    match a {
        HashAlgorithm::Md5 => 16,
        HashAlgorithm::Sha1 => 20,
    }
}

/// The algorithm a string names, if any.
pub open spec fn spec_parse_name(s: Seq<char>) -> Option<HashAlgorithm> {
    if s == spec_name(HashAlgorithm::Md5) {
        Some(HashAlgorithm::Md5)
    } else if s == spec_name(HashAlgorithm::Sha1) {
        Some(HashAlgorithm::Sha1)
    } else {
        None
    }
}

/// Parsing the canonical name of an algorithm restores that algorithm.
pub proof fn lemma_parse_of_name(a: HashAlgorithm)
    ensures
        spec_parse_name(spec_name(a)) == Some(a),
{
    lemma_name_injective(HashAlgorithm::Md5, HashAlgorithm::Sha1);
}

impl HashAlgorithm {
    /// Returns the position of the algorithm in the canonical sort order.
    pub fn order(&self) -> (r: u8)
        ensures
            r as int == alg_index(*self),
    {
        match self {
            HashAlgorithm::Md5 => 0,
            HashAlgorithm::Sha1 => 1,
        }
    }

    /// Returns the canonical lowercase name of the algorithm.
    pub fn name(&self) -> (r: &'static str)
        ensures
            r@ == spec_name(*self),
    {
        match self {
            HashAlgorithm::Md5 => "md5",
            HashAlgorithm::Sha1 => "sha1",
        }
    }

    /// Parses an algorithm from its canonical name; any other string is
    /// rejected.
    pub fn from_name(s: &str) -> (r: Result<HashAlgorithm, ParseHashAlgorithmError>)
        ensures
            r.is_ok() <==> spec_parse_name(s@).is_some(),
            r.is_ok() ==> Some(r->Ok_0) == spec_parse_name(s@) && spec_name(r->Ok_0) == s@,
    {
        if util::str_eq(s, "md5") {
            Ok(HashAlgorithm::Md5)
        } else if util::str_eq(s, "sha1") {
            Ok(HashAlgorithm::Sha1)
        } else {
            Err(ParseHashAlgorithmError)
        }
    }
}

/// Different algorithms never share a canonical name, so parsing a
/// rendered name always restores the algorithm it came from.
pub proof fn lemma_name_injective(a: HashAlgorithm, b: HashAlgorithm)
    ensures
        spec_name(a) == spec_name(b) ==> a == b,
{
    reveal_strlit("md5");
    reveal_strlit("sha1");
    assert(spec_name(HashAlgorithm::Md5).len() == 3);
    assert(spec_name(HashAlgorithm::Sha1).len() == 4);
}

/// An error returned when the hash value cannot be parsed.
#[derive(Debug, Copy, Clone, PartialEq, Eq, Structural)]
pub struct ParseHashValueError;

/// A hash value produced by a hash algorithm.
///
/// Immutable once created; its textual form is a lowercase hex string.
#[derive(Debug)]
pub struct HashValue {
    /// Digest output bytes.
    bytes: Vec<u8>,
}

impl View for HashValue {
    type V = Seq<u8>;

    closed spec fn view(&self) -> Seq<u8> {
        self.bytes@
    }
}

impl HashValue {
    /// Wraps raw digest output bytes.
    pub fn from_bytes(bytes: Vec<u8>) -> (r: HashValue)
        ensures
            r@ == bytes@,
    {
        HashValue { bytes }
    }

    /// Parses a hash value from its hexadecimal string form; odd-length
    /// strings and non-hexadecimal characters are rejected.
    pub fn from_hex(s: &str) -> (r: Result<HashValue, ParseHashValueError>)
        ensures
            r.is_ok() <==> util::valid_hex(s@),
            r.is_ok() ==> r->Ok_0@ == util::bytes_of_hex(s@),
    {
        match util::hex_string_to_bytes(s) {
            Some(bytes) => Ok(HashValue { bytes }),
            None => Err(ParseHashValueError),
        }
    }

    /// Renders the hash value as a lowercase hexadecimal string.
    pub fn to_hex(&self) -> (r: String)
        ensures
            r@ == util::hex_of(self@),
    {
        util::bytes_to_hex_string(self.bytes.as_slice())
    }

    /// Compares two hash values byte for byte.
    pub fn equals(&self, other: &HashValue) -> (r: bool)
        ensures
            r == (self@ == other@),
    {
        let a_len = self.bytes.len();
        if a_len != other.bytes.len() {
            return false;
        }
        let mut i: usize = 0;
        while i < a_len
            invariant
                a_len == self.bytes@.len(),
                a_len == other.bytes@.len(),
                i <= a_len,
                forall|j: int| 0 <= j < i ==> self.bytes@[j] == other.bytes@[j],
            decreases a_len - i,
        {
            if self.bytes[i] != other.bytes[i] {
                return false;
            }
            i = i + 1;
        }
        proof {
            assert(self.bytes@ =~= other.bytes@);
        }
        true
    }

    /// Returns a copy of the hash value.
    pub fn duplicate(&self) -> (r: HashValue)
        ensures
            r@ == self@,
    {
        let bytes = self.bytes.clone();
        proof {
            assert(bytes@ =~= self.bytes@);
        }
        HashValue { bytes }
    }
}

/// A running MD5 digest state; opaque to verification, described only
/// through `md5_fed`.
#[verifier::external_body]
pub struct Md5State {
    inner: md5::Md5,
}

/// A running SHA1 digest state; opaque to verification, described only
/// through `sha1_fed`.
#[verifier::external_body]
pub struct Sha1State {
    inner: sha1::Sha1,
}

/// The bytes fed so far to a running MD5 state.
pub uninterp spec fn md5_fed(s: Md5State) -> Seq<u8>;

/// The bytes fed so far to a running SHA1 state.
pub uninterp spec fn sha1_fed(s: Sha1State) -> Seq<u8>;

/// The MD5 digest of a byte sequence.
pub uninterp spec fn md5_of(data: Seq<u8>) -> Seq<u8>;

/// The SHA1 digest of a byte sequence.
pub uninterp spec fn sha1_of(data: Seq<u8>) -> Seq<u8>;

/// Relies on `<md5::Md5 as digest::Digest>::new`: a fresh state that has
/// processed no data.
#[verifier::external_body]
fn md5_new() -> (r: Md5State)
    ensures
        md5_fed(r) == Seq::<u8>::empty(),
{
    Md5State { inner: <md5::Md5 as digest::Digest>::new() }
}

/// Relies on `digest::Digest::update`: appends the given bytes to the data
/// the state has processed.
#[verifier::external_body]
fn md5_update(s: &mut Md5State, data: &[u8])
    ensures
        md5_fed(*final(s)) == md5_fed(*old(s)) + data@,
{
    digest::Digest::update(&mut s.inner, data);
}

/// Relies on `digest::Digest::finalize_reset`: returns the 16-byte MD5
/// digest of everything fed since the last reset, and resets the state.
#[verifier::external_body]
fn md5_finalize_reset(s: &mut Md5State) -> (r: Vec<u8>)
    ensures
        r@ == md5_of(md5_fed(*old(s))),
        r@.len() == 16,
        md5_fed(*final(s)) == Seq::<u8>::empty(),
{
    digest::Digest::finalize_reset(&mut s.inner).to_vec()
}

/// Relies on `<sha1::Sha1 as digest::Digest>::new`: a fresh state that has
/// processed no data.
#[verifier::external_body]
fn sha1_new() -> (r: Sha1State)
    ensures
        sha1_fed(r) == Seq::<u8>::empty(),
{
    Sha1State { inner: <sha1::Sha1 as digest::Digest>::new() }
}

/// Relies on `digest::Digest::update`: appends the given bytes to the data
/// the state has processed.
#[verifier::external_body]
fn sha1_update(s: &mut Sha1State, data: &[u8])
    ensures
        sha1_fed(*final(s)) == sha1_fed(*old(s)) + data@,
{
    digest::Digest::update(&mut s.inner, data);
}

/// Relies on `digest::Digest::finalize_reset`: returns the 20-byte SHA1
/// digest of everything fed since the last reset, and resets the state.
#[verifier::external_body]
fn sha1_finalize_reset(s: &mut Sha1State) -> (r: Vec<u8>)
    ensures
        r@ == sha1_of(sha1_fed(*old(s))),
        r@.len() == 20,
        sha1_fed(*final(s)) == Seq::<u8>::empty(),
{
    digest::Digest::finalize_reset(&mut s.inner).to_vec()
}

/// The digest an algorithm assigns to a byte sequence.
pub open spec fn digest_of(a: HashAlgorithm, data: Seq<u8>) -> Seq<u8> {
    match a {
        HashAlgorithm::Md5 => md5_of(data),
        HashAlgorithm::Sha1 => sha1_of(data),
    }
}

/// One running digest state together with the algorithm it computes.
enum DigestUnit {
    /// A running MD5 computation.
    Md5(Md5State),
    /// A running SHA1 computation.
    Sha1(Sha1State),
}

/// The algorithm a digest unit computes.
spec fn unit_alg(u: DigestUnit) -> HashAlgorithm {
    match u {
        DigestUnit::Md5(_) => HashAlgorithm::Md5,
        DigestUnit::Sha1(_) => HashAlgorithm::Sha1,
    }
}

/// The bytes fed so far to a digest unit.
spec fn unit_fed(u: DigestUnit) -> Seq<u8> {
    match u {
        DigestUnit::Md5(s) => md5_fed(s),
        DigestUnit::Sha1(s) => sha1_fed(s),
    }
}

impl DigestUnit {
    /// Creates a fresh digest unit for the given algorithm.
    fn new_for(a: HashAlgorithm) -> (r: DigestUnit)
        ensures
            unit_alg(r) == a,
            unit_fed(r) == Seq::<u8>::empty(),
    {
        match a {
            HashAlgorithm::Md5 => DigestUnit::Md5(md5_new()),
            HashAlgorithm::Sha1 => DigestUnit::Sha1(sha1_new()),
        }
    }

    /// Feeds a chunk of data to the running computation.
    fn feed(self, data: &[u8]) -> (r: DigestUnit)
        ensures
            unit_alg(r) == unit_alg(self),
            unit_fed(r) == unit_fed(self) + data@,
    {
        match self {
            DigestUnit::Md5(mut s) => {
                md5_update(&mut s, data);
                DigestUnit::Md5(s)
            },
            DigestUnit::Sha1(mut s) => {
                sha1_update(&mut s, data);
                DigestUnit::Sha1(s)
            },
        }
    }

    /// Finalizes the computation, returning the digest of everything fed
    /// and a unit reset for the next use.
    fn finish(self) -> (r: (DigestUnit, Vec<u8>))
        ensures
            unit_alg(r.0) == unit_alg(self),
            unit_fed(r.0) == Seq::<u8>::empty(),
            r.1@ == digest_of(unit_alg(self), unit_fed(self)),
            r.1@.len() == digest_len(unit_alg(self)),
    {
        match self {
            DigestUnit::Md5(mut s) => {
                let out = md5_finalize_reset(&mut s);
                (DigestUnit::Md5(s), out)
            },
            DigestUnit::Sha1(mut s) => {
                let out = sha1_finalize_reset(&mut s);
                (DigestUnit::Sha1(s), out)
            },
        }
    }
}

/// Size of the chunks in which `compute` feeds data to the digests.
pub const CHUNK_SIZE: usize = 128 * 1024;

/// A hasher that drives one or more hash algorithms over the same data in
/// a single pass.
pub struct Hasher {
    /// A list of running digest states and their identifiers.
    digests: Vec<(HashAlgorithm, DigestUnit)>,
}

impl Hasher {
    /// The algorithms this hasher computes, in construction order.
    pub closed spec fn algs(&self) -> Seq<HashAlgorithm> {
        self.digests@.map_values(|p: (HashAlgorithm, DigestUnit)| p.0)
    }

    /// Each digest state computes the algorithm it is labelled with.
    pub closed spec fn wf(&self) -> bool {
        forall|i: int|
            0 <= i < self.digests@.len() ==> unit_alg(#[trigger] self.digests@[i].1)
                == self.digests@[i].0
    }

    /// Every digest state has been fed exactly the given bytes.
    pub closed spec fn fed_all(&self, data: Seq<u8>) -> bool {
        forall|i: int| 0 <= i < self.digests@.len() ==> unit_fed(#[trigger] self.digests@[i].1) == data
    }

    /// Creates a new hasher with a given list of hash algorithms, each with
    /// a fresh digest state.
    pub fn new(algorithms: &Vec<HashAlgorithm>) -> (r: Hasher)
        requires
            algorithms@.len() > 0,
        ensures
            r.wf(),
            r.algs() == algorithms@,
            r.fed_all(Seq::<u8>::empty()),
    {
        let mut digests: Vec<(HashAlgorithm, DigestUnit)> = Vec::new();
        let n = algorithms.len();
        let mut i: usize = 0;
        while i < n
            invariant
                n == algorithms@.len(),
                i <= n,
                digests@.len() == i,
                forall|j: int|
                    0 <= j < i ==> (#[trigger] digests@[j]).0 == algorithms@[j] && unit_alg(
                        digests@[j].1,
                    ) == algorithms@[j] && unit_fed(digests@[j].1) == Seq::<u8>::empty(),
            decreases n - i,
        {
            let a = *vstd::slice::slice_index_get(algorithms.as_slice(), i);
            let unit = DigestUnit::new_for(a);
            digests.push((a, unit));
            i = i + 1;
        }
        let r = Hasher { digests };
        proof {
            assert(r.algs() =~= algorithms@);
        }
        r
    }

    /// Updates all contained digests with a chunk of data.
    fn update(&mut self, data: &[u8])
        requires
            old(self).wf(),
        ensures
            final(self).wf(),
            final(self).algs() == old(self).algs(),
            final(self).digests@.len() == old(self).digests@.len(),
            forall|i: int|
                0 <= i < old(self).digests@.len() ==> unit_fed(
                    (#[trigger] final(self).digests@[i]).1,
                ) == unit_fed(old(self).digests@[i].1) + data@,
    {
        let n = self.digests.len();
        let mut i: usize = 0;
        while i < n
            invariant
                n == self.digests@.len(),
                i <= n,
                self.wf(),
                self.algs() == old(self).algs(),
                forall|j: int|
                    0 <= j < i ==> unit_fed((#[trigger] self.digests@[j]).1) == unit_fed(
                        old(self).digests@[j].1,
                    ) + data@,
                forall|j: int|
                    i <= j < n ==> (#[trigger] self.digests@[j]) == old(self).digests@[j],
            decreases n - i,
        {
            let ghost prev = self.digests@;
            let (a, unit) = self.digests.remove(i);
            let unit = unit.feed(data);
            self.digests.insert(i, (a, unit));
            i = i + 1;
            proof {
                assert(self.digests@ =~= prev.update(i - 1, (a, unit)));
                assert(self.algs() =~= old(self).algs());
            }
        }
    }

    /// Finalizes the computation and resets the digests for reuse.
    ///
    /// Returns the produced hash values in construction order.
    fn finalize_reset(&mut self) -> (r: Vec<(HashAlgorithm, HashValue)>)
        requires
            old(self).wf(),
        ensures
            final(self).wf(),
            final(self).algs() == old(self).algs(),
            final(self).fed_all(Seq::<u8>::empty()),
            r@.len() == old(self).digests@.len(),
            forall|i: int|
                0 <= i < r@.len() ==> (#[trigger] r@[i]).0 == old(self).algs()[i] && r@[i].1@
                    == digest_of(old(self).algs()[i], unit_fed(old(self).digests@[i].1))
                    && r@[i].1@.len() == digest_len(old(self).algs()[i]),
    {
        let n = self.digests.len();
        let mut out: Vec<(HashAlgorithm, HashValue)> = Vec::new();
        let mut i: usize = 0;
        while i < n
            invariant
                n == self.digests@.len(),
                i <= n,
                self.wf(),
                self.algs() == old(self).algs(),
                out@.len() == i,
                forall|j: int|
                    0 <= j < i ==> unit_fed((#[trigger] self.digests@[j]).1) == Seq::<u8>::empty(),
                forall|j: int|
                    i <= j < n ==> (#[trigger] self.digests@[j]) == old(self).digests@[j],
                forall|j: int|
                    0 <= j < i ==> (#[trigger] out@[j]).0 == old(self).algs()[j] && out@[j].1@
                        == digest_of(old(self).algs()[j], unit_fed(old(self).digests@[j].1))
                        && out@[j].1@.len() == digest_len(old(self).algs()[j]),
            decreases n - i,
        {
            let ghost prev = self.digests@;
            let (a, unit) = self.digests.remove(i);
            let (unit, bytes) = unit.finish();
            self.digests.insert(i, (a, unit));
            out.push((a, HashValue::from_bytes(bytes)));
            i = i + 1;
            proof {
                assert(self.digests@ =~= prev.update(i - 1, (a, unit)));
                assert(self.algs() =~= old(self).algs());
            }
        }
        out
    }

    /// Computes the hashes of the provided data, feeding it to every
    /// digest in bounded-size chunks.
    ///
    /// The digests are reset afterwards, so the same hasher can be reused
    /// for the next file.
    pub fn compute(&mut self, data: &[u8]) -> (r: Vec<(HashAlgorithm, HashValue)>)
        requires
            old(self).wf(),
            old(self).fed_all(Seq::<u8>::empty()),
        ensures
            final(self).wf(),
            final(self).algs() == old(self).algs(),
            final(self).fed_all(Seq::<u8>::empty()),
            r@.len() == old(self).algs().len(),
            forall|i: int|
                0 <= i < r@.len() ==> (#[trigger] r@[i]).0 == old(self).algs()[i] && r@[i].1@
                    == digest_of(old(self).algs()[i], data@) && r@[i].1@.len() == digest_len(
                    old(self).algs()[i],
                ),
    {
        let len = data.len();
        let mut pos: usize = 0;
        proof {
            assert(data@.take(0) =~= Seq::<u8>::empty());
        }
        while pos < len
            invariant
                len == data@.len(),
                pos <= len,
                self.wf(),
                self.algs() == old(self).algs(),
                self.digests@.len() == old(self).digests@.len(),
                self.fed_all(data@.take(pos as int)),
            decreases len - pos,
        {
            let end = if len - pos > CHUNK_SIZE {
                pos + CHUNK_SIZE
            } else {
                len
            };
            let chunk = vstd::slice::slice_subrange(data, pos, end);
            let ghost fed_before = data@.take(pos as int);
            self.update(chunk);
            proof {
                assert(fed_before + data@.subrange(pos as int, end as int) =~= data@.take(
                    end as int,
                ));
            }
            pos = end;
        }
        proof {
            assert(data@.take(len as int) =~= data@);
        }
        self.finalize_reset()
    }
}

} // verus!
