use inventorize::hash::{HashAlgorithm, Hasher};
use md5::Digest;

fn both_algorithms() -> Vec<HashAlgorithm> {
    vec![HashAlgorithm::Md5, HashAlgorithm::Sha1]
}

#[test]
fn md5_of_known_input() {
    let mut hasher = Hasher::new(&vec![HashAlgorithm::Md5]);
    let out = hasher.compute(b"abc");
    assert_eq!(out.len(), 1);
    assert_eq!(out[0].0, HashAlgorithm::Md5);
    assert_eq!(out[0].1.to_hex(), "900150983cd24fb0d6963f7d28e17f72");
}

#[test]
fn sha1_of_known_input() {
    let mut hasher = Hasher::new(&vec![HashAlgorithm::Sha1]);
    let out = hasher.compute(b"abc");
    assert_eq!(out.len(), 1);
    assert_eq!(out[0].0, HashAlgorithm::Sha1);
    assert_eq!(out[0].1.to_hex(), "a9993e364706816aba3e25717850c26c9cd0d89d");
}

#[test]
fn digests_of_empty_input() {
    let mut hasher = Hasher::new(&both_algorithms());
    let out = hasher.compute(b"");
    assert_eq!(out.len(), 2);
    assert_eq!(out[0].1.to_hex(), "d41d8cd98f00b204e9800998ecf8427e");
    assert_eq!(out[1].1.to_hex(), "da39a3ee5e6b4b0d3255bfef95601890afd80709");
}

#[test]
fn digest_lengths_match_algorithms() {
    let mut hasher = Hasher::new(&both_algorithms());
    let out = hasher.compute(b"whatever");
    assert_eq!(out[0].1.to_hex().len(), 32);
    assert_eq!(out[1].1.to_hex().len(), 40);
}

#[test]
fn hasher_is_reusable_across_files() {
    // computing over one input, then another, gives the same result a
    // fresh hasher gives: the reset leaves no residue
    let mut reused = Hasher::new(&both_algorithms());
    let _ = reused.compute(b"first file contents");
    let second = reused.compute(b"abc");
    assert_eq!(second[0].1.to_hex(), "900150983cd24fb0d6963f7d28e17f72");
    assert_eq!(second[1].1.to_hex(), "a9993e364706816aba3e25717850c26c9cd0d89d");
}

#[test]
fn chunked_input_matches_reference() {
    // an input longer than one chunk is fed in several pieces; the digest
    // must equal an independent one-shot reference computation
    let data: Vec<u8> = (0..200_000u32).map(|i| (i % 251) as u8).collect();
    let mut hasher = Hasher::new(&vec![HashAlgorithm::Md5]);
    let out = hasher.compute(&data);
    let reference = {
        let mut d = md5::Md5::new();
        d.update(&data);
        inventorize::util::bytes_to_hex_string(&d.finalize())
    };
    assert_eq!(out[0].1.to_hex(), reference);
}
