use inventorize::document::{DocumentError, InventoryDoc, RecordDoc};
use inventorize::hash::HashAlgorithm;
use inventorize::inventory::{Configuration, FileEntry, Inventory};

fn entry(path: &str, data: &[u8]) -> FileEntry {
    FileEntry { path: path.to_string(), size: data.len() as u64, data: data.to_vec() }
}

fn sample_inventory() -> Inventory {
    let mut c = Configuration::new();
    c.set_skip_hidden(true);
    c.set_hash_algorithms(&[HashAlgorithm::Sha1, HashAlgorithm::Md5]);
    let files = vec![entry("a.txt", b"0123456789"), entry("sub/b.bin", b"abc")];
    Inventory::build(c, &files)
}

#[test]
fn document_shape_matches_schema() {
    let inv = sample_inventory();
    let doc = inv.to_document();
    assert_eq!(doc.skip_hidden, true);
    assert_eq!(doc.hash_algorithms, vec!["md5".to_string(), "sha1".to_string()]);
    assert_eq!(doc.records.len(), 2);
    let (path, rec) = &doc.records[1];
    assert_eq!(path, "sub/b.bin");
    assert_eq!(rec.size, 3);
    assert_eq!(rec.hashes[0].0, "md5");
    assert_eq!(rec.hashes[0].1, "900150983cd24fb0d6963f7d28e17f72");
    assert_eq!(rec.hashes[1].0, "sha1");
    assert_eq!(rec.hashes[1].1, "a9993e364706816aba3e25717850c26c9cd0d89d");
}

#[test]
fn round_trip_restores_inventory() {
    let inv = sample_inventory();
    let doc = inv.to_document();
    let back = Inventory::from_document(&doc).ok().unwrap();
    assert_eq!(back.configuration().version(), inv.configuration().version());
    assert_eq!(back.configuration().skip_hidden(), inv.configuration().skip_hidden());
    assert_eq!(back.configuration().hash_algorithms(), inv.configuration().hash_algorithms());
    assert_eq!(back.record_count(), inv.record_count());
    for path in ["a.txt", "sub/b.bin"] {
        let a = inv.get(path).unwrap();
        let b = back.get(path).unwrap();
        assert_eq!(a.size(), b.size());
        assert_eq!(a.hashes().len(), b.hashes().len());
        for h in 0..a.hashes().len() {
            assert_eq!(a.hashes()[h].0, b.hashes()[h].0);
            assert!(a.hashes()[h].1.equals(&b.hashes()[h].1));
        }
    }
}

#[test]
fn unknown_algorithm_name_is_rejected() {
    let mut doc = sample_inventory().to_document();
    doc.hash_algorithms[0] = "crc32".to_string();
    assert!(matches!(
        Inventory::from_document(&doc),
        Err(DocumentError::Algorithm(_))
    ));
}

#[test]
fn malformed_hex_is_rejected() {
    let mut doc = sample_inventory().to_document();
    doc.records[0].1.hashes[0].1 = "zz".to_string();
    assert!(matches!(
        Inventory::from_document(&doc),
        Err(DocumentError::HashValue(_))
    ));
}

#[test]
fn unsorted_algorithms_are_rejected() {
    let mut doc = sample_inventory().to_document();
    doc.hash_algorithms.reverse();
    assert!(matches!(Inventory::from_document(&doc), Err(DocumentError::Structure)));
}

#[test]
fn duplicate_paths_are_rejected() {
    let mut doc = sample_inventory().to_document();
    let copy_hashes: Vec<(String, String)> = doc.records[0]
        .1
        .hashes
        .iter()
        .map(|(n, v)| (n.clone(), v.clone()))
        .collect();
    let copy = RecordDoc { hashes: copy_hashes, size: doc.records[0].1.size };
    let path = doc.records[0].0.clone();
    doc.records.push((path, copy));
    assert!(matches!(Inventory::from_document(&doc), Err(DocumentError::Structure)));
}

#[test]
fn record_keyed_by_other_algorithms_is_rejected() {
    let mut doc = sample_inventory().to_document();
    doc.records[0].1.hashes.pop();
    assert!(matches!(Inventory::from_document(&doc), Err(DocumentError::Structure)));
}

#[test]
fn empty_document_parses_to_empty_inventory() {
    let doc = InventoryDoc {
        version: "1.2.3".to_string(),
        skip_hidden: false,
        hash_algorithms: vec!["md5".to_string()],
        records: Vec::new(),
    };
    let inv = Inventory::from_document(&doc).ok().unwrap();
    assert_eq!(inv.record_count(), 0);
    assert_eq!(inv.configuration().version(), "1.2.3");
    assert_eq!(inv.configuration().hash_algorithms().as_slice(), &[HashAlgorithm::Md5]);
}
