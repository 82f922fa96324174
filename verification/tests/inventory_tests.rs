use inventorize::hash::HashAlgorithm;
use inventorize::inventory::{Configuration, FailureKind, FileEntry, Inventory, Report};

fn entry(path: &str, data: &[u8]) -> FileEntry {
    FileEntry { path: path.to_string(), size: data.len() as u64, data: data.to_vec() }
}

fn config(skip_hidden: bool, algorithms: &[HashAlgorithm]) -> Configuration {
    let mut c = Configuration::new();
    c.set_skip_hidden(skip_hidden);
    c.set_hash_algorithms(algorithms);
    c
}

fn sample_files() -> Vec<FileEntry> {
    vec![
        entry("a.txt", b"0123456789"),
        entry("sub/b.bin", b"abc"),
        entry("sub/deep/c", b""),
    ]
}

fn paths_of(report: &Report, kind: FailureKind) -> Vec<String> {
    let mut v = report.by_failure(kind).unwrap();
    v.sort();
    v
}

#[test]
fn build_records_every_file() {
    let inv = Inventory::build(config(false, &[HashAlgorithm::Md5]), &sample_files());
    assert_eq!(inv.record_count(), 3);
    let rec = inv.get("a.txt").unwrap();
    assert_eq!(rec.size(), 10);
    let rec_b = inv.get("sub/b.bin").unwrap();
    assert_eq!(rec_b.hashes()[0].0, HashAlgorithm::Md5);
    assert_eq!(rec_b.hashes()[0].1.to_hex(), "900150983cd24fb0d6963f7d28e17f72");
    assert!(inv.get("missing").is_none());
}

#[test]
fn check_unmodified_tree_is_clean() {
    let files = sample_files();
    let inv = Inventory::build(config(false, &[HashAlgorithm::Md5, HashAlgorithm::Sha1]), &files);
    let report = inv.check(&files, true);
    assert!(report.is_empty());
    assert!(report.failures().is_empty());
}

#[test]
fn deleted_file_is_reported_missing_from_repository() {
    let files = sample_files();
    let inv = Inventory::build(config(false, &[HashAlgorithm::Md5]), &files);
    let mut shrunk = sample_files();
    shrunk.remove(0);
    let report = inv.check(&shrunk, true);
    assert!(!report.is_empty());
    assert_eq!(report.failures(), vec![FailureKind::MissingFromRepository]);
    assert_eq!(paths_of(&report, FailureKind::MissingFromRepository), vec!["a.txt"]);
    assert!(report.by_failure(FailureKind::MissingFromInventory).is_none());
    assert!(report.by_failure(FailureKind::SizeMismatch).is_none());
    assert!(report.by_failure(FailureKind::HashMismatch).is_none());
}

#[test]
fn created_file_is_reported_missing_from_inventory() {
    let files = sample_files();
    let inv = Inventory::build(config(false, &[HashAlgorithm::Md5]), &files);
    let mut grown = sample_files();
    grown.push(entry("new.dat", b"fresh"));
    let report = inv.check(&grown, true);
    assert_eq!(report.failures(), vec![FailureKind::MissingFromInventory]);
    assert_eq!(paths_of(&report, FailureKind::MissingFromInventory), vec!["new.dat"]);
}

#[test]
fn truncated_file_reports_size_mismatch_only() {
    let files = sample_files();
    let inv = Inventory::build(config(false, &[HashAlgorithm::Md5]), &files);
    let mut truncated = sample_files();
    truncated[0] = entry("a.txt", b"01234");
    let report = inv.check(&truncated, true);
    assert_eq!(report.failures(), vec![FailureKind::SizeMismatch]);
    assert_eq!(paths_of(&report, FailureKind::SizeMismatch), vec!["a.txt"]);
    // the short-circuit: no hash mismatch accompanies a size mismatch
    assert!(report.by_failure(FailureKind::HashMismatch).is_none());
}

#[test]
fn tampered_file_reports_hash_mismatch_in_full_mode() {
    let files = sample_files();
    let inv = Inventory::build(config(false, &[HashAlgorithm::Md5, HashAlgorithm::Sha1]), &files);
    let mut tampered = sample_files();
    tampered[0] = entry("a.txt", b"9876543210");
    let report = inv.check(&tampered, true);
    assert_eq!(report.failures(), vec![FailureKind::HashMismatch]);
    assert_eq!(paths_of(&report, FailureKind::HashMismatch), vec!["a.txt"]);
}

#[test]
fn tampered_file_passes_quick_mode() {
    let files = sample_files();
    let inv = Inventory::build(config(false, &[HashAlgorithm::Md5]), &files);
    let mut tampered = sample_files();
    tampered[0] = entry("a.txt", b"9876543210");
    let report = inv.check(&tampered, false);
    assert!(report.is_empty());
}

#[test]
fn update_adds_and_keeps_by_default() {
    let files = sample_files();
    let mut inv = Inventory::build(config(false, &[HashAlgorithm::Md5]), &files);
    let mut changed = sample_files();
    changed.remove(0);
    changed.push(entry("new.dat", b"fresh"));
    inv.update(&changed, false);
    assert_eq!(inv.record_count(), 4);
    assert!(inv.get("new.dat").is_some());
    // the deleted file's record is still present, unchanged
    let kept = inv.get("a.txt").unwrap();
    assert_eq!(kept.size(), 10);
}

#[test]
fn update_removes_missing_when_asked() {
    let files = sample_files();
    let mut inv = Inventory::build(config(false, &[HashAlgorithm::Md5]), &files);
    let mut changed = sample_files();
    changed.remove(0);
    changed.push(entry("new.dat", b"fresh"));
    inv.update(&changed, true);
    assert_eq!(inv.record_count(), 3);
    assert!(inv.get("new.dat").is_some());
    assert!(inv.get("a.txt").is_none());
}

#[test]
fn update_never_rehashes_tracked_files() {
    let files = sample_files();
    let mut inv = Inventory::build(config(false, &[HashAlgorithm::Md5]), &files);
    let before = inv.get("a.txt").unwrap().hashes()[0].1.to_hex();
    let mut tampered = sample_files();
    tampered[0] = entry("a.txt", b"9876543210");
    inv.update(&tampered, true);
    // the record still carries the original hash: only check() sees content
    let after = inv.get("a.txt").unwrap().hashes()[0].1.to_hex();
    assert_eq!(before, after);
}

#[test]
fn hidden_directory_is_pruned_entirely() {
    let files = vec![
        entry("a.txt", b"0123456789"),
        entry(".git/config", b"[core]"),
        entry(".git/objects/deep/x", b"zz"),
        entry("src/.cache", b"c"),
        entry("src/main", b"fn"),
    ];
    let inv = Inventory::build(config(true, &[HashAlgorithm::Md5]), &files);
    assert_eq!(inv.record_count(), 2);
    assert!(inv.get("a.txt").is_some());
    assert!(inv.get("src/main").is_some());
    assert!(inv.get(".git/config").is_none());
    assert!(inv.get(".git/objects/deep/x").is_none());
    assert!(inv.get("src/.cache").is_none());
}

#[test]
fn hidden_files_are_kept_without_the_flag() {
    let files = vec![entry("a.txt", b"x"), entry(".git/config", b"[core]")];
    let inv = Inventory::build(config(false, &[HashAlgorithm::Md5]), &files);
    assert_eq!(inv.record_count(), 2);
    assert!(inv.get(".git/config").is_some());
}

#[test]
fn report_accumulates_without_duplicates() {
    let mut report = Report::new();
    assert!(report.is_empty());
    report.add_failure("a", FailureKind::SizeMismatch);
    report.add_failure("a", FailureKind::SizeMismatch);
    report.add_failure("b", FailureKind::SizeMismatch);
    assert!(!report.is_empty());
    assert_eq!(report.failures(), vec![FailureKind::SizeMismatch]);
    assert_eq!(paths_of(&report, FailureKind::SizeMismatch), vec!["a", "b"]);
    assert!(report.by_failure(FailureKind::HashMismatch).is_none());
}

#[test]
fn configuration_normalizes_algorithms() {
    let mut c = Configuration::new();
    assert!(c.hash_algorithms().is_empty());
    assert!(!c.skip_hidden());
    c.set_hash_algorithms(&[HashAlgorithm::Sha1, HashAlgorithm::Md5, HashAlgorithm::Md5]);
    assert_eq!(c.hash_algorithms().as_slice(), &[HashAlgorithm::Md5, HashAlgorithm::Sha1]);
    c.set_hash_algorithms(&[HashAlgorithm::Sha1]);
    assert_eq!(c.hash_algorithms().as_slice(), &[HashAlgorithm::Sha1]);
    c.set_skip_hidden(true);
    assert!(c.skip_hidden());
}

#[test]
fn check_reports_each_path_once_per_kind() {
    let files = sample_files();
    let inv = Inventory::build(config(false, &[HashAlgorithm::Md5]), &files);
    let report = inv.check(&Vec::new(), true);
    let missing = paths_of(&report, FailureKind::MissingFromRepository);
    assert_eq!(missing, vec!["a.txt", "sub/b.bin", "sub/deep/c"]);
}
