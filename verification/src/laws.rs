use vstd::prelude::*;

use crate::inventory::{
    hashes_of, spec_built_from, spec_check_report, spec_document_of, spec_in_snapshot,
    spec_parsed_into, spec_visible, unique_paths, Configuration, FailureKind, FileEntry,
    Inventory, Report,
};
use crate::util;

verus! {

/// A report in which no kind records any path is empty.
proof fn lemma_no_contains_empty(r: Report)
    requires
        forall|k: FailureKind, p: Seq<char>| !#[trigger] r.spec_contains(k, p),
    ensures
        r.spec_is_empty(),
{
    if r.kind_seq(FailureKind::MissingFromRepository).len() > 0 {
        let s = r.kind_seq(FailureKind::MissingFromRepository);
        assert(r.spec_contains(FailureKind::MissingFromRepository, s[0]));
    }
    if r.kind_seq(FailureKind::MissingFromInventory).len() > 0 {
        let s = r.kind_seq(FailureKind::MissingFromInventory);
        assert(r.spec_contains(FailureKind::MissingFromInventory, s[0]));
    }
    if r.kind_seq(FailureKind::SizeMismatch).len() > 0 {
        let s = r.kind_seq(FailureKind::SizeMismatch);
        assert(r.spec_contains(FailureKind::SizeMismatch, s[0]));
    }
    if r.kind_seq(FailureKind::HashMismatch).len() > 0 {
        let s = r.kind_seq(FailureKind::HashMismatch);
        assert(r.spec_contains(FailureKind::HashMismatch, s[0]));
    }
}

/// A check run immediately after a build, on the unmodified snapshot the
/// inventory was built from, reports nothing — in full mode as in quick
/// mode.
pub proof fn lemma_check_after_build_empty(
    inv: Inventory,
    configuration: Configuration,
    files: Seq<FileEntry>,
    check_hashes: bool,
    r: Report,
)
    requires
        spec_built_from(inv, configuration, files),
        spec_check_report(inv, files, check_hashes, r),
    ensures
        r.spec_is_empty(),
{
    let skip = configuration.spec_skip_hidden();
    assert forall|k: FailureKind, p: Seq<char>| !#[trigger] r.spec_contains(k, p) by {
        if r.spec_contains(FailureKind::MissingFromInventory, p) {
            let i = choose|i: int| 0 <= i < files.len() && (#[trigger] files[i]).path@ == p;
            assert(inv.spec_contains_path(files[i].path@));
        }
        if r.spec_contains(FailureKind::MissingFromRepository, p) {
            let j = choose|j: int|
                0 <= j < inv.spec_records().len() && (#[trigger] inv.spec_records()[j]).0 == p;
            assert(spec_in_snapshot(files, skip, inv.spec_records()[j].0));
        }
        if r.spec_contains(FailureKind::SizeMismatch, p) {
            let (i, j): (int, int) = choose|i: int, j: int|
                #![trigger files[i], inv.spec_records()[j]]
                0 <= i < files.len() && 0 <= j < inv.spec_records().len() && files[i].path@ == p
                    && inv.spec_records()[j].0 == p && files[i].size
                    != inv.spec_records()[j].1.spec_size();
            assert(inv.spec_records()[j].1.spec_size() == files[i].size);
        }
        if r.spec_contains(FailureKind::HashMismatch, p) {
            let (i, j): (int, int) = choose|i: int, j: int|
                #![trigger files[i], inv.spec_records()[j]]
                0 <= i < files.len() && 0 <= j < inv.spec_records().len() && files[i].path@ == p
                    && inv.spec_records()[j].0 == p && files[i].size
                    == inv.spec_records()[j].1.spec_size()
                    && inv.spec_records()[j].1.spec_hashes() != hashes_of(
                    inv.spec_config().spec_algs(),
                    files[i].data@,
                );
            assert(inv.spec_records()[j].1.spec_hashes() == hashes_of(
                configuration.spec_algs(),
                files[i].data@,
            ));
        }
    }
    lemma_no_contains_empty(r);
}

/// Deleting one tracked, visible file from the snapshot and checking makes
/// the report hold exactly one entry: that file's path, under
/// `MissingFromRepository`.
pub proof fn lemma_deleted_file_reported(
    inv: Inventory,
    configuration: Configuration,
    files: Seq<FileEntry>,
    d: int,
    check_hashes: bool,
    r: Report,
)
    requires
        unique_paths(files),
        spec_built_from(inv, configuration, files),
        0 <= d < files.len(),
        spec_visible(configuration.spec_skip_hidden(), files[d].path@),
        spec_check_report(inv, files.remove(d), check_hashes, r),
    ensures
        r.spec_contains(FailureKind::MissingFromRepository, files[d].path@),
        forall|p: Seq<char>|
            #[trigger] r.spec_contains(FailureKind::MissingFromRepository, p) ==> p
                == files[d].path@,
        forall|p: Seq<char>| !#[trigger] r.spec_contains(FailureKind::MissingFromInventory, p),
        forall|p: Seq<char>| !#[trigger] r.spec_contains(FailureKind::SizeMismatch, p),
        forall|p: Seq<char>| !#[trigger] r.spec_contains(FailureKind::HashMismatch, p),
{
    let skip = configuration.spec_skip_hidden();
    let rest = files.remove(d);
    files.remove_ensures(d);
    let pd = files[d].path@;
    // the deleted path is tracked but no longer in the snapshot:
    assert(inv.spec_contains_path(pd));
    assert forall|i2: int| 0 <= i2 < rest.len() implies (#[trigger] rest[i2]).path@ != pd by {
        if i2 < d {
            assert(rest[i2] == files[i2]);
        } else {
            assert(rest[i2] == files[i2 + 1]);
        }
    }
    assert(!spec_in_snapshot(rest, skip, pd));
    assert(r.spec_contains(FailureKind::MissingFromRepository, pd));
    // nothing else is reported:
    assert forall|p: Seq<char>|
        #[trigger] r.spec_contains(FailureKind::MissingFromRepository, p) implies p == pd by {
        let j = choose|j: int|
            0 <= j < inv.spec_records().len() && (#[trigger] inv.spec_records()[j]).0 == p;
        assert(spec_in_snapshot(files, skip, p));
        let i = choose|i: int| 0 <= i < files.len() && (#[trigger] files[i]).path@ == p;
        if i != d {
            if i < d {
                assert(rest[i] == files[i]);
                assert(rest[i].path@ == p);
            } else {
                assert(rest[i - 1] == files[i]);
                assert(rest[i - 1].path@ == p);
            }
            assert(spec_in_snapshot(rest, skip, p));
        }
    }
    assert forall|p: Seq<char>|
        !#[trigger] r.spec_contains(FailureKind::MissingFromInventory, p) by {
        if r.spec_contains(FailureKind::MissingFromInventory, p) {
            let i2 = choose|i2: int| 0 <= i2 < rest.len() && (#[trigger] rest[i2]).path@ == p;
            if i2 < d {
                assert(rest[i2] == files[i2]);
                assert(inv.spec_contains_path(files[i2].path@));
            } else {
                assert(rest[i2] == files[i2 + 1]);
                assert(inv.spec_contains_path(files[i2 + 1].path@));
            }
        }
    }
    assert forall|p: Seq<char>| !#[trigger] r.spec_contains(FailureKind::SizeMismatch, p) by {
        if r.spec_contains(FailureKind::SizeMismatch, p) {
            let (i2, j): (int, int) = choose|i2: int, j: int|
                #![trigger rest[i2], inv.spec_records()[j]]
                0 <= i2 < rest.len() && 0 <= j < inv.spec_records().len() && rest[i2].path@ == p
                    && inv.spec_records()[j].0 == p && rest[i2].size
                    != inv.spec_records()[j].1.spec_size();
            if i2 < d {
                assert(rest[i2] == files[i2]);
            } else {
                assert(rest[i2] == files[i2 + 1]);
            }
        }
    }
    assert forall|p: Seq<char>| !#[trigger] r.spec_contains(FailureKind::HashMismatch, p) by {
        if r.spec_contains(FailureKind::HashMismatch, p) {
            let (i2, j): (int, int) = choose|i2: int, j: int|
                #![trigger rest[i2], inv.spec_records()[j]]
                0 <= i2 < rest.len() && 0 <= j < inv.spec_records().len() && rest[i2].path@ == p
                    && inv.spec_records()[j].0 == p && rest[i2].size
                    == inv.spec_records()[j].1.spec_size()
                    && inv.spec_records()[j].1.spec_hashes() != hashes_of(
                    inv.spec_config().spec_algs(),
                    rest[i2].data@,
                );
            if i2 < d {
                assert(rest[i2] == files[i2]);
            } else {
                assert(rest[i2] == files[i2 + 1]);
            }
        }
    }
}

/// Creating one new untracked, visible file in the snapshot and checking
/// makes the report hold exactly one entry: that file's path, under
/// `MissingFromInventory`.
pub proof fn lemma_added_file_reported(
    inv: Inventory,
    configuration: Configuration,
    files: Seq<FileEntry>,
    added: FileEntry,
    check_hashes: bool,
    r: Report,
)
    requires
        spec_built_from(inv, configuration, files),
        forall|i: int| 0 <= i < files.len() ==> (#[trigger] files[i]).path@ != added.path@,
        spec_visible(configuration.spec_skip_hidden(), added.path@),
        spec_check_report(inv, files.push(added), check_hashes, r),
    ensures
        r.spec_contains(FailureKind::MissingFromInventory, added.path@),
        forall|p: Seq<char>|
            #[trigger] r.spec_contains(FailureKind::MissingFromInventory, p) ==> p == added.path@,
        forall|p: Seq<char>| !#[trigger] r.spec_contains(FailureKind::MissingFromRepository, p),
        forall|p: Seq<char>| !#[trigger] r.spec_contains(FailureKind::SizeMismatch, p),
        forall|p: Seq<char>| !#[trigger] r.spec_contains(FailureKind::HashMismatch, p),
{
    let skip = configuration.spec_skip_hidden();
    let grown = files.push(added);
    let pa = added.path@;
    let n = files.len() as int;
    // the new path is in the snapshot but not tracked:
    assert(grown[n] == added);
    assert(spec_in_snapshot(grown, skip, pa));
    if inv.spec_contains_path(pa) {
        let j = choose|j: int|
            0 <= j < inv.spec_records().len() && (#[trigger] inv.spec_records()[j]).0 == pa;
        assert(spec_in_snapshot(files, skip, pa));
        let i = choose|i: int| 0 <= i < files.len() && (#[trigger] files[i]).path@ == pa;
        assert(false);
    }
    assert(r.spec_contains(FailureKind::MissingFromInventory, pa));
    // nothing else is reported:
    assert forall|p: Seq<char>|
        #[trigger] r.spec_contains(FailureKind::MissingFromInventory, p) implies p == pa by {
        let i = choose|i: int| 0 <= i < grown.len() && (#[trigger] grown[i]).path@ == p;
        if i < n {
            assert(grown[i] == files[i]);
            assert(inv.spec_contains_path(files[i].path@));
        }
    }
    assert forall|p: Seq<char>|
        !#[trigger] r.spec_contains(FailureKind::MissingFromRepository, p) by {
        if r.spec_contains(FailureKind::MissingFromRepository, p) {
            let j = choose|j: int|
                0 <= j < inv.spec_records().len() && (#[trigger] inv.spec_records()[j]).0 == p;
            assert(spec_in_snapshot(files, skip, p));
            let i = choose|i: int| 0 <= i < files.len() && (#[trigger] files[i]).path@ == p;
            assert(grown[i] == files[i]);
            assert(spec_in_snapshot(grown, skip, p));
        }
    }
    assert forall|p: Seq<char>| !#[trigger] r.spec_contains(FailureKind::SizeMismatch, p) by {
        if r.spec_contains(FailureKind::SizeMismatch, p) {
            let (i, j): (int, int) = choose|i: int, j: int|
                #![trigger grown[i], inv.spec_records()[j]]
                0 <= i < grown.len() && 0 <= j < inv.spec_records().len() && grown[i].path@ == p
                    && inv.spec_records()[j].0 == p && grown[i].size
                    != inv.spec_records()[j].1.spec_size();
            if i < n {
                assert(grown[i] == files[i]);
            } else {
                assert(grown[i] == added);
                assert(inv.spec_contains_path(pa));
            }
        }
    }
    assert forall|p: Seq<char>| !#[trigger] r.spec_contains(FailureKind::HashMismatch, p) by {
        if r.spec_contains(FailureKind::HashMismatch, p) {
            let (i, j): (int, int) = choose|i: int, j: int|
                #![trigger grown[i], inv.spec_records()[j]]
                0 <= i < grown.len() && 0 <= j < inv.spec_records().len() && grown[i].path@ == p
                    && inv.spec_records()[j].0 == p && grown[i].size
                    == inv.spec_records()[j].1.spec_size()
                    && inv.spec_records()[j].1.spec_hashes() != hashes_of(
                    inv.spec_config().spec_algs(),
                    grown[i].data@,
                );
            if i < n {
                assert(grown[i] == files[i]);
            } else {
                assert(grown[i] == added);
                assert(inv.spec_contains_path(pa));
            }
        }
    }
}

/// Changing one tracked, visible file's size in the snapshot and checking
/// in full mode reports `SizeMismatch` for that path alone — in
/// particular, no `HashMismatch` accompanies it, whatever the new
/// contents hash to.
pub proof fn lemma_resized_file_reported(
    inv: Inventory,
    configuration: Configuration,
    files: Seq<FileEntry>,
    d: int,
    changed: FileEntry,
    check_hashes: bool,
    r: Report,
)
    requires
        unique_paths(files),
        spec_built_from(inv, configuration, files),
        0 <= d < files.len(),
        spec_visible(configuration.spec_skip_hidden(), files[d].path@),
        changed.path@ == files[d].path@,
        changed.size != files[d].size,
        spec_check_report(inv, files.update(d, changed), check_hashes, r),
    ensures
        r.spec_contains(FailureKind::SizeMismatch, files[d].path@),
        forall|p: Seq<char>|
            #[trigger] r.spec_contains(FailureKind::SizeMismatch, p) ==> p == files[d].path@,
        forall|p: Seq<char>| !#[trigger] r.spec_contains(FailureKind::HashMismatch, p),
        forall|p: Seq<char>| !#[trigger] r.spec_contains(FailureKind::MissingFromRepository, p),
        forall|p: Seq<char>| !#[trigger] r.spec_contains(FailureKind::MissingFromInventory, p),
{
    let skip = configuration.spec_skip_hidden();
    let moved = files.update(d, changed);
    let pd = files[d].path@;
    assert(inv.spec_contains_path(pd));
    let jd = choose|j: int|
        0 <= j < inv.spec_records().len() && (#[trigger] inv.spec_records()[j]).0 == pd;
    // every record index holding pd pins the stored size to the old size:
    assert(inv.spec_records()[jd].1.spec_size() == files[d].size);
    assert(moved[d] == changed);
    assert(r.spec_contains(FailureKind::SizeMismatch, pd));
    assert forall|p: Seq<char>|
        #[trigger] r.spec_contains(FailureKind::SizeMismatch, p) implies p == pd by {
        let (i, j): (int, int) = choose|i: int, j: int|
            #![trigger moved[i], inv.spec_records()[j]]
            0 <= i < moved.len() && 0 <= j < inv.spec_records().len() && moved[i].path@ == p
                && inv.spec_records()[j].0 == p && moved[i].size
                != inv.spec_records()[j].1.spec_size();
        if i != d {
            assert(moved[i] == files[i]);
        }
    }
    assert forall|p: Seq<char>| !#[trigger] r.spec_contains(FailureKind::HashMismatch, p) by {
        if r.spec_contains(FailureKind::HashMismatch, p) {
            let (i, j): (int, int) = choose|i: int, j: int|
                #![trigger moved[i], inv.spec_records()[j]]
                0 <= i < moved.len() && 0 <= j < inv.spec_records().len() && moved[i].path@ == p
                    && inv.spec_records()[j].0 == p && moved[i].size
                    == inv.spec_records()[j].1.spec_size()
                    && inv.spec_records()[j].1.spec_hashes() != hashes_of(
                    inv.spec_config().spec_algs(),
                    moved[i].data@,
                );
            if i == d {
                // hash drift needs the sizes to agree, and they do not:
                assert(inv.spec_records()[j].1.spec_size() == files[d].size);
            } else {
                assert(moved[i] == files[i]);
            }
        }
    }
    assert forall|p: Seq<char>|
        !#[trigger] r.spec_contains(FailureKind::MissingFromRepository, p) by {
        if r.spec_contains(FailureKind::MissingFromRepository, p) {
            let j = choose|j: int|
                0 <= j < inv.spec_records().len() && (#[trigger] inv.spec_records()[j]).0 == p;
            assert(spec_in_snapshot(files, skip, p));
            let i = choose|i: int| 0 <= i < files.len() && (#[trigger] files[i]).path@ == p;
            if i == d {
                assert(moved[i].path@ == p);
            } else {
                assert(moved[i] == files[i]);
            }
            assert(spec_in_snapshot(moved, skip, p));
        }
    }
    assert forall|p: Seq<char>|
        !#[trigger] r.spec_contains(FailureKind::MissingFromInventory, p) by {
        if r.spec_contains(FailureKind::MissingFromInventory, p) {
            let i = choose|i: int| 0 <= i < moved.len() && (#[trigger] moved[i]).path@ == p;
            if i == d {
                assert(inv.spec_contains_path(pd));
            } else {
                assert(moved[i] == files[i]);
                assert(inv.spec_contains_path(files[i].path@));
            }
        }
    }
}

/// Overwriting one tracked, visible file's bytes while keeping its size,
/// with contents that hash differently, makes a full-mode check report
/// `HashMismatch` for that path alone.
pub proof fn lemma_tampered_file_reported(
    inv: Inventory,
    configuration: Configuration,
    files: Seq<FileEntry>,
    d: int,
    changed: FileEntry,
    r: Report,
)
    requires
        unique_paths(files),
        spec_built_from(inv, configuration, files),
        0 <= d < files.len(),
        spec_visible(configuration.spec_skip_hidden(), files[d].path@),
        changed.path@ == files[d].path@,
        changed.size == files[d].size,
        hashes_of(configuration.spec_algs(), changed.data@) != hashes_of(
            configuration.spec_algs(),
            files[d].data@,
        ),
        spec_check_report(inv, files.update(d, changed), true, r),
    ensures
        r.spec_contains(FailureKind::HashMismatch, files[d].path@),
        forall|p: Seq<char>|
            #[trigger] r.spec_contains(FailureKind::HashMismatch, p) ==> p == files[d].path@,
        forall|p: Seq<char>| !#[trigger] r.spec_contains(FailureKind::SizeMismatch, p),
{
    let skip = configuration.spec_skip_hidden();
    let moved = files.update(d, changed);
    let pd = files[d].path@;
    assert(inv.spec_contains_path(pd));
    let jd = choose|j: int|
        0 <= j < inv.spec_records().len() && (#[trigger] inv.spec_records()[j]).0 == pd;
    assert(inv.spec_records()[jd].1.spec_size() == files[d].size);
    assert(inv.spec_records()[jd].1.spec_hashes() == hashes_of(
        configuration.spec_algs(),
        files[d].data@,
    ));
    assert(moved[d] == changed);
    assert(r.spec_contains(FailureKind::HashMismatch, pd));
    assert forall|p: Seq<char>|
        #[trigger] r.spec_contains(FailureKind::HashMismatch, p) implies p == pd by {
        let (i, j): (int, int) = choose|i: int, j: int|
            #![trigger moved[i], inv.spec_records()[j]]
            0 <= i < moved.len() && 0 <= j < inv.spec_records().len() && moved[i].path@ == p
                && inv.spec_records()[j].0 == p && moved[i].size
                == inv.spec_records()[j].1.spec_size() && inv.spec_records()[j].1.spec_hashes()
                != hashes_of(inv.spec_config().spec_algs(), moved[i].data@);
        if i != d {
            assert(moved[i] == files[i]);
        }
    }
    assert forall|p: Seq<char>| !#[trigger] r.spec_contains(FailureKind::SizeMismatch, p) by {
        if r.spec_contains(FailureKind::SizeMismatch, p) {
            let (i, j): (int, int) = choose|i: int, j: int|
                #![trigger moved[i], inv.spec_records()[j]]
                0 <= i < moved.len() && 0 <= j < inv.spec_records().len() && moved[i].path@ == p
                    && inv.spec_records()[j].0 == p && moved[i].size
                    != inv.spec_records()[j].1.spec_size();
            if i == d {
                assert(inv.spec_records()[j].1.spec_size() == files[d].size);
            } else {
                assert(moved[i] == files[i]);
            }
        }
    }
}

/// A quick-mode check never inspects file contents: on a snapshot whose
/// paths and sizes are unchanged, whatever the contents now are, the
/// report is empty. Size-preserving tampering is invisible to quick mode
/// by design.
pub proof fn lemma_quick_mode_ignores_contents(
    inv: Inventory,
    configuration: Configuration,
    files: Seq<FileEntry>,
    tampered: Seq<FileEntry>,
    r: Report,
)
    requires
        spec_built_from(inv, configuration, files),
        tampered.len() == files.len(),
        forall|i: int|
            0 <= i < files.len() ==> (#[trigger] tampered[i]).path@ == files[i].path@
                && tampered[i].size == files[i].size,
        spec_check_report(inv, tampered, false, r),
    ensures
        r.spec_is_empty(),
{
    let skip = configuration.spec_skip_hidden();
    assert forall|k: FailureKind, p: Seq<char>| !#[trigger] r.spec_contains(k, p) by {
        if r.spec_contains(FailureKind::MissingFromInventory, p) {
            let i = choose|i: int| 0 <= i < tampered.len() && (#[trigger] tampered[i]).path@ == p;
            assert(files[i].path@ == p);
            assert(inv.spec_contains_path(files[i].path@));
        }
        if r.spec_contains(FailureKind::MissingFromRepository, p) {
            let j = choose|j: int|
                0 <= j < inv.spec_records().len() && (#[trigger] inv.spec_records()[j]).0 == p;
            assert(spec_in_snapshot(files, skip, p));
            let i = choose|i: int| 0 <= i < files.len() && (#[trigger] files[i]).path@ == p;
            assert(tampered[i].path@ == p);
            assert(spec_in_snapshot(tampered, skip, p));
        }
        if r.spec_contains(FailureKind::SizeMismatch, p) {
            let (i, j): (int, int) = choose|i: int, j: int|
                #![trigger tampered[i], inv.spec_records()[j]]
                0 <= i < tampered.len() && 0 <= j < inv.spec_records().len() && tampered[i].path@
                    == p && inv.spec_records()[j].0 == p && tampered[i].size
                    != inv.spec_records()[j].1.spec_size();
            assert(files[i].path@ == p);
            assert(inv.spec_records()[j].1.spec_size() == files[i].size);
        }
        assert(!r.spec_contains(FailureKind::HashMismatch, p));
    }
    lemma_no_contains_empty(r);
}

/// With hidden files skipped, nothing under a hidden directory is ever
/// tracked: no path with a dot-initial component appears in the built
/// inventory, however deeply the hidden directory is nested.
pub proof fn lemma_hidden_paths_pruned(
    inv: Inventory,
    configuration: Configuration,
    files: Seq<FileEntry>,
    p: Seq<char>,
)
    requires
        spec_built_from(inv, configuration, files),
        configuration.spec_skip_hidden(),
        util::spec_has_hidden_component(p),
    ensures
        !inv.spec_contains_path(p),
{
    if inv.spec_contains_path(p) {
        let j = choose|j: int|
            0 <= j < inv.spec_records().len() && (#[trigger] inv.spec_records()[j]).0 == p;
        assert(spec_in_snapshot(files, configuration.spec_skip_hidden(), p));
        assert(spec_visible(configuration.spec_skip_hidden(), p));
    }
}

/// Serializing a well-formed inventory always yields a document that
/// parses back without error.
pub proof fn lemma_document_of_valid(inv: Inventory, doc: crate::document::InventoryDoc)
    requires
        inv.wf(),
        spec_document_of(inv, doc),
    ensures
        crate::document::spec_valid_document(doc),
{
    let algs = inv.spec_config().spec_algs();
    let names = doc.spec_alg_names();
    assert forall|i: int|
        0 <= i < names.len() implies (#[trigger] crate::hash::spec_parse_name(names[i])).is_some() by {
        crate::hash::lemma_parse_of_name(algs[i]);
    }
    assert forall|i: int|
        0 <= i < names.len() implies #[trigger] crate::document::spec_algs_of_names(names)[i]
        == algs[i] by {
        crate::hash::lemma_parse_of_name(algs[i]);
    }
    assert(crate::document::spec_algs_of_names(names) =~= algs);
    assert forall|j: int|
        0 <= j < doc.spec_recs().len() implies crate::document::spec_valid_record_doc(
        (#[trigger] doc.spec_recs()[j]).1,
        crate::document::spec_algs_of_names(names),
    ) by {
        let hs = inv.spec_records()[j].1.spec_hashes();
        assert(crate::inventory::alg_list_of(hs) == algs);
        assert(hs.len() == algs.len());
        assert forall|h: int|
            0 <= h < algs.len() implies crate::hash::spec_parse_name(
            (#[trigger] doc.spec_recs()[j].1.spec_hashes()[h]).0,
        ) == Some(algs[h]) && util::valid_hex(doc.spec_recs()[j].1.spec_hashes()[h].1) by {
            assert(crate::inventory::alg_list_of(hs)[h] == hs[h].0);
            crate::hash::lemma_parse_of_name(hs[h].0);
            util::lemma_hex_round_trip(hs[h].1);
        }
    }
}

/// Serialize then deserialize: the configuration and the record set come
/// back identical, record for record and hash for hash.
pub proof fn lemma_document_round_trip(
    inv: Inventory,
    doc: crate::document::InventoryDoc,
    inv2: Inventory,
)
    requires
        inv.wf(),
        spec_document_of(inv, doc),
        spec_parsed_into(doc, inv2),
    ensures
        inv2.spec_config().spec_version() == inv.spec_config().spec_version(),
        inv2.spec_config().spec_skip_hidden() == inv.spec_config().spec_skip_hidden(),
        inv2.spec_config().spec_algs() == inv.spec_config().spec_algs(),
        inv2.spec_records().len() == inv.spec_records().len(),
        forall|j: int|
            0 <= j < inv.spec_records().len() ==> (#[trigger] inv2.spec_records()[j]).0
                == inv.spec_records()[j].0 && inv2.spec_records()[j].1.spec_size()
                == inv.spec_records()[j].1.spec_size() && inv2.spec_records()[j].1.spec_hashes()
                == inv.spec_records()[j].1.spec_hashes(),
{
    let algs = inv.spec_config().spec_algs();
    let names = doc.spec_alg_names();
    assert forall|i: int|
        0 <= i < names.len() implies #[trigger] crate::document::spec_algs_of_names(names)[i]
        == algs[i] by {
        crate::hash::lemma_parse_of_name(algs[i]);
    }
    assert(crate::document::spec_algs_of_names(names) =~= algs);
    assert forall|j: int|
        0 <= j < inv.spec_records().len() implies (#[trigger] inv2.spec_records()[j]).0
        == inv.spec_records()[j].0 && inv2.spec_records()[j].1.spec_size()
        == inv.spec_records()[j].1.spec_size() && inv2.spec_records()[j].1.spec_hashes()
        == inv.spec_records()[j].1.spec_hashes() by {
        let hs = inv.spec_records()[j].1.spec_hashes();
        let dhs = doc.spec_recs()[j].1.spec_hashes();
        assert(dhs == crate::document::spec_doc_hashes_of(hs));
        assert forall|h: int|
            0 <= h < hs.len() implies #[trigger] crate::document::spec_parsed_hashes_of(dhs)[h]
            == hs[h] by {
            crate::hash::lemma_parse_of_name(hs[h].0);
            util::lemma_hex_round_trip(hs[h].1);
        }
        assert(crate::document::spec_parsed_hashes_of(dhs) =~= hs);
    }
}

} // verus!
