//! What becomes of a source once its output is archived, and its way back.
use vstd::prelude::*;
use vstd::string::*;

use crate::compare::{output_check, verify_output};
use crate::flow::{
    chain, done, exists_step, fail, failure, follows, settle, settled, Reply, Step, Stop, Tape,
};
use crate::inspect::{inspect_file, inspect_step, validate_source, validate_source_step};
use crate::model::{
    ArchiveManifest, ArchivePlan, EvidenceView, Journal, JournalView, ManifestView, PlanView,
    SourceDisposition,
};
use crate::os_text::{raw, OsText};
use crate::path::{parent, parent_of};
use crate::storage::{
    add_name, add_name_step, drop_name, drop_name_step, ensure_directory, ensure_directory_step,
    ensure_same_file, ensure_same_file_step, hash_regular, hash_regular_step,
};
use crate::text::same_text;
use crate::tool::{decode_output, decode_step};

verus! {

/// A source deleted, if it is still there and still what was archived.
#[verifier::opaque]
pub open spec fn delete_source_step(source: EvidenceView, r: Seq<Reply>, at: int) -> Step<()> {
    chain(
        exists_step(raw(source.path), r, at),
        |there: bool, at: int|
            if there {
                chain(
                    validate_source_step(source, r, at),
                    |_valid: (), at: int|
                        drop_name_step(raw(source.path), "failed to delete source"@, r, at),
                )
            } else {
                done((), at)
            },
    )
}

/// Deletes a plan's source, if it is still there and still what was archived.
pub fn delete_source(tape: &mut Tape, plan: &ArchivePlan) -> (result: Result<(), Stop>)
    ensures
        follows(
            *old(tape),
            *final(tape),
            result,
            delete_source_step(
                plan.deep_view().source,
                old(tape).replies@,
                old(tape).at as int,
            ),
        ),
{
    proof {
        reveal(delete_source_step);
    }
    let source = OsText::of(&plan.source.path);
    if tape.is_there(&source)? {
        validate_source(tape, &plan.source)?;
        return drop_name(tape, &source, "failed to delete source");
    }
    Ok(())
}

/// A source given its quarantine name.
#[verifier::opaque]
pub open spec fn link_step(
    source: EvidenceView,
    quarantine: Seq<u8>,
    r: Seq<Reply>,
    at: int,
) -> Step<()> {
    chain(
        validate_source_step(source, r, at),
        |_valid: (), at: int|
            add_name_step(
                raw(source.path),
                quarantine,
                "quarantine hard-link failed (cross-device fallback is forbidden)"@,
                "cannot sync quarantine link"@,
                r,
                at,
            ),
    )
}

/// The first half of a quarantine, by what stands where.
#[verifier::opaque]
pub open spec fn link_if_needed_step(
    source: EvidenceView,
    quarantine: Seq<u8>,
    r: Seq<Reply>,
    at: int,
) -> Step<()> {
    chain(
        exists_step(raw(source.path), r, at),
        |source_there: bool, at: int|
            chain(
                exists_step(quarantine, r, at),
                |quarantine_there: bool, at: int|
                    match (source_there, quarantine_there) {
                        (true, false) => link_step(source, quarantine, r, at),
                        (true, true) => ensure_same_file_step(raw(source.path), quarantine, r, at),
                        (false, true) => done((), at),
                        (false, false) => fail("both source and quarantine are missing"@, at),
                    },
            ),
    )
}

/// The two directories that a quarantine takes.
#[verifier::opaque]
pub open spec fn quarantine_directories_step(
    root: Seq<u8>,
    directory: Seq<u8>,
    r: Seq<Reply>,
    at: int,
) -> Step<()> {
    chain(
        ensure_directory_step(root, r, at),
        |_root: (), at: int| ensure_directory_step(directory, r, at),
    )
}

fn quarantine_directories(tape: &mut Tape, root: &OsText, directory: &OsText) -> (result: Result<
    (),
    Stop,
>)
    ensures
        follows(
            *old(tape),
            *final(tape),
            result,
            quarantine_directories_step(
                root@,
                directory@,
                old(tape).replies@,
                old(tape).at as int,
            ),
        ),
{
    proof {
        reveal(quarantine_directories_step);
    }
    ensure_directory(tape, root)?;
    ensure_directory(tape, directory)
}

/// The first half of a quarantine: the source has its second name.
#[verifier::opaque]
pub open spec fn quarantine_link_step(
    plan: PlanView,
    journal: JournalView,
    r: Seq<Reply>,
    at: int,
) -> Step<()> {
    match journal.quarantine_path {
        None => fail("quarantine journal is missing quarantinePath"@, at),
        Some(quarantine) => match parent(quarantine) {
            None => fail("quarantine path has no parent"@, at),
            Some(directory) => match parent(directory) {
                None => fail("quarantine path has no root"@, at),
                Some(root) => chain(
                    quarantine_directories_step(raw(root), raw(directory), r, at),
                    |_directories: (), at: int|
                        link_if_needed_step(plan.source, raw(quarantine), r, at),
                ),
            },
        },
    }
}

fn link(tape: &mut Tape, plan: &ArchivePlan, quarantine: &OsText) -> (result: Result<(), Stop>)
    ensures
        follows(
            *old(tape),
            *final(tape),
            result,
            link_step(
                plan.deep_view().source,
                quarantine@,
                old(tape).replies@,
                old(tape).at as int,
            ),
        ),
{
    proof {
        reveal(link_step);
    }
    validate_source(tape, &plan.source)?;
    add_name(
        tape,
        &OsText::of(&plan.source.path),
        quarantine,
        "quarantine hard-link failed (cross-device fallback is forbidden)",
        "cannot sync quarantine link",
    )
}

/// Gives the source its second name, in quarantine.
pub fn quarantine_link(tape: &mut Tape, plan: &ArchivePlan, journal: &Journal) -> (result: Result<
    (),
    Stop,
>)
    ensures
        follows(
            *old(tape),
            *final(tape),
            result,
            quarantine_link_step(
                plan.deep_view(),
                journal.deep_view(),
                old(tape).replies@,
                old(tape).at as int,
            ),
        ),
{
    proof {
        reveal(link_if_needed_step);
        reveal(quarantine_link_step);
    }
    let quarantine = match &journal.quarantine_path {
        Some(quarantine) => quarantine,
        None => {
            return Err(failure("quarantine journal is missing quarantinePath"));
        },
    };
    let directory = match parent_of(quarantine) {
        Some(directory) => directory,
        None => {
            return Err(failure("quarantine path has no parent"));
        },
    };
    let root = match parent_of(&directory) {
        Some(root) => root,
        None => {
            return Err(failure("quarantine path has no root"));
        },
    };
    let source = OsText::of(&plan.source.path);
    let quarantine = OsText::of(quarantine);
    quarantine_directories(tape, &OsText::of(&root), &OsText::of(&directory))?;
    let source_there = tape.is_there(&source)?;
    let quarantine_there = tape.is_there(&quarantine)?;
    match (source_there, quarantine_there) {
        (true, false) => link(tape, plan, &quarantine),
        (true, true) => ensure_same_file(tape, &source, &quarantine),
        (false, true) => Ok(()),
        (false, false) => Err(failure("both source and quarantine are missing")),
    }
}

/// The second half of a quarantine: the source's first name is gone.
#[verifier::opaque]
pub open spec fn finish_quarantine_step(
    plan: PlanView,
    journal: JournalView,
    r: Seq<Reply>,
    at: int,
) -> Step<()> {
    match journal.quarantine_path {
        None => fail("quarantine journal is missing quarantinePath"@, at),
        Some(quarantine) => chain(
            exists_step(raw(plan.source.path), r, at),
            |source_there: bool, at: int|
                chain(
                    exists_step(raw(quarantine), r, at),
                    |quarantine_there: bool, at: int|
                        match (source_there, quarantine_there) {
                            (true, false) => fail(
                                "quarantine link disappeared before source unlink"@,
                                at,
                            ),
                            (true, true) => chain(
                                ensure_same_file_step(raw(plan.source.path), raw(quarantine), r, at),
                                |_same: (), at: int|
                                    drop_name_step(
                                        raw(plan.source.path),
                                        "cannot unlink source"@,
                                        r,
                                        at,
                                    ),
                            ),
                            (false, true) => done((), at),
                            (false, false) => fail(
                                "both source and quarantine are missing"@,
                                at,
                            ),
                        },
                ),
        ),
    }
}

/// Takes the source's first name away, once it has its second.
pub fn finish_quarantine(tape: &mut Tape, plan: &ArchivePlan, journal: &Journal) -> (result: Result<
    (),
    Stop,
>)
    ensures
        follows(
            *old(tape),
            *final(tape),
            result,
            finish_quarantine_step(
                plan.deep_view(),
                journal.deep_view(),
                old(tape).replies@,
                old(tape).at as int,
            ),
        ),
{
    proof {
        reveal(finish_quarantine_step);
    }
    let quarantine = match &journal.quarantine_path {
        Some(quarantine) => quarantine,
        None => {
            return Err(failure("quarantine journal is missing quarantinePath"));
        },
    };
    let source = OsText::of(&plan.source.path);
    let quarantine = OsText::of(quarantine);
    let source_there = tape.is_there(&source)?;
    let quarantine_there = tape.is_there(&quarantine)?;
    match (source_there, quarantine_there) {
        (true, false) => Err(failure("quarantine link disappeared before source unlink")),
        (true, true) => {
            ensure_same_file(tape, &source, &quarantine)?;
            drop_name(tape, &source, "cannot unlink source")
        },
        (false, true) => Ok(()),
        (false, false) => Err(failure("both source and quarantine are missing")),
    }
}

/// A quarantined file checked against the digest it was archived with, where
/// there is one.
#[verifier::opaque]
pub open spec fn check_quarantine_step(
    quarantine: Seq<u8>,
    sha256: Seq<char>,
    r: Seq<Reply>,
    at: int,
) -> Step<()> {
    chain(
        exists_step(quarantine, r, at),
        |there: bool, at: int|
            if there {
                chain(
                    hash_regular_step(quarantine, r, at),
                    |actual: Seq<char>, at: int|
                        if actual == sha256 {
                            done((), at)
                        } else {
                            fail("quarantined source SHA-256 differs from manifest"@, at)
                        },
                )
            } else {
                done((), at)
            },
    )
}

/// The steps of a restoration, by what stands where.
#[verifier::opaque]
pub open spec fn restore_by_presence_step(
    source: Seq<u8>,
    quarantine: Seq<u8>,
    sha256: Seq<char>,
    source_there: bool,
    quarantine_there: bool,
    r: Seq<Reply>,
    at: int,
) -> Step<()> {
    match (source_there, quarantine_there) {
        (false, true) => chain(
            add_name_step(
                quarantine,
                source,
                "restore hard-link failed; no copy fallback is permitted"@,
                "cannot sync restored source"@,
                r,
                at,
            ),
            |_named: (), at: int|
                drop_name_step(quarantine, "cannot unlink quarantine after restore"@, r, at),
        ),
        (true, true) => chain(
            ensure_same_file_step(source, quarantine, r, at),
            |_same: (), at: int|
                drop_name_step(quarantine, "cannot finish interrupted restore"@, r, at),
        ),
        (true, false) => chain(
            hash_regular_step(source, r, at),
            |actual: Seq<char>, at: int|
                if actual == sha256 {
                    done((), at)
                } else {
                    fail("existing source does not match manifest; refusing overwrite"@, at)
                },
        ),
        (false, false) => fail("both source and quarantine are missing"@, at),
    }
}

/// A quarantined source brought back.
#[verifier::opaque]
pub open spec fn restore_step(manifest: ManifestView, r: Seq<Reply>, at: int) -> Step<()> {
    if manifest.source_disposition != SourceDisposition::Quarantine {
        fail("restore is only valid for quarantined sources"@, at)
    } else {
        match manifest.quarantine_path {
            None => fail("manifest has no quarantinePath"@, at),
            Some(quarantine) => chain(
                check_quarantine_step(raw(quarantine), manifest.source.sha256, r, at),
                |_checked: (), at: int|
                    chain(
                        exists_step(raw(manifest.source.path), r, at),
                        |source_there: bool, at: int|
                            chain(
                                exists_step(raw(quarantine), r, at),
                                |quarantine_there: bool, at: int|
                                    restore_by_presence_step(
                                        raw(manifest.source.path),
                                        raw(quarantine),
                                        manifest.source.sha256,
                                        source_there,
                                        quarantine_there,
                                        r,
                                        at,
                                    ),
                            ),
                    ),
            ),
        }
    }
}

fn check_quarantine(tape: &mut Tape, quarantine: &OsText, sha256: &str) -> (result: Result<(), Stop>)
    ensures
        follows(
            *old(tape),
            *final(tape),
            result,
            check_quarantine_step(
                quarantine@,
                sha256@,
                old(tape).replies@,
                old(tape).at as int,
            ),
        ),
{
    proof {
        reveal(check_quarantine_step);
    }
    if tape.is_there(quarantine)? {
        let actual = hash_regular(tape, quarantine)?;
        if !same_text(&actual, sha256) {
            return Err(failure("quarantined source SHA-256 differs from manifest"));
        }
    }
    Ok(())
}

fn restore_by_presence(
    tape: &mut Tape,
    source: &OsText,
    quarantine: &OsText,
    sha256: &str,
    source_there: bool,
    quarantine_there: bool,
) -> (result: Result<(), Stop>)
    ensures
        follows(
            *old(tape),
            *final(tape),
            result,
            restore_by_presence_step(
                source@,
                quarantine@,
                sha256@,
                source_there,
                quarantine_there,
                old(tape).replies@,
                old(tape).at as int,
            ),
        ),
{
    proof {
        reveal(restore_by_presence_step);
    }
    match (source_there, quarantine_there) {
        (false, true) => {
            add_name(
                tape,
                quarantine,
                source,
                "restore hard-link failed; no copy fallback is permitted",
                "cannot sync restored source",
            )?;
            drop_name(tape, quarantine, "cannot unlink quarantine after restore")
        },
        (true, true) => {
            ensure_same_file(tape, source, quarantine)?;
            drop_name(tape, quarantine, "cannot finish interrupted restore")
        },
        (true, false) => {
            let actual = hash_regular(tape, source)?;
            if same_text(&actual, sha256) {
                Ok(())
            } else {
                Err(failure("existing source does not match manifest; refusing overwrite"))
            }
        },
        (false, false) => Err(failure("both source and quarantine are missing")),
    }
}

/// Brings a quarantined source back to its place. What stands in its place is
/// never overwritten.
pub fn restore(tape: &mut Tape, manifest: &ArchiveManifest) -> (result: Result<(), Stop>)
    ensures
        follows(
            *old(tape),
            *final(tape),
            result,
            restore_step(manifest.deep_view(), old(tape).replies@, old(tape).at as int),
        ),
{
    proof {
        reveal(restore_step);
    }
    if manifest.source_disposition != SourceDisposition::Quarantine {
        return Err(failure("restore is only valid for quarantined sources"));
    }
    let quarantine = match &manifest.quarantine_path {
        Some(quarantine) => quarantine,
        None => {
            return Err(failure("manifest has no quarantinePath"));
        },
    };
    let source = OsText::of(&manifest.source.path);
    let quarantine = OsText::of(quarantine);
    check_quarantine(tape, &quarantine, &manifest.source.sha256)?;
    let source_there = tape.is_there(&source)?;
    let quarantine_there = tape.is_there(&quarantine)?;
    restore_by_presence(
        tape,
        &source,
        &quarantine,
        &manifest.source.sha256,
        source_there,
        quarantine_there,
    )
}

/// An archived output verified against its manifest.
#[verifier::opaque]
pub open spec fn verify_manifest_step(manifest: ManifestView, r: Seq<Reply>, at: int) -> Step<()> {
    chain(
        inspect_step(raw(manifest.destination_path), r, at),
        |output: EvidenceView, at: int|
            if output.sha256 != manifest.output.sha256 {
                fail("output SHA-256 differs from manifest"@, at)
            } else {
                chain(
                    settled(
                        output_check(
                            manifest.profile,
                            manifest.source,
                            output,
                            manifest.duration_tolerance_seconds,
                        ),
                        at,
                    ),
                    |_verified: (), at: int| decode_step(manifest.destination_path, r, at),
                )
            },
    )
}

/// Verifies an archived output against its manifest: its bytes, what it says of
/// its source, and that it decodes in full.
pub fn verify_manifest(tape: &mut Tape, manifest: &ArchiveManifest) -> (result: Result<(), Stop>)
    ensures
        follows(
            *old(tape),
            *final(tape),
            result,
            verify_manifest_step(manifest.deep_view(), old(tape).replies@, old(tape).at as int),
        ),
{
    proof {
        reveal(verify_manifest_step);
    }
    let output = inspect_file(tape, &OsText::of(&manifest.destination_path))?;
    if !same_text(&output.sha256, &manifest.output.sha256) {
        return Err(failure("output SHA-256 differs from manifest"));
    }
    settle(
        verify_output(
            manifest.profile,
            &manifest.source,
            &output,
            &manifest.duration_tolerance_seconds,
        ),
    )?;
    decode_output(tape, &manifest.destination_path)
}

} // verus!
