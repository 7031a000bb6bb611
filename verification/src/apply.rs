//! A transaction: staging, publication, verification, manifest and disposal of
//! the source, each entered in the journal before the next begins.
use vstd::prelude::*;
use vstd::string::*;

use crate::compare::{output_check, verify_output};
use crate::disposal::{
    delete_source, delete_source_step, finish_quarantine, finish_quarantine_step, quarantine_link,
    quarantine_link_step,
};
use crate::flow::{
    chain, done, exists_step, fail, failure, follows, rescue, settle, settled, Reply, Step, Stop,
    Tape,
};
use crate::inspect::{inspect_file, inspect_step, validate_source, validate_source_step};
use crate::load::{
    load_journal, load_journal_step, load_manifest, load_manifest_step, load_plan, load_plan_step,
};
use crate::model::{
    ArchiveManifest, ArchivePlan, EvidenceView, Journal, JournalView, ManifestView, MediaEvidence,
    Phase, PlanView, Profile, SourceDisposition,
};
use crate::os_text::{raw, OsText};
use crate::path::{join_path, joined, parent, parent_of};
use crate::plan::{
    fresh_journal, journal_check, manifest_from_plan, manifest_of, new_journal, quarantine_path,
    quarantine_text, validate_journal,
};
use crate::render::{manifest_text, render_manifest};
use crate::storage::{
    clear_internal, clear_internal_step, ensure_directory, ensure_directory_step, publish_output,
    publish_output_step, publish_text_no_replace, publish_text_step, write_journal,
    write_journal_step,
};
use crate::text::{cat2, copy_optional, same_text};
use crate::tool::{
    av1_stage, av1_stage_step, copy_stage, copy_stage_step, decode_output, decode_step,
};

verus! {

/// Where transactions into a directory keep their state.
pub open spec fn transactions_root(directory: Seq<char>) -> Seq<char> {
    joined(directory, ".marchiver-transactions"@)
}

/// Where one transaction keeps its state.
pub open spec fn transaction_directory(directory: Seq<char>, plan: PlanView) -> Seq<char> {
    joined(transactions_root(directory), plan.transaction_id)
}

/// The journal of the transaction with the given directory.
pub open spec fn journal_place(directory: Seq<char>) -> Seq<char> {
    joined(directory, "journal.pkl"@)
}

/// The staging file of the transaction with the given directory.
pub open spec fn staging_place(directory: Seq<char>) -> Seq<char> {
    joined(directory, "output.partial"@)
}

/// Where a manifest is prepared.
pub open spec fn manifest_staging_place(directory: Seq<char>) -> Seq<char> {
    joined(directory, "manifest.partial"@)
}

/// What a transaction works on: its plan, the directory of its state, and the
/// version of the archiver at work.
pub struct Transaction<'a> {
    pub plan: &'a ArchivePlan,
    pub directory: String,
    pub version: &'a str,
}

/// What a [`Transaction`] denotes.
pub struct TransactionView {
    pub plan: PlanView,
    pub directory: Seq<char>,
    pub version: Seq<char>,
}

impl<'a> DeepView for Transaction<'a> {
    type V = TransactionView;

    open spec fn deep_view(&self) -> TransactionView {
        TransactionView {
            plan: self.plan.deep_view(),
            directory: self.directory@,
            version: self.version@,
        }
    }
}

impl TransactionView {
    /// The transaction's journal.
    pub open spec fn journal(self) -> Seq<char> {
        journal_place(self.directory)
    }

    /// The transaction's staging file.
    pub open spec fn staging(self) -> Seq<char> {
        staging_place(self.directory)
    }
}

impl<'a> Transaction<'a> {
    fn journal(&self) -> (path: String)
        ensures
            path@ == self.deep_view().journal(),
    {
        join_path(&self.directory, "journal.pkl")
    }

    fn staging(&self) -> (path: String)
        ensures
            path@ == self.deep_view().staging(),
    {
        join_path(&self.directory, "output.partial")
    }
}

/// A journal written, and then in force.
#[verifier::opaque]
pub open spec fn enter_step(
    t: TransactionView,
    journal: JournalView,
    r: Seq<Reply>,
    at: int,
) -> Step<JournalView> {
    chain(
        write_journal_step(raw(t.journal()), journal, r, at),
        |_written: (), at: int| done(journal, at),
    )
}

fn enter(tape: &mut Tape, t: &Transaction, journal: Journal) -> (result: Result<Journal, Stop>)
    ensures
        follows(
            *old(tape),
            *final(tape),
            result,
            enter_step(
                t.deep_view(),
                journal.deep_view(),
                old(tape).replies@,
                old(tape).at as int,
            ),
        ),
{
    proof {
        reveal(enter_step);
    }
    write_journal(tape, &OsText::of(&t.journal()), &journal)?;
    Ok(journal)
}

/// A journal with a diagnostic.
pub open spec fn with_diagnostic(journal: JournalView, message: Seq<char>) -> JournalView {
    JournalView { diagnostic: Some(message), ..journal }
}

/// A failure, once it is in the journal.
pub open spec fn journaled_failure<T>(
    t: TransactionView,
    journal: JournalView,
    message: Seq<char>,
    r: Seq<Reply>,
    at: int,
) -> Step<T> {
    chain(
        write_journal_step(raw(t.journal()), with_diagnostic(journal, message), r, at),
        |_written: (), at: int| fail(message, at),
    )
}

/// Work whose failure goes into the journal.
pub open spec fn journaled<T>(
    t: TransactionView,
    journal: JournalView,
    work: Step<T>,
    r: Seq<Reply>,
) -> Step<T> {
    rescue(
        work,
        |message: Seq<char>, at: int| journaled_failure(t, journal, message, r, at),
    )
}

fn journal_failure<T: DeepView>(
    tape: &mut Tape,
    t: &Transaction,
    journal: &Journal,
    result: Result<T, Stop>,
) -> (outcome: Result<T, Stop>)
    ensures
        match result {
            Err(Stop::Fail(message)) => follows(
                *old(tape),
                *final(tape),
                outcome,
                journaled_failure(
                    t.deep_view(),
                    journal.deep_view(),
                    message@,
                    old(tape).replies@,
                    old(tape).at as int,
                ),
            ),
            _ => *final(tape) == *old(tape) && outcome == result,
        },
{
    match result {
        Err(Stop::Fail(message)) => {
            let mut noted = journal.copy();
            noted.diagnostic = Some(message.clone());
            write_journal(tape, &OsText::of(&t.journal()), &noted)?;
            Err(Stop::Fail(message))
        },
        other => other,
    }
}

/// The making of the staging file, by profile.
pub open spec fn stage_step(t: TransactionView, r: Seq<Reply>, at: int) -> Step<()> {
    match t.plan.profile {
        Profile::Copy => copy_stage_step(t.plan.source.path, t.staging(), r, at),
        Profile::Av1 => av1_stage_step(t.plan, t.staging(), r, at),
    }
}

fn stage(tape: &mut Tape, t: &Transaction) -> (result: Result<(), Stop>)
    ensures
        follows(
            *old(tape),
            *final(tape),
            result,
            stage_step(t.deep_view(), old(tape).replies@, old(tape).at as int),
        ),
{
    match t.plan.profile {
        Profile::Copy => copy_stage(tape, &t.plan.source.path, &t.staging()),
        Profile::Av1 => av1_stage(tape, t.plan, &t.staging()),
    }
}

/// The journal behind the staging of an output.
pub open spec fn staged_journal(
    t: TransactionView,
    journal: JournalView,
    output: EvidenceView,
) -> JournalView {
    JournalView {
        output: Some(EvidenceView { path: t.plan.destination_path, ..output }),
        phase: Phase::Staged,
        diagnostic: None,
        ..journal
    }
}

/// From prepared to staged: the source is what was planned, and its output
/// stands in the staging file.
#[verifier::opaque]
pub open spec fn prepared_step(
    t: TransactionView,
    journal: JournalView,
    r: Seq<Reply>,
    at: int,
) -> Step<JournalView> {
    if journal.phase != Phase::Prepared {
        done(journal, at)
    } else {
        chain(
            journaled(t, journal, validate_source_step(t.plan.source, r, at), r),
            |_valid: (), at: int|
                chain(
                    clear_internal_step(raw(t.staging()), r, at),
                    |_cleared: (), at: int|
                        chain(
                            journaled(t, journal, stage_step(t, r, at), r),
                            |_staged: (), at: int|
                                chain(
                                    journaled(t, journal, inspect_step(raw(t.staging()), r, at), r),
                                    |output: EvidenceView, at: int|
                                        enter_step(t, staged_journal(t, journal, output), r, at),
                                ),
                        ),
                ),
        )
    }
}

fn leave_prepared(tape: &mut Tape, t: &Transaction, journal: Journal) -> (result: Result<
    Journal,
    Stop,
>)
    ensures
        follows(
            *old(tape),
            *final(tape),
            result,
            prepared_step(
                t.deep_view(),
                journal.deep_view(),
                old(tape).replies@,
                old(tape).at as int,
            ),
        ),
{
    proof {
        reveal(prepared_step);
    }
    if journal.phase != Phase::Prepared {
        return Ok(journal);
    }
    let mut journal = journal;
    let valid = validate_source(tape, &t.plan.source);
    journal_failure(tape, t, &journal, valid)?;
    clear_internal(tape, &OsText::of(&t.staging()))?;
    let staged = stage(tape, t);
    journal_failure(tape, t, &journal, staged)?;
    let inspected = inspect_file(tape, &OsText::of(&t.staging()));
    let mut output = journal_failure(tape, t, &journal, inspected)?;
    output.path = t.plan.destination_path.clone();
    journal.output = Some(output);
    journal.phase = Phase::Staged;
    journal.diagnostic = None;
    enter(tape, t, journal)
}

/// From staged to published: the output stands at the destination.
#[verifier::opaque]
pub open spec fn staged_step(
    t: TransactionView,
    journal: JournalView,
    r: Seq<Reply>,
    at: int,
) -> Step<JournalView> {
    if journal.phase != Phase::Staged {
        done(journal, at)
    } else {
        match journal.output {
            None => fail("staged journal is missing output evidence"@, at),
            Some(expected) => chain(
                publish_output_step(
                    raw(t.staging()),
                    raw(t.plan.destination_path),
                    expected.sha256,
                    r,
                    at,
                ),
                |_published: (), at: int|
                    enter_step(t, JournalView { phase: Phase::Published, ..journal }, r, at),
            ),
        }
    }
}

fn leave_staged(tape: &mut Tape, t: &Transaction, journal: Journal) -> (result: Result<
    Journal,
    Stop,
>)
    ensures
        follows(
            *old(tape),
            *final(tape),
            result,
            staged_step(
                t.deep_view(),
                journal.deep_view(),
                old(tape).replies@,
                old(tape).at as int,
            ),
        ),
{
    proof {
        reveal(staged_step);
    }
    if journal.phase != Phase::Staged {
        return Ok(journal);
    }
    let mut journal = journal;
    match &journal.output {
        Some(expected) => {
            publish_output(
                tape,
                &OsText::of(&t.staging()),
                &OsText::of(&t.plan.destination_path),
                &expected.sha256,
            )?;
        },
        None => {
            return Err(failure("staged journal is missing output evidence"));
        },
    }
    journal.phase = Phase::Published;
    enter(tape, t, journal)
}

/// The verification of a published output: what it says of its source, and that
/// it decodes in full.
#[verifier::opaque]
pub open spec fn verification_step(
    t: TransactionView,
    output: EvidenceView,
    r: Seq<Reply>,
    at: int,
) -> Step<()> {
    chain(
        settled(
            output_check(
                t.plan.profile,
                t.plan.source,
                output,
                t.plan.duration_tolerance_seconds,
            ),
            at,
        ),
        |_verified: (), at: int| decode_step(t.plan.destination_path, r, at),
    )
}

fn verify_published(tape: &mut Tape, t: &Transaction, output: &MediaEvidence) -> (result: Result<
    (),
    Stop,
>)
    ensures
        follows(
            *old(tape),
            *final(tape),
            result,
            verification_step(
                t.deep_view(),
                output.deep_view(),
                old(tape).replies@,
                old(tape).at as int,
            ),
        ),
{
    proof {
        reveal(verification_step);
    }
    settle(
        verify_output(
            t.plan.profile,
            &t.plan.source,
            output,
            &t.plan.duration_tolerance_seconds,
        ),
    )?;
    decode_output(tape, &t.plan.destination_path)
}

/// The journal behind the verification of an output.
pub open spec fn verified_journal(journal: JournalView, output: EvidenceView) -> JournalView {
    JournalView { output: Some(output), phase: Phase::Verified, diagnostic: None, ..journal }
}

/// From published to verified: the output is what was staged, says the same as
/// its source and decodes in full.
#[verifier::opaque]
pub open spec fn published_step(
    t: TransactionView,
    journal: JournalView,
    r: Seq<Reply>,
    at: int,
) -> Step<JournalView> {
    if journal.phase != Phase::Published {
        done(journal, at)
    } else {
        chain(
            journaled(t, journal, inspect_step(raw(t.plan.destination_path), r, at), r),
            |output: EvidenceView, at: int|
                match journal.output {
                    None => fail("published journal is missing output evidence"@, at),
                    Some(staged) => if output.sha256 != staged.sha256 {
                        fail("published output differs from staged output"@, at)
                    } else {
                        chain(
                            journaled(t, journal, verification_step(t, output, r, at), r),
                            |_verified: (), at: int|
                                enter_step(t, verified_journal(journal, output), r, at),
                        )
                    },
                },
        )
    }
}

fn leave_published(tape: &mut Tape, t: &Transaction, journal: Journal) -> (result: Result<
    Journal,
    Stop,
>)
    ensures
        follows(
            *old(tape),
            *final(tape),
            result,
            published_step(
                t.deep_view(),
                journal.deep_view(),
                old(tape).replies@,
                old(tape).at as int,
            ),
        ),
{
    proof {
        reveal(published_step);
    }
    if journal.phase != Phase::Published {
        return Ok(journal);
    }
    let mut journal = journal;
    let inspected = inspect_file(tape, &OsText::of(&t.plan.destination_path));
    let output = journal_failure(tape, t, &journal, inspected)?;
    let same = match &journal.output {
        Some(staged) => same_text(&output.sha256, &staged.sha256),
        None => {
            return Err(failure("published journal is missing output evidence"));
        },
    };
    if !same {
        return Err(failure("published output differs from staged output"));
    }
    let verified = verify_published(tape, t, &output);
    journal_failure(tape, t, &journal, verified)?;
    journal.output = Some(output);
    journal.phase = Phase::Verified;
    journal.diagnostic = None;
    enter(tape, t, journal)
}

/// A manifest published, or found to be this transaction's already.
#[verifier::opaque]
pub open spec fn publish_manifest_step(
    t: TransactionView,
    manifest: ManifestView,
    r: Seq<Reply>,
    at: int,
) -> Step<()> {
    chain(
        exists_step(raw(t.plan.manifest_path), r, at),
        |there: bool, at: int|
            if there {
                chain(
                    load_manifest_step(raw(t.plan.manifest_path), r, at),
                    |existing: ManifestView, at: int|
                        if existing.transaction_id != manifest.transaction_id
                            || existing.output.sha256 != manifest.output.sha256 {
                            fail("existing manifest belongs to another transaction"@, at)
                        } else {
                            done((), at)
                        },
                )
            } else {
                publish_text_step(
                    raw(manifest_staging_place(t.directory)),
                    raw(t.plan.manifest_path),
                    manifest_text(manifest),
                    r,
                    at,
                )
            },
    )
}

fn publish_manifest(tape: &mut Tape, t: &Transaction, manifest: &ArchiveManifest) -> (result:
    Result<(), Stop>)
    ensures
        follows(
            *old(tape),
            *final(tape),
            result,
            publish_manifest_step(
                t.deep_view(),
                manifest.deep_view(),
                old(tape).replies@,
                old(tape).at as int,
            ),
        ),
{
    proof {
        reveal(publish_manifest_step);
    }
    let place = OsText::of(&t.plan.manifest_path);
    if tape.is_there(&place)? {
        let existing = load_manifest(tape, &place)?;
        if !same_text(&existing.transaction_id, &manifest.transaction_id) || !same_text(
            &existing.output.sha256,
            &manifest.output.sha256,
        ) {
            return Err(failure("existing manifest belongs to another transaction"));
        }
        return Ok(());
    }
    publish_text_no_replace(
        tape,
        &OsText::of(&join_path(&t.directory, "manifest.partial")),
        &place,
        &render_manifest(manifest),
    )
}

/// The journal behind the publication of a manifest.
pub open spec fn manifested_journal(
    journal: JournalView,
    quarantine: Option<Seq<char>>,
) -> JournalView {
    JournalView { quarantine_path: quarantine, phase: Phase::Manifested, ..journal }
}

/// From verified to manifested: the manifest is durable.
#[verifier::opaque]
pub open spec fn verified_step(
    t: TransactionView,
    journal: JournalView,
    r: Seq<Reply>,
    at: int,
) -> Step<JournalView> {
    if journal.phase != Phase::Verified {
        done(journal, at)
    } else {
        match quarantine_text(t.plan) {
            Err(message) => fail(message, at),
            Ok(quarantine) => match journal.output {
                None => fail("verified journal is missing output evidence"@, at),
                Some(output) => chain(
                    publish_manifest_step(
                        t,
                        manifest_of(t.plan, output, quarantine, t.version),
                        r,
                        at,
                    ),
                    |_published: (), at: int|
                        enter_step(t, manifested_journal(journal, quarantine), r, at),
                ),
            },
        }
    }
}

fn leave_verified(tape: &mut Tape, t: &Transaction, journal: Journal) -> (result: Result<
    Journal,
    Stop,
>)
    ensures
        follows(
            *old(tape),
            *final(tape),
            result,
            verified_step(
                t.deep_view(),
                journal.deep_view(),
                old(tape).replies@,
                old(tape).at as int,
            ),
        ),
{
    proof {
        reveal(verified_step);
    }
    if journal.phase != Phase::Verified {
        return Ok(journal);
    }
    let mut journal = journal;
    let quarantine = settle(quarantine_path(t.plan))?;
    let output = match &journal.output {
        Some(output) => output.copy(),
        None => {
            return Err(failure("verified journal is missing output evidence"));
        },
    };
    let manifest = manifest_from_plan(t.plan, output, copy_optional(&quarantine), t.version);
    publish_manifest(tape, t, &manifest)?;
    journal.quarantine_path = quarantine;
    journal.phase = Phase::Manifested;
    enter(tape, t, journal)
}

/// The journal of a transaction that is over.
pub open spec fn complete_journal(journal: JournalView) -> JournalView {
    JournalView { phase: Phase::Complete, ..journal }
}

/// From manifested on: what becomes of the source.
#[verifier::opaque]
pub open spec fn manifested_step(
    t: TransactionView,
    journal: JournalView,
    r: Seq<Reply>,
    at: int,
) -> Step<JournalView> {
    if journal.phase != Phase::Manifested {
        done(journal, at)
    } else {
        match t.plan.source_disposition {
            SourceDisposition::Preserve => enter_step(t, complete_journal(journal), r, at),
            SourceDisposition::Delete => chain(
                delete_source_step(t.plan.source, r, at),
                |_deleted: (), at: int| enter_step(t, complete_journal(journal), r, at),
            ),
            SourceDisposition::Quarantine => chain(
                quarantine_link_step(t.plan, journal, r, at),
                |_linked: (), at: int|
                    enter_step(t, JournalView { phase: Phase::QuarantineLinked, ..journal }, r, at),
            ),
        }
    }
}

fn leave_manifested(tape: &mut Tape, t: &Transaction, journal: Journal) -> (result: Result<
    Journal,
    Stop,
>)
    ensures
        follows(
            *old(tape),
            *final(tape),
            result,
            manifested_step(
                t.deep_view(),
                journal.deep_view(),
                old(tape).replies@,
                old(tape).at as int,
            ),
        ),
{
    proof {
        reveal(manifested_step);
    }
    if journal.phase != Phase::Manifested {
        return Ok(journal);
    }
    let mut journal = journal;
    match t.plan.source_disposition {
        SourceDisposition::Preserve => {
            journal.phase = Phase::Complete;
        },
        SourceDisposition::Delete => {
            delete_source(tape, t.plan)?;
            journal.phase = Phase::Complete;
        },
        SourceDisposition::Quarantine => {
            quarantine_link(tape, t.plan, &journal)?;
            journal.phase = Phase::QuarantineLinked;
        },
    }
    enter(tape, t, journal)
}

/// From quarantine-linked to complete: the source's first name is gone.
#[verifier::opaque]
pub open spec fn linked_step(
    t: TransactionView,
    journal: JournalView,
    r: Seq<Reply>,
    at: int,
) -> Step<JournalView> {
    if journal.phase != Phase::QuarantineLinked {
        done(journal, at)
    } else {
        chain(
            finish_quarantine_step(t.plan, journal, r, at),
            |_finished: (), at: int| enter_step(t, complete_journal(journal), r, at),
        )
    }
}

fn leave_linked(tape: &mut Tape, t: &Transaction, journal: Journal) -> (result: Result<
    Journal,
    Stop,
>)
    ensures
        follows(
            *old(tape),
            *final(tape),
            result,
            linked_step(
                t.deep_view(),
                journal.deep_view(),
                old(tape).replies@,
                old(tape).at as int,
            ),
        ),
{
    proof {
        reveal(linked_step);
    }
    if journal.phase != Phase::QuarantineLinked {
        return Ok(journal);
    }
    let mut journal = journal;
    finish_quarantine(tape, t.plan, &journal)?;
    journal.phase = Phase::Complete;
    enter(tape, t, journal)
}

/// All that comes before anything happens to the source: the output staged,
/// published and verified, and the manifest durable.
#[verifier::opaque]
pub open spec fn archive_step(
    t: TransactionView,
    journal: JournalView,
    r: Seq<Reply>,
    at: int,
) -> Step<JournalView> {
    chain(
        prepared_step(t, journal, r, at),
        |journal: JournalView, at: int|
            chain(
                staged_step(t, journal, r, at),
                |journal: JournalView, at: int|
                    chain(
                        published_step(t, journal, r, at),
                        |journal: JournalView, at: int| verified_step(t, journal, r, at),
                    ),
            ),
    )
}

fn archive(tape: &mut Tape, t: &Transaction, journal: Journal) -> (result: Result<Journal, Stop>)
    ensures
        follows(
            *old(tape),
            *final(tape),
            result,
            archive_step(
                t.deep_view(),
                journal.deep_view(),
                old(tape).replies@,
                old(tape).at as int,
            ),
        ),
{
    proof {
        reveal(archive_step);
    }
    let journal = leave_prepared(tape, t, journal)?;
    let journal = leave_staged(tape, t, journal)?;
    let journal = leave_published(tape, t, journal)?;
    leave_verified(tape, t, journal)
}

/// What happens to the source once everything else is durable.
#[verifier::opaque]
pub open spec fn dispose_step(
    t: TransactionView,
    journal: JournalView,
    r: Seq<Reply>,
    at: int,
) -> Step<JournalView> {
    chain(
        manifested_step(t, journal, r, at),
        |journal: JournalView, at: int| linked_step(t, journal, r, at),
    )
}

fn dispose(tape: &mut Tape, t: &Transaction, journal: Journal) -> (result: Result<Journal, Stop>)
    ensures
        follows(
            *old(tape),
            *final(tape),
            result,
            dispose_step(
                t.deep_view(),
                journal.deep_view(),
                old(tape).replies@,
                old(tape).at as int,
            ),
        ),
{
    proof {
        reveal(dispose_step);
    }
    let journal = leave_manifested(tape, t, journal)?;
    leave_linked(tape, t, journal)
}

/// The journal that a transaction goes on from: the one it left, or a new one
/// where both places it will write to are free.
#[verifier::opaque]
pub open spec fn open_journal_step(t: TransactionView, r: Seq<Reply>, at: int) -> Step<
    JournalView,
> {
    chain(
        exists_step(raw(t.journal()), r, at),
        |there: bool, at: int|
            if there {
                chain(
                    load_journal_step(raw(t.journal()), r, at),
                    |journal: JournalView, at: int|
                        chain(
                            settled(journal_check(journal, t.plan, t.staging()), at),
                            |_valid: (), at: int| done(journal, at),
                        ),
                )
            } else {
                chain(
                    exists_step(raw(t.plan.destination_path), r, at),
                    |destination: bool, at: int|
                        if destination {
                            fail(
                                "destination or manifest already exists; refusing overwrite"@,
                                at,
                            )
                        } else {
                            chain(
                                exists_step(raw(t.plan.manifest_path), r, at),
                                |manifest: bool, at: int|
                                    if manifest {
                                        fail(
                                            "destination or manifest already exists; refusing overwrite"@,
                                            at,
                                        )
                                    } else {
                                        enter_step(
                                            t,
                                            fresh_journal(t.plan, t.staging(), t.version),
                                            r,
                                            at,
                                        )
                                    },
                            )
                        },
                )
            },
    )
}

fn open_journal(tape: &mut Tape, t: &Transaction) -> (result: Result<Journal, Stop>)
    ensures
        follows(
            *old(tape),
            *final(tape),
            result,
            open_journal_step(t.deep_view(), old(tape).replies@, old(tape).at as int),
        ),
{
    proof {
        reveal(open_journal_step);
    }
    let path = OsText::of(&t.journal());
    let staging = t.staging();
    if tape.is_there(&path)? {
        let journal = load_journal(tape, &path)?;
        settle(validate_journal(journal, t.plan, &staging))?;
        return Ok(journal.copy());
    }
    if tape.is_there(&OsText::of(&t.plan.destination_path))? || tape.is_there(
        &OsText::of(&t.plan.manifest_path),
    )? {
        return Err(failure("destination or manifest already exists; refusing overwrite"));
    }
    enter(tape, t, new_journal(t.plan, &staging, t.version))
}

/// A transaction carried on from its journal to its end.
#[verifier::opaque]
pub open spec fn carry_on_step(
    t: TransactionView,
    journal: JournalView,
    r: Seq<Reply>,
    at: int,
) -> Step<Seq<char>> {
    if journal.phase == Phase::Complete {
        done("already complete "@ + t.plan.manifest_path, at)
    } else {
        chain(
            archive_step(t, journal, r, at),
            |journal: JournalView, at: int|
                chain(
                    dispose_step(t, journal, r, at),
                    |_journal: JournalView, at: int| done(t.plan.manifest_path, at),
                ),
        )
    }
}

fn carry_on(tape: &mut Tape, t: &Transaction, journal: Journal) -> (result: Result<String, Stop>)
    ensures
        follows(
            *old(tape),
            *final(tape),
            result,
            carry_on_step(
                t.deep_view(),
                journal.deep_view(),
                old(tape).replies@,
                old(tape).at as int,
            ),
        ),
{
    proof {
        reveal(carry_on_step);
    }
    if journal.phase == Phase::Complete {
        return Ok(cat2("already complete ", &t.plan.manifest_path));
    }
    let journal = archive(tape, t, journal)?;
    dispose(tape, t, journal)?;
    Ok(t.plan.manifest_path.clone())
}

/// A plan executed, or its execution resumed.
#[verifier::opaque]
pub open spec fn execute_step(
    plan: PlanView,
    version: Seq<char>,
    r: Seq<Reply>,
    at: int,
) -> Step<Seq<char>> {
    match parent(plan.destination_path) {
        None => fail("destination has no parent"@, at),
        Some(parent) => {
            let t = TransactionView {
                plan,
                directory: transaction_directory(parent, plan),
                version,
            };
            chain(
                ensure_directory_step(raw(transactions_root(parent)), r, at),
                |_root: (), at: int|
                    chain(
                        ensure_directory_step(raw(t.directory), r, at),
                        |_directory: (), at: int|
                            chain(
                                open_journal_step(t, r, at),
                                |journal: JournalView, at: int| carry_on_step(t, journal, r, at),
                            ),
                    ),
            )
        },
    }
}

/// Executes a plan, or resumes its execution.
pub fn execute(tape: &mut Tape, plan: &ArchivePlan, version: &str) -> (result: Result<String, Stop>)
    ensures
        follows(
            *old(tape),
            *final(tape),
            result,
            execute_step(
                plan.deep_view(),
                version@,
                old(tape).replies@,
                old(tape).at as int,
            ),
        ),
{
    proof {
        reveal(execute_step);
    }
    let parent = match parent_of(&plan.destination_path) {
        Some(parent) => parent,
        None => {
            return Err(failure("destination has no parent"));
        },
    };
    let root = join_path(&parent, ".marchiver-transactions");
    let directory = join_path(&root, &plan.transaction_id);
    let t = Transaction { plan, directory, version };
    ensure_directory(tape, &OsText::of(&root))?;
    ensure_directory(tape, &OsText::of(&t.directory))?;
    let journal = open_journal(tape, &t)?;
    carry_on(tape, &t, journal)
}

/// A plan loaded and executed, or its execution resumed.
#[verifier::opaque]
pub open spec fn apply_step(
    path: Seq<u8>,
    version: Seq<char>,
    r: Seq<Reply>,
    at: int,
) -> Step<Seq<char>> {
    chain(
        load_plan_step(path, r, at),
        |plan: PlanView, at: int| execute_step(plan, version, r, at),
    )
}

/// Loads a plan and executes it, or resumes its execution.
pub fn apply(tape: &mut Tape, path: &OsText, version: &str) -> (result: Result<String, Stop>)
    ensures
        follows(
            *old(tape),
            *final(tape),
            result,
            apply_step(path@, version@, old(tape).replies@, old(tape).at as int),
        ),
{
    proof {
        reveal(apply_step);
    }
    let plan = load_plan(tape, path)?;
    execute(tape, plan, version)
}

} // verus!
