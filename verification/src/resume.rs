//! What a transaction's journal promises: a transaction that stops at any point
//! can be resumed, goes on where it stopped and never back.
use vstd::prelude::*;

use crate::apply::{
    archive_step, carry_on_step, dispose_step, enter_step, journaled, linked_step,
    manifest_staging_place, manifested_step, open_journal_step, prepared_step,
    publish_manifest_step, published_step, staged_step, verification_step, verified_step,
    with_diagnostic, TransactionView,
};
use crate::disposal::{
    delete_source_step, finish_quarantine_step, link_if_needed_step, link_step,
    quarantine_directories_step, quarantine_link_step,
};
use crate::flow::{done, Outcome, Reply, RequestView, Step};
use crate::inspect::{inspect_step, regular_file_step, validate_source_step};
use crate::load::{load_manifest_step, validate_manifest_step};
use crate::model::{EvidenceView, JournalView, Phase};
use crate::os_text::raw;
use crate::plan::{fresh_journal, journal_check};
use crate::render::journal_text;
use crate::safety::{law_inspection_only_looks, looking};
use crate::storage::{
    add_name_step, atomic_replace_step, clear_internal_step, discard_step, drop_name_step,
    ensure_directory_step, ensure_same_file_step, hash_regular_step, link_or_remove_step,
    promote_step, publish_new_step, publish_output_step, publish_text_step, remove_internal_step,
    replacement_place, text_name, write_journal_step,
};
use crate::tool::{av1_stage_step, ffmpeg_step};
use crate::trace::{every, group_every, lemma_every_widened};

verus! {

/// Whether a journal can be resumed from, and stands at a phase or behind it.
pub open spec fn resumable(t: TransactionView, journal: JournalView, floor: Phase) -> bool {
    &&& journal_check(journal, t.plan, t.staging()) is Ok
    &&& journal.phase.rank() >= floor.rank()
}

/// A transaction's first journal can be resumed from.
pub proof fn law_fresh_journal_resumes(t: TransactionView)
    requires
        t.version.len() > 0,
    ensures
        resumable(t, fresh_journal(t.plan, t.staging(), t.version), Phase::Prepared),
{
}

/// A journal that is found can be resumed from, or the transaction does not go on.
pub proof fn law_opened_journal_resumes(t: TransactionView, r: Seq<Reply>, at: int)
    requires
        t.version.len() > 0,
    ensures
        open_journal_step(t, r, at).outcome matches Outcome::Done(journal) ==> resumable(
            t,
            journal,
            Phase::Prepared,
        ),
{
    reveal(open_journal_step);
    reveal(enter_step);
}

/// Every phase that is left leads to a later one, with a journal that can be
/// resumed from.
pub proof fn law_phases_advance(t: TransactionView, journal: JournalView, r: Seq<Reply>, at: int)
    requires
        journal_check(journal, t.plan, t.staging()) is Ok,
    ensures
        prepared_step(t, journal, r, at).outcome matches Outcome::Done(after) ==> resumable(
            t,
            after,
            journal.phase,
        ) && after.phase != Phase::Prepared,
        staged_step(t, journal, r, at).outcome matches Outcome::Done(after) ==> resumable(
            t,
            after,
            journal.phase,
        ) && after.phase != Phase::Staged,
        published_step(t, journal, r, at).outcome matches Outcome::Done(after) ==> resumable(
            t,
            after,
            journal.phase,
        ) && after.phase != Phase::Published,
        verified_step(t, journal, r, at).outcome matches Outcome::Done(after) ==> resumable(
            t,
            after,
            journal.phase,
        ) && after.phase != Phase::Verified,
        manifested_step(t, journal, r, at).outcome matches Outcome::Done(after) ==> resumable(
            t,
            after,
            journal.phase,
        ) && after.phase != Phase::Manifested,
        linked_step(t, journal, r, at).outcome matches Outcome::Done(after) ==> resumable(
            t,
            after,
            journal.phase,
        ) && after.phase != Phase::QuarantineLinked,
{
    reveal(prepared_step);
    reveal(staged_step);
    reveal(published_step);
    reveal(verified_step);
    reveal(manifested_step);
    reveal(linked_step);
    reveal(enter_step);
    reveal(quarantine_link_step);
}

/// Whether a text is that of a journal which can be resumed from, at a phase or
/// behind it.
pub open spec fn resumable_text(t: TransactionView, contents: Seq<char>, floor: Phase) -> bool {
    exists|journal: JournalView|
        resumable(t, journal, floor) && contents == #[trigger] journal_text(journal)
}

/// The requests that write nothing but manifests and journals that can be
/// resumed from, at a phase or behind it.
pub open spec fn journaling(t: TransactionView, floor: Phase) -> spec_fn(RequestView) -> bool {
    |request: RequestView|
        request matches RequestView::WriteNew { path, contents } ==> path
            == raw(manifest_staging_place(t.directory)) || resumable_text(t, contents, floor)
}

broadcast proof fn journal_replace(
    t: TransactionView,
    journal: JournalView,
    r: Seq<Reply>,
    at: int,
    floor: Phase,
)
    requires
        resumable(t, journal, floor),
    ensures
        #[trigger] every(
            write_journal_step(raw(t.journal()), journal, r, at),
            journaling(t, floor),
        ),
{
    broadcast use group_every;

    reveal(atomic_replace_step);
    reveal(clear_internal_step);
    reveal(remove_internal_step);
    assert(resumable_text(t, journal_text(journal), floor));
}

broadcast proof fn journal_enter(
    t: TransactionView,
    journal: JournalView,
    r: Seq<Reply>,
    at: int,
    floor: Phase,
)
    requires
        resumable(t, journal, floor),
    ensures
        #[trigger] every(enter_step(t, journal, r, at), journaling(t, floor)),
{
    broadcast use {group_every, journal_replace};

    reveal(enter_step);
}

broadcast proof fn journal_inspect(
    t: TransactionView,
    path: Seq<u8>,
    r: Seq<Reply>,
    at: int,
    floor: Phase,
)
    ensures
        #[trigger] every(inspect_step(path, r, at), journaling(t, floor)),
{
    law_inspection_only_looks(path, r, at);
    lemma_every_widened(inspect_step(path, r, at), looking(), journaling(t, floor));
}

broadcast proof fn journal_validate(
    t: TransactionView,
    source: EvidenceView,
    r: Seq<Reply>,
    at: int,
    floor: Phase,
)
    ensures
        #[trigger] every(validate_source_step(source, r, at), journaling(t, floor)),
{
    broadcast use {group_every, journal_inspect};

    reveal(validate_source_step);
}

proof fn lemma_prepared_journals(
    t: TransactionView,
    journal: JournalView,
    r: Seq<Reply>,
    at: int,
    floor: Phase,
)
    requires
        resumable(t, journal, floor),
    ensures
        every(prepared_step(t, journal, r, at), journaling(t, floor)),
{
    broadcast use {group_every, journal_replace, journal_enter, journal_inspect, journal_validate};

    reveal(prepared_step);
    reveal(clear_internal_step);
    reveal(remove_internal_step);
    reveal(av1_stage_step);
    reveal(ffmpeg_step);
}

proof fn lemma_staged_journals(
    t: TransactionView,
    journal: JournalView,
    r: Seq<Reply>,
    at: int,
    floor: Phase,
)
    requires
        resumable(t, journal, floor),
    ensures
        every(staged_step(t, journal, r, at), journaling(t, floor)),
{
    broadcast use {group_every, journal_enter};

    reveal(staged_step);
    reveal(publish_output_step);
    reveal(discard_step);
    reveal(promote_step);
    reveal(drop_name_step);
    reveal(hash_regular_step);
    reveal(regular_file_step);
    reveal(remove_internal_step);
}

proof fn lemma_published_journals(
    t: TransactionView,
    journal: JournalView,
    r: Seq<Reply>,
    at: int,
    floor: Phase,
)
    requires
        resumable(t, journal, floor),
    ensures
        every(published_step(t, journal, r, at), journaling(t, floor)),
{
    broadcast use {group_every, journal_replace, journal_enter, journal_inspect};

    reveal(published_step);
    reveal(verification_step);
    reveal(ffmpeg_step);
}

proof fn lemma_verified_journals(
    t: TransactionView,
    journal: JournalView,
    r: Seq<Reply>,
    at: int,
    floor: Phase,
)
    requires
        resumable(t, journal, floor),
    ensures
        every(verified_step(t, journal, r, at), journaling(t, floor)),
{
    broadcast use {group_every, journal_enter};

    reveal(verified_step);
    reveal(publish_manifest_step);
    reveal(publish_text_step);
    reveal(clear_internal_step);
    reveal(remove_internal_step);
    reveal(publish_new_step);
    reveal(drop_name_step);
    reveal(link_or_remove_step);
    reveal(load_manifest_step);
    reveal(validate_manifest_step);
}

proof fn lemma_manifested_journals(
    t: TransactionView,
    journal: JournalView,
    r: Seq<Reply>,
    at: int,
    floor: Phase,
)
    requires
        resumable(t, journal, floor),
    ensures
        every(manifested_step(t, journal, r, at), journaling(t, floor)),
{
    broadcast use {group_every, journal_enter, journal_validate};

    reveal(manifested_step);
    reveal(delete_source_step);
    reveal(add_name_step);
    reveal(drop_name_step);
    reveal(quarantine_link_step);
    reveal(quarantine_directories_step);
    reveal(link_if_needed_step);
    reveal(link_step);
    reveal(ensure_directory_step);
    reveal(ensure_same_file_step);
}

proof fn lemma_linked_journals(
    t: TransactionView,
    journal: JournalView,
    r: Seq<Reply>,
    at: int,
    floor: Phase,
)
    requires
        resumable(t, journal, floor),
    ensures
        every(linked_step(t, journal, r, at), journaling(t, floor)),
{
    broadcast use {group_every, journal_enter};

    reveal(linked_step);
    reveal(finish_quarantine_step);
    reveal(drop_name_step);
    reveal(ensure_same_file_step);
}

/// Archiving writes nothing but manifests and journals that can be resumed from,
/// and ends with one.
proof fn lemma_archive_journals(
    t: TransactionView,
    journal: JournalView,
    r: Seq<Reply>,
    at: int,
    floor: Phase,
)
    requires
        resumable(t, journal, floor),
    ensures
        every(archive_step(t, journal, r, at), journaling(t, floor)),
        archive_step(t, journal, r, at).outcome matches Outcome::Done(after) ==> resumable(
            t,
            after,
            floor,
        ) && after.phase.rank() >= Phase::Manifested.rank(),
{
    broadcast use group_every;

    reveal(archive_step);
    let prepared = prepared_step(t, journal, r, at);
    lemma_prepared_journals(t, journal, r, at, floor);
    law_phases_advance(t, journal, r, at);
    if let Outcome::Done(j1) = prepared.outcome {
        let staged = staged_step(t, j1, r, prepared.at);
        lemma_staged_journals(t, j1, r, prepared.at, floor);
        law_phases_advance(t, j1, r, prepared.at);
        if let Outcome::Done(j2) = staged.outcome {
            let published = published_step(t, j2, r, staged.at);
            lemma_published_journals(t, j2, r, staged.at, floor);
            law_phases_advance(t, j2, r, staged.at);
            if let Outcome::Done(j3) = published.outcome {
                lemma_verified_journals(t, j3, r, published.at, floor);
                law_phases_advance(t, j3, r, published.at);
            }
        }
    }
}

/// Whatever a transaction that is carried on writes, but for manifests, is a
/// journal that it can be resumed from, at the phase it was carried on from or
/// behind it. So it can be resumed from wherever it stops, and never goes back.
pub proof fn law_written_journals_resume(
    t: TransactionView,
    journal: JournalView,
    r: Seq<Reply>,
    at: int,
)
    requires
        journal_check(journal, t.plan, t.staging()) is Ok,
    ensures
        every(carry_on_step(t, journal, r, at), journaling(t, journal.phase)),
{
    broadcast use group_every;

    let floor = journal.phase;
    reveal(carry_on_step);
    reveal(dispose_step);
    let archived = archive_step(t, journal, r, at);
    lemma_archive_journals(t, journal, r, at, floor);
    if let Outcome::Done(j1) = archived.outcome {
        let disposed = manifested_step(t, j1, r, archived.at);
        lemma_manifested_journals(t, j1, r, archived.at, floor);
        law_phases_advance(t, j1, r, archived.at);
        if let Outcome::Done(j2) = disposed.outcome {
            lemma_linked_journals(t, j2, r, disposed.at, floor);
        }
    }
}

/// A transaction whose journal says that it is complete does nothing and says so.
pub proof fn law_complete_transaction_rests(
    t: TransactionView,
    journal: JournalView,
    r: Seq<Reply>,
    at: int,
)
    requires
        journal.phase == Phase::Complete,
    ensures
        carry_on_step(t, journal, r, at) == done(
            "already complete "@ + t.plan.manifest_path,
            at,
        ),
{
    reveal(carry_on_step);
}

/// A failure that goes into the journal is written there with the phase
/// unchanged before it is reported.
pub proof fn law_failure_is_journaled<T>(
    t: TransactionView,
    journal: JournalView,
    work: Step<T>,
    message: Seq<char>,
    r: Seq<Reply>,
)
    requires
        work.outcome == Outcome::<T>::Fail(message),
        write_journal_step(
            raw(t.journal()),
            with_diagnostic(journal, message),
            r,
            work.at,
        ).outcome is Done,
    ensures
        journaled(t, journal, work, r).outcome == Outcome::<T>::Fail(message),
        with_diagnostic(journal, message).phase == journal.phase,
        exists|i: int|
            0 <= i < journaled(t, journal, work, r).asked.len() && (
            #[trigger] journaled(t, journal, work, r).asked[i] matches RequestView::WriteNew {
                contents,
                ..
            } && contents == journal_text(with_diagnostic(journal, message))),
{
    let noted = with_diagnostic(journal, message);
    let write = write_journal_step(raw(t.journal()), noted, r, work.at);
    reveal(atomic_replace_step);
    let name = text_name(raw(t.journal()))->0;
    let temporary = replacement_place(raw(t.journal()), name);
    let cleared = clear_internal_step(temporary, r, work.at);
    let i = cleared.asked.len() as int;
    assert(write.asked[i] == (RequestView::WriteNew {
        path: temporary,
        contents: journal_text(noted),
    }));
    assert(journaled(t, journal, work, r).asked[work.asked.len() + i] == write.asked[i]);
}

} // verus!
