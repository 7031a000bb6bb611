//! What each phase of a transaction does, and what its journal says of it.
use vstd::prelude::*;
use vstd::string::*;

use crate::apply::{
    archive_step, carry_on_step, complete_journal, dispose_step, enter_step, execute_step,
    journaled, linked_step, manifest_staging_place, manifested_journal, manifested_step,
    open_journal_step, prepared_step, publish_manifest_step, published_step, stage_step,
    staged_journal, staged_step, verification_step, verified_journal, verified_step,
    with_diagnostic, TransactionView,
};
use crate::compare::output_check;
use crate::disposal::{
    check_quarantine_step, delete_source_step, finish_quarantine_step, link_if_needed_step,
    link_step, quarantine_directories_step, quarantine_link_step, restore_by_presence_step, restore_step,
    verify_manifest_step,
};
use crate::findings::{
    law_inspection_records_what_was_found, law_sources_are_accepted_where_nothing_changed,
};
use crate::flow::{done, fail, FileKind, Outcome, Reply, RequestView, Step, Tool};
use crate::inspect::{inspect_step, regular_file_step, validate_source_step};
use crate::lifetime::transaction_of;
use crate::load::{load_journal_step, load_manifest_step};
use crate::model::{
    EvidenceView, JournalView, ManifestView, Phase, PlanView, Profile, SourceDisposition,
};
use crate::os_text::{raw, raw_all, shown};
use crate::path::{joined, parent, raw_parent_directory};
use crate::plan::{fresh_journal, journal_check, manifest_of, quarantine_text};
use crate::records::{law_new_files_are_written_linked_and_synced, new_file_requests};
use crate::render::{journal_text, manifest_text};
use crate::replay::{
    count_clear_internal, count_inspect, count_prepared, count_published, count_staged,
    count_validate,
};
use crate::storage::{
    add_name_step, atomic_replace_step, clear_internal_step, discard_step, drop_name_step,
    ensure_directory_step, ensure_same_file_step, hash_regular_step,
    law_replacement_is_prepared_elsewhere, promote_step,
    publish_new_step, publish_output_step, publish_text_step, remove_internal_step,
    replacement_place, text_name, write_journal_step,
};
use crate::tool::{
    av1_arguments, av1_stage_step, decode_arguments, decode_step, ffmpeg_step,
};
use crate::trace::counted;

verus! {

/// The requests by which a file's contents are replaced as one.
pub open spec fn replacement_requests(
    temporary: Seq<u8>,
    path: Seq<u8>,
    contents: Seq<char>,
) -> Seq<RequestView> {
    seq![
        RequestView::WriteNew { path: temporary, contents },
        RequestView::Rename { from: temporary, to: path },
        RequestView::SyncDirectory { path: raw_parent_directory(path) },
    ]
}

/// Whether the last thing that was asked for was to replace a file's contents.
pub open spec fn replaces_last(
    asked: Seq<RequestView>,
    path: Seq<u8>,
    contents: Seq<char>,
) -> bool {
    &&& asked.len() >= 3
    &&& exists|temporary: Seq<u8>|
        temporary != path && asked.skip(asked.len() - 3) == #[trigger] replacement_requests(
            temporary,
            path,
            contents,
        )
}

proof fn lemma_replaces_behind(
    first: Seq<RequestView>,
    second: Seq<RequestView>,
    path: Seq<u8>,
    contents: Seq<char>,
)
    requires
        replaces_last(second, path, contents),
    ensures
        replaces_last(first + second, path, contents),
{
    let whole = first + second;
    let temporary = choose|temporary: Seq<u8>|
        temporary != path && second.skip(second.len() - 3) == #[trigger] replacement_requests(
            temporary,
            path,
            contents,
        );
    assert(whole.skip(whole.len() - 3) =~= second.skip(second.len() - 3));
    assert(whole.skip(whole.len() - 3) == replacement_requests(temporary, path, contents));
}

/// A file's contents are replaced by a rename over it, which is made durable.
pub proof fn law_contents_are_replaced_as_one(
    path: Seq<u8>,
    contents: Seq<char>,
    r: Seq<Reply>,
    at: int,
)
    ensures
        atomic_replace_step(path, contents, r, at).outcome is Done ==> replaces_last(
            atomic_replace_step(path, contents, r, at).asked,
            path,
            contents,
        ),
{
    reveal(atomic_replace_step);
    let step = atomic_replace_step(path, contents, r, at);
    if step.outcome is Done {
        let name = text_name(path)->0;
        let temporary = replacement_place(path, name);
        law_replacement_is_prepared_elsewhere(path);
        let clear = clear_internal_step(temporary, r, at);
        assert(step.asked =~= clear.asked + replacement_requests(temporary, path, contents));
        assert(step.asked.skip(step.asked.len() - 3) =~= replacement_requests(
            temporary,
            path,
            contents,
        ));
    }
}

/// A journal that is entered is in force, and is what was written last.
proof fn lemma_entered(t: TransactionView, journal: JournalView, r: Seq<Reply>, at: int)
    ensures
        enter_step(t, journal, r, at).outcome is Done ==> {
            &&& enter_step(t, journal, r, at).outcome == Outcome::Done(journal)
            &&& replaces_last(
                enter_step(t, journal, r, at).asked,
                raw(t.journal()),
                journal_text(journal),
            )
        },
{
    reveal(enter_step);
    let write = write_journal_step(raw(t.journal()), journal, r, at);
    law_contents_are_replaced_as_one(raw(t.journal()), journal_text(journal), r, at);
    if enter_step(t, journal, r, at).outcome is Done {
        assert(enter_step(t, journal, r, at).asked =~= write.asked);
    }
}

/// Whether an output was made in the staging file, up to a position: of a copy, by
/// copying the source; of an encoding, by running the encoder on it and making the
/// result durable.
pub open spec fn staged_until(
    t: TransactionView,
    asked: Seq<RequestView>,
    r: Seq<Reply>,
    at: int,
    p: int,
) -> bool {
    match t.plan.profile {
        Profile::Copy => {
            &&& at + 1 <= p <= r.len()
            &&& asked[p - 1 - at] == (RequestView::Copy {
                from: raw(t.plan.source.path),
                to: raw(t.staging()),
            })
            &&& r[p - 1] is Finished
        },
        Profile::Av1 => {
            &&& at + 2 <= p <= r.len()
            &&& asked[p - 2 - at] == (RequestView::Run {
                tool: Tool::Ffmpeg,
                arguments: raw_all(av1_arguments(t.plan, t.staging())),
            })
            &&& r[p - 2] is Ran && r[p - 2]->Ran_0.success
            &&& asked[p - 1 - at] == (RequestView::SyncFile { path: raw(t.staging()) })
            &&& r[p - 1] is Finished
        },
    }
}

proof fn lemma_staged_until(t: TransactionView, r: Seq<Reply>, at: int)
    ensures
        stage_step(t, r, at).outcome is Done ==> counted(stage_step(t, r, at), at)
            && staged_until(t, stage_step(t, r, at).asked, r, at, stage_step(t, r, at).at),
{
    reveal(av1_stage_step);
    reveal(ffmpeg_step);
    reveal(counted);
}

/// A transaction that is prepared goes on where its source is as planned: the output
/// is made in the staging file by the plan's profile and inspected there, and the
/// journal records what the inspection found, as the output that will be at the
/// destination.
pub proof fn law_outputs_are_staged_by_profile(
    t: TransactionView,
    journal: JournalView,
    r: Seq<Reply>,
    at: int,
)
    requires
        journal.phase == Phase::Prepared,
    ensures
        prepared_step(t, journal, r, at).outcome matches Outcome::Done(after) ==> {
            let asked = prepared_step(t, journal, r, at).asked;
            &&& validate_source_step(t.plan.source, r, at).outcome is Done
            &&& after.output is Some
            &&& after == (JournalView {
                phase: Phase::Staged,
                output: after.output,
                diagnostic: None,
                ..journal
            })
            &&& after.output->0.path == t.plan.destination_path
            &&& exists|p: int, found: EvidenceView|
                {
                    &&& #[trigger] staged_until(t, asked, r, at, p)
                    &&& inspect_step(raw(t.staging()), r, p).outcome == Outcome::Done(found)
                    &&& after.output->0 == #[trigger] renamed(found, t.plan.destination_path)
                }
            &&& replaces_last(asked, raw(t.journal()), journal_text(after))
        },
{
    reveal(prepared_step);
    let step = prepared_step(t, journal, r, at);
    if let Outcome::Done(after) = step.outcome {
        let one = validate_source_step(t.plan.source, r, at);
        count_validate(t.plan.source, r, at);
        let two = clear_internal_step(raw(t.staging()), r, one.at);
        count_clear_internal(raw(t.staging()), r, one.at);
        let three = stage_step(t, r, two.at);
        lemma_staged_until(t, r, two.at);
        let four = inspect_step(raw(t.staging()), r, three.at);
        let found = four.outcome->Done_0;
        let next = staged_journal(t, journal, found);
        let five = enter_step(t, next, r, four.at);
        lemma_entered(t, next, r, four.at);
        reveal(counted);
        assert(step.asked =~= (one.asked + two.asked) + (three.asked + (four.asked + five.asked)));
        assert(staged_until(t, step.asked, r, at, three.at)) by {
            let n = (one.asked + two.asked).len() as int;
            assert(three.at - 1 - at == n + (three.at - 1 - two.at));
            assert(step.asked[three.at - 1 - at] == three.asked[three.at - 1 - two.at]);
            if t.plan.profile == Profile::Av1 {
                assert(step.asked[three.at - 2 - at] == three.asked[three.at - 2 - two.at]);
            }
        }
        assert(after.output->0 == renamed(found, t.plan.destination_path));
        lemma_replaces_behind(
            (one.asked + two.asked) + (three.asked + four.asked),
            five.asked,
            raw(t.journal()),
            journal_text(after),
        );
        assert(step.asked =~= ((one.asked + two.asked) + (three.asked + four.asked))
            + five.asked);
    }
}

/// Evidence under another path.
pub open spec fn renamed(evidence: EvidenceView, path: Seq<char>) -> EvidenceView {
    EvidenceView {
        path,
        sha256: evidence.sha256,
        size: evidence.size,
        modified_ns: evidence.modified_ns,
        format: evidence.format,
        streams: evidence.streams,
        chapters: evidence.chapters,
        raw_probe_json: evidence.raw_probe_json,
    }
}

/// A staged output is published where the destination is free, by a link that is made
/// durable before the staging name goes; where something stands there, it is taken
/// for the output only if it has its digest. The journal then says that it is
/// published, and nothing else.
pub proof fn law_outputs_are_published_as_staged(
    t: TransactionView,
    journal: JournalView,
    r: Seq<Reply>,
    at: int,
)
    requires
        journal.phase == Phase::Staged,
    ensures
        journal.output is None ==> staged_step(t, journal, r, at).outcome == Outcome::<
            JournalView,
        >::Fail("staged journal is missing output evidence"@),
        staged_step(t, journal, r, at).outcome matches Outcome::Done(after) ==> {
            let asked = staged_step(t, journal, r, at).asked;
            let destination = raw(t.plan.destination_path);
            &&& after == (JournalView { phase: Phase::Published, ..journal })
            &&& journal.output is Some
            &&& 0 <= at < r.len() && r[at] is Flag
            &&& asked[0] == (RequestView::Exists { path: destination })
            &&& !r[at]->Flag_0 ==> asked.subrange(1, 5) == seq![
                RequestView::HardLink { from: raw(t.staging()), to: destination },
                RequestView::SyncDirectory { path: raw_parent_directory(destination) },
                RequestView::Remove { path: raw(t.staging()) },
                RequestView::SyncDirectory { path: raw_parent_directory(raw(t.staging())) },
            ]
            &&& r[at]->Flag_0 ==> {
                &&& asked[1] == (RequestView::Kind { path: destination })
                &&& at + 4 <= r.len() && r[at + 3] is Digest
                &&& asked[3] is Hash
                &&& r[at + 3]->Digest_0@ == journal.output->0.sha256
            }
            &&& replaces_last(asked, raw(t.journal()), journal_text(after))
        },
{
    reveal(staged_step);
    let step = staged_step(t, journal, r, at);
    if let Outcome::Done(after) = step.outcome {
        let destination = raw(t.plan.destination_path);
        let staging = raw(t.staging());
        let expected = journal.output->0.sha256;
        let publish = publish_output_step(staging, destination, expected, r, at);
        let next = JournalView { phase: Phase::Published, ..journal };
        let enter = enter_step(t, next, r, publish.at);
        lemma_entered(t, next, r, publish.at);
        assert(step.asked =~= publish.asked + enter.asked);
        lemma_replaces_behind(
            publish.asked,
            enter.asked,
            raw(t.journal()),
            journal_text(after),
        );
        reveal(publish_output_step);
        if r[at] == Reply::Flag(false) {
            reveal(promote_step);
            reveal(drop_name_step);
            assert(publish.asked =~= seq![
                RequestView::Exists { path: destination },
                RequestView::HardLink { from: staging, to: destination },
                RequestView::SyncDirectory { path: raw_parent_directory(destination) },
                RequestView::Remove { path: staging },
                RequestView::SyncDirectory { path: raw_parent_directory(staging) },
            ]);
            assert(step.asked.subrange(1, 5) =~= publish.asked.subrange(1, 5));
            assert(publish.asked.subrange(1, 5) =~= seq![
                RequestView::HardLink { from: staging, to: destination },
                RequestView::SyncDirectory { path: raw_parent_directory(destination) },
                RequestView::Remove { path: staging },
                RequestView::SyncDirectory { path: raw_parent_directory(staging) },
            ]);
        } else {
            reveal(hash_regular_step);
            reveal(regular_file_step);
        }
    }
}

/// A published output is verified where the inspection of the destination finds the
/// staged digest, the comparison with the source passes and a full decode succeeds.
/// The journal then records, as the output, exactly what that inspection found.
pub proof fn law_outputs_are_verified_as_found(
    t: TransactionView,
    journal: JournalView,
    r: Seq<Reply>,
    at: int,
)
    requires
        journal.phase == Phase::Published,
    ensures
        published_step(t, journal, r, at).outcome matches Outcome::Done(after) ==> {
            let asked = published_step(t, journal, r, at).asked;
            let inspection = inspect_step(raw(t.plan.destination_path), r, at);
            let found = inspection.outcome->Done_0;
            &&& inspection.outcome is Done
            &&& journal.output is Some && found.sha256 == journal.output->0.sha256
            &&& output_check(
                t.plan.profile,
                t.plan.source,
                found,
                t.plan.duration_tolerance_seconds,
            ) is Ok
            &&& asked.take(7) == inspection.asked
            &&& asked[7] == (RequestView::Run {
                tool: Tool::Ffmpeg,
                arguments: raw_all(decode_arguments(t.plan.destination_path)),
            })
            &&& at + 8 <= r.len() && r[at + 7] is Ran && r[at + 7]->Ran_0.success
            &&& after == (JournalView {
                phase: Phase::Verified,
                output: Some(found),
                diagnostic: None,
                ..journal
            })
            &&& replaces_last(asked, raw(t.journal()), journal_text(after))
        },
{
    reveal(published_step);
    let step = published_step(t, journal, r, at);
    if let Outcome::Done(after) = step.outcome {
        let place = raw(t.plan.destination_path);
        let inspection = inspect_step(place, r, at);
        let found = inspection.outcome->Done_0;
        count_inspect(place, r, at);
        reveal(counted);
        law_inspection_records_what_was_found(place, r, at);
        let verification = verification_step(t, found, r, inspection.at);
        let next = verified_journal(journal, found);
        let enter = enter_step(t, next, r, verification.at);
        lemma_entered(t, next, r, verification.at);
        reveal(verification_step);
        reveal(ffmpeg_step);
        assert(verification.asked =~= seq![
            RequestView::Run {
                tool: Tool::Ffmpeg,
                arguments: raw_all(decode_arguments(t.plan.destination_path)),
            },
        ]);
        assert(step.asked =~= (inspection.asked + verification.asked) + enter.asked);
        assert(step.asked.take(7) =~= inspection.asked);
        assert(step.asked[7] == verification.asked[0]);
        lemma_replaces_behind(
            inspection.asked + verification.asked,
            enter.asked,
            raw(t.journal()),
            journal_text(after),
        );
    }
}

/// Whether a manifest is that of a plan and an output.
pub open spec fn manifest_tells(
    manifest: ManifestView,
    plan: PlanView,
    output: EvidenceView,
    version: Seq<char>,
) -> bool {
    &&& manifest.schema_version == 1
    &&& manifest.kind == "ArchiveManifest"@
    &&& manifest.producer_version == version
    &&& manifest.transaction_id == plan.transaction_id
    &&& manifest.profile == plan.profile
    &&& manifest.source_disposition == plan.source_disposition
    &&& manifest.duration_tolerance_seconds == plan.duration_tolerance_seconds
    &&& manifest.av1 == plan.av1
    &&& manifest.source == plan.source
    &&& manifest.output == output
    &&& manifest.destination_path == plan.destination_path
    &&& manifest.manifest_path == plan.manifest_path
    &&& quarantine_text(plan) == Ok::<Option<Seq<char>>, Seq<char>>(manifest.quarantine_path)
}

/// Whether a manifest was published among some requests: where none stood, its text
/// was written and linked to its place; where one stood, it is of the same transaction
/// and of an output of the same digest.
pub open spec fn manifest_published(
    t: TransactionView,
    manifest: ManifestView,
    asked: Seq<RequestView>,
    r: Seq<Reply>,
    at: int,
) -> bool {
    let place = raw(t.plan.manifest_path);
    &&& 0 <= at < r.len() && r[at] is Flag
    &&& asked.len() > 0 && asked[0] == (RequestView::Exists { path: place })
    &&& r[at]->Flag_0 ==> {
        let existing = load_manifest_step(place, r, at + 1);
        &&& existing.outcome is Done
        &&& existing.outcome->Done_0.transaction_id == t.plan.transaction_id
        &&& existing.outcome->Done_0.output.sha256 == manifest.output.sha256
    }
    &&& !r[at]->Flag_0 ==> exists|n: int|
        1 <= n && n + 5 <= asked.len() && #[trigger] asked.subrange(n, n + 5)
            == new_file_requests(
            raw(manifest_staging_place(t.directory)),
            place,
            manifest_text(manifest),
        )
}

/// The manifest that a verified transaction publishes records the plan and, as the
/// output, exactly the evidence in the journal. The journal then says so, with the
/// planned quarantine.
pub proof fn law_manifests_are_published_as_verified(
    t: TransactionView,
    journal: JournalView,
    r: Seq<Reply>,
    at: int,
)
    requires
        journal.phase == Phase::Verified,
    ensures
        verified_step(t, journal, r, at).outcome matches Outcome::Done(after) ==> {
            let asked = verified_step(t, journal, r, at).asked;
            &&& journal.output is Some
            &&& exists|manifest: ManifestView|
                {
                    &&& #[trigger] manifest_tells(
                        manifest,
                        t.plan,
                        journal.output->0,
                        t.version,
                    )
                    &&& manifest_published(t, manifest, asked, r, at)
                }
            &&& after == (JournalView {
                phase: Phase::Manifested,
                quarantine_path: after.quarantine_path,
                ..journal
            })
            &&& quarantine_text(t.plan) == Ok::<Option<Seq<char>>, Seq<char>>(
                after.quarantine_path,
            )
            &&& replaces_last(asked, raw(t.journal()), journal_text(after))
        },
{
    reveal(verified_step);
    let step = verified_step(t, journal, r, at);
    if let Outcome::Done(after) = step.outcome {
        let quarantine = quarantine_text(t.plan)->Ok_0;
        let output = journal.output->0;
        let manifest = manifest_of(t.plan, output, quarantine, t.version);
        let publish = publish_manifest_step(t, manifest, r, at);
        let next = manifested_journal(journal, quarantine);
        let enter = enter_step(t, next, r, publish.at);
        lemma_entered(t, next, r, publish.at);
        assert(step.asked =~= publish.asked + enter.asked);
        lemma_replaces_behind(
            publish.asked,
            enter.asked,
            raw(t.journal()),
            journal_text(after),
        );
        assert(manifest_tells(manifest, t.plan, output, t.version));
        lemma_manifest_published(t, manifest, r, at);
        assert(step.asked[0] == publish.asked[0]);
        if !r[at]->Flag_0 {
            let temporary = raw(manifest_staging_place(t.directory));
            let place = raw(t.plan.manifest_path);
            let n = choose|n: int|
                1 <= n && n + 5 <= publish.asked.len() && #[trigger] publish.asked.subrange(
                    n,
                    n + 5,
                ) == new_file_requests(temporary, place, manifest_text(manifest));
            assert(step.asked.subrange(n, n + 5) =~= publish.asked.subrange(n, n + 5));
        }
        assert(manifest_published(t, manifest, step.asked, r, at));
    }
}

proof fn lemma_manifest_published(
    t: TransactionView,
    manifest: ManifestView,
    r: Seq<Reply>,
    at: int,
)
    requires
        manifest.transaction_id == t.plan.transaction_id,
        publish_manifest_step(t, manifest, r, at).outcome is Done,
    ensures
        manifest_published(t, manifest, publish_manifest_step(t, manifest, r, at).asked, r, at),
{
    reveal(publish_manifest_step);
    let step = publish_manifest_step(t, manifest, r, at);
    let place = raw(t.plan.manifest_path);
    let temporary = raw(manifest_staging_place(t.directory));
    if r[at] == Reply::Flag(false) {
        reveal(publish_text_step);
        let clear = clear_internal_step(temporary, r, at + 1);
        let refusal = "no-replace publication '"@ + shown(place) + "' failed"@;
        let leftover = "cannot remove manifest staging"@;
        let text = manifest_text(manifest);
        let publish = publish_new_step(temporary, place, text, refusal, leftover, r, clear.at);
        law_new_files_are_written_linked_and_synced(
            temporary,
            place,
            text,
            refusal,
            leftover,
            r,
            clear.at,
        );
        let n = 1 + clear.asked.len() as int;
        assert(step.asked =~= seq![RequestView::Exists { path: place }] + clear.asked
            + publish.asked);
        assert(step.asked.subrange(n, n + 5) =~= publish.asked);
    }
}

/// An archive records what was found: archiving that has come to its end from before
/// the verification inspected what stands at the destination, and then published a
/// manifest that records the plan and exactly the evidence of that inspection.
pub proof fn law_archives_record_what_was_found(
    t: TransactionView,
    journal: JournalView,
    r: Seq<Reply>,
    at: int,
)
    requires
        journal.phase == Phase::Prepared || journal.phase == Phase::Staged || journal.phase
            == Phase::Published,
    ensures
        archive_step(t, journal, r, at).outcome matches Outcome::Done(after) ==> {
            let asked = archive_step(t, journal, r, at).asked;
            exists|found: EvidenceView, manifest: ManifestView, p: int, q: int|
                {
                    &&& at <= p < q
                    &&& (#[trigger] inspect_step(raw(t.plan.destination_path), r, p)).outcome
                        == Outcome::Done(found)
                    &&& after.phase == Phase::Manifested && after.output == Some(found)
                    &&& #[trigger] manifest_tells(manifest, t.plan, found, t.version)
                    &&& #[trigger] manifest_published(t, manifest, asked.skip(q - at), r, q)
                }
        },
{
    reveal(archive_step);
    let step = archive_step(t, journal, r, at);
    if let Outcome::Done(after) = step.outcome {
        let one = prepared_step(t, journal, r, at);
        count_prepared(t, journal, r, at);
        let j1 = one.outcome->Done_0;
        if journal.phase == Phase::Prepared {
            law_outputs_are_staged_by_profile(t, journal, r, at);
        } else {
            reveal(prepared_step);
        }
        let two = staged_step(t, j1, r, one.at);
        count_staged(t, j1, r, one.at);
        let j2 = two.outcome->Done_0;
        if j1.phase == Phase::Staged {
            law_outputs_are_published_as_staged(t, j1, r, one.at);
        } else {
            reveal(staged_step);
        }
        let three = published_step(t, j2, r, two.at);
        count_published(t, j2, r, two.at);
        law_outputs_are_verified_as_found(t, j2, r, two.at);
        let j3 = three.outcome->Done_0;
        let found = inspect_step(raw(t.plan.destination_path), r, two.at).outcome->Done_0;
        let four = verified_step(t, j3, r, three.at);
        law_manifests_are_published_as_verified(t, j3, r, three.at);
        reveal(counted);
        let manifest = choose|manifest: ManifestView|
            {
                &&& #[trigger] manifest_tells(manifest, t.plan, j3.output->0, t.version)
                &&& manifest_published(t, manifest, four.asked, r, three.at)
            };
        let q = three.at;
        assert(step.asked =~= (one.asked + two.asked + three.asked) + four.asked);
        assert(step.asked.skip(q - at) =~= four.asked);
        assert(three.asked.len() > 0);
        assert(manifest_tells(manifest, t.plan, found, t.version));
        assert(manifest_published(t, manifest, step.asked.skip(q - at), r, q));
        assert(inspect_step(raw(t.plan.destination_path), r, two.at).outcome == Outcome::Done(
            found,
        ));
    }
}

/// What becomes of a source is what was planned. One that is to be preserved is left,
/// and the transaction is complete. One that is to be deleted is removed where it is
/// still there and still as planned, which is made durable, and the transaction is
/// complete. One that is to be quarantined gets its second name first, and the
/// journal says so.
pub proof fn law_sources_go_as_planned(
    t: TransactionView,
    journal: JournalView,
    r: Seq<Reply>,
    at: int,
)
    requires
        journal.phase == Phase::Manifested,
    ensures
        manifested_step(t, journal, r, at).outcome matches Outcome::Done(after) ==> {
            let asked = manifested_step(t, journal, r, at).asked;
            let source = raw(t.plan.source.path);
            &&& after == (JournalView { phase: after.phase, ..journal })
            &&& match t.plan.source_disposition {
                SourceDisposition::Preserve => {
                    &&& after.phase == Phase::Complete
                    &&& asked == enter_step(t, after, r, at).asked
                },
                SourceDisposition::Delete => {
                    &&& after.phase == Phase::Complete
                    &&& 0 <= at < r.len() && r[at] is Flag
                    &&& asked[0] == (RequestView::Exists { path: source })
                    &&& !r[at]->Flag_0 ==> asked.skip(1) == enter_step(t, after, r, at + 1).asked
                    &&& r[at]->Flag_0 ==> {
                        &&& validate_source_step(t.plan.source, r, at + 1).outcome is Done
                        &&& asked.subrange(8, 10) == seq![
                            RequestView::Remove { path: source },
                            RequestView::SyncDirectory { path: raw_parent_directory(source) },
                        ]
                        &&& at + 10 <= r.len() && r[at + 8] is Finished && r[at + 9] is Finished
                        &&& asked.skip(10) == enter_step(t, after, r, at + 10).asked
                    }
                },
                SourceDisposition::Quarantine => {
                    &&& after.phase == Phase::QuarantineLinked
                    &&& quarantine_link_step(t.plan, journal, r, at).outcome is Done
                },
            }
            &&& replaces_last(asked, raw(t.journal()), journal_text(after))
        },
{
    reveal(manifested_step);
    let step = manifested_step(t, journal, r, at);
    let place = raw(t.journal());
    if let Outcome::Done(after) = step.outcome {
        match t.plan.source_disposition {
            SourceDisposition::Preserve => {
                lemma_entered(t, complete_journal(journal), r, at);
            },
            SourceDisposition::Delete => {
                let delete = delete_source_step(t.plan.source, r, at);
                let enter = enter_step(t, complete_journal(journal), r, delete.at);
                lemma_entered(t, complete_journal(journal), r, delete.at);
                assert(step.asked == delete.asked + enter.asked);
                lemma_replaces_behind(delete.asked, enter.asked, place, journal_text(after));
                lemma_deleted(t.plan.source, r, at);
                if r[at]->Flag_0 {
                    assert(step.asked.subrange(8, 10) =~= delete.asked.skip(8));
                    assert(step.asked.skip(10) =~= enter.asked);
                } else {
                    assert(step.asked.skip(1) =~= enter.asked);
                }
            },
            SourceDisposition::Quarantine => {
                let link = quarantine_link_step(t.plan, journal, r, at);
                let next = JournalView { phase: Phase::QuarantineLinked, ..journal };
                let enter = enter_step(t, next, r, link.at);
                lemma_entered(t, next, r, link.at);
                assert(step.asked == link.asked + enter.asked);
                lemma_replaces_behind(link.asked, enter.asked, place, journal_text(after));
            },
        }
    }
}

proof fn lemma_deleted(source: EvidenceView, r: Seq<Reply>, at: int)
    requires
        delete_source_step(source, r, at).outcome is Done,
    ensures
        ({
            let step = delete_source_step(source, r, at);
            let path = raw(source.path);
            &&& 0 <= at < r.len() && r[at] is Flag
            &&& step.asked.len() > 0 && step.asked[0] == (RequestView::Exists { path })
            &&& !r[at]->Flag_0 ==> step.asked.len() == 1 && step.at == at + 1
            &&& r[at]->Flag_0 ==> {
                &&& validate_source_step(source, r, at + 1).outcome is Done
                &&& step.asked.len() == 10 && step.at == at + 10
                &&& step.asked.skip(8) == seq![
                    RequestView::Remove { path },
                    RequestView::SyncDirectory { path: raw_parent_directory(path) },
                ]
                &&& at + 10 <= r.len() && r[at + 8] is Finished && r[at + 9] is Finished
            }
        }),
{
    reveal(delete_source_step);
    let step = delete_source_step(source, r, at);
    let path = raw(source.path);
    if r[at] == Reply::Flag(true) {
        let validate = validate_source_step(source, r, at + 1);
        count_validate(source, r, at + 1);
        reveal(counted);
        law_sources_are_accepted_where_nothing_changed(source, r, at + 1);
        law_inspection_records_what_was_found(path, r, at + 1);
        reveal(drop_name_step);
        assert(step.asked =~= seq![RequestView::Exists { path }] + validate.asked + seq![
            RequestView::Remove { path },
            RequestView::SyncDirectory { path: raw_parent_directory(path) },
        ]);
        assert(step.asked.skip(8) =~= seq![
            RequestView::Remove { path },
            RequestView::SyncDirectory { path: raw_parent_directory(path) },
        ]);
    }
}

/// A source that has its second name loses its first, and the transaction is complete.
pub proof fn law_linked_sources_lose_their_first_name(
    t: TransactionView,
    journal: JournalView,
    r: Seq<Reply>,
    at: int,
)
    requires
        journal.phase == Phase::QuarantineLinked,
    ensures
        linked_step(t, journal, r, at).outcome matches Outcome::Done(after) ==> {
            &&& after == (JournalView { phase: Phase::Complete, ..journal })
            &&& finish_quarantine_step(t.plan, journal, r, at).outcome is Done
            &&& replaces_last(
                linked_step(t, journal, r, at).asked,
                raw(t.journal()),
                journal_text(after),
            )
        },
{
    reveal(linked_step);
    if let Outcome::Done(after) = linked_step(t, journal, r, at).outcome {
        let finish = finish_quarantine_step(t.plan, journal, r, at);
        let enter = enter_step(t, complete_journal(journal), r, finish.at);
        lemma_entered(t, complete_journal(journal), r, finish.at);
        lemma_replaces_behind(
            finish.asked,
            enter.asked,
            raw(t.journal()),
            journal_text(after),
        );
    }
}

/// A phase that is not the one at hand is passed over.
pub proof fn law_other_phases_are_passed_over(
    t: TransactionView,
    journal: JournalView,
    r: Seq<Reply>,
    at: int,
)
    ensures
        journal.phase != Phase::Prepared ==> prepared_step(t, journal, r, at) == done(journal, at),
        journal.phase != Phase::Staged ==> staged_step(t, journal, r, at) == done(journal, at),
        journal.phase != Phase::Published ==> published_step(t, journal, r, at) == done(
            journal,
            at,
        ),
        journal.phase != Phase::Verified ==> verified_step(t, journal, r, at) == done(journal, at),
        journal.phase != Phase::Manifested ==> manifested_step(t, journal, r, at) == done(
            journal,
            at,
        ),
        journal.phase != Phase::QuarantineLinked ==> linked_step(t, journal, r, at) == done(
            journal,
            at,
        ),
{
    reveal(prepared_step);
    reveal(staged_step);
    reveal(published_step);
    reveal(verified_step);
    reveal(manifested_step);
    reveal(linked_step);
}

/// A journal that stands is taken up if it is read and accepted for the transaction.
/// Where none stands, the transaction begins with its first one, unless something
/// stands at the destination or at the manifest's place: that is refused.
pub proof fn law_transactions_begin_once(t: TransactionView, r: Seq<Reply>, at: int)
    requires
        0 <= at && at + 3 <= r.len(),
        r[at] is Flag,
    ensures
        ({
            let step = open_journal_step(t, r, at);
            let refused = Outcome::<JournalView>::Fail(
                "destination or manifest already exists; refusing overwrite"@,
            );
            &&& step.asked[0] == (RequestView::Exists { path: raw(t.journal()) })
            &&& r[at]->Flag_0 ==> {
                let load = load_journal_step(raw(t.journal()), r, at + 1);
                &&& step.outcome is Done <==> load.outcome is Done && journal_check(
                    load.outcome->Done_0,
                    t.plan,
                    t.staging(),
                ) is Ok
                &&& step.outcome is Done ==> step.outcome == load.outcome
                &&& step.asked.skip(1) == load.asked
            }
            &&& !r[at]->Flag_0 ==> {
                &&& step.asked[1] == (RequestView::Exists { path: raw(t.plan.destination_path) })
                &&& r[at + 1] == Reply::Flag(true) ==> step.outcome == refused
                &&& r[at + 1] == Reply::Flag(false) ==> step.asked[2] == (RequestView::Exists {
                    path: raw(t.plan.manifest_path),
                })
                &&& r[at + 1] == Reply::Flag(false) && r[at + 2] == Reply::Flag(true)
                    ==> step.outcome == refused
                &&& step.outcome is Done ==> {
                    let journal = step.outcome->Done_0;
                    &&& r[at + 1] == Reply::Flag(false) && r[at + 2] == Reply::Flag(false)
                    &&& journal == fresh_journal(t.plan, t.staging(), t.version)
                    &&& replaces_last(step.asked, raw(t.journal()), journal_text(journal))
                }
            }
        }),
{
    reveal(open_journal_step);
    let step = open_journal_step(t, r, at);
    if r[at]->Flag_0 {
        let load = load_journal_step(raw(t.journal()), r, at + 1);
        assert(step.asked.skip(1) =~= load.asked);
    } else if step.outcome is Done {
        let journal = fresh_journal(t.plan, t.staging(), t.version);
        let enter = enter_step(t, journal, r, at + 3);
        lemma_entered(t, journal, r, at + 3);
        let looks = seq![
            RequestView::Exists { path: raw(t.journal()) },
            RequestView::Exists { path: raw(t.plan.destination_path) },
            RequestView::Exists { path: raw(t.plan.manifest_path) },
        ];
        assert(step.asked =~= looks + enter.asked);
        lemma_replaces_behind(looks, enter.asked, raw(t.journal()), journal_text(journal));
    }
}

/// A transaction keeps its own files in a directory of its own, under its identifier
/// below `.marchiver-transactions` in the destination's directory, and makes these
/// directories first.
pub proof fn law_transactions_have_a_directory_of_their_own(
    plan: PlanView,
    version: Seq<char>,
    r: Seq<Reply>,
    at: int,
)
    requires
        parent(plan.destination_path) is Some,
    ensures
        ({
            let t = transaction_of(plan, version);
            let root = joined(parent(plan.destination_path)->0, ".marchiver-transactions"@);
            let step = execute_step(plan, version, r, at);
            let first = ensure_directory_step(raw(root), r, at);
            let second = ensure_directory_step(raw(t.directory), r, first.at);
            &&& t.plan == plan && t.version == version
            &&& t.directory == joined(root, plan.transaction_id)
            &&& t.journal() == joined(t.directory, "journal.pkl"@)
            &&& t.staging() == joined(t.directory, "output.partial"@)
            &&& manifest_staging_place(t.directory) == joined(t.directory, "manifest.partial"@)
            &&& first.outcome is Done && second.outcome is Done ==> step.asked.take(
                (first.asked + second.asked).len() as int,
            ) == first.asked + second.asked
            &&& step.outcome is Done ==> first.outcome is Done && second.outcome is Done
        }),
{
    reveal(execute_step);
    let t = transaction_of(plan, version);
    let root = joined(parent(plan.destination_path)->0, ".marchiver-transactions"@);
    let step = execute_step(plan, version, r, at);
    let first = ensure_directory_step(raw(root), r, at);
    let second = ensure_directory_step(raw(t.directory), r, first.at);
    if first.outcome is Done && second.outcome is Done {
        assert(step.asked.take((first.asked + second.asked).len() as int) =~= first.asked
            + second.asked);
    }
}

/// A run that comes to its end says where the manifest is, and where it had nothing
/// left to do, that all was complete already.
pub proof fn law_runs_say_where_the_manifest_is(
    t: TransactionView,
    journal: JournalView,
    r: Seq<Reply>,
    at: int,
)
    ensures
        carry_on_step(t, journal, r, at).outcome matches Outcome::Done(message) ==> message
            == if journal.phase == Phase::Complete {
            "already complete "@ + t.plan.manifest_path
        } else {
            t.plan.manifest_path
        },
        journal.phase != Phase::Complete && carry_on_step(t, journal, r, at).outcome is Done ==> {
            let archive = archive_step(t, journal, r, at);
            let dispose = dispose_step(t, archive.outcome->Done_0, r, archive.at);
            &&& archive.outcome is Done && dispose.outcome is Done
            &&& carry_on_step(t, journal, r, at).asked == archive.asked + dispose.asked
        },
{
    reveal(carry_on_step);
    if journal.phase != Phase::Complete && carry_on_step(t, journal, r, at).outcome is Done {
        let archive = archive_step(t, journal, r, at);
        let dispose = dispose_step(t, archive.outcome->Done_0, r, archive.at);
        assert(carry_on_step(t, journal, r, at).asked =~= archive.asked + dispose.asked);
    }
}

/// An archived output verifies exactly where the file at the manifest's destination
/// can be inspected and has the recorded digest, passes the comparison with the
/// recorded source by the recorded profile and tolerance, and decodes in full.
pub proof fn law_archives_verify_where_they_are_as_recorded(
    manifest: ManifestView,
    r: Seq<Reply>,
    at: int,
)
    ensures
        ({
            let step = verify_manifest_step(manifest, r, at);
            let inspection = inspect_step(raw(manifest.destination_path), r, at);
            let found = inspection.outcome->Done_0;
            let result = output_check(
                manifest.profile,
                manifest.source,
                found,
                manifest.duration_tolerance_seconds,
            );
            &&& inspection.outcome matches Outcome::Fail(message) ==> step.outcome == Outcome::<
                (),
            >::Fail(message)
            &&& inspection.outcome is Done && found.sha256 != manifest.output.sha256
                ==> step.outcome == Outcome::<()>::Fail("output SHA-256 differs from manifest"@)
            &&& inspection.outcome is Done && found.sha256 == manifest.output.sha256 ==> (
            result matches Err(message) ==> step.outcome == Outcome::<()>::Fail(message))
            &&& step.outcome is Done <==> {
                &&& inspection.outcome is Done
                &&& found.sha256 == manifest.output.sha256
                &&& result is Ok
                &&& at + 8 <= r.len() && r[at + 7] is Ran && r[at + 7]->Ran_0.success
            }
            &&& step.outcome is Done ==> step.asked == inspection.asked.push(
                RequestView::Run {
                    tool: Tool::Ffmpeg,
                    arguments: raw_all(decode_arguments(manifest.destination_path)),
                },
            )
        }),
{
    reveal(verify_manifest_step);
    reveal(ffmpeg_step);
    let place = raw(manifest.destination_path);
    let step = verify_manifest_step(manifest, r, at);
    let inspection = inspect_step(place, r, at);
    count_inspect(place, r, at);
    reveal(counted);
    law_inspection_records_what_was_found(place, r, at);
    if step.outcome is Done {
        assert(step.asked =~= inspection.asked.push(
            RequestView::Run {
                tool: Tool::Ffmpeg,
                arguments: raw_all(decode_arguments(manifest.destination_path)),
            },
        ));
    }
}

/// Whether a failure went into the journal: the journal as it was, with what failed,
/// was written last, and then the failure was reported.
pub open spec fn failure_journaled(
    t: TransactionView,
    journal: JournalView,
    message: Seq<char>,
    step: Step<JournalView>,
) -> bool {
    &&& step.outcome == Outcome::<JournalView>::Fail(message)
    &&& replaces_last(
        step.asked,
        raw(t.journal()),
        journal_text(JournalView { diagnostic: Some(message), ..journal }),
    )
}

proof fn lemma_failure_journaled<T>(
    t: TransactionView,
    journal: JournalView,
    work: Step<T>,
    message: Seq<char>,
    r: Seq<Reply>,
)
    requires
        work.outcome == Outcome::<T>::Fail(message),
        journaled(t, journal, work, r).outcome is Fail,
        write_journal_step(
            raw(t.journal()),
            with_diagnostic(journal, message),
            r,
            work.at,
        ).outcome is Done,
    ensures
        journaled(t, journal, work, r).outcome == Outcome::<T>::Fail(message),
        replaces_last(
            journaled(t, journal, work, r).asked,
            raw(t.journal()),
            journal_text(JournalView { diagnostic: Some(message), ..journal }),
        ),
{
    let noted = with_diagnostic(journal, message);
    let write = write_journal_step(raw(t.journal()), noted, r, work.at);
    law_contents_are_replaced_as_one(raw(t.journal()), journal_text(noted), r, work.at);
    assert(journaled(t, journal, work, r).asked =~= work.asked + write.asked);
    lemma_replaces_behind(work.asked, write.asked, raw(t.journal()), journal_text(noted));
}

/// A source that is not as planned, an output that cannot be made or inspected, and a
/// published output that cannot be inspected, differs from its source or does not
/// decode, are entered in the journal as it was, as far as it can be written, before
/// they are reported.
pub proof fn law_failures_are_journaled_before_they_are_reported(
    t: TransactionView,
    journal: JournalView,
    message: Seq<char>,
    r: Seq<Reply>,
    at: int,
)
    ensures
        journal.phase == Phase::Prepared ==> {
            let step = prepared_step(t, journal, r, at);
            let validate = validate_source_step(t.plan.source, r, at);
            let clear = clear_internal_step(raw(t.staging()), r, validate.at);
            let stage = stage_step(t, r, clear.at);
            let inspect = inspect_step(raw(t.staging()), r, stage.at);
            let written = |p: int|
                write_journal_step(
                    raw(t.journal()),
                    JournalView { diagnostic: Some(message), ..journal },
                    r,
                    p,
                ).outcome is Done;
            &&& validate.outcome == Outcome::<()>::Fail(message) && written(validate.at)
                ==> failure_journaled(t, journal, message, step)
            &&& validate.outcome is Done && clear.outcome is Done && stage.outcome
                == Outcome::<()>::Fail(message) && written(stage.at) ==> failure_journaled(
                t,
                journal,
                message,
                step,
            )
            &&& validate.outcome is Done && clear.outcome is Done && stage.outcome is Done
                && inspect.outcome == Outcome::<EvidenceView>::Fail(message) && written(inspect.at)
                ==> failure_journaled(t, journal, message, step)
        },
        journal.phase == Phase::Published ==> {
            let step = published_step(t, journal, r, at);
            let inspect = inspect_step(raw(t.plan.destination_path), r, at);
            let found = inspect.outcome->Done_0;
            let result = output_check(
                t.plan.profile,
                t.plan.source,
                found,
                t.plan.duration_tolerance_seconds,
            );
            let decode = decode_step(t.plan.destination_path, r, inspect.at);
            let staged = inspect.outcome is Done && journal.output is Some
                && journal.output->0.sha256 == found.sha256;
            let written = |p: int|
                write_journal_step(
                    raw(t.journal()),
                    JournalView { diagnostic: Some(message), ..journal },
                    r,
                    p,
                ).outcome is Done;
            &&& inspect.outcome == Outcome::<EvidenceView>::Fail(message) && written(inspect.at)
                ==> failure_journaled(t, journal, message, step)
            &&& inspect.outcome is Done && journal.output is Some && !staged ==> step.outcome
                == Outcome::<JournalView>::Fail("published output differs from staged output"@)
            &&& staged && result == Err::<(), Seq<char>>(message) && written(inspect.at)
                ==> failure_journaled(t, journal, message, step)
            &&& staged && result is Ok && decode.outcome == Outcome::<()>::Fail(message)
                && written(decode.at) ==> failure_journaled(t, journal, message, step)
        },
{
    if journal.phase == Phase::Prepared {
        lemma_prepared_failures(t, journal, message, r, at);
    }
    if journal.phase == Phase::Published {
        lemma_published_failures(t, journal, message, r, at);
    }
}

proof fn lemma_prepared_failures(
    t: TransactionView,
    journal: JournalView,
    message: Seq<char>,
    r: Seq<Reply>,
    at: int,
)
    requires
        journal.phase == Phase::Prepared,
    ensures
        ({
            let step = prepared_step(t, journal, r, at);
            let validate = validate_source_step(t.plan.source, r, at);
            let clear = clear_internal_step(raw(t.staging()), r, validate.at);
            let stage = stage_step(t, r, clear.at);
            let inspect = inspect_step(raw(t.staging()), r, stage.at);
            let place = raw(t.journal());
            let noted = with_diagnostic(journal, message);
            &&& validate.outcome == Outcome::<()>::Fail(message) && write_journal_step(
                place,
                noted,
                r,
                validate.at,
            ).outcome is Done ==> failure_journaled(t, journal, message, step)
            &&& validate.outcome is Done && clear.outcome is Done && stage.outcome
                == Outcome::<()>::Fail(message) && write_journal_step(
                place,
                noted,
                r,
                stage.at,
            ).outcome is Done ==> failure_journaled(t, journal, message, step)
            &&& validate.outcome is Done && clear.outcome is Done && stage.outcome is Done
                && inspect.outcome == Outcome::<EvidenceView>::Fail(message)
                && write_journal_step(place, noted, r, inspect.at).outcome is Done
                ==> failure_journaled(t, journal, message, step)
        }),
{
    reveal(prepared_step);
    let step = prepared_step(t, journal, r, at);
    let validate = validate_source_step(t.plan.source, r, at);
    let clear = clear_internal_step(raw(t.staging()), r, validate.at);
    let stage = stage_step(t, r, clear.at);
    let inspect = inspect_step(raw(t.staging()), r, stage.at);
    let place = raw(t.journal());
    let text = journal_text(JournalView { diagnostic: Some(message), ..journal });
    let noted = with_diagnostic(journal, message);
    if validate.outcome == Outcome::<()>::Fail(message) && write_journal_step(
        place,
        noted,
        r,
        validate.at,
    ).outcome is Done {
        lemma_failure_journaled(t, journal, validate, message, r);
        assert(step.asked =~= journaled(t, journal, validate, r).asked);
    } else if validate.outcome is Done && clear.outcome is Done && stage.outcome
        == Outcome::<()>::Fail(message) && write_journal_step(
        place,
        noted,
        r,
        stage.at,
    ).outcome is Done {
        lemma_failure_journaled(t, journal, stage, message, r);
        let last = journaled(t, journal, stage, r);
        assert(step.asked =~= (validate.asked + clear.asked) + last.asked);
        lemma_replaces_behind(validate.asked + clear.asked, last.asked, place, text);
    } else if validate.outcome is Done && clear.outcome is Done && stage.outcome is Done
        && inspect.outcome == Outcome::<EvidenceView>::Fail(message) && write_journal_step(
        place,
        noted,
        r,
        inspect.at,
    ).outcome is Done {
        lemma_failure_journaled(t, journal, inspect, message, r);
        let last = journaled(t, journal, inspect, r);
        assert(step.asked =~= (validate.asked + clear.asked + stage.asked) + last.asked);
        lemma_replaces_behind(
            validate.asked + clear.asked + stage.asked,
            last.asked,
            place,
            text,
        );
    }
}

proof fn lemma_published_failures(
    t: TransactionView,
    journal: JournalView,
    message: Seq<char>,
    r: Seq<Reply>,
    at: int,
)
    requires
        journal.phase == Phase::Published,
    ensures
        ({
            let step = published_step(t, journal, r, at);
            let inspect = inspect_step(raw(t.plan.destination_path), r, at);
            let found = inspect.outcome->Done_0;
            let result = output_check(
                t.plan.profile,
                t.plan.source,
                found,
                t.plan.duration_tolerance_seconds,
            );
            let decode = decode_step(t.plan.destination_path, r, inspect.at);
            let staged = inspect.outcome is Done && journal.output is Some
                && journal.output->0.sha256 == found.sha256;
            let place = raw(t.journal());
            let noted = with_diagnostic(journal, message);
            &&& inspect.outcome == Outcome::<EvidenceView>::Fail(message) && write_journal_step(
                place,
                noted,
                r,
                inspect.at,
            ).outcome is Done ==> failure_journaled(t, journal, message, step)
            &&& inspect.outcome is Done && journal.output is Some && !staged ==> step.outcome
                == Outcome::<JournalView>::Fail("published output differs from staged output"@)
            &&& staged && result == Err::<(), Seq<char>>(message) && write_journal_step(
                place,
                noted,
                r,
                inspect.at,
            ).outcome is Done ==> failure_journaled(t, journal, message, step)
            &&& staged && result is Ok && decode.outcome == Outcome::<()>::Fail(message)
                && write_journal_step(place, noted, r, decode.at).outcome is Done
                ==> failure_journaled(t, journal, message, step)
        }),
{
    reveal(published_step);
    reveal(verification_step);
    let step = published_step(t, journal, r, at);
    let inspect = inspect_step(raw(t.plan.destination_path), r, at);
    let found = inspect.outcome->Done_0;
    let verification = verification_step(t, found, r, inspect.at);
    let place = raw(t.journal());
    let text = journal_text(JournalView { diagnostic: Some(message), ..journal });
    let noted = with_diagnostic(journal, message);
    if inspect.outcome == Outcome::<EvidenceView>::Fail(message) {
        if write_journal_step(place, noted, r, inspect.at).outcome is Done {
            lemma_failure_journaled(t, journal, inspect, message, r);
            assert(step.asked =~= journaled(t, journal, inspect, r).asked);
        }
    } else if inspect.outcome is Done && verification.outcome == Outcome::<()>::Fail(message)
        && write_journal_step(place, noted, r, verification.at).outcome is Done {
        lemma_failure_journaled(t, journal, verification, message, r);
        let last = journaled(t, journal, verification, r);
        if journal.output is Some && journal.output->0.sha256 == found.sha256 {
            assert(step.asked =~= inspect.asked + last.asked);
            lemma_replaces_behind(inspect.asked, last.asked, place, text);
        }
    }
}

/// A quarantine takes the directory of the transaction and, before it, the one that
/// all quarantined sources are under; both are made sure of before a source gets its
/// second name.
pub proof fn law_quarantine_has_its_directories_first(
    plan: PlanView,
    journal: JournalView,
    r: Seq<Reply>,
    at: int,
)
    ensures
        quarantine_link_step(plan, journal, r, at).outcome is Done ==> {
            let place = journal.quarantine_path->0;
            let directory = parent(place)->0;
            let root = parent(directory)->0;
            let first = ensure_directory_step(raw(root), r, at);
            let second = ensure_directory_step(raw(directory), r, first.at);
            let asked = quarantine_link_step(plan, journal, r, at).asked;
            &&& journal.quarantine_path is Some
            &&& parent(place) is Some && parent(directory) is Some
            &&& first.outcome is Done && second.outcome is Done
            &&& asked.take((first.asked + second.asked).len() as int) == first.asked
                + second.asked
            &&& first.asked[0] == (RequestView::CreateDirectory { path: raw(root) })
            &&& second.asked[0] == (RequestView::CreateDirectory { path: raw(directory) })
        },
        journal.quarantine_path is None ==> quarantine_link_step(plan, journal, r, at).outcome
            == Outcome::<()>::Fail("quarantine journal is missing quarantinePath"@),
{
    reveal(quarantine_link_step);
    reveal(quarantine_directories_step);
    reveal(ensure_directory_step);
    let step = quarantine_link_step(plan, journal, r, at);
    if step.outcome is Done {
        let directory = parent(journal.quarantine_path->0)->0;
        let root = parent(directory)->0;
        let first = ensure_directory_step(raw(root), r, at);
        let second = ensure_directory_step(raw(directory), r, first.at);
        assert(step.asked.take((first.asked + second.asked).len() as int) =~= first.asked
            + second.asked);
    }
}

/// A directory is made and made durable, or found to be one already.
pub proof fn law_directories_are_made_or_found(path: Seq<u8>, r: Seq<Reply>, at: int)
    requires
        0 <= at && at + 2 <= r.len(),
    ensures
        ({
            let step = ensure_directory_step(path, r, at);
            &&& step.asked[0] == (RequestView::CreateDirectory { path })
            &&& step.outcome is Done <==> {
                ||| r[at] is Finished && r[at + 1] is Finished
                ||| r[at] is AlreadyExists && r[at + 1] == Reply::Kind(FileKind::Directory)
            }
            &&& r[at] is Finished ==> step.asked[1] == (RequestView::SyncDirectory {
                path: raw_parent_directory(path),
            })
            &&& r[at] is AlreadyExists ==> step.asked[1] == (RequestView::Kind { path })
            &&& r[at] is AlreadyExists && r[at + 1] is Kind && r[at + 1]->Kind_0
                != FileKind::Directory ==> step.outcome == Outcome::<()>::Fail(
                "refusing non-directory path: "@ + shown(path),
            )
        }),
{
    reveal(ensure_directory_step);
}

/// A name that a file is given is made durable, as is the loss of one.
pub proof fn law_names_are_made_durable(
    from: Seq<u8>,
    to: Seq<u8>,
    what: Seq<char>,
    loss: Seq<char>,
    r: Seq<Reply>,
    at: int,
)
    ensures
        add_name_step(from, to, what, loss, r, at).outcome is Done ==> {
            &&& add_name_step(from, to, what, loss, r, at).asked == seq![
                RequestView::HardLink { from, to },
                RequestView::SyncFile { path: to },
                RequestView::SyncDirectory { path: raw_parent_directory(to) },
            ]
            &&& r[at] is Finished && r[at + 1] is Finished && r[at + 2] is Finished
        },
        drop_name_step(from, what, r, at).outcome is Done ==> {
            &&& drop_name_step(from, what, r, at).asked == seq![
                RequestView::Remove { path: from },
                RequestView::SyncDirectory { path: raw_parent_directory(from) },
            ]
            &&& r[at] is Finished && r[at + 1] is Finished
        },
{
    reveal(add_name_step);
    reveal(drop_name_step);
    if add_name_step(from, to, what, loss, r, at).outcome is Done {
        assert(add_name_step(from, to, what, loss, r, at).asked =~= seq![
            RequestView::HardLink { from, to },
            RequestView::SyncFile { path: to },
            RequestView::SyncDirectory { path: raw_parent_directory(to) },
        ]);
    }
    if drop_name_step(from, what, r, at).outcome is Done {
        assert(drop_name_step(from, what, r, at).asked =~= seq![
            RequestView::Remove { path: from },
            RequestView::SyncDirectory { path: raw_parent_directory(from) },
        ]);
    }
}

/// A restoration is refused for a source that was not quarantined, and for one of
/// which nothing is left.
pub proof fn law_only_quarantined_sources_are_restored(
    manifest: ManifestView,
    r: Seq<Reply>,
    at: int,
)
    ensures
        manifest.source_disposition != SourceDisposition::Quarantine ==> restore_step(
            manifest,
            r,
            at,
        ) == fail::<()>("restore is only valid for quarantined sources"@, at),
        manifest.source_disposition == SourceDisposition::Quarantine && manifest.quarantine_path
            is None ==> restore_step(manifest, r, at) == fail::<()>(
            "manifest has no quarantinePath"@,
            at,
        ),
        manifest.source_disposition == SourceDisposition::Quarantine && manifest.quarantine_path
            is Some && 0 <= at && at + 3 <= r.len() && r[at] == Reply::Flag(false) && r[at + 1]
            == Reply::Flag(false) && r[at + 2] == Reply::Flag(false) ==> restore_step(
            manifest,
            r,
            at,
        ).outcome == Outcome::<()>::Fail("both source and quarantine are missing"@),
{
    reveal(restore_step);
    reveal(check_quarantine_step);
    reveal(restore_by_presence_step);
}

/// A file of the transaction's own that was left is removed where it is a regular file
/// and refused where it is not; where none was left, nothing is done. A staging file
/// whose output is published already goes in the same way, and its loss is made
/// durable.
pub proof fn law_own_files_are_cleared(path: Seq<u8>, r: Seq<Reply>, at: int)
    requires
        0 <= at && at + 4 <= r.len(),
        r[at] is Flag,
    ensures
        ({
            let clear = clear_internal_step(path, r, at);
            let discard = discard_step(path, r, at);
            let looks = seq![RequestView::Exists { path }];
            let removal = seq![
                RequestView::Exists { path },
                RequestView::Kind { path },
                RequestView::Remove { path },
            ];
            let refused = Outcome::<()>::Fail(
                "refusing to remove non-regular internal path: "@ + shown(path),
            );
            &&& !r[at]->Flag_0 ==> {
                &&& clear.outcome is Done && clear.asked == looks
                &&& discard.outcome is Done && discard.asked == looks
            }
            &&& r[at]->Flag_0 && r[at + 1] is Kind && r[at + 1]->Kind_0 != FileKind::Regular ==> {
                &&& clear.outcome == refused && discard.outcome == refused
                &&& clear.asked == removal.take(2) && discard.asked == removal.take(2)
            }
            &&& r[at]->Flag_0 && clear.outcome is Done ==> {
                &&& clear.asked == removal
                &&& r[at + 1] == Reply::Kind(FileKind::Regular) && r[at + 2] is Finished
            }
            &&& r[at]->Flag_0 && discard.outcome is Done ==> {
                &&& discard.asked == removal.push(
                    RequestView::SyncDirectory { path: raw_parent_directory(path) },
                )
                &&& r[at + 1] == Reply::Kind(FileKind::Regular) && r[at + 2] is Finished
                &&& r[at + 3] is Finished
            }
        }),
{
    reveal(clear_internal_step);
    reveal(discard_step);
    reveal(remove_internal_step);
    let clear = clear_internal_step(path, r, at);
    let discard = discard_step(path, r, at);
    let removal = seq![
        RequestView::Exists { path },
        RequestView::Kind { path },
        RequestView::Remove { path },
    ];
    if !r[at]->Flag_0 {
        assert(clear.asked =~= seq![RequestView::Exists { path }]);
        assert(discard.asked =~= seq![RequestView::Exists { path }]);
    } else {
        if r[at + 1] is Kind && r[at + 1]->Kind_0 != FileKind::Regular {
            assert(clear.asked =~= removal.take(2));
            assert(discard.asked =~= removal.take(2));
        }
        if clear.outcome is Done {
            assert(clear.asked =~= removal);
        }
        if discard.outcome is Done {
            assert(discard.asked =~= removal.push(
                RequestView::SyncDirectory { path: raw_parent_directory(path) },
            ));
        }
    }
}

/// A staging file that was left is cleared behind the check of the source and before
/// the output is made; one whose output is found at the destination is cleared too.
pub proof fn law_left_staging_is_cleared(
    t: TransactionView,
    journal: JournalView,
    r: Seq<Reply>,
    at: int,
)
    ensures
        journal.phase == Phase::Prepared && prepared_step(t, journal, r, at).outcome is Done ==> {
            let asked = prepared_step(t, journal, r, at).asked;
            let clear = clear_internal_step(raw(t.staging()), r, at + 7);
            &&& clear.outcome is Done
            &&& asked.subrange(7, 7 + clear.asked.len() as int) == clear.asked
        },
        journal.phase == Phase::Staged && staged_step(t, journal, r, at).outcome is Done
            && r[at] == Reply::Flag(true) ==> {
            let asked = staged_step(t, journal, r, at).asked;
            let discard = discard_step(raw(t.staging()), r, at + 4);
            &&& discard.outcome is Done
            &&& asked.subrange(4, 4 + discard.asked.len() as int) == discard.asked
        },
{
    let staging = raw(t.staging());
    if journal.phase == Phase::Prepared && prepared_step(t, journal, r, at).outcome is Done {
        reveal(prepared_step);
        let step = prepared_step(t, journal, r, at);
        let validate = validate_source_step(t.plan.source, r, at);
        count_validate(t.plan.source, r, at);
        reveal(counted);
        law_sources_are_accepted_where_nothing_changed(t.plan.source, r, at);
        law_inspection_records_what_was_found(raw(t.plan.source.path), r, at);
        let clear = clear_internal_step(staging, r, at + 7);
        assert(step.asked.subrange(7, 7 + clear.asked.len() as int) =~= clear.asked);
    }
    if journal.phase == Phase::Staged && staged_step(t, journal, r, at).outcome is Done && r[at]
        == Reply::Flag(true) {
        reveal(staged_step);
        reveal(publish_output_step);
        reveal(hash_regular_step);
        reveal(regular_file_step);
        let step = staged_step(t, journal, r, at);
        let discard = discard_step(staging, r, at + 4);
        assert(step.asked.subrange(4, 4 + discard.asked.len() as int) =~= discard.asked);
    }
}

/// Whether a journal can be written: whatever was left is cleared, and then all that
/// is asked for is done.
pub open spec fn writable(path: Seq<u8>, r: Seq<Reply>, at: int) -> bool {
    let temporary = replacement_place(path, text_name(path)->0);
    let clear = clear_internal_step(temporary, r, at);
    &&& text_name(path) is Some
    &&& clear.outcome is Done
    &&& 0 <= clear.at && clear.at + 3 <= r.len()
    &&& r[clear.at] is Finished && r[clear.at + 1] is Finished && r[clear.at + 2] is Finished
}

/// A file's contents are replaced exactly where all that is asked for is done.
pub proof fn law_contents_are_replaced_where_all_is_done(
    path: Seq<u8>,
    contents: Seq<char>,
    r: Seq<Reply>,
    at: int,
)
    ensures
        atomic_replace_step(path, contents, r, at).outcome is Done <==> writable(path, r, at),
{
    reveal(atomic_replace_step);
}

proof fn lemma_enters(t: TransactionView, journal: JournalView, r: Seq<Reply>, at: int)
    ensures
        enter_step(t, journal, r, at).outcome is Done <==> writable(raw(t.journal()), r, at),
{
    reveal(enter_step);
    law_contents_are_replaced_where_all_is_done(raw(t.journal()), journal_text(journal), r, at);
}

/// A prepared transaction goes on exactly where its source is as planned, the staging
/// file is cleared, made and inspected, and the journal is written.
pub proof fn law_outputs_are_staged_where_all_went_well(
    t: TransactionView,
    journal: JournalView,
    r: Seq<Reply>,
    at: int,
)
    requires
        journal.phase == Phase::Prepared,
    ensures
        ({
            let validate = validate_source_step(t.plan.source, r, at);
            let clear = clear_internal_step(raw(t.staging()), r, validate.at);
            let stage = stage_step(t, r, clear.at);
            let inspect = inspect_step(raw(t.staging()), r, stage.at);
            prepared_step(t, journal, r, at).outcome is Done <==> {
                &&& validate.outcome is Done
                &&& clear.outcome is Done
                &&& stage.outcome is Done
                &&& inspect.outcome is Done
                &&& writable(raw(t.journal()), r, inspect.at)
            }
        }),
{
    reveal(prepared_step);
    let validate = validate_source_step(t.plan.source, r, at);
    let clear = clear_internal_step(raw(t.staging()), r, validate.at);
    let stage = stage_step(t, r, clear.at);
    let inspect = inspect_step(raw(t.staging()), r, stage.at);
    if inspect.outcome is Done {
        lemma_enters(t, staged_journal(t, journal, inspect.outcome->Done_0), r, inspect.at);
    }
}

/// An output is made exactly where what is asked for by its profile is done.
pub proof fn law_outputs_are_made_where_all_is_done(t: TransactionView, r: Seq<Reply>, at: int)
    requires
        0 <= at && at + 2 <= r.len(),
    ensures
        t.plan.profile == Profile::Copy ==> (stage_step(t, r, at).outcome is Done
            <==> r[at] is Finished),
        t.plan.profile == Profile::Av1 ==> (stage_step(t, r, at).outcome is Done <==> r[at] is Ran
            && r[at]->Ran_0.success && r[at + 1] is Finished),
{
    reveal(av1_stage_step);
    reveal(ffmpeg_step);
}

/// A staged output is published exactly where its link is made and its staging name
/// goes, or where what stands at the destination is a regular file of its digest and
/// what was left of the staging file goes; and the journal is written.
pub proof fn law_outputs_are_published_where_all_went_well(
    t: TransactionView,
    journal: JournalView,
    r: Seq<Reply>,
    at: int,
)
    requires
        journal.phase == Phase::Staged,
        0 <= at && at + 5 <= r.len(),
        r[at] is Flag,
    ensures
        ({
            let discard = discard_step(raw(t.staging()), r, at + 4);
            let place = raw(t.journal());
            staged_step(t, journal, r, at).outcome is Done <==> {
                &&& journal.output is Some
                &&& if r[at]->Flag_0 {
                    &&& r[at + 1] == Reply::Kind(FileKind::Regular)
                    &&& r[at + 2] is Resolved
                    &&& r[at + 3] is Digest
                    &&& r[at + 3]->Digest_0@ == journal.output->0.sha256
                    &&& discard.outcome is Done
                    &&& writable(place, r, discard.at)
                } else {
                    &&& r[at + 1] is Finished && r[at + 2] is Finished && r[at + 3] is Finished
                    &&& r[at + 4] is Finished
                    &&& writable(place, r, at + 5)
                }
            }
        }),
        r[at]->Flag_0 && journal.output is Some && r[at + 1] == Reply::Kind(FileKind::Regular)
            && r[at + 2] is Resolved && r[at + 3] is Digest && r[at + 3]->Digest_0@
            != journal.output->0.sha256 ==> staged_step(t, journal, r, at).outcome
            == Outcome::<JournalView>::Fail(
            "destination already exists and is not this transaction's output"@,
        ),
{
    reveal(staged_step);
    reveal(publish_output_step);
    reveal(hash_regular_step);
    reveal(regular_file_step);
    reveal(promote_step);
    reveal(drop_name_step);
    let next = JournalView { phase: Phase::Published, ..journal };
    if journal.output is Some {
        let publish = publish_output_step(
            raw(t.staging()),
            raw(t.plan.destination_path),
            journal.output->0.sha256,
            r,
            at,
        );
        lemma_enters(t, next, r, publish.at);
    }
}

/// A published output is verified exactly where it can be inspected, has the staged
/// digest, passes the comparison and decodes, and the journal is written.
pub proof fn law_outputs_are_verified_where_all_went_well(
    t: TransactionView,
    journal: JournalView,
    r: Seq<Reply>,
    at: int,
)
    requires
        journal.phase == Phase::Published,
    ensures
        ({
            let inspect = inspect_step(raw(t.plan.destination_path), r, at);
            let found = inspect.outcome->Done_0;
            published_step(t, journal, r, at).outcome is Done <==> {
                &&& inspect.outcome is Done
                &&& journal.output is Some && found.sha256 == journal.output->0.sha256
                &&& output_check(
                    t.plan.profile,
                    t.plan.source,
                    found,
                    t.plan.duration_tolerance_seconds,
                ) is Ok
                &&& at + 8 <= r.len() && r[at + 7] is Ran && r[at + 7]->Ran_0.success
                &&& writable(raw(t.journal()), r, at + 8)
            }
        }),
{
    reveal(published_step);
    reveal(verification_step);
    reveal(ffmpeg_step);
    let place = raw(t.plan.destination_path);
    let inspect = inspect_step(place, r, at);
    count_inspect(place, r, at);
    reveal(counted);
    law_inspection_records_what_was_found(place, r, at);
    if inspect.outcome is Done {
        lemma_enters(t, verified_journal(journal, inspect.outcome->Done_0), r, at + 8);
    }
}

/// A manifest is published exactly where the source's quarantine can be named and it
/// is written where none stands, or the one that stands is read and is of the same
/// transaction and the same output; and the journal is written. One of another
/// transaction or output is refused.
pub proof fn law_manifests_are_published_where_all_went_well(
    t: TransactionView,
    journal: JournalView,
    r: Seq<Reply>,
    at: int,
)
    requires
        journal.phase == Phase::Verified,
        0 <= at < r.len(),
        r[at] is Flag,
    ensures
        ({
            let place = raw(t.plan.manifest_path);
            let temporary = raw(manifest_staging_place(t.directory));
            let load = load_manifest_step(place, r, at + 1);
            let read = load.outcome->Done_0;
            let clear = clear_internal_step(temporary, r, at + 1);
            let p = clear.at;
            let same = read.transaction_id == t.plan.transaction_id && read.output.sha256
                == journal.output->0.sha256;
            let sound = quarantine_text(t.plan) is Ok && journal.output is Some;
            let step = verified_step(t, journal, r, at);
            &&& r[at]->Flag_0 ==> (step.outcome is Done <==> sound && load.outcome is Done && same
                && writable(raw(t.journal()), r, load.at))
            &&& r[at]->Flag_0 && sound && load.outcome is Done && !same ==> step.outcome
                == Outcome::<JournalView>::Fail("existing manifest belongs to another transaction"@)
            &&& !r[at]->Flag_0 ==> (step.outcome is Done <==> {
                &&& sound && clear.outcome is Done
                &&& 0 <= p && p + 5 <= r.len()
                &&& r[p] is Finished && r[p + 1] is Finished && r[p + 2] is Finished
                &&& r[p + 3] is Finished && r[p + 4] is Finished
                &&& writable(raw(t.journal()), r, p + 5)
            })
            &&& quarantine_text(t.plan) matches Err(message) ==> step.outcome
                == Outcome::<JournalView>::Fail(message)
        }),
{
    reveal(verified_step);
    reveal(publish_manifest_step);
    reveal(publish_text_step);
    let place = raw(t.plan.manifest_path);
    let temporary = raw(manifest_staging_place(t.directory));
    if quarantine_text(t.plan) is Ok && journal.output is Some {
        let quarantine = quarantine_text(t.plan)->Ok_0;
        let manifest = manifest_of(t.plan, journal.output->0, quarantine, t.version);
        let publish = publish_manifest_step(t, manifest, r, at);
        lemma_enters(t, manifested_journal(journal, quarantine), r, publish.at);
        let clear = clear_internal_step(temporary, r, at + 1);
        let p = clear.at;
        let refusal = "no-replace publication '"@ + shown(place) + "' failed"@;
        let leftover = "cannot remove manifest staging"@;
        let text = manifest_text(manifest);
        law_new_files_are_written_linked_and_synced(
            temporary,
            place,
            text,
            refusal,
            leftover,
            r,
            p,
        );
        if 0 <= p && p + 5 <= r.len() && r[p] is Finished && r[p + 1] is Finished && r[p + 2]
            is Finished && r[p + 3] is Finished && r[p + 4] is Finished {
            assert forall|i: int| p <= i < p + 5 implies #[trigger] r[i] is Finished by {
                assert(i == p || i == p + 1 || i == p + 2 || i == p + 3 || i == p + 4);
            }
        }
    }
}

/// A source that is to be deleted and is gone already is done with. A source that is
/// to be quarantined, and has only its second name, is done with too; one that has
/// both has to be one file under both; and where neither is there, that is said.
pub proof fn law_disposals_go_on_from_what_stands(
    plan: PlanView,
    journal: JournalView,
    r: Seq<Reply>,
    at: int,
)
    requires
        0 <= at && at + 4 <= r.len(),
        r[at] is Flag,
        r[at + 1] is Flag,
    ensures
        !r[at]->Flag_0 ==> delete_source_step(plan.source, r, at).outcome is Done,
        ({
            let source = raw(plan.source.path);
            let place = raw(journal.quarantine_path->0);
            let link = link_if_needed_step(plan.source, place, r, at);
            let finish = finish_quarantine_step(plan, journal, r, at);
            let (there, linked) = (r[at]->Flag_0, r[at + 1]->Flag_0);
            let stats = r[at + 2] is Stat && r[at + 3] is Stat;
            let same = r[at + 2]->Stat_0.device == r[at + 3]->Stat_0.device
                && r[at + 2]->Stat_0.inode == r[at + 3]->Stat_0.inode;
            let missing = Outcome::<()>::Fail("both source and quarantine are missing"@);
            let differ = Outcome::<()>::Fail("existing files are not links to the same inode"@);
            &&& link.asked[0] == (RequestView::Exists { path: source })
            &&& link.asked[1] == (RequestView::Exists { path: place })
            &&& !there && linked ==> link.outcome is Done
            &&& !there && !linked ==> link.outcome == missing
            &&& there && linked && stats && same ==> link.outcome is Done
            &&& there && linked && stats && !same ==> link.outcome == differ
            &&& journal.quarantine_path is Some ==> {
                &&& finish.asked[0] == (RequestView::Exists { path: source })
                &&& finish.asked[1] == (RequestView::Exists { path: place })
                &&& !there && linked ==> finish.outcome is Done
                &&& !there && !linked ==> finish.outcome == missing
                &&& there && !linked ==> finish.outcome == Outcome::<()>::Fail(
                    "quarantine link disappeared before source unlink"@,
                )
                &&& there && linked && stats && !same ==> finish.outcome == differ
                &&& there && linked && stats && same && at + 6 <= r.len() && r[at + 4]
                    is Finished && r[at + 5] is Finished ==> finish.outcome is Done
            }
        }),
{
    reveal(delete_source_step);
    reveal(link_if_needed_step);
    reveal(finish_quarantine_step);
    reveal(ensure_same_file_step);
    reveal(drop_name_step);
}

/// A source that is to be quarantined, and has no second name yet, is checked first:
/// it gets one exactly where it is as planned and the name is made durable.
pub proof fn law_sources_are_checked_before_they_are_linked(
    source: EvidenceView,
    quarantine: Seq<u8>,
    r: Seq<Reply>,
    at: int,
)
    requires
        0 <= at && at + 2 <= r.len(),
        r[at] == Reply::Flag(true),
        r[at + 1] == Reply::Flag(false),
    ensures
        ({
            let step = link_if_needed_step(source, quarantine, r, at);
            let validate = validate_source_step(source, r, at + 2);
            let p = validate.at;
            &&& validate.outcome matches Outcome::Fail(message) ==> step.outcome == Outcome::<
                (),
            >::Fail(message)
            &&& step.outcome is Done <==> validate.outcome is Done && p + 3 <= r.len()
                && r[p] is Finished && r[p + 1] is Finished && r[p + 2] is Finished
            &&& step.outcome is Done ==> step.asked.skip(2) == validate.asked + seq![
                RequestView::HardLink { from: raw(source.path), to: quarantine },
                RequestView::SyncFile { path: quarantine },
                RequestView::SyncDirectory { path: raw_parent_directory(quarantine) },
            ]
        }),
{
    reveal(link_if_needed_step);
    reveal(link_step);
    reveal(add_name_step);
    let step = link_if_needed_step(source, quarantine, r, at);
    let validate = validate_source_step(source, r, at + 2);
    count_validate(source, r, at + 2);
    reveal(counted);
    if step.outcome is Done {
        assert(step.asked.skip(2) =~= validate.asked + seq![
            RequestView::HardLink { from: raw(source.path), to: quarantine },
            RequestView::SyncFile { path: quarantine },
            RequestView::SyncDirectory { path: raw_parent_directory(quarantine) },
        ]);
    }
}

/// The disposal of a source comes to its end exactly where what was planned for it is
/// done and the journal is written.
pub proof fn law_disposals_end_where_all_went_well(
    t: TransactionView,
    journal: JournalView,
    r: Seq<Reply>,
    at: int,
)
    ensures
        ({
            let place = raw(t.journal());
            let delete = delete_source_step(t.plan.source, r, at);
            let link = quarantine_link_step(t.plan, journal, r, at);
            let finish = finish_quarantine_step(t.plan, journal, r, at);
            &&& journal.phase == Phase::Manifested ==> (manifested_step(
                t,
                journal,
                r,
                at,
            ).outcome is Done <==> match t.plan.source_disposition {
                SourceDisposition::Preserve => writable(place, r, at),
                SourceDisposition::Delete => delete.outcome is Done && writable(
                    place,
                    r,
                    delete.at,
                ),
                SourceDisposition::Quarantine => link.outcome is Done && writable(
                    place,
                    r,
                    link.at,
                ),
            })
            &&& journal.phase == Phase::QuarantineLinked ==> (linked_step(
                t,
                journal,
                r,
                at,
            ).outcome is Done <==> finish.outcome is Done && writable(place, r, finish.at))
        }),
{
    reveal(manifested_step);
    reveal(linked_step);
    let delete = delete_source_step(t.plan.source, r, at);
    let link = quarantine_link_step(t.plan, journal, r, at);
    let finish = finish_quarantine_step(t.plan, journal, r, at);
    lemma_enters(t, complete_journal(journal), r, at);
    lemma_enters(t, complete_journal(journal), r, delete.at);
    lemma_enters(t, complete_journal(journal), r, finish.at);
    lemma_enters(t, JournalView { phase: Phase::QuarantineLinked, ..journal }, r, link.at);
}

/// A transaction passes its phases in order, each from where the one before it ended
/// and with the journal that it gave; it comes to its end exactly where each of them
/// does.
pub proof fn law_phases_are_passed_in_order(
    t: TransactionView,
    journal: JournalView,
    r: Seq<Reply>,
    at: int,
)
    requires
        journal.phase != Phase::Complete,
    ensures
        ({
            let one = prepared_step(t, journal, r, at);
            let two = staged_step(t, one.outcome->Done_0, r, one.at);
            let three = published_step(t, two.outcome->Done_0, r, two.at);
            let four = verified_step(t, three.outcome->Done_0, r, three.at);
            let five = manifested_step(t, four.outcome->Done_0, r, four.at);
            let six = linked_step(t, five.outcome->Done_0, r, five.at);
            let step = carry_on_step(t, journal, r, at);
            &&& step.outcome is Done <==> one.outcome is Done && two.outcome is Done
                && three.outcome is Done && four.outcome is Done && five.outcome is Done
                && six.outcome is Done
            &&& step.outcome is Done ==> step.asked == one.asked + two.asked + three.asked
                + four.asked + five.asked + six.asked
        }),
{
    reveal(carry_on_step);
    reveal(archive_step);
    reveal(dispose_step);
    let one = prepared_step(t, journal, r, at);
    let two = staged_step(t, one.outcome->Done_0, r, one.at);
    let three = published_step(t, two.outcome->Done_0, r, two.at);
    let four = verified_step(t, three.outcome->Done_0, r, three.at);
    let five = manifested_step(t, four.outcome->Done_0, r, four.at);
    let six = linked_step(t, five.outcome->Done_0, r, five.at);
    let step = carry_on_step(t, journal, r, at);
    if step.outcome is Done {
        assert(step.asked =~= one.asked + two.asked + three.asked + four.asked + five.asked
            + six.asked);
    }
}

/// A run makes sure of the transaction's directories, takes up its journal and carries
/// on from there; it comes to its end exactly where each of these does. A destination
/// without a directory is refused.
pub proof fn law_runs_begin_and_carry_on(
    plan: PlanView,
    version: Seq<char>,
    r: Seq<Reply>,
    at: int,
)
    ensures
        parent(plan.destination_path) is None ==> execute_step(plan, version, r, at) == fail::<
            Seq<char>,
        >("destination has no parent"@, at),
        parent(plan.destination_path) is Some ==> {
            let t = transaction_of(plan, version);
            let root = joined(parent(plan.destination_path)->0, ".marchiver-transactions"@);
            let first = ensure_directory_step(raw(root), r, at);
            let second = ensure_directory_step(
                raw(joined(root, plan.transaction_id)),
                r,
                first.at,
            );
            let open = open_journal_step(t, r, second.at);
            let carry = carry_on_step(t, open.outcome->Done_0, r, open.at);
            let step = execute_step(plan, version, r, at);
            let begun = first.outcome is Done && second.outcome is Done && open.outcome is Done;
            &&& step.outcome is Done <==> begun && carry.outcome is Done
            &&& begun ==> step.outcome == carry.outcome && step.asked == first.asked
                + second.asked + open.asked + carry.asked
        },
{
    reveal(execute_step);
    if parent(plan.destination_path) is Some {
        let t = transaction_of(plan, version);
        let root = joined(parent(plan.destination_path)->0, ".marchiver-transactions"@);
        let first = ensure_directory_step(raw(root), r, at);
        let second = ensure_directory_step(raw(joined(root, plan.transaction_id)), r, first.at);
        let open = open_journal_step(t, r, second.at);
        let carry = carry_on_step(t, open.outcome->Done_0, r, open.at);
        let step = execute_step(plan, version, r, at);
        if first.outcome is Done && second.outcome is Done && open.outcome is Done {
            assert(step.asked =~= first.asked + second.asked + open.asked + carry.asked);
        }
    }
}

/// A quarantined file is checked against the recorded digest before anything is
/// restored. Then a source that is gone gets its name back by a link, and the name in
/// quarantine goes; a source that is there has to be the very file in quarantine, or,
/// where nothing is in quarantine, has to have the recorded digest.
pub proof fn law_restorations_go_on_from_what_stands(
    manifest: ManifestView,
    r: Seq<Reply>,
    at: int,
)
    requires
        manifest.source_disposition == SourceDisposition::Quarantine,
        manifest.quarantine_path is Some,
    ensures
        ({
            let source = raw(manifest.source.path);
            let place = raw(manifest.quarantine_path->0);
            let check = check_quarantine_step(place, manifest.source.sha256, r, at);
            let step = restore_step(manifest, r, at);
            let n = check.asked.len() as int;
            let p = check.at;
            let there = r[p]->Flag_0;
            let kept = r[p + 1]->Flag_0;
            let flags = 0 <= p && p + 2 <= r.len() && r[p] is Flag && r[p + 1] is Flag;
            let ready = check.outcome is Done && flags;
            let add = add_name_step(
                place,
                source,
                "restore hard-link failed; no copy fallback is permitted"@,
                "cannot sync restored source"@,
                r,
                p + 2,
            );
            let same = ensure_same_file_step(source, place, r, p + 2);
            let hash = hash_regular_step(source, r, p + 2);
            &&& check.outcome matches Outcome::Fail(message) ==> step.outcome == Outcome::<
                (),
            >::Fail(message)
            &&& 0 <= at < r.len() && r[at] == Reply::Flag(true) ==> {
                let digest = hash_regular_step(place, r, at + 1);
                &&& digest.outcome is Done && digest.outcome->Done_0 != manifest.source.sha256
                    ==> step.outcome == Outcome::<()>::Fail(
                    "quarantined source SHA-256 differs from manifest"@,
                )
                &&& check.outcome is Done <==> digest.outcome is Done && digest.outcome->Done_0
                    == manifest.source.sha256
            }
            &&& 0 <= at < r.len() && r[at] == Reply::Flag(false) ==> check.outcome is Done
            &&& ready ==> step.asked.subrange(n, n + 2) == seq![
                RequestView::Exists { path: source },
                RequestView::Exists { path: place },
            ]
            &&& ready && !there && kept ==> (step.outcome is Done <==> add.outcome is Done
                && drop_name_step(
                place,
                "cannot unlink quarantine after restore"@,
                r,
                add.at,
            ).outcome is Done)
            &&& ready && there && kept ==> (step.outcome is Done <==> same.outcome is Done
                && drop_name_step(
                place,
                "cannot finish interrupted restore"@,
                r,
                same.at,
            ).outcome is Done)
            &&& ready && there && !kept ==> (step.outcome is Done <==> hash.outcome is Done
                && hash.outcome->Done_0 == manifest.source.sha256)
            &&& ready && there && !kept && hash.outcome is Done && hash.outcome->Done_0
                != manifest.source.sha256 ==> step.outcome == Outcome::<()>::Fail(
                "existing source does not match manifest; refusing overwrite"@,
            )
            &&& ready && !there && !kept ==> step.outcome == Outcome::<()>::Fail(
                "both source and quarantine are missing"@,
            )
        }),
{
    reveal(restore_step);
    reveal(check_quarantine_step);
    reveal(restore_by_presence_step);
    let source = raw(manifest.source.path);
    let place = raw(manifest.quarantine_path->0);
    let check = check_quarantine_step(place, manifest.source.sha256, r, at);
    let step = restore_step(manifest, r, at);
    let p = check.at;
    if check.outcome is Done && 0 <= p && p + 2 <= r.len() && r[p] is Flag && r[p + 1] is Flag {
        let n = check.asked.len() as int;
        assert(step.asked.subrange(n, n + 2) =~= seq![
            RequestView::Exists { path: source },
            RequestView::Exists { path: place },
        ]);
    }
}

} // verus!
