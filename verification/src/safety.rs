//! What the archiver promises of the files it works on.
use vstd::prelude::*;

use crate::apply::{
    TransactionView, archive_step, carry_on_step, dispose_step, enter_step, linked_step,
    manifest_staging_place, manifested_step, prepared_step, publish_manifest_step, published_step,
    staged_step, verification_step, verified_step,
};
use crate::command::{final_destination_step, make_plan_step, run_inspect_step, SessionView};
use crate::disposal::{
    delete_source_step, finish_quarantine_step, link_if_needed_step, link_step,
    quarantine_directories_step, quarantine_link_step, verify_manifest_step,
};
use crate::flow::{Outcome, Reply, RequestView, Step, Tool};
use crate::inspect::{inspect_step, regular_file_step, validate_source_step};
use crate::load::{load_manifest_step, validate_manifest_step};
use crate::model::{
    ConfigView, EvidenceView, JournalView, ManifestView, Phase, PlanView, Profile,
    SourceDisposition,
};
use crate::os_text::{law_texts_have_bytes_of_their_own, raw};
use crate::path::parent;
use crate::plan::plan_check;
use crate::storage::{
    add_name_step, atomic_replace_step, clear_internal_step, discard_step, drop_name_step,
    ensure_directory_step, ensure_same_file_step, hash_regular_step, link_or_remove_step,
    promote_step, publish_new_step, publish_output_step, publish_text_step, remove_internal_step,
    replacement_place, text_name,
};
use crate::tool::{av1_arguments, av1_stage_step, decode_arguments, ffmpeg_step, ffprobe_step};
use crate::trace::{every, group_every, lemma_every_widened};

verus! {

/// Whether a request only looks: it changes no file and no directory.
pub open spec fn looks(request: RequestView) -> bool {
    match request {
        RequestView::Exists { .. } => true,
        RequestView::IsDirectory { .. } => true,
        RequestView::Kind { .. } => true,
        RequestView::Resolve { .. } => true,
        RequestView::Stat { .. } => true,
        RequestView::Hash { .. } => true,
        RequestView::Run { tool, .. } => tool == Tool::Ffprobe,
        RequestView::ParseProbe { .. } => true,
        RequestView::EvaluateConfig { .. } => true,
        RequestView::EvaluatePlan { .. } => true,
        RequestView::EvaluateManifest { .. } => true,
        RequestView::EvaluateJournal { .. } => true,
        _ => false,
    }
}

/// Whether a request makes, replaces or removes what stands at a path. An
/// encoder's run writes the file that its arguments end with.
pub open spec fn changes(request: RequestView, path: Seq<u8>) -> bool {
    match request {
        RequestView::CreateDirectory { path: made } => made == path,
        RequestView::WriteNew { path: written, .. } => written == path,
        RequestView::Copy { to, .. } => to == path,
        RequestView::HardLink { to, .. } => to == path,
        RequestView::Rename { from, to } => from == path || to == path,
        RequestView::Remove { path: removed } => removed == path,
        RequestView::Run { tool, arguments } => tool == Tool::Ffmpeg && arguments.len() > 0
            && arguments.last() == path,
        _ => false,
    }
}

/// The requests that leave what stands at a path alone.
pub open spec fn sparing(path: Seq<u8>) -> spec_fn(RequestView) -> bool {
    |request: RequestView| !changes(request, path)
}

/// The requests that only look.
pub open spec fn looking() -> spec_fn(RequestView) -> bool {
    |request: RequestView| looks(request)
}

/// An inspection only looks.
pub proof fn law_inspection_only_looks(path: Seq<u8>, r: Seq<Reply>, at: int)
    ensures
        every(inspect_step(path, r, at), looking()),
{
    broadcast use group_every;

    reveal(inspect_step);
    reveal(regular_file_step);
    reveal(ffprobe_step);
}

/// Looking whether a source is still the same only looks.
pub proof fn law_validation_only_looks(expected: EvidenceView, r: Seq<Reply>, at: int)
    ensures
        every(validate_source_step(expected, r, at), looking()),
{
    broadcast use group_every;

    law_inspection_only_looks(raw(expected.path), r, at);
    reveal(validate_source_step);
}

broadcast proof fn spare_inspect(path: Seq<u8>, r: Seq<Reply>, at: int, kept: Seq<u8>)
    ensures
        #[trigger] every(inspect_step(path, r, at), sparing(kept)),
{
    law_inspection_only_looks(path, r, at);
    lemma_every_widened(inspect_step(path, r, at), looking(), sparing(kept));
}

broadcast proof fn spare_validate(expected: EvidenceView, r: Seq<Reply>, at: int, kept: Seq<u8>)
    ensures
        #[trigger] every(validate_source_step(expected, r, at), sparing(kept)),
{
    broadcast use {group_every, spare_inspect};

    reveal(validate_source_step);
}

broadcast proof fn spare_hash_regular(path: Seq<u8>, r: Seq<Reply>, at: int, kept: Seq<u8>)
    ensures
        #[trigger] every(hash_regular_step(path, r, at), sparing(kept)),
{
    broadcast use group_every;

    reveal(hash_regular_step);
    reveal(regular_file_step);
}

broadcast proof fn spare_load_manifest(path: Seq<u8>, r: Seq<Reply>, at: int, kept: Seq<u8>)
    ensures
        #[trigger] every(load_manifest_step(path, r, at), sparing(kept)),
{
    broadcast use group_every;

    reveal(load_manifest_step);
    reveal(validate_manifest_step);
}

broadcast proof fn spare_remove_internal(path: Seq<u8>, r: Seq<Reply>, at: int, kept: Seq<u8>)
    requires
        path != kept,
    ensures
        #[trigger] every(remove_internal_step(path, r, at), sparing(kept)),
{
    broadcast use group_every;

    reveal(remove_internal_step);
}

broadcast proof fn spare_clear_internal(path: Seq<u8>, r: Seq<Reply>, at: int, kept: Seq<u8>)
    requires
        path != kept,
    ensures
        #[trigger] every(clear_internal_step(path, r, at), sparing(kept)),
{
    broadcast use {group_every, spare_remove_internal};

    reveal(clear_internal_step);
}

/// Whether a path is where the next contents of a file are prepared.
pub open spec fn prepares(place: Seq<u8>, path: Seq<u8>) -> bool {
    text_name(path) matches Some(name) && place == replacement_place(path, name)
}

pub broadcast proof fn spare_replace(
    path: Seq<u8>,
    contents: Seq<char>,
    r: Seq<Reply>,
    at: int,
    kept: Seq<u8>,
)
    requires
        path != kept,
        !prepares(kept, path),
    ensures
        #[trigger] every(atomic_replace_step(path, contents, r, at), sparing(kept)),
{
    broadcast use {group_every, spare_clear_internal};

    reveal(atomic_replace_step);
}

broadcast proof fn spare_add_name(
    from: Seq<u8>,
    to: Seq<u8>,
    refusal: Seq<char>,
    loss: Seq<char>,
    r: Seq<Reply>,
    at: int,
    kept: Seq<u8>,
)
    requires
        to != kept,
    ensures
        #[trigger] every(add_name_step(from, to, refusal, loss, r, at), sparing(kept)),
{
    broadcast use group_every;

    reveal(add_name_step);
}

broadcast proof fn spare_drop_name(
    path: Seq<u8>,
    what: Seq<char>,
    r: Seq<Reply>,
    at: int,
    kept: Seq<u8>,
)
    requires
        path != kept,
    ensures
        #[trigger] every(drop_name_step(path, what, r, at), sparing(kept)),
{
    broadcast use group_every;

    reveal(drop_name_step);
}

broadcast proof fn spare_publish_new(
    temporary: Seq<u8>,
    path: Seq<u8>,
    contents: Seq<char>,
    refusal: Seq<char>,
    leftover: Seq<char>,
    r: Seq<Reply>,
    at: int,
    kept: Seq<u8>,
)
    requires
        temporary != kept,
        path != kept,
    ensures
        #[trigger] every(
            publish_new_step(temporary, path, contents, refusal, leftover, r, at),
            sparing(kept),
        ),
{
    broadcast use {group_every, spare_drop_name};

    reveal(publish_new_step);
    reveal(link_or_remove_step);
}

broadcast proof fn spare_publish_text(
    temporary: Seq<u8>,
    path: Seq<u8>,
    contents: Seq<char>,
    r: Seq<Reply>,
    at: int,
    kept: Seq<u8>,
)
    requires
        temporary != kept,
        path != kept,
    ensures
        #[trigger] every(publish_text_step(temporary, path, contents, r, at), sparing(kept)),
{
    broadcast use {group_every, spare_clear_internal, spare_publish_new};

    reveal(publish_text_step);
}

broadcast proof fn spare_publish_output(
    staging: Seq<u8>,
    destination: Seq<u8>,
    expected: Seq<char>,
    r: Seq<Reply>,
    at: int,
    kept: Seq<u8>,
)
    requires
        staging != kept,
        destination != kept,
    ensures
        #[trigger] every(
            publish_output_step(staging, destination, expected, r, at),
            sparing(kept),
        ),
{
    broadcast use {group_every, spare_hash_regular, spare_remove_internal, spare_drop_name};

    reveal(publish_output_step);
    reveal(discard_step);
    reveal(promote_step);
}

broadcast proof fn spare_encode(
    arguments: Seq<Seq<char>>,
    what: Seq<char>,
    r: Seq<Reply>,
    at: int,
    kept: Seq<u8>,
)
    requires
        arguments.len() > 0,
        raw(arguments.last()) != kept,
    ensures
        #[trigger] every(ffmpeg_step(arguments, what, r, at), sparing(kept)),
{
    broadcast use group_every;

    reveal(ffmpeg_step);
}

/// Whether a path is one of those that a transaction makes, writes or removes
/// on its own account.
pub open spec fn own_path(t: TransactionView, path: Seq<u8>) -> bool {
    ||| path == raw(t.journal())
    ||| prepares(path, raw(t.journal()))
    ||| path == raw(t.staging())
    ||| path == raw(manifest_staging_place(t.directory))
    ||| path == raw(t.plan.destination_path)
    ||| path == raw(t.plan.manifest_path)
}

broadcast proof fn spare_enter(
    t: TransactionView,
    journal: JournalView,
    r: Seq<Reply>,
    at: int,
    kept: Seq<u8>,
)
    requires
        !own_path(t, kept),
    ensures
        #[trigger] every(enter_step(t, journal, r, at), sparing(kept)),
{
    broadcast use {group_every, spare_replace};

    reveal(enter_step);
}

broadcast proof fn spare_prepared(
    t: TransactionView,
    journal: JournalView,
    r: Seq<Reply>,
    at: int,
    kept: Seq<u8>,
)
    requires
        !own_path(t, kept),
    ensures
        #[trigger] every(prepared_step(t, journal, r, at), sparing(kept)),
{
    broadcast use {
        group_every,
        spare_validate,
        spare_inspect,
        spare_clear_internal,
        spare_replace,
        spare_encode,
        spare_enter,
    };

    reveal(prepared_step);
    reveal(av1_stage_step);
    assert(av1_arguments(t.plan, t.staging()).last() == t.staging());
}

broadcast proof fn spare_staged(
    t: TransactionView,
    journal: JournalView,
    r: Seq<Reply>,
    at: int,
    kept: Seq<u8>,
)
    requires
        !own_path(t, kept),
    ensures
        #[trigger] every(staged_step(t, journal, r, at), sparing(kept)),
{
    broadcast use {group_every, spare_publish_output, spare_enter};

    reveal(staged_step);
}

broadcast proof fn spare_published(
    t: TransactionView,
    journal: JournalView,
    r: Seq<Reply>,
    at: int,
    kept: Seq<u8>,
)
    requires
        !own_path(t, kept),
        kept != raw("-"@),
    ensures
        #[trigger] every(published_step(t, journal, r, at), sparing(kept)),
{
    broadcast use {group_every, spare_inspect, spare_encode, spare_replace, spare_enter};

    reveal(published_step);
    reveal(verification_step);
    reveal_strlit("-");
    assert(decode_arguments(t.plan.destination_path).last() == "-"@);
}

broadcast proof fn spare_verified(
    t: TransactionView,
    journal: JournalView,
    r: Seq<Reply>,
    at: int,
    kept: Seq<u8>,
)
    requires
        !own_path(t, kept),
    ensures
        #[trigger] every(verified_step(t, journal, r, at), sparing(kept)),
{
    broadcast use {group_every, spare_load_manifest, spare_publish_text, spare_enter};

    reveal(verified_step);
    reveal(publish_manifest_step);
}

/// Until the manifest is durable, nothing happens to the source, nor to any
/// other path but the transaction's own.
pub proof fn law_archiving_changes_only_its_own(
    t: TransactionView,
    journal: JournalView,
    r: Seq<Reply>,
    at: int,
    kept: Seq<u8>,
)
    requires
        kept != raw("-"@),
        !own_path(t, kept),
    ensures
        every(archive_step(t, journal, r, at), sparing(kept)),
{
    broadcast use {group_every, spare_prepared, spare_staged, spare_published, spare_verified};

    reveal(archive_step);
}

/// The source of a valid plan is not taken for the standard output.
proof fn lemma_source_is_no_dash(plan: PlanView)
    requires
        plan_check(plan) is Ok,
    ensures
        raw(plan.source.path) != raw("-"@),
{
    reveal_strlit("-");
    if raw(plan.source.path) == raw("-"@) {
        law_texts_have_bytes_of_their_own(plan.source.path, "-"@);
    }
}

/// Where the archiving is not over, a transaction that is carried on has not
/// touched the source.
pub proof fn law_source_comes_last(
    t: TransactionView,
    journal: JournalView,
    r: Seq<Reply>,
    at: int,
)
    requires
        plan_check(t.plan) is Ok,
        !own_path(t, raw(t.plan.source.path)),
        archive_step(t, journal, r, at).outcome !is Done,
    ensures
        every(carry_on_step(t, journal, r, at), sparing(raw(t.plan.source.path))),
{
    broadcast use group_every;

    lemma_source_is_no_dash(t.plan);
    law_archiving_changes_only_its_own(t, journal, r, at, raw(t.plan.source.path));
    reveal(carry_on_step);
}

/// The requests that take a path away at most, and never write what stands there.
pub open spec fn unlinking(path: Seq<u8>) -> spec_fn(RequestView) -> bool {
    |request: RequestView| changes(request, path) ==> request == (RequestView::Remove { path })
}

/// Whether a path is one of those that a transaction makes in quarantine.
pub open spec fn quarantine_own(journal: JournalView, path: Seq<u8>) -> bool {
    match journal.quarantine_path {
        None => false,
        Some(quarantine) => {
            ||| path == raw(quarantine)
            ||| (parent(quarantine) matches Some(directory) && path == raw(directory))
            ||| (parent(quarantine) matches Some(directory) && parent(directory) matches Some(root)
                && path == raw(root))
        },
    }
}

broadcast proof fn unlink_if_spared<T>(step: Step<T>, path: Seq<u8>)
    requires
        every(step, sparing(path)),
    ensures
        #[trigger] every(step, unlinking(path)),
{
    lemma_every_widened(step, sparing(path), unlinking(path));
}

pub broadcast proof fn spare_ensure_directory(path: Seq<u8>, r: Seq<Reply>, at: int, kept: Seq<u8>)
    requires
        path != kept,
    ensures
        #[trigger] every(ensure_directory_step(path, r, at), sparing(kept)),
{
    broadcast use group_every;

    reveal(ensure_directory_step);
}

broadcast proof fn spare_same_file(
    left: Seq<u8>,
    right: Seq<u8>,
    r: Seq<Reply>,
    at: int,
    kept: Seq<u8>,
)
    ensures
        #[trigger] every(ensure_same_file_step(left, right, r, at), sparing(kept)),
{
    broadcast use group_every;

    reveal(ensure_same_file_step);
}

broadcast proof fn spare_quarantine_link(
    plan: PlanView,
    journal: JournalView,
    r: Seq<Reply>,
    at: int,
    kept: Seq<u8>,
)
    requires
        !quarantine_own(journal, kept),
    ensures
        #[trigger] every(quarantine_link_step(plan, journal, r, at), sparing(kept)),
{
    broadcast use {
        group_every,
        spare_ensure_directory,
        spare_same_file,
        spare_validate,
        spare_add_name,
    };

    reveal(quarantine_link_step);
    reveal(quarantine_directories_step);
    reveal(link_if_needed_step);
    reveal(link_step);
}

broadcast proof fn unlink_manifested(
    t: TransactionView,
    journal: JournalView,
    r: Seq<Reply>,
    at: int,
)
    requires
        !own_path(t, raw(t.plan.source.path)),
        !quarantine_own(journal, raw(t.plan.source.path)),
    ensures
        #[trigger] every(manifested_step(t, journal, r, at), unlinking(raw(t.plan.source.path))),
{
    let source = raw(t.plan.source.path);
    reveal(manifested_step);
    reveal(delete_source_step);
    reveal(drop_name_step);
    assert forall|j: JournalView, p: int| #[trigger]
        every(enter_step(t, j, r, p), unlinking(source)) by {
        spare_enter(t, j, r, p, source);
        unlink_if_spared(enter_step(t, j, r, p), source);
    }
    assert forall|p: int| #[trigger]
        every(validate_source_step(t.plan.source, r, p), unlinking(source)) by {
        spare_validate(t.plan.source, r, p, source);
        unlink_if_spared(validate_source_step(t.plan.source, r, p), source);
    }
    spare_quarantine_link(t.plan, journal, r, at, source);
    unlink_if_spared(quarantine_link_step(t.plan, journal, r, at), source);
    broadcast use group_every;

}

broadcast proof fn unlink_linked(t: TransactionView, journal: JournalView, r: Seq<Reply>, at: int)
    requires
        !own_path(t, raw(t.plan.source.path)),
    ensures
        #[trigger] every(linked_step(t, journal, r, at), unlinking(raw(t.plan.source.path))),
{
    let source = raw(t.plan.source.path);
    reveal(linked_step);
    reveal(finish_quarantine_step);
    reveal(drop_name_step);
    assert forall|j: JournalView, p: int| #[trigger]
        every(enter_step(t, j, r, p), unlinking(source)) by {
        spare_enter(t, j, r, p, source);
        unlink_if_spared(enter_step(t, j, r, p), source);
    }
    assert forall|left: Seq<u8>, right: Seq<u8>, p: int| #[trigger]
        every(ensure_same_file_step(left, right, r, p), unlinking(source)) by {
        spare_same_file(left, right, r, p, source);
        unlink_if_spared(ensure_same_file_step(left, right, r, p), source);
    }
    broadcast use group_every;

}

/// The source is never written, whatever the disposition: all that may happen
/// to it is that its name is taken away.
pub proof fn law_source_is_never_written(
    t: TransactionView,
    journal: JournalView,
    r: Seq<Reply>,
    at: int,
)
    requires
        plan_check(t.plan) is Ok,
        !own_path(t, raw(t.plan.source.path)),
        archive_step(t, journal, r, at).outcome matches Outcome::Done(after) ==> !quarantine_own(
            after,
            raw(t.plan.source.path),
        ),
    ensures
        every(carry_on_step(t, journal, r, at), unlinking(raw(t.plan.source.path))),
{
    let source = raw(t.plan.source.path);
    lemma_source_is_no_dash(t.plan);
    law_archiving_changes_only_its_own(t, journal, r, at, source);
    unlink_if_spared(archive_step(t, journal, r, at), source);
    reveal(carry_on_step);
    reveal(dispose_step);
    broadcast use {group_every, unlink_manifested, unlink_linked};

}

/// A plan that preserves its source never touches it, carried on from any journal
/// that it can have written.
pub proof fn law_preserved_source_is_untouched(
    t: TransactionView,
    journal: JournalView,
    r: Seq<Reply>,
    at: int,
)
    requires
        plan_check(t.plan) is Ok,
        t.plan.source_disposition == SourceDisposition::Preserve,
        journal.phase != Phase::QuarantineLinked,
        !own_path(t, raw(t.plan.source.path)),
    ensures
        every(carry_on_step(t, journal, r, at), sparing(raw(t.plan.source.path))),
{
    broadcast use {group_every, spare_enter};

    let source = raw(t.plan.source.path);
    lemma_source_is_no_dash(t.plan);
    law_archiving_changes_only_its_own(t, journal, r, at, source);
    let archived = archive_step(t, journal, r, at);
    if let Outcome::Done(after) = archived.outcome {
        lemma_archived_is_not_linked(t, journal, r, at);
        reveal(manifested_step);
        reveal(linked_step);
        reveal(enter_step);
    }
    reveal(carry_on_step);
    reveal(dispose_step);
}

/// Archiving does not lead into the second half of a quarantine.
proof fn lemma_archived_is_not_linked(
    t: TransactionView,
    journal: JournalView,
    r: Seq<Reply>,
    at: int,
)
    requires
        journal.phase != Phase::QuarantineLinked,
    ensures
        archive_step(t, journal, r, at).outcome matches Outcome::Done(after) ==> after.phase
            != Phase::QuarantineLinked,
{
    reveal(archive_step);
    reveal(prepared_step);
    reveal(staged_step);
    reveal(published_step);
    reveal(verified_step);
    reveal(enter_step);
}

/// Where an inspection fails, the command fails with the same message, and has
/// only looked.
pub proof fn law_failed_inspection_writes_nothing(
    source: Seq<u8>,
    report: Option<Seq<u8>>,
    session: SessionView,
    message: Seq<char>,
    r: Seq<Reply>,
    at: int,
)
    requires
        inspect_step(source, r, at).outcome == Outcome::<EvidenceView>::Fail(message),
    ensures
        run_inspect_step(source, report, session, r, at).outcome
            == Outcome::<Option<Seq<char>>>::Fail(message),
        every(run_inspect_step(source, report, session, r, at), looking()),
{
    broadcast use group_every;

    law_inspection_only_looks(source, r, at);
    reveal(run_inspect_step);
}

/// Where no plan can be made, the command has only looked.
pub proof fn law_failed_planning_writes_nothing(
    source: Seq<u8>,
    destination: Seq<u8>,
    profile: Profile,
    config: ConfigView,
    version: Seq<char>,
    r: Seq<Reply>,
    at: int,
)
    ensures
        every(
            make_plan_step(source, destination, profile, config, version, r, at),
            looking(),
        ),
{
    broadcast use group_every;

    assert forall|p: int| #[trigger] every(inspect_step(source, r, p), looking()) by {
        law_inspection_only_looks(source, r, p);
    }
    reveal(make_plan_step);
    reveal(final_destination_step);
}

/// A verification of an archived output changes nothing at any path.
pub proof fn law_verification_changes_nothing(
    manifest: ManifestView,
    r: Seq<Reply>,
    at: int,
    kept: Seq<u8>,
)
    requires
        kept != raw("-"@),
    ensures
        every(verify_manifest_step(manifest, r, at), sparing(kept)),
{
    broadcast use {group_every, spare_inspect, spare_encode};

    reveal(verify_manifest_step);
    reveal_strlit("-");
    assert(decode_arguments(manifest.destination_path).last() == "-"@);
}

} // verus!
