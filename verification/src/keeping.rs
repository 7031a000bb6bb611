//! What workflows leave where it is: the files that nothing takes away.
use vstd::prelude::*;

use crate::apply::{
    archive_step, dispose_step, enter_step, linked_step, manifest_staging_place, manifested_step,
    open_journal_step, prepared_step, publish_manifest_step, published_step, staged_step,
    verification_step, verified_step, TransactionView,
};
use crate::disposal::{
    delete_source_step, finish_quarantine_step, link_if_needed_step, link_step,
    quarantine_directories_step, quarantine_link_step,
};
use crate::flow::{Reply, RequestView};
use crate::inspect::{inspect_step, regular_file_step, validate_source_step};
use crate::load::{load_journal_step, load_manifest_step, validate_manifest_step};
use crate::model::{EvidenceView, JournalView, Phase, PlanView, SourceDisposition};
use crate::os_text::raw;
use crate::safety::{law_inspection_only_looks, looking, prepares};
use crate::storage::{
    add_name_step, atomic_replace_step, clear_internal_step, discard_step, drop_name_step,
    ensure_directory_step, ensure_same_file_step, hash_regular_step, link_or_remove_step,
    promote_step, publish_new_step, publish_output_step, publish_text_step, remove_internal_step,
};
use crate::tool::{av1_stage_step, ffmpeg_step};
use crate::trace::{every, group_every, lemma_every_widened};

verus! {

/// Whether a request may take away what stands at a path.
pub open spec fn takes(request: RequestView, path: Seq<u8>) -> bool {
    match request {
        RequestView::Remove { path: removed } => removed == path,
        RequestView::Rename { from, to } => from == path || to == path,
        _ => false,
    }
}

/// The requests that leave what stands at a path where it is.
pub open spec fn leaving(path: Seq<u8>) -> spec_fn(RequestView) -> bool {
    |request: RequestView| !takes(request, path)
}

/// Whether a path is one of those that a transaction clears on its own account.
pub open spec fn scratch(t: TransactionView, path: Seq<u8>) -> bool {
    ||| path == raw(t.journal())
    ||| prepares(path, raw(t.journal()))
    ||| path == raw(t.staging())
    ||| path == raw(manifest_staging_place(t.directory))
}

pub broadcast proof fn leave_inspect(path: Seq<u8>, r: Seq<Reply>, at: int, kept: Seq<u8>)
    ensures
        #[trigger] every(inspect_step(path, r, at), leaving(kept)),
{
    law_inspection_only_looks(path, r, at);
    lemma_every_widened(inspect_step(path, r, at), looking(), leaving(kept));
}

pub broadcast proof fn leave_validate(expected: EvidenceView, r: Seq<Reply>, at: int, kept: Seq<u8>)
    ensures
        #[trigger] every(validate_source_step(expected, r, at), leaving(kept)),
{
    broadcast use {group_every, leave_inspect};

    reveal(validate_source_step);
}

pub broadcast proof fn leave_hash_regular(path: Seq<u8>, r: Seq<Reply>, at: int, kept: Seq<u8>)
    ensures
        #[trigger] every(hash_regular_step(path, r, at), leaving(kept)),
{
    broadcast use group_every;

    reveal(hash_regular_step);
    reveal(regular_file_step);
}

pub broadcast proof fn leave_load_manifest(path: Seq<u8>, r: Seq<Reply>, at: int, kept: Seq<u8>)
    ensures
        #[trigger] every(load_manifest_step(path, r, at), leaving(kept)),
{
    broadcast use group_every;

    reveal(load_manifest_step);
    reveal(validate_manifest_step);
}

pub broadcast proof fn leave_remove_internal(path: Seq<u8>, r: Seq<Reply>, at: int, kept: Seq<u8>)
    requires
        path != kept,
    ensures
        #[trigger] every(remove_internal_step(path, r, at), leaving(kept)),
{
    broadcast use group_every;

    reveal(remove_internal_step);
}

pub broadcast proof fn leave_clear_internal(path: Seq<u8>, r: Seq<Reply>, at: int, kept: Seq<u8>)
    requires
        path != kept,
    ensures
        #[trigger] every(clear_internal_step(path, r, at), leaving(kept)),
{
    broadcast use {group_every, leave_remove_internal};

    reveal(clear_internal_step);
}

pub broadcast proof fn leave_replace(
    path: Seq<u8>,
    contents: Seq<char>,
    r: Seq<Reply>,
    at: int,
    kept: Seq<u8>,
)
    requires
        path != kept,
        !prepares(kept, path),
    ensures
        #[trigger] every(atomic_replace_step(path, contents, r, at), leaving(kept)),
{
    broadcast use {group_every, leave_clear_internal};

    reveal(atomic_replace_step);
}

pub broadcast proof fn leave_add_name(
    from: Seq<u8>,
    to: Seq<u8>,
    refusal: Seq<char>,
    loss: Seq<char>,
    r: Seq<Reply>,
    at: int,
    kept: Seq<u8>,
)
    ensures
        #[trigger] every(add_name_step(from, to, refusal, loss, r, at), leaving(kept)),
{
    broadcast use group_every;

    reveal(add_name_step);
}

pub broadcast proof fn leave_drop_name(
    path: Seq<u8>,
    what: Seq<char>,
    r: Seq<Reply>,
    at: int,
    kept: Seq<u8>,
)
    requires
        path != kept,
    ensures
        #[trigger] every(drop_name_step(path, what, r, at), leaving(kept)),
{
    broadcast use group_every;

    reveal(drop_name_step);
}

pub broadcast proof fn leave_publish_new(
    temporary: Seq<u8>,
    path: Seq<u8>,
    contents: Seq<char>,
    refusal: Seq<char>,
    leftover: Seq<char>,
    r: Seq<Reply>,
    at: int,
    kept: Seq<u8>,
)
    requires
        temporary != kept,
    ensures
        #[trigger] every(
            publish_new_step(temporary, path, contents, refusal, leftover, r, at),
            leaving(kept),
        ),
{
    broadcast use {group_every, leave_drop_name};

    reveal(publish_new_step);
    reveal(link_or_remove_step);
}

pub broadcast proof fn leave_publish_text(
    temporary: Seq<u8>,
    path: Seq<u8>,
    contents: Seq<char>,
    r: Seq<Reply>,
    at: int,
    kept: Seq<u8>,
)
    requires
        temporary != kept,
    ensures
        #[trigger] every(publish_text_step(temporary, path, contents, r, at), leaving(kept)),
{
    broadcast use {group_every, leave_clear_internal, leave_publish_new};

    reveal(publish_text_step);
}

pub broadcast proof fn leave_publish_output(
    staging: Seq<u8>,
    destination: Seq<u8>,
    expected: Seq<char>,
    r: Seq<Reply>,
    at: int,
    kept: Seq<u8>,
)
    requires
        staging != kept,
    ensures
        #[trigger] every(
            publish_output_step(staging, destination, expected, r, at),
            leaving(kept),
        ),
{
    broadcast use {group_every, leave_hash_regular, leave_remove_internal, leave_drop_name};

    reveal(publish_output_step);
    reveal(discard_step);
    reveal(promote_step);
}

pub broadcast proof fn leave_encode(
    arguments: Seq<Seq<char>>,
    what: Seq<char>,
    r: Seq<Reply>,
    at: int,
    kept: Seq<u8>,
)
    ensures
        #[trigger] every(ffmpeg_step(arguments, what, r, at), leaving(kept)),
{
    broadcast use group_every;

    reveal(ffmpeg_step);
}

pub broadcast proof fn leave_ensure_directory(path: Seq<u8>, r: Seq<Reply>, at: int, kept: Seq<u8>)
    ensures
        #[trigger] every(ensure_directory_step(path, r, at), leaving(kept)),
{
    broadcast use group_every;

    reveal(ensure_directory_step);
}

pub broadcast proof fn leave_same_file(
    left: Seq<u8>,
    right: Seq<u8>,
    r: Seq<Reply>,
    at: int,
    kept: Seq<u8>,
)
    ensures
        #[trigger] every(ensure_same_file_step(left, right, r, at), leaving(kept)),
{
    broadcast use group_every;

    reveal(ensure_same_file_step);
}

pub broadcast proof fn leave_enter(
    t: TransactionView,
    journal: JournalView,
    r: Seq<Reply>,
    at: int,
    kept: Seq<u8>,
)
    requires
        !scratch(t, kept),
    ensures
        #[trigger] every(enter_step(t, journal, r, at), leaving(kept)),
{
    broadcast use {group_every, leave_replace};

    reveal(enter_step);
}

pub broadcast proof fn leave_prepared(
    t: TransactionView,
    journal: JournalView,
    r: Seq<Reply>,
    at: int,
    kept: Seq<u8>,
)
    requires
        !scratch(t, kept),
    ensures
        #[trigger] every(prepared_step(t, journal, r, at), leaving(kept)),
{
    broadcast use {
        group_every,
        leave_validate,
        leave_inspect,
        leave_clear_internal,
        leave_replace,
        leave_encode,
        leave_enter,
    };

    reveal(prepared_step);
    reveal(av1_stage_step);
}

pub broadcast proof fn leave_staged(
    t: TransactionView,
    journal: JournalView,
    r: Seq<Reply>,
    at: int,
    kept: Seq<u8>,
)
    requires
        !scratch(t, kept),
    ensures
        #[trigger] every(staged_step(t, journal, r, at), leaving(kept)),
{
    broadcast use {group_every, leave_publish_output, leave_enter};

    reveal(staged_step);
}

pub broadcast proof fn leave_published(
    t: TransactionView,
    journal: JournalView,
    r: Seq<Reply>,
    at: int,
    kept: Seq<u8>,
)
    requires
        !scratch(t, kept),
    ensures
        #[trigger] every(published_step(t, journal, r, at), leaving(kept)),
{
    broadcast use {group_every, leave_inspect, leave_encode, leave_replace, leave_enter};

    reveal(published_step);
    reveal(verification_step);
}

pub broadcast proof fn leave_verified(
    t: TransactionView,
    journal: JournalView,
    r: Seq<Reply>,
    at: int,
    kept: Seq<u8>,
)
    requires
        !scratch(t, kept),
    ensures
        #[trigger] every(verified_step(t, journal, r, at), leaving(kept)),
{
    broadcast use {group_every, leave_load_manifest, leave_publish_text, leave_enter};

    reveal(verified_step);
    reveal(publish_manifest_step);
}

pub broadcast proof fn leave_quarantine_link(
    plan: PlanView,
    journal: JournalView,
    r: Seq<Reply>,
    at: int,
    kept: Seq<u8>,
)
    ensures
        #[trigger] every(quarantine_link_step(plan, journal, r, at), leaving(kept)),
{
    broadcast use {
        group_every,
        leave_ensure_directory,
        leave_same_file,
        leave_validate,
        leave_add_name,
    };

    reveal(quarantine_link_step);
    reveal(quarantine_directories_step);
    reveal(link_if_needed_step);
    reveal(link_step);
}

pub broadcast proof fn leave_archive(
    t: TransactionView,
    journal: JournalView,
    r: Seq<Reply>,
    at: int,
    kept: Seq<u8>,
)
    requires
        !scratch(t, kept),
    ensures
        #[trigger] every(archive_step(t, journal, r, at), leaving(kept)),
{
    broadcast use {group_every, leave_prepared, leave_staged, leave_published, leave_verified};

    reveal(archive_step);
}

pub broadcast proof fn leave_open_journal(
    t: TransactionView,
    r: Seq<Reply>,
    at: int,
    kept: Seq<u8>,
)
    requires
        !scratch(t, kept),
    ensures
        #[trigger] every(open_journal_step(t, r, at), leaving(kept)),
{
    broadcast use {group_every, leave_enter};

    reveal(open_journal_step);
    reveal(load_journal_step);
}

/// What becomes of the source leaves everything else where it is.
pub broadcast proof fn leave_dispose(
    t: TransactionView,
    journal: JournalView,
    r: Seq<Reply>,
    at: int,
    kept: Seq<u8>,
)
    requires
        !scratch(t, kept),
        raw(t.plan.source.path) != kept,
    ensures
        #[trigger] every(dispose_step(t, journal, r, at), leaving(kept)),
{
    broadcast use {
        group_every,
        leave_enter,
        leave_validate,
        leave_drop_name,
        leave_same_file,
        leave_quarantine_link,
    };

    reveal(dispose_step);
    reveal(manifested_step);
    reveal(linked_step);
    reveal(delete_source_step);
    reveal(finish_quarantine_step);
}

/// A source that is to be preserved is left where it is.
pub broadcast proof fn leave_preserved(
    t: TransactionView,
    journal: JournalView,
    r: Seq<Reply>,
    at: int,
    kept: Seq<u8>,
)
    requires
        !scratch(t, kept),
        t.plan.source_disposition == SourceDisposition::Preserve,
        journal.phase == Phase::Manifested,
    ensures
        #[trigger] every(dispose_step(t, journal, r, at), leaving(kept)),
{
    broadcast use {group_every, leave_enter};

    reveal(dispose_step);
    reveal(manifested_step);
    reveal(linked_step);
    reveal(enter_step);
}

} // verus!
