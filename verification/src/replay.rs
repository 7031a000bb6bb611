//! Replays are faithful: run again with fewer replies, a command asks for what
//! it asked for at that point before.
use vstd::prelude::*;

use crate::apply::{
    apply_step, archive_step, carry_on_step, dispose_step, enter_step, execute_step, linked_step,
    manifested_step, open_journal_step, prepared_step, publish_manifest_step, published_step,
    staged_step, verification_step, verified_step, TransactionView,
};
use crate::command::{
    final_destination_step, make_plan_step, run_inspect_step, run_plan_step, run_step,
    CommandView, SessionView,
};
use crate::disposal::{
    check_quarantine_step, delete_source_step, finish_quarantine_step, link_if_needed_step,
    link_step, quarantine_directories_step, quarantine_link_step, restore_by_presence_step,
    restore_step, verify_manifest_step,
};
use crate::flow::{Outcome, Reply};
use crate::inspect::{inspect_step, regular_file_step, validate_source_step};
use crate::load::{
    load_config_step, load_journal_step, load_manifest_step, load_plan_step,
    validate_manifest_step,
};
use crate::model::{ConfigView, EvidenceView, JournalView, ManifestView, PlanView, Profile};
use crate::storage::{
    add_name_step, atomic_replace_step, clear_internal_step, discard_step, drop_name_step,
    ensure_directory_step, ensure_same_file_step, hash_regular_step, link_or_remove_step,
    promote_step, publish_new_step, publish_output_step, publish_text_step, remove_internal_step,
};
use crate::tool::{av1_stage_step, ffmpeg_step, ffprobe_step};
use crate::trace::{counted, cut, group_counted, group_cut};

verus! {

pub broadcast proof fn count_inspect(path: Seq<u8>, r: Seq<Reply>, at: int)
    ensures
        #[trigger] counted(inspect_step(path, r, at), at),
{
    broadcast use group_counted;

    reveal(inspect_step);
    reveal(regular_file_step);
    reveal(ffprobe_step);
}

broadcast proof fn cut_inspect(path: Seq<u8>, r: Seq<Reply>, fewer: Seq<Reply>, at: int, end: int)
    requires
        0 <= at <= end <= r.len(),
        fewer == r.take(end),
    ensures
        #[trigger] cut(inspect_step(path, r, at), inspect_step(path, fewer, at), at, end),
{
    broadcast use {group_counted, group_cut};

    reveal(inspect_step);
    reveal(regular_file_step);
    reveal(ffprobe_step);
}

pub broadcast proof fn count_validate(expected: EvidenceView, r: Seq<Reply>, at: int)
    ensures
        #[trigger] counted(validate_source_step(expected, r, at), at),
{
    broadcast use {group_counted, count_inspect};

    reveal(validate_source_step);
}

broadcast proof fn cut_validate(
    expected: EvidenceView,
    r: Seq<Reply>,
    fewer: Seq<Reply>,
    at: int,
    end: int,
)
    requires
        0 <= at <= end <= r.len(),
        fewer == r.take(end),
    ensures
        #[trigger] cut(
            validate_source_step(expected, r, at),
            validate_source_step(expected, fewer, at),
            at,
            end,
        ),
{
    broadcast use {group_counted, group_cut, count_inspect, cut_inspect};

    reveal(validate_source_step);
}

pub broadcast proof fn count_ensure_directory(path: Seq<u8>, r: Seq<Reply>, at: int)
    ensures
        #[trigger] counted(ensure_directory_step(path, r, at), at),
{
    broadcast use group_counted;

    reveal(ensure_directory_step);
}

broadcast proof fn cut_ensure_directory(
    path: Seq<u8>,
    r: Seq<Reply>,
    fewer: Seq<Reply>,
    at: int,
    end: int,
)
    requires
        0 <= at <= end <= r.len(),
        fewer == r.take(end),
    ensures
        #[trigger] cut(
            ensure_directory_step(path, r, at),
            ensure_directory_step(path, fewer, at),
            at,
            end,
        ),
{
    broadcast use {group_counted, group_cut};

    reveal(ensure_directory_step);
}

pub broadcast proof fn count_clear_internal(path: Seq<u8>, r: Seq<Reply>, at: int)
    ensures
        #[trigger] counted(clear_internal_step(path, r, at), at),
{
    broadcast use group_counted;

    reveal(clear_internal_step);
    reveal(remove_internal_step);
}

broadcast proof fn cut_clear_internal(
    path: Seq<u8>,
    r: Seq<Reply>,
    fewer: Seq<Reply>,
    at: int,
    end: int,
)
    requires
        0 <= at <= end <= r.len(),
        fewer == r.take(end),
    ensures
        #[trigger] cut(
            clear_internal_step(path, r, at),
            clear_internal_step(path, fewer, at),
            at,
            end,
        ),
{
    broadcast use {group_counted, group_cut};

    reveal(clear_internal_step);
    reveal(remove_internal_step);
}

pub broadcast proof fn count_replace(path: Seq<u8>, contents: Seq<char>, r: Seq<Reply>, at: int)
    ensures
        #[trigger] counted(atomic_replace_step(path, contents, r, at), at),
{
    broadcast use {group_counted, count_clear_internal};

    reveal(atomic_replace_step);
}

broadcast proof fn cut_replace(
    path: Seq<u8>,
    contents: Seq<char>,
    r: Seq<Reply>,
    fewer: Seq<Reply>,
    at: int,
    end: int,
)
    requires
        0 <= at <= end <= r.len(),
        fewer == r.take(end),
    ensures
        #[trigger] cut(
            atomic_replace_step(path, contents, r, at),
            atomic_replace_step(path, contents, fewer, at),
            at,
            end,
        ),
{
    broadcast use {group_counted, group_cut, count_clear_internal, cut_clear_internal};

    reveal(atomic_replace_step);
}

pub broadcast proof fn count_add_name(
    from: Seq<u8>,
    to: Seq<u8>,
    refusal: Seq<char>,
    loss: Seq<char>,
    r: Seq<Reply>,
    at: int,
)
    ensures
        #[trigger] counted(add_name_step(from, to, refusal, loss, r, at), at),
{
    broadcast use group_counted;

    reveal(add_name_step);
}

broadcast proof fn cut_add_name(
    from: Seq<u8>,
    to: Seq<u8>,
    refusal: Seq<char>,
    loss: Seq<char>,
    r: Seq<Reply>,
    fewer: Seq<Reply>,
    at: int,
    end: int,
)
    requires
        0 <= at <= end <= r.len(),
        fewer == r.take(end),
    ensures
        #[trigger] cut(
            add_name_step(from, to, refusal, loss, r, at),
            add_name_step(from, to, refusal, loss, fewer, at),
            at,
            end,
        ),
{
    broadcast use {group_counted, group_cut};

    reveal(add_name_step);
}

pub broadcast proof fn count_drop_name(path: Seq<u8>, what: Seq<char>, r: Seq<Reply>, at: int)
    ensures
        #[trigger] counted(drop_name_step(path, what, r, at), at),
{
    broadcast use group_counted;

    reveal(drop_name_step);
}

broadcast proof fn cut_drop_name(
    path: Seq<u8>,
    what: Seq<char>,
    r: Seq<Reply>,
    fewer: Seq<Reply>,
    at: int,
    end: int,
)
    requires
        0 <= at <= end <= r.len(),
        fewer == r.take(end),
    ensures
        #[trigger] cut(
            drop_name_step(path, what, r, at),
            drop_name_step(path, what, fewer, at),
            at,
            end,
        ),
{
    broadcast use {group_counted, group_cut};

    reveal(drop_name_step);
}

pub broadcast proof fn count_publish_new(
    temporary: Seq<u8>,
    path: Seq<u8>,
    contents: Seq<char>,
    refusal: Seq<char>,
    leftover: Seq<char>,
    r: Seq<Reply>,
    at: int,
)
    ensures
        #[trigger] counted(
            publish_new_step(temporary, path, contents, refusal, leftover, r, at),
            at,
        ),
{
    broadcast use {group_counted, count_drop_name};

    reveal(publish_new_step);
    reveal(link_or_remove_step);
}

broadcast proof fn cut_publish_new(
    temporary: Seq<u8>,
    path: Seq<u8>,
    contents: Seq<char>,
    refusal: Seq<char>,
    leftover: Seq<char>,
    r: Seq<Reply>,
    fewer: Seq<Reply>,
    at: int,
    end: int,
)
    requires
        0 <= at <= end <= r.len(),
        fewer == r.take(end),
    ensures
        #[trigger] cut(
            publish_new_step(temporary, path, contents, refusal, leftover, r, at),
            publish_new_step(temporary, path, contents, refusal, leftover, fewer, at),
            at,
            end,
        ),
{
    broadcast use {group_counted, group_cut, count_drop_name, cut_drop_name};

    reveal(publish_new_step);
    reveal(link_or_remove_step);
}

pub broadcast proof fn count_publish_text(
    temporary: Seq<u8>,
    path: Seq<u8>,
    contents: Seq<char>,
    r: Seq<Reply>,
    at: int,
)
    ensures
        #[trigger] counted(publish_text_step(temporary, path, contents, r, at), at),
{
    broadcast use {group_counted, count_clear_internal, count_publish_new};

    reveal(publish_text_step);
}

broadcast proof fn cut_publish_text(
    temporary: Seq<u8>,
    path: Seq<u8>,
    contents: Seq<char>,
    r: Seq<Reply>,
    fewer: Seq<Reply>,
    at: int,
    end: int,
)
    requires
        0 <= at <= end <= r.len(),
        fewer == r.take(end),
    ensures
        #[trigger] cut(
            publish_text_step(temporary, path, contents, r, at),
            publish_text_step(temporary, path, contents, fewer, at),
            at,
            end,
        ),
{
    broadcast use {
        group_counted,
        group_cut,
        count_clear_internal,
        count_publish_new,
        cut_clear_internal,
        cut_publish_new,
    };

    reveal(publish_text_step);
}

pub broadcast proof fn count_hash_regular(path: Seq<u8>, r: Seq<Reply>, at: int)
    ensures
        #[trigger] counted(hash_regular_step(path, r, at), at),
{
    broadcast use group_counted;

    reveal(hash_regular_step);
    reveal(regular_file_step);
}

broadcast proof fn cut_hash_regular(
    path: Seq<u8>,
    r: Seq<Reply>,
    fewer: Seq<Reply>,
    at: int,
    end: int,
)
    requires
        0 <= at <= end <= r.len(),
        fewer == r.take(end),
    ensures
        #[trigger] cut(hash_regular_step(path, r, at), hash_regular_step(path, fewer, at), at, end),
{
    broadcast use {group_counted, group_cut};

    reveal(hash_regular_step);
    reveal(regular_file_step);
}

pub broadcast proof fn count_publish_output(
    staging: Seq<u8>,
    path: Seq<u8>,
    expected: Seq<char>,
    r: Seq<Reply>,
    at: int,
)
    ensures
        #[trigger] counted(publish_output_step(staging, path, expected, r, at), at),
{
    broadcast use {group_counted, count_hash_regular, count_drop_name};

    reveal(publish_output_step);
    reveal(discard_step);
    reveal(promote_step);
    reveal(remove_internal_step);
}

broadcast proof fn cut_publish_output(
    staging: Seq<u8>,
    path: Seq<u8>,
    expected: Seq<char>,
    r: Seq<Reply>,
    fewer: Seq<Reply>,
    at: int,
    end: int,
)
    requires
        0 <= at <= end <= r.len(),
        fewer == r.take(end),
    ensures
        #[trigger] cut(
            publish_output_step(staging, path, expected, r, at),
            publish_output_step(staging, path, expected, fewer, at),
            at,
            end,
        ),
{
    broadcast use {
        group_counted,
        group_cut,
        count_hash_regular,
        count_drop_name,
        cut_hash_regular,
        cut_drop_name,
    };

    reveal(publish_output_step);
    reveal(discard_step);
    reveal(promote_step);
    reveal(remove_internal_step);
}

pub broadcast proof fn count_same_file(left: Seq<u8>, right: Seq<u8>, r: Seq<Reply>, at: int)
    ensures
        #[trigger] counted(ensure_same_file_step(left, right, r, at), at),
{
    broadcast use group_counted;

    reveal(ensure_same_file_step);
}

broadcast proof fn cut_same_file(
    left: Seq<u8>,
    right: Seq<u8>,
    r: Seq<Reply>,
    fewer: Seq<Reply>,
    at: int,
    end: int,
)
    requires
        0 <= at <= end <= r.len(),
        fewer == r.take(end),
    ensures
        #[trigger] cut(
            ensure_same_file_step(left, right, r, at),
            ensure_same_file_step(left, right, fewer, at),
            at,
            end,
        ),
{
    broadcast use {group_counted, group_cut};

    reveal(ensure_same_file_step);
}

pub broadcast proof fn count_load_config(path: Option<Seq<u8>>, r: Seq<Reply>, at: int)
    ensures
        #[trigger] counted(load_config_step(path, r, at), at),
{
    broadcast use group_counted;

    reveal(load_config_step);
}

broadcast proof fn cut_load_config(
    path: Option<Seq<u8>>,
    r: Seq<Reply>,
    fewer: Seq<Reply>,
    at: int,
    end: int,
)
    requires
        0 <= at <= end <= r.len(),
        fewer == r.take(end),
    ensures
        #[trigger] cut(load_config_step(path, r, at), load_config_step(path, fewer, at), at, end),
{
    broadcast use {group_counted, group_cut};

    reveal(load_config_step);
}

pub broadcast proof fn count_load_plan(path: Seq<u8>, r: Seq<Reply>, at: int)
    ensures
        #[trigger] counted(load_plan_step(path, r, at), at),
{
    broadcast use group_counted;

    reveal(load_plan_step);
}

broadcast proof fn cut_load_plan(
    path: Seq<u8>,
    r: Seq<Reply>,
    fewer: Seq<Reply>,
    at: int,
    end: int,
)
    requires
        0 <= at <= end <= r.len(),
        fewer == r.take(end),
    ensures
        #[trigger] cut(load_plan_step(path, r, at), load_plan_step(path, fewer, at), at, end),
{
    broadcast use {group_counted, group_cut};

    reveal(load_plan_step);
}

pub broadcast proof fn count_load_manifest(path: Seq<u8>, r: Seq<Reply>, at: int)
    ensures
        #[trigger] counted(load_manifest_step(path, r, at), at),
{
    broadcast use group_counted;

    reveal(load_manifest_step);
    reveal(validate_manifest_step);
}

broadcast proof fn cut_load_manifest(
    path: Seq<u8>,
    r: Seq<Reply>,
    fewer: Seq<Reply>,
    at: int,
    end: int,
)
    requires
        0 <= at <= end <= r.len(),
        fewer == r.take(end),
    ensures
        #[trigger] cut(
            load_manifest_step(path, r, at),
            load_manifest_step(path, fewer, at),
            at,
            end,
        ),
{
    broadcast use {group_counted, group_cut};

    reveal(load_manifest_step);
    reveal(validate_manifest_step);
}

pub broadcast proof fn count_load_journal(path: Seq<u8>, r: Seq<Reply>, at: int)
    ensures
        #[trigger] counted(load_journal_step(path, r, at), at),
{
    broadcast use group_counted;

    reveal(load_journal_step);
}

broadcast proof fn cut_load_journal(
    path: Seq<u8>,
    r: Seq<Reply>,
    fewer: Seq<Reply>,
    at: int,
    end: int,
)
    requires
        0 <= at <= end <= r.len(),
        fewer == r.take(end),
    ensures
        #[trigger] cut(load_journal_step(path, r, at), load_journal_step(path, fewer, at), at, end),
{
    broadcast use {group_counted, group_cut};

    reveal(load_journal_step);
}

pub broadcast proof fn count_ffmpeg(
    arguments: Seq<Seq<char>>,
    what: Seq<char>,
    r: Seq<Reply>,
    at: int,
)
    ensures
        #[trigger] counted(ffmpeg_step(arguments, what, r, at), at),
{
    broadcast use group_counted;

    reveal(ffmpeg_step);
}

broadcast proof fn cut_ffmpeg(
    arguments: Seq<Seq<char>>,
    what: Seq<char>,
    r: Seq<Reply>,
    fewer: Seq<Reply>,
    at: int,
    end: int,
)
    requires
        0 <= at <= end <= r.len(),
        fewer == r.take(end),
    ensures
        #[trigger] cut(
            ffmpeg_step(arguments, what, r, at),
            ffmpeg_step(arguments, what, fewer, at),
            at,
            end,
        ),
{
    broadcast use {group_counted, group_cut};

    reveal(ffmpeg_step);
}

pub broadcast proof fn count_delete_source(source: EvidenceView, r: Seq<Reply>, at: int)
    ensures
        #[trigger] counted(delete_source_step(source, r, at), at),
{
    broadcast use {group_counted, count_validate, count_drop_name};

    reveal(delete_source_step);
}

broadcast proof fn cut_delete_source(
    source: EvidenceView,
    r: Seq<Reply>,
    fewer: Seq<Reply>,
    at: int,
    end: int,
)
    requires
        0 <= at <= end <= r.len(),
        fewer == r.take(end),
    ensures
        #[trigger] cut(
            delete_source_step(source, r, at),
            delete_source_step(source, fewer, at),
            at,
            end,
        ),
{
    broadcast use {
        group_counted,
        group_cut,
        count_validate,
        count_drop_name,
        cut_validate,
        cut_drop_name,
    };

    reveal(delete_source_step);
}

pub broadcast proof fn count_quarantine_link(
    plan: PlanView,
    journal: JournalView,
    r: Seq<Reply>,
    at: int,
)
    ensures
        #[trigger] counted(quarantine_link_step(plan, journal, r, at), at),
{
    broadcast use {
        group_counted,
        count_ensure_directory,
        count_same_file,
        count_validate,
        count_add_name,
    };

    reveal(quarantine_link_step);
    reveal(quarantine_directories_step);
    reveal(link_if_needed_step);
    reveal(link_step);
}

broadcast proof fn cut_quarantine_link(
    plan: PlanView,
    journal: JournalView,
    r: Seq<Reply>,
    fewer: Seq<Reply>,
    at: int,
    end: int,
)
    requires
        0 <= at <= end <= r.len(),
        fewer == r.take(end),
    ensures
        #[trigger] cut(
            quarantine_link_step(plan, journal, r, at),
            quarantine_link_step(plan, journal, fewer, at),
            at,
            end,
        ),
{
    broadcast use {
        group_counted,
        group_cut,
        count_ensure_directory,
        count_same_file,
        count_validate,
        count_add_name,
        cut_ensure_directory,
        cut_same_file,
        cut_validate,
        cut_add_name,
    };

    reveal(quarantine_link_step);
    reveal(quarantine_directories_step);
    reveal(link_if_needed_step);
    reveal(link_step);
}

pub broadcast proof fn count_finish_quarantine(
    plan: PlanView,
    journal: JournalView,
    r: Seq<Reply>,
    at: int,
)
    ensures
        #[trigger] counted(finish_quarantine_step(plan, journal, r, at), at),
{
    broadcast use {group_counted, count_same_file, count_drop_name};

    reveal(finish_quarantine_step);
}

broadcast proof fn cut_finish_quarantine(
    plan: PlanView,
    journal: JournalView,
    r: Seq<Reply>,
    fewer: Seq<Reply>,
    at: int,
    end: int,
)
    requires
        0 <= at <= end <= r.len(),
        fewer == r.take(end),
    ensures
        #[trigger] cut(
            finish_quarantine_step(plan, journal, r, at),
            finish_quarantine_step(plan, journal, fewer, at),
            at,
            end,
        ),
{
    broadcast use {
        group_counted,
        group_cut,
        count_same_file,
        count_drop_name,
        cut_same_file,
        cut_drop_name,
    };

    reveal(finish_quarantine_step);
}

pub broadcast proof fn count_restore(manifest: ManifestView, r: Seq<Reply>, at: int)
    ensures
        #[trigger] counted(restore_step(manifest, r, at), at),
{
    broadcast use {
        group_counted,
        count_hash_regular,
        count_same_file,
        count_add_name,
        count_drop_name,
    };

    reveal(restore_step);
    reveal(check_quarantine_step);
    reveal(restore_by_presence_step);
}

broadcast proof fn cut_restore(
    manifest: ManifestView,
    r: Seq<Reply>,
    fewer: Seq<Reply>,
    at: int,
    end: int,
)
    requires
        0 <= at <= end <= r.len(),
        fewer == r.take(end),
    ensures
        #[trigger] cut(restore_step(manifest, r, at), restore_step(manifest, fewer, at), at, end),
{
    broadcast use {
        group_counted,
        group_cut,
        count_hash_regular,
        count_same_file,
        count_add_name,
        count_drop_name,
        cut_hash_regular,
        cut_same_file,
        cut_add_name,
        cut_drop_name,
    };

    reveal(restore_step);
    reveal(check_quarantine_step);
    reveal(restore_by_presence_step);
}

pub broadcast proof fn count_verify_manifest(manifest: ManifestView, r: Seq<Reply>, at: int)
    ensures
        #[trigger] counted(verify_manifest_step(manifest, r, at), at),
{
    broadcast use {group_counted, count_inspect, count_ffmpeg};

    reveal(verify_manifest_step);
}

broadcast proof fn cut_verify_manifest(
    manifest: ManifestView,
    r: Seq<Reply>,
    fewer: Seq<Reply>,
    at: int,
    end: int,
)
    requires
        0 <= at <= end <= r.len(),
        fewer == r.take(end),
    ensures
        #[trigger] cut(
            verify_manifest_step(manifest, r, at),
            verify_manifest_step(manifest, fewer, at),
            at,
            end,
        ),
{
    broadcast use {
        group_counted,
        group_cut,
        count_inspect,
        count_ffmpeg,
        cut_inspect,
        cut_ffmpeg,
    };

    reveal(verify_manifest_step);
}

pub broadcast proof fn count_enter(t: TransactionView, journal: JournalView, r: Seq<Reply>, at: int)
    ensures
        #[trigger] counted(enter_step(t, journal, r, at), at),
{
    broadcast use {group_counted, count_replace};

    reveal(enter_step);
}

broadcast proof fn cut_enter(
    t: TransactionView,
    journal: JournalView,
    r: Seq<Reply>,
    fewer: Seq<Reply>,
    at: int,
    end: int,
)
    requires
        0 <= at <= end <= r.len(),
        fewer == r.take(end),
    ensures
        #[trigger] cut(enter_step(t, journal, r, at), enter_step(t, journal, fewer, at), at, end),
{
    broadcast use {group_counted, group_cut, count_replace, cut_replace};

    reveal(enter_step);
}

pub broadcast proof fn count_prepared(
    t: TransactionView,
    journal: JournalView,
    r: Seq<Reply>,
    at: int,
)
    ensures
        #[trigger] counted(prepared_step(t, journal, r, at), at),
{
    broadcast use {
        group_counted,
        count_validate,
        count_clear_internal,
        count_ffmpeg,
        count_inspect,
        count_replace,
        count_enter,
    };

    reveal(prepared_step);
    reveal(av1_stage_step);
}

broadcast proof fn cut_prepared(
    t: TransactionView,
    journal: JournalView,
    r: Seq<Reply>,
    fewer: Seq<Reply>,
    at: int,
    end: int,
)
    requires
        0 <= at <= end <= r.len(),
        fewer == r.take(end),
    ensures
        #[trigger] cut(
            prepared_step(t, journal, r, at),
            prepared_step(t, journal, fewer, at),
            at,
            end,
        ),
{
    broadcast use {
        group_counted,
        group_cut,
        count_validate,
        count_clear_internal,
        count_ffmpeg,
        count_inspect,
        count_replace,
        count_enter,
        cut_validate,
        cut_clear_internal,
        cut_ffmpeg,
        cut_inspect,
        cut_replace,
        cut_enter,
    };

    reveal(prepared_step);
    reveal(av1_stage_step);
}

pub broadcast proof fn count_staged(
    t: TransactionView,
    journal: JournalView,
    r: Seq<Reply>,
    at: int,
)
    ensures
        #[trigger] counted(staged_step(t, journal, r, at), at),
{
    broadcast use {group_counted, count_publish_output, count_enter};

    reveal(staged_step);
}

broadcast proof fn cut_staged(
    t: TransactionView,
    journal: JournalView,
    r: Seq<Reply>,
    fewer: Seq<Reply>,
    at: int,
    end: int,
)
    requires
        0 <= at <= end <= r.len(),
        fewer == r.take(end),
    ensures
        #[trigger] cut(staged_step(t, journal, r, at), staged_step(t, journal, fewer, at), at, end),
{
    broadcast use {
        group_counted,
        group_cut,
        count_publish_output,
        count_enter,
        cut_publish_output,
        cut_enter,
    };

    reveal(staged_step);
}

pub broadcast proof fn count_published(
    t: TransactionView,
    journal: JournalView,
    r: Seq<Reply>,
    at: int,
)
    ensures
        #[trigger] counted(published_step(t, journal, r, at), at),
{
    broadcast use {group_counted, count_inspect, count_ffmpeg, count_replace, count_enter};

    reveal(published_step);
    reveal(verification_step);
}

broadcast proof fn cut_published(
    t: TransactionView,
    journal: JournalView,
    r: Seq<Reply>,
    fewer: Seq<Reply>,
    at: int,
    end: int,
)
    requires
        0 <= at <= end <= r.len(),
        fewer == r.take(end),
    ensures
        #[trigger] cut(
            published_step(t, journal, r, at),
            published_step(t, journal, fewer, at),
            at,
            end,
        ),
{
    broadcast use {
        group_counted,
        group_cut,
        count_inspect,
        count_ffmpeg,
        count_replace,
        count_enter,
        cut_inspect,
        cut_ffmpeg,
        cut_replace,
        cut_enter,
    };

    reveal(published_step);
    reveal(verification_step);
}

pub broadcast proof fn count_verified(
    t: TransactionView,
    journal: JournalView,
    r: Seq<Reply>,
    at: int,
)
    ensures
        #[trigger] counted(verified_step(t, journal, r, at), at),
{
    broadcast use {group_counted, count_load_manifest, count_publish_text, count_enter};

    reveal(verified_step);
    reveal(publish_manifest_step);
}

broadcast proof fn cut_verified(
    t: TransactionView,
    journal: JournalView,
    r: Seq<Reply>,
    fewer: Seq<Reply>,
    at: int,
    end: int,
)
    requires
        0 <= at <= end <= r.len(),
        fewer == r.take(end),
    ensures
        #[trigger] cut(
            verified_step(t, journal, r, at),
            verified_step(t, journal, fewer, at),
            at,
            end,
        ),
{
    broadcast use {
        group_counted,
        group_cut,
        count_load_manifest,
        count_publish_text,
        count_enter,
        cut_load_manifest,
        cut_publish_text,
        cut_enter,
    };

    reveal(verified_step);
    reveal(publish_manifest_step);
}

pub broadcast proof fn count_manifested(
    t: TransactionView,
    journal: JournalView,
    r: Seq<Reply>,
    at: int,
)
    ensures
        #[trigger] counted(manifested_step(t, journal, r, at), at),
{
    broadcast use {group_counted, count_delete_source, count_quarantine_link, count_enter};

    reveal(manifested_step);
}

broadcast proof fn cut_manifested(
    t: TransactionView,
    journal: JournalView,
    r: Seq<Reply>,
    fewer: Seq<Reply>,
    at: int,
    end: int,
)
    requires
        0 <= at <= end <= r.len(),
        fewer == r.take(end),
    ensures
        #[trigger] cut(
            manifested_step(t, journal, r, at),
            manifested_step(t, journal, fewer, at),
            at,
            end,
        ),
{
    broadcast use {
        group_counted,
        group_cut,
        count_delete_source,
        count_quarantine_link,
        count_enter,
        cut_delete_source,
        cut_quarantine_link,
        cut_enter,
    };

    reveal(manifested_step);
}

pub broadcast proof fn count_linked(
    t: TransactionView,
    journal: JournalView,
    r: Seq<Reply>,
    at: int,
)
    ensures
        #[trigger] counted(linked_step(t, journal, r, at), at),
{
    broadcast use {group_counted, count_finish_quarantine, count_enter};

    reveal(linked_step);
}

broadcast proof fn cut_linked(
    t: TransactionView,
    journal: JournalView,
    r: Seq<Reply>,
    fewer: Seq<Reply>,
    at: int,
    end: int,
)
    requires
        0 <= at <= end <= r.len(),
        fewer == r.take(end),
    ensures
        #[trigger] cut(linked_step(t, journal, r, at), linked_step(t, journal, fewer, at), at, end),
{
    broadcast use {
        group_counted,
        group_cut,
        count_finish_quarantine,
        count_enter,
        cut_finish_quarantine,
        cut_enter,
    };

    reveal(linked_step);
}

pub broadcast proof fn count_archive(
    t: TransactionView,
    journal: JournalView,
    r: Seq<Reply>,
    at: int,
)
    ensures
        #[trigger] counted(archive_step(t, journal, r, at), at),
{
    broadcast use {
        group_counted,
        count_prepared,
        count_staged,
        count_published,
        count_verified,
    };

    reveal(archive_step);
}

broadcast proof fn cut_archive(
    t: TransactionView,
    journal: JournalView,
    r: Seq<Reply>,
    fewer: Seq<Reply>,
    at: int,
    end: int,
)
    requires
        0 <= at <= end <= r.len(),
        fewer == r.take(end),
    ensures
        #[trigger] cut(
            archive_step(t, journal, r, at),
            archive_step(t, journal, fewer, at),
            at,
            end,
        ),
{
    broadcast use {
        group_counted,
        group_cut,
        count_prepared,
        count_staged,
        count_published,
        count_verified,
        cut_prepared,
        cut_staged,
        cut_published,
        cut_verified,
    };

    reveal(archive_step);
}

pub broadcast proof fn count_open_journal(t: TransactionView, r: Seq<Reply>, at: int)
    ensures
        #[trigger] counted(open_journal_step(t, r, at), at),
{
    broadcast use {group_counted, count_load_journal, count_enter};

    reveal(open_journal_step);
}

broadcast proof fn cut_open_journal(
    t: TransactionView,
    r: Seq<Reply>,
    fewer: Seq<Reply>,
    at: int,
    end: int,
)
    requires
        0 <= at <= end <= r.len(),
        fewer == r.take(end),
    ensures
        #[trigger] cut(open_journal_step(t, r, at), open_journal_step(t, fewer, at), at, end),
{
    broadcast use {
        group_counted,
        group_cut,
        count_load_journal,
        count_enter,
        cut_load_journal,
        cut_enter,
    };

    reveal(open_journal_step);
}

pub broadcast proof fn count_carry_on(
    t: TransactionView,
    journal: JournalView,
    r: Seq<Reply>,
    at: int,
)
    ensures
        #[trigger] counted(carry_on_step(t, journal, r, at), at),
{
    broadcast use {group_counted, count_archive, count_manifested, count_linked};

    reveal(carry_on_step);
    reveal(dispose_step);
}

broadcast proof fn cut_carry_on(
    t: TransactionView,
    journal: JournalView,
    r: Seq<Reply>,
    fewer: Seq<Reply>,
    at: int,
    end: int,
)
    requires
        0 <= at <= end <= r.len(),
        fewer == r.take(end),
    ensures
        #[trigger] cut(
            carry_on_step(t, journal, r, at),
            carry_on_step(t, journal, fewer, at),
            at,
            end,
        ),
{
    broadcast use {
        group_counted,
        group_cut,
        count_archive,
        count_manifested,
        count_linked,
        cut_archive,
        cut_manifested,
        cut_linked,
    };

    reveal(carry_on_step);
    reveal(dispose_step);
}

pub broadcast proof fn count_execute(plan: PlanView, version: Seq<char>, r: Seq<Reply>, at: int)
    ensures
        #[trigger] counted(execute_step(plan, version, r, at), at),
{
    broadcast use {group_counted, count_ensure_directory, count_open_journal, count_carry_on};

    reveal(execute_step);
}

broadcast proof fn cut_execute(
    plan: PlanView,
    version: Seq<char>,
    r: Seq<Reply>,
    fewer: Seq<Reply>,
    at: int,
    end: int,
)
    requires
        0 <= at <= end <= r.len(),
        fewer == r.take(end),
    ensures
        #[trigger] cut(
            execute_step(plan, version, r, at),
            execute_step(plan, version, fewer, at),
            at,
            end,
        ),
{
    broadcast use {
        group_counted,
        group_cut,
        count_ensure_directory,
        count_open_journal,
        count_carry_on,
        cut_ensure_directory,
        cut_open_journal,
        cut_carry_on,
    };

    reveal(execute_step);
}

pub broadcast proof fn count_apply(path: Seq<u8>, version: Seq<char>, r: Seq<Reply>, at: int)
    ensures
        #[trigger] counted(apply_step(path, version, r, at), at),
{
    broadcast use {group_counted, count_load_plan, count_execute};

    reveal(apply_step);
}

broadcast proof fn cut_apply(
    path: Seq<u8>,
    version: Seq<char>,
    r: Seq<Reply>,
    fewer: Seq<Reply>,
    at: int,
    end: int,
)
    requires
        0 <= at <= end <= r.len(),
        fewer == r.take(end),
    ensures
        #[trigger] cut(
            apply_step(path, version, r, at),
            apply_step(path, version, fewer, at),
            at,
            end,
        ),
{
    broadcast use {
        group_counted,
        group_cut,
        count_load_plan,
        count_execute,
        cut_load_plan,
        cut_execute,
    };

    reveal(apply_step);
}

pub broadcast proof fn count_final_destination(path: Seq<u8>, r: Seq<Reply>, at: int)
    ensures
        #[trigger] counted(final_destination_step(path, r, at), at),
{
    broadcast use group_counted;

    reveal(final_destination_step);
}

broadcast proof fn cut_final_destination(
    path: Seq<u8>,
    r: Seq<Reply>,
    fewer: Seq<Reply>,
    at: int,
    end: int,
)
    requires
        0 <= at <= end <= r.len(),
        fewer == r.take(end),
    ensures
        #[trigger] cut(
            final_destination_step(path, r, at),
            final_destination_step(path, fewer, at),
            at,
            end,
        ),
{
    broadcast use {group_counted, group_cut};

    reveal(final_destination_step);
}

pub broadcast proof fn count_make_plan(
    source: Seq<u8>,
    destination: Seq<u8>,
    profile: Profile,
    config: ConfigView,
    version: Seq<char>,
    r: Seq<Reply>,
    at: int,
)
    ensures
        #[trigger] counted(
            make_plan_step(source, destination, profile, config, version, r, at),
            at,
        ),
{
    broadcast use {group_counted, count_inspect, count_final_destination};

    reveal(make_plan_step);
}

broadcast proof fn cut_make_plan(
    source: Seq<u8>,
    destination: Seq<u8>,
    profile: Profile,
    config: ConfigView,
    version: Seq<char>,
    r: Seq<Reply>,
    fewer: Seq<Reply>,
    at: int,
    end: int,
)
    requires
        0 <= at <= end <= r.len(),
        fewer == r.take(end),
    ensures
        #[trigger] cut(
            make_plan_step(source, destination, profile, config, version, r, at),
            make_plan_step(source, destination, profile, config, version, fewer, at),
            at,
            end,
        ),
{
    broadcast use {
        group_counted,
        group_cut,
        count_inspect,
        count_final_destination,
        cut_inspect,
        cut_final_destination,
    };

    reveal(make_plan_step);
}

pub broadcast proof fn count_run_inspect(
    source: Seq<u8>,
    report: Option<Seq<u8>>,
    session: SessionView,
    r: Seq<Reply>,
    at: int,
)
    ensures
        #[trigger] counted(run_inspect_step(source, report, session, r, at), at),
{
    broadcast use {group_counted, count_inspect, count_publish_new};

    reveal(run_inspect_step);
}

broadcast proof fn cut_run_inspect(
    source: Seq<u8>,
    report: Option<Seq<u8>>,
    session: SessionView,
    r: Seq<Reply>,
    fewer: Seq<Reply>,
    at: int,
    end: int,
)
    requires
        0 <= at <= end <= r.len(),
        fewer == r.take(end),
    ensures
        #[trigger] cut(
            run_inspect_step(source, report, session, r, at),
            run_inspect_step(source, report, session, fewer, at),
            at,
            end,
        ),
{
    broadcast use {
        group_counted,
        group_cut,
        count_inspect,
        count_publish_new,
        cut_inspect,
        cut_publish_new,
    };

    reveal(run_inspect_step);
}

pub broadcast proof fn count_run_plan(
    source: Seq<u8>,
    destination: Seq<u8>,
    profile: Option<Profile>,
    config: Option<Seq<u8>>,
    output: Seq<u8>,
    session: SessionView,
    r: Seq<Reply>,
    at: int,
)
    ensures
        #[trigger] counted(
            run_plan_step(source, destination, profile, config, output, session, r, at),
            at,
        ),
{
    broadcast use {group_counted, count_load_config, count_make_plan, count_publish_new};

    reveal(run_plan_step);
}

broadcast proof fn cut_run_plan(
    source: Seq<u8>,
    destination: Seq<u8>,
    profile: Option<Profile>,
    config: Option<Seq<u8>>,
    output: Seq<u8>,
    session: SessionView,
    r: Seq<Reply>,
    fewer: Seq<Reply>,
    at: int,
    end: int,
)
    requires
        0 <= at <= end <= r.len(),
        fewer == r.take(end),
    ensures
        #[trigger] cut(
            run_plan_step(source, destination, profile, config, output, session, r, at),
            run_plan_step(source, destination, profile, config, output, session, fewer, at),
            at,
            end,
        ),
{
    broadcast use {
        group_counted,
        group_cut,
        count_load_config,
        count_make_plan,
        count_publish_new,
        cut_load_config,
        cut_make_plan,
        cut_publish_new,
    };

    reveal(run_plan_step);
}

pub broadcast proof fn count_run(command: CommandView, session: SessionView, r: Seq<Reply>, at: int)
    ensures
        #[trigger] counted(run_step(command, session, r, at), at),
{
    broadcast use {
        group_counted,
        count_run_inspect,
        count_run_plan,
        count_apply,
        count_load_manifest,
        count_verify_manifest,
        count_restore,
    };

}

/// A command run again with fewer replies comes to the same place where those
/// were all it used, and else asks for what it asked for at that point.
pub proof fn law_replay_is_faithful(
    command: CommandView,
    session: SessionView,
    r: Seq<Reply>,
    end: int,
)
    requires
        0 <= end <= r.len(),
    ensures
        ({
            let whole = run_step(command, session, r, 0);
            let part = run_step(command, session, r.take(end), 0);
            &&& whole.at == whole.asked.len()
            &&& whole.at <= end ==> part == whole
            &&& whole.at > end ==> part.outcome == Outcome::<Option<Seq<char>>>::Ask(
                whole.asked[end],
            ) && part.asked == whole.asked.take(end)
        }),
{
    broadcast use {
        group_counted,
        group_cut,
        count_run_inspect,
        count_run_plan,
        count_apply,
        count_load_manifest,
        count_verify_manifest,
        count_restore,
        cut_run_inspect,
        cut_run_plan,
        cut_apply,
        cut_load_manifest,
        cut_verify_manifest,
        cut_restore,
    };

    reveal(cut);
    reveal(counted);
    let fewer = r.take(end);
    count_run(command, session, r, 0);
    assert(cut(run_step(command, session, r, 0), run_step(command, session, fewer, 0), 0, end));
}

} // verus!
