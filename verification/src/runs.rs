//! What holds over several runs of one plan, each of which takes up the journal
//! that was left before it.
use vstd::prelude::*;

use crate::apply::{
    apply_step, archive_step, carry_on_step, dispose_step, enter_step, execute_step,
    journal_place, journaled, linked_step, manifest_staging_place, manifested_journal,
    manifested_step, open_journal_step, prepared_step, publish_manifest_step, published_step,
    staged_step, transaction_directory, transactions_root, verification_step, verified_journal,
    verified_step, with_diagnostic, TransactionView,
};
use crate::compare::output_check;
use crate::disposal::{delete_source_step, finish_quarantine_step, verify_manifest_step};
use crate::flow::{chain, done, fail, Outcome, Reply, RequestView, Step};
use crate::inspect::{inspect_step, regular_file_step};
use crate::keeping::{
    leave_clear_internal, leave_drop_name, leave_encode, leave_ensure_directory, leave_inspect,
    leave_load_manifest, leave_publish_output, leave_publish_text, leave_quarantine_link,
    leave_replace, leave_same_file, leave_validate, leaving, scratch,
};
use crate::lifetime::{
    begin_step, count_publish_manifest, lemma_absent, lemma_archived_phase, lemma_history_splits,
    lemma_inspected_digest, lemma_journal_is_no_directory, lemma_left,
    lemma_manifest_published, lemma_run, same_media, transaction_of,
};
use crate::load::{load_journal_step, load_plan_step};
use crate::model::{EvidenceView, JournalView, Phase, PlanView, SourceDisposition};
use crate::os_text::{law_texts_have_bytes_of_their_own, raw};
use crate::path::parent;
use crate::plan::{fresh_journal, manifest_of, plan_check, quarantine_text};
use crate::render::journal_text;
use crate::replay::{
    count_archive, count_clear_internal, count_delete_source, count_ensure_directory,
    count_ffmpeg, count_finish_quarantine, count_inspect, count_manifested, count_prepared,
    count_publish_output, count_published, count_quarantine_link, count_replace, count_staged,
    count_validate,
};
use crate::safety::{spare_ensure_directory, sparing};
use crate::storage::{
    atomic_replace_step, clear_internal_step, ensure_directory_step,
    law_replacement_is_prepared_elsewhere, remove_internal_step, replacement_place, text_name,
    write_journal_step,
};
use crate::tool::{av1_stage_step, decode_step};
use crate::trace::{counted, every, group_counted, group_every};
use crate::world::{history, kept, moves, World};

verus! {

/// The journal of a plan's transaction.
pub open spec fn journal_of(plan: PlanView) -> Seq<u8> {
    raw(journal_place(transaction_directory(parent(plan.destination_path)->0, plan)))
}

/// What runs have shown of outputs: which were compared with the source and decoded
/// in full, and for which a manifest was published after that.
pub struct Shown {
    pub verified: spec_fn(EvidenceView) -> bool,
    pub published: spec_fn(EvidenceView) -> bool,
}

/// Whether a journal says no more than was shown and than stands.
pub open spec fn earned(plan: PlanView, shown: Shown, journal: JournalView, world: World) -> bool {
    &&& journal.phase.rank() >= Phase::Verified.rank() ==> {
        &&& journal.output is Some
        &&& (shown.verified)(journal.output->0)
        &&& world.has(raw(plan.destination_path))
        &&& world.digest(raw(plan.destination_path)) == journal.output->0.sha256
    }
    &&& journal.phase.rank() >= Phase::Manifested.rank() ==> {
        &&& (shown.published)(journal.output->0)
        &&& world.has(raw(plan.manifest_path))
    }
    &&& journal.phase == Phase::QuarantineLinked ==> plan.source_disposition
        == SourceDisposition::Quarantine
}

/// Whether a journal is in force, says no more than was shown and than stands, and
/// the source is there unless its disposal is due.
pub open spec fn in_force(plan: PlanView, shown: Shown, journal: JournalView, world: World) -> bool {
    &&& world.has(journal_of(plan))
    &&& world.text(journal_of(plan)) == journal_text(journal)
    &&& earned(plan, shown, journal, world)
    &&& raw(plan.manifest_path) != raw(plan.source.path)
    &&& !world.has(raw(plan.source.path)) ==> {
        &&& journal.phase.rank() >= Phase::Manifested.rank()
        &&& plan.source_disposition != SourceDisposition::Preserve
    }
}

/// Whether a transaction is in order: it has not begun and the source is there, or a
/// journal is in force.
pub open spec fn in_order(plan: PlanView, shown: Shown, world: World) -> bool {
    ||| !world.has(journal_of(plan)) && world.has(raw(plan.source.path))
    ||| exists|journal: JournalView| #[trigger] in_force(plan, shown, journal, world)
}

/// Whether a journal is in force that says that its transaction is complete.
pub open spec fn complete(plan: PlanView, shown: Shown, world: World) -> bool {
    exists|journal: JournalView| #[trigger]
        in_force(plan, shown, journal, world) && journal.phase == Phase::Complete
}

/// What is known of a world besides its journal: the digest of what stands at the
/// destination, and whether the manifest stands.
struct Known {
    digest: Option<Seq<char>>,
    manifest: bool,
}

spec fn nothing_known() -> Known {
    Known { digest: None, manifest: false }
}

spec fn holds(plan: PlanView, known: Known, world: World) -> bool {
    &&& known.digest matches Some(digest) ==> world.has(raw(plan.destination_path))
        && world.digest(raw(plan.destination_path)) == digest
    &&& known.manifest ==> world.has(raw(plan.manifest_path))
}

/// Whether no path that a transaction archives from or to is one that it clears.
pub open spec fn apart(plan: PlanView) -> bool {
    let t = transaction_of(plan, Seq::empty());
    &&& !scratch(t, raw(plan.source.path))
    &&& !scratch(t, raw(plan.destination_path))
    &&& !scratch(t, raw(plan.manifest_path))
}

/// Whether work leaves a journal in force where it is, wherever it stops.
#[verifier::opaque]
spec fn keeps<T>(
    step: Step<T>,
    r: Seq<Reply>,
    at: int,
    plan: PlanView,
    shown: Shown,
    journal: JournalView,
    known: Known,
) -> bool {
    forall|worlds: Seq<World>|
        #[trigger] history(worlds, step.asked, r, at) && in_force(plan, shown, journal, worlds[0])
            && holds(plan, known, worlds[0]) ==> {
            &&& in_order(plan, shown, worlds.last())
            &&& step.outcome is Done ==> in_force(plan, shown, journal, worlds.last()) && holds(
                plan,
                known,
                worlds.last(),
            )
        }
}

/// Whether work that starts with a journal in force leaves a transaction in order,
/// wherever it stops, and ends with the journal it gives in force.
#[verifier::opaque]
spec fn lands(
    step: Step<JournalView>,
    r: Seq<Reply>,
    at: int,
    plan: PlanView,
    shown: Shown,
    journal: JournalView,
    known: Known,
) -> bool {
    forall|worlds: Seq<World>|
        #[trigger] history(worlds, step.asked, r, at) && in_force(plan, shown, journal, worlds[0])
            && holds(plan, known, worlds[0]) ==> {
            &&& in_order(plan, shown, worlds.last())
            &&& step.outcome matches Outcome::Done(after) ==> in_force(
                plan,
                shown,
                after,
                worlds.last(),
            )
        }
}

broadcast proof fn land_chain<T>(
    first: Step<T>,
    next: spec_fn(T, int) -> Step<JournalView>,
    r: Seq<Reply>,
    at: int,
    plan: PlanView,
    shown: Shown,
    journal: JournalView,
    known: Known,
)
    requires
        counted(first, at),
        keeps(first, r, at, plan, shown, journal, known),
        first.outcome matches Outcome::Done(value) ==> lands(
            next(value, first.at),
            r,
            first.at,
            plan,
            shown,
            journal,
            known,
        ),
    ensures
        #[trigger] lands(chain(first, next), r, at, plan, shown, journal, known),
{
    lemma_land_told(first, next, r, at, plan, shown, journal, known, known);
}

/// One piece of work after another, where the first shows more of the world.
proof fn lemma_land_told<T>(
    first: Step<T>,
    next: spec_fn(T, int) -> Step<JournalView>,
    r: Seq<Reply>,
    at: int,
    plan: PlanView,
    shown: Shown,
    journal: JournalView,
    known: Known,
    more: Known,
)
    requires
        counted(first, at),
        keeps(first, r, at, plan, shown, journal, known),
        first.outcome matches Outcome::Done(value) ==> lands(
            next(value, first.at),
            r,
            first.at,
            plan,
            shown,
            journal,
            more,
        ),
        first.outcome is Done && more != known ==> forall|worlds: Seq<World>| #[trigger]
            history(worlds, first.asked, r, at) ==> holds(plan, more, worlds.last()),
    ensures
        lands(chain(first, next), r, at, plan, shown, journal, known),
{
    reveal(keeps);
    reveal(lands);
    reveal(counted);
    let step = chain(first, next);
    assert forall|worlds: Seq<World>|
        #[trigger] history(worlds, step.asked, r, at) && in_force(plan, shown, journal, worlds[0])
            && holds(plan, known, worlds[0]) implies {
        &&& in_order(plan, shown, worlds.last())
        &&& step.outcome matches Outcome::Done(after) ==> in_force(
            plan,
            shown,
            after,
            worlds.last(),
        )
    } by {
        if let Outcome::Done(value) = first.outcome {
            lemma_history_splits(worlds, first.asked, next(value, first.at).asked, r, at);
        } else {
            assert(step.asked =~= first.asked);
        }
    }
}

/// One phase after another.
proof fn lemma_land_on(
    first: Step<JournalView>,
    next: spec_fn(JournalView, int) -> Step<JournalView>,
    r: Seq<Reply>,
    at: int,
    plan: PlanView,
    shown: Shown,
    journal: JournalView,
)
    requires
        counted(first, at),
        lands(first, r, at, plan, shown, journal, nothing_known()),
        first.outcome matches Outcome::Done(after) ==> lands(
            next(after, first.at),
            r,
            first.at,
            plan,
            shown,
            after,
            nothing_known(),
        ),
    ensures
        lands(chain(first, next), r, at, plan, shown, journal, nothing_known()),
{
    reveal(lands);
    reveal(counted);
    let step = chain(first, next);
    assert forall|worlds: Seq<World>|
        #[trigger] history(worlds, step.asked, r, at) && in_force(
            plan,
            shown,
            journal,
            worlds[0],
        ) implies {
        &&& in_order(plan, shown, worlds.last())
        &&& step.outcome matches Outcome::Done(after) ==> in_force(
            plan,
            shown,
            after,
            worlds.last(),
        )
    } by {
        if let Outcome::Done(after) = first.outcome {
            lemma_history_splits(worlds, first.asked, next(after, first.at).asked, r, at);
        } else {
            assert(step.asked =~= first.asked);
        }
    }
}

broadcast proof fn land_fail(
    message: Seq<char>,
    p: int,
    r: Seq<Reply>,
    at: int,
    plan: PlanView,
    shown: Shown,
    journal: JournalView,
    known: Known,
)
    ensures
        #[trigger] lands(fail(message, p), r, at, plan, shown, journal, known),
{
    reveal(lands);
}

broadcast proof fn land_done(
    p: int,
    r: Seq<Reply>,
    at: int,
    plan: PlanView,
    shown: Shown,
    journal: JournalView,
    known: Known,
)
    ensures
        #[trigger] lands(done(journal, p), r, at, plan, shown, journal, known),
{
    reveal(lands);
}

/// Whether a workflow leaves what a transaction archives from and to, and its
/// journal, where it is; the source only as long as its disposal is not due.
spec fn gentle<T>(step: Step<T>, plan: PlanView, journal: JournalView) -> bool {
    &&& every(step, leaving(journal_of(plan)))
    &&& every(step, leaving(raw(plan.destination_path)))
    &&& every(step, leaving(raw(plan.manifest_path)))
    &&& {
        ||| every(step, leaving(raw(plan.source.path)))
        ||| journal.phase.rank() >= Phase::Manifested.rank() && plan.source_disposition
            != SourceDisposition::Preserve
    }
}

/// Gentle work leaves a journal in force.
proof fn lemma_gentle<T>(
    step: Step<T>,
    r: Seq<Reply>,
    at: int,
    plan: PlanView,
    shown: Shown,
    journal: JournalView,
    known: Known,
    worlds: Seq<World>,
)
    requires
        gentle(step, plan, journal),
        history(worlds, step.asked, r, at),
        in_force(plan, shown, journal, worlds[0]),
        holds(plan, known, worlds[0]),
    ensures
        in_force(plan, shown, journal, worlds.last()),
        holds(plan, known, worlds.last()),
{
    lemma_left(step, r, at, worlds, journal_of(plan));
    if worlds[0].has(raw(plan.destination_path)) {
        lemma_left(step, r, at, worlds, raw(plan.destination_path));
    }
    if worlds[0].has(raw(plan.manifest_path)) {
        lemma_left(step, r, at, worlds, raw(plan.manifest_path));
    }
    if worlds[0].has(raw(plan.source.path)) && every(step, leaving(raw(plan.source.path))) {
        lemma_left(step, r, at, worlds, raw(plan.source.path));
    }
}

broadcast proof fn keep_gentle<T>(
    step: Step<T>,
    r: Seq<Reply>,
    at: int,
    plan: PlanView,
    shown: Shown,
    journal: JournalView,
    known: Known,
)
    requires
        gentle(step, plan, journal),
    ensures
        #[trigger] keeps(step, r, at, plan, shown, journal, known),
{
    reveal(keeps);
    assert forall|worlds: Seq<World>|
        #[trigger] history(worlds, step.asked, r, at) && in_force(plan, shown, journal, worlds[0])
            && holds(plan, known, worlds[0]) implies {
        &&& in_order(plan, shown, worlds.last())
        &&& step.outcome is Done ==> in_force(plan, shown, journal, worlds.last()) && holds(
            plan,
            known,
            worlds.last(),
        )
    } by {
        lemma_gentle(step, r, at, plan, shown, journal, known, worlds);
    }
}

/// What a replacement of a file's contents shows: the new contents stand, or what
/// stood there before, if anything did.
pub(crate) proof fn lemma_replaced(
    path: Seq<u8>,
    contents: Seq<char>,
    r: Seq<Reply>,
    at: int,
    worlds: Seq<World>,
)
    requires
        history(worlds, atomic_replace_step(path, contents, r, at).asked, r, at),
    ensures
        ({
            let last = worlds.last();
            let replaced = last.has(path) && last.text(path) == contents;
            let before = if worlds[0].has(path) {
                kept(worlds[0], last, path)
            } else {
                !last.has(path)
            };
            &&& replaced || before
            &&& atomic_replace_step(path, contents, r, at).outcome is Done ==> replaced
        }),
{
    let step = atomic_replace_step(path, contents, r, at);
    reveal(atomic_replace_step);
    if let Some(name) = text_name(path) {
        let temporary = replacement_place(path, name);
        law_replacement_is_prepared_elsewhere(path);
        let clear = clear_internal_step(temporary, r, at);
        count_clear_internal(temporary, r, at);
        reveal(counted);
        let rest = step.asked.skip(clear.asked.len() as int);
        assert(step.asked =~= clear.asked + rest);
        lemma_history_splits(worlds, clear.asked, rest, r, at);
        let early = worlds.take(clear.asked.len() as int + 1);
        let late = worlds.skip(clear.asked.len() as int);
        leave_clear_internal(temporary, r, at, path);
        assert(every(clear, sparing(path))) by {
            broadcast use group_every;

            reveal(clear_internal_step);
            reveal(remove_internal_step);
        }
        if worlds[0].has(path) {
            lemma_left(clear, r, at, early, path);
        } else {
            lemma_absent(clear, r, at, early, path);
        }
        if rest.len() > 0 {
            let i: int = 0;
            assert(rest[i] == (RequestView::WriteNew { path: temporary, contents }));
            assert(moves(late[i], rest[i], r[clear.at + i], late[i + 1]));
            if late[i].has(path) {
                assert(kept(late[i], late[i + 1], path));
            }
            if rest.len() > 1 {
                let j: int = 1;
                assert(rest[j] == (RequestView::Rename { from: temporary, to: path }));
                assert(moves(late[j], rest[j], r[clear.at + j], late[j + 1]));
                if rest.len() > 2 {
                    let k: int = 2;
                    assert(rest[k] is SyncDirectory);
                    assert(moves(late[k], rest[k], r[clear.at + k], late[k + 1]));
                }
            }
        }
    }
}

/// Whether a journal may come into force behind another, given what is known.
spec fn may_follow(
    plan: PlanView,
    shown: Shown,
    journal: JournalView,
    known: Known,
    after: JournalView,
) -> bool {
    &&& after.phase.rank() >= journal.phase.rank()
    &&& forall|world: World| #[trigger]
        in_force(plan, shown, journal, world) && holds(plan, known, world) ==> earned(
            plan,
            shown,
            after,
            world,
        )
}

/// A journal that is written comes into force, or the one before it stays so.
proof fn lemma_written(
    t: TransactionView,
    plan: PlanView,
    shown: Shown,
    journal: JournalView,
    known: Known,
    after: JournalView,
    r: Seq<Reply>,
    at: int,
    worlds: Seq<World>,
)
    requires
        t == transaction_of(plan, t.version),
        apart(plan),
        may_follow(plan, shown, journal, known, after),
        history(worlds, write_journal_step(raw(t.journal()), after, r, at).asked, r, at),
        in_force(plan, shown, journal, worlds[0]),
        holds(plan, known, worlds[0]),
    ensures
        in_force(plan, shown, after, worlds.last()) || in_force(
            plan,
            shown,
            journal,
            worlds.last(),
        ),
        write_journal_step(raw(t.journal()), after, r, at).outcome is Done ==> in_force(
            plan,
            shown,
            after,
            worlds.last(),
        ),
{
    let step = write_journal_step(raw(t.journal()), after, r, at);
    let place = journal_of(plan);
    assert(raw(t.journal()) == place);
    lemma_replaced(place, journal_text(after), r, at, worlds);
    assert forall|p: Seq<u8>|
        !scratch(t, p) && worlds[0].has(p) implies #[trigger] kept(worlds[0], worlds.last(), p) by {
        leave_replace(place, journal_text(after), r, at, p);
        lemma_left(step, r, at, worlds, p);
    }
    assert(earned(plan, shown, after, worlds[0]));
    if worlds[0].has(raw(plan.destination_path)) {
        assert(kept(worlds[0], worlds.last(), raw(plan.destination_path)));
    }
    if worlds[0].has(raw(plan.manifest_path)) {
        assert(kept(worlds[0], worlds.last(), raw(plan.manifest_path)));
    }
    if worlds[0].has(raw(plan.source.path)) {
        assert(kept(worlds[0], worlds.last(), raw(plan.source.path)));
    }
}

broadcast proof fn land_enter(
    t: TransactionView,
    after: JournalView,
    r: Seq<Reply>,
    at: int,
    plan: PlanView,
    shown: Shown,
    journal: JournalView,
    known: Known,
)
    requires
        t == transaction_of(plan, t.version),
        apart(plan),
        may_follow(plan, shown, journal, known, after),
    ensures
        #[trigger] lands(enter_step(t, after, r, at), r, at, plan, shown, journal, known),
{
    reveal(lands);
    reveal(enter_step);
    let write = write_journal_step(raw(t.journal()), after, r, at);
    let step = enter_step(t, after, r, at);
    assert(step.asked =~= write.asked);
    assert forall|worlds: Seq<World>|
        #[trigger] history(worlds, step.asked, r, at) && in_force(plan, shown, journal, worlds[0])
            && holds(plan, known, worlds[0]) implies {
        &&& in_order(plan, shown, worlds.last())
        &&& step.outcome matches Outcome::Done(result) ==> in_force(
            plan,
            shown,
            result,
            worlds.last(),
        )
    } by {
        lemma_written(t, plan, shown, journal, known, after, r, at, worlds);
    }
}

/// Work whose failure goes into the journal keeps it in force.
broadcast proof fn keep_journaled<T>(
    t: TransactionView,
    work: Step<T>,
    r: Seq<Reply>,
    at: int,
    plan: PlanView,
    shown: Shown,
    journal: JournalView,
    known: Known,
)
    requires
        t == transaction_of(plan, t.version),
        apart(plan),
        gentle(work, plan, journal),
        counted(work, at),
    ensures
        #[trigger] keeps(journaled(t, journal, work, r), r, at, plan, shown, journal, known),
{
    reveal(keeps);
    reveal(counted);
    let step = journaled(t, journal, work, r);
    assert forall|worlds: Seq<World>|
        #[trigger] history(worlds, step.asked, r, at) && in_force(plan, shown, journal, worlds[0])
            && holds(plan, known, worlds[0]) implies {
        &&& in_order(plan, shown, worlds.last())
        &&& step.outcome is Done ==> in_force(plan, shown, journal, worlds.last()) && holds(
            plan,
            known,
            worlds.last(),
        )
    } by {
        if let Outcome::Fail(message) = work.outcome {
            let after = with_diagnostic(journal, message);
            let write = write_journal_step(raw(t.journal()), after, r, work.at);
            assert(step.asked =~= work.asked + write.asked);
            lemma_history_splits(worlds, work.asked, write.asked, r, at);
            let early = worlds.take(work.asked.len() as int + 1);
            let late = worlds.skip(work.asked.len() as int);
            lemma_gentle(work, r, at, plan, shown, journal, known, early);
            lemma_written(t, plan, shown, journal, known, after, r, work.at, late);
        } else {
            lemma_gentle(work, r, at, plan, shown, journal, known, worlds);
        }
    }
}

/// The files of a transaction are not each other.
proof fn lemma_own_files(t: TransactionView)
    ensures
        raw(t.staging()) != raw(t.journal()),
        raw(manifest_staging_place(t.directory)) != raw(t.journal()),
{
    reveal_strlit("journal.pkl");
    reveal_strlit("output.partial");
    reveal_strlit("manifest.partial");
    reveal_strlit("/");
    let other = manifest_staging_place(t.directory);
    assert(t.journal()[t.journal().len() - 2] == 'k');
    assert(t.staging()[t.staging().len() - 2] == 'a');
    assert(other[other.len() - 2] == 'a');
    if raw(t.staging()) == raw(t.journal()) {
        law_texts_have_bytes_of_their_own(t.staging(), t.journal());
    }
    if raw(other) == raw(t.journal()) {
        law_texts_have_bytes_of_their_own(other, t.journal());
    }
}

proof fn land_prepared(
    t: TransactionView,
    journal: JournalView,
    r: Seq<Reply>,
    at: int,
    plan: PlanView,
    shown: Shown,
)
    requires
        t == transaction_of(plan, t.version),
        apart(plan),
    ensures
        lands(prepared_step(t, journal, r, at), r, at, plan, shown, journal, nothing_known()),
{
    broadcast use {
        group_every,
        group_counted,
        leave_validate,
        leave_inspect,
        leave_clear_internal,
        leave_encode,
        count_validate,
        count_inspect,
        count_clear_internal,
        count_replace,
        count_ffmpeg,
        keep_gentle,
        keep_journaled,
        land_chain,
        land_enter,
        land_done,
    };

    reveal(prepared_step);
    reveal(av1_stage_step);
    lemma_own_files(t);
}

proof fn land_staged(
    t: TransactionView,
    journal: JournalView,
    r: Seq<Reply>,
    at: int,
    plan: PlanView,
    shown: Shown,
)
    requires
        t == transaction_of(plan, t.version),
        apart(plan),
    ensures
        lands(staged_step(t, journal, r, at), r, at, plan, shown, journal, nothing_known()),
{
    broadcast use {
        group_counted,
        leave_publish_output,
        count_publish_output,
        keep_gentle,
        land_chain,
        land_enter,
        land_done,
        land_fail,
    };

    reveal(staged_step);
    lemma_own_files(t);
}

/// Whether an output was compared with a plan's source and decoded in full, as the
/// replies from a position on say.
pub open spec fn verified_in(plan: PlanView, r: Seq<Reply>, from: int, output: EvidenceView) -> bool {
    &&& output_check(
        plan.profile,
        plan.source,
        output,
        plan.duration_tolerance_seconds,
    ) is Ok
    &&& exists|inspected: int, decoded: int|
        {
            &&& from <= inspected < decoded
            &&& (#[trigger] inspect_step(raw(plan.destination_path), r, inspected)).outcome
                == Outcome::Done(output)
            &&& (#[trigger] decode_step(plan.destination_path, r, decoded)).outcome is Done
        }
}

/// Whether a manifest was published for an output, as the replies from a position
/// on say.
pub open spec fn published_in(
    plan: PlanView,
    version: Seq<char>,
    r: Seq<Reply>,
    from: int,
    output: EvidenceView,
) -> bool {
    &&& quarantine_text(plan) is Ok
    &&& exists|published: int|
        from <= published && (#[trigger] publish_manifest_step(
            transaction_of(plan, version),
            manifest_of(plan, output, quarantine_text(plan)->Ok_0, version),
            r,
            published,
        )).outcome is Done
}

/// Whether what the replies from a position on say counts as shown.
spec fn counts(
    plan: PlanView,
    version: Seq<char>,
    r: Seq<Reply>,
    from: int,
    shown: Shown,
) -> bool {
    &&& forall|output: EvidenceView| #[trigger]
        verified_in(plan, r, from, output) ==> (shown.verified)(output)
    &&& forall|output: EvidenceView| #[trigger]
        published_in(plan, version, r, from, output) && (shown.verified)(output) ==> (
        shown.published)(output)
}

proof fn land_published(
    t: TransactionView,
    journal: JournalView,
    r: Seq<Reply>,
    at: int,
    plan: PlanView,
    shown: Shown,
    from: int,
)
    requires
        t == transaction_of(plan, t.version),
        apart(plan),
        counts(plan, t.version, r, from, shown),
        from <= at,
    ensures
        lands(published_step(t, journal, r, at), r, at, plan, shown, journal, nothing_known()),
{
    let place = raw(plan.destination_path);
    let inspect = inspect_step(place, r, at);
    leave_inspect(place, r, at, journal_of(plan));
    leave_inspect(place, r, at, place);
    leave_inspect(place, r, at, raw(plan.manifest_path));
    leave_inspect(place, r, at, raw(plan.source.path));
    count_inspect(place, r, at);
    let first = journaled(t, journal, inspect, r);
    keep_journaled(t, inspect, r, at, plan, shown, journal, nothing_known());
    if journal.phase != Phase::Published {
        reveal(published_step);
        land_done(at, r, at, plan, shown, journal, nothing_known());
    } else {
        assert(counted(first, at)) by {
            broadcast use {group_counted, count_inspect, count_replace};

        }
        let known = Known {
            digest: if let Outcome::Done(output) = inspect.outcome {
                Some(output.sha256)
            } else {
                None
            },
            manifest: false,
        };
        let next = |output: EvidenceView, at: int|
            match journal.output {
                None => fail("published journal is missing output evidence"@, at),
                Some(staged) => if output.sha256 != staged.sha256 {
                    fail("published output differs from staged output"@, at)
                } else {
                    chain(
                        journaled(t, journal, verification_step(t, output, r, at), r),
                        |_verified: (), at: int|
                            enter_step(t, verified_journal(journal, output), r, at),
                    )
                },
            };
        assert(published_step(t, journal, r, at) == chain(first, next)) by {
            reveal(published_step);
        }
        if let Outcome::Done(output) = inspect.outcome {
            assert forall|worlds: Seq<World>| #[trigger]
                history(worlds, first.asked, r, at) implies holds(plan, known, worlds.last()) by {
                lemma_inspected_digest(place, r, at, worlds);
                lemma_left(inspect, r, at, worlds, place);
            }
            lemma_verification_lands(t, journal, output, r, inspect.at, plan, shown, from, at);
            let second = next(output, inspect.at);
            assert(lands(second, r, inspect.at, plan, shown, journal, known)) by {
                broadcast use land_fail;

                if journal.output matches Some(staged) && output.sha256 == staged.sha256 {
                    let enter = |_verified: (), at: int|
                        enter_step(t, verified_journal(journal, output), r, at);
                    let verify = journaled(
                        t,
                        journal,
                        verification_step(t, output, r, inspect.at),
                        r,
                    );
                    assert(second == chain(verify, enter));
                }
            }
        }
        lemma_land_told(first, next, r, at, plan, shown, journal, nothing_known(), known);
    }
}

/// Where an inspected output is verified, a journal that says so comes into force.
proof fn lemma_verification_lands(
    t: TransactionView,
    journal: JournalView,
    output: EvidenceView,
    r: Seq<Reply>,
    at: int,
    plan: PlanView,
    shown: Shown,
    from: int,
    inspected: int,
)
    requires
        t == transaction_of(plan, t.version),
        apart(plan),
        counts(plan, t.version, r, from, shown),
        journal.phase == Phase::Published,
        from <= inspected,
        inspect_step(raw(plan.destination_path), r, inspected).outcome == Outcome::Done(output),
        inspect_step(raw(plan.destination_path), r, inspected).at == at,
    ensures
        lands(
            chain(
                journaled(t, journal, verification_step(t, output, r, at), r),
                |_verified: (), at: int| enter_step(t, verified_journal(journal, output), r, at),
            ),
            r,
            at,
            plan,
            shown,
            journal,
            Known { digest: Some(output.sha256), manifest: false },
        ),
{
    let known = Known { digest: Some(output.sha256), manifest: false };
    let verification = verification_step(t, output, r, at);
    let after = verified_journal(journal, output);
    assert(counted(verification, at) && gentle(verification, plan, journal)) by {
        broadcast use {group_every, group_counted, count_ffmpeg, leave_encode};

        reveal(verification_step);
    }
    if verification.outcome is Done {
        assert(verified_in(plan, r, from, output)) by {
            reveal(verification_step);
            count_inspect(raw(plan.destination_path), r, inspected);
            reveal(counted);
            assert(inspect_step(raw(plan.destination_path), r, inspected).asked.len() > 0) by {
                reveal(inspect_step);
                reveal(regular_file_step);
            }
            assert(decode_step(plan.destination_path, r, at).outcome is Done);
        }
        assert(may_follow(plan, shown, journal, known, after));
    }
    broadcast use {
        group_counted,
        count_replace,
        keep_journaled,
        land_chain,
        land_enter,
    };

}

proof fn land_verified(
    t: TransactionView,
    journal: JournalView,
    r: Seq<Reply>,
    at: int,
    plan: PlanView,
    shown: Shown,
    from: int,
)
    requires
        t == transaction_of(plan, t.version),
        apart(plan),
        counts(plan, t.version, r, from, shown),
        from <= at,
    ensures
        lands(verified_step(t, journal, r, at), r, at, plan, shown, journal, nothing_known()),
{
    reveal(verified_step);
    broadcast use {land_done, land_fail};

    if journal.phase == Phase::Verified && quarantine_text(plan) is Ok && journal.output is Some {
        let quarantine = quarantine_text(plan)->Ok_0;
        let output = journal.output->0;
        let manifest = manifest_of(plan, output, quarantine, t.version);
        let first = publish_manifest_step(t, manifest, r, at);
        let after = manifested_journal(journal, quarantine);
        let known = Known { digest: None, manifest: true };
        let next = |_published: (), at: int| enter_step(t, after, r, at);
        count_publish_manifest(t, manifest, r, at);
        lemma_own_files(t);
        assert(gentle(first, plan, journal)) by {
            broadcast use {group_every, leave_load_manifest, leave_publish_text};

            reveal(publish_manifest_step);
        }
        keep_gentle(first, r, at, plan, shown, journal, nothing_known());
        if first.outcome is Done {
            assert forall|worlds: Seq<World>| #[trigger]
                history(worlds, first.asked, r, at) implies holds(plan, known, worlds.last()) by {
                lemma_manifest_published(t, manifest, r, at, worlds);
            }
            assert(published_in(plan, t.version, r, from, output));
            assert(may_follow(plan, shown, journal, known, after));
            land_enter(t, after, r, first.at, plan, shown, journal, known);
        }
        lemma_land_told(first, next, r, at, plan, shown, journal, nothing_known(), known);
        assert(verified_step(t, journal, r, at) == chain(first, next));
    }
}

proof fn land_manifested(
    t: TransactionView,
    journal: JournalView,
    r: Seq<Reply>,
    at: int,
    plan: PlanView,
    shown: Shown,
)
    requires
        t == transaction_of(plan, t.version),
        apart(plan),
        raw(plan.manifest_path) != raw(plan.source.path),
        raw(plan.destination_path) != raw(plan.source.path),
    ensures
        lands(manifested_step(t, journal, r, at), r, at, plan, shown, journal, nothing_known()),
{
    broadcast use {
        group_counted,
        count_delete_source,
        count_quarantine_link,
        leave_quarantine_link,
        keep_gentle,
        land_chain,
        land_enter,
        land_done,
    };

    reveal(manifested_step);
    if journal.phase == Phase::Manifested && plan.source_disposition == SourceDisposition::Delete {
        assert(gentle(delete_source_step(plan.source, r, at), plan, journal)) by {
            broadcast use {group_every, leave_validate, leave_drop_name};

            reveal(delete_source_step);
        }
    }
}

proof fn land_linked(
    t: TransactionView,
    journal: JournalView,
    r: Seq<Reply>,
    at: int,
    plan: PlanView,
    shown: Shown,
)
    requires
        t == transaction_of(plan, t.version),
        apart(plan),
        raw(plan.manifest_path) != raw(plan.source.path),
        raw(plan.destination_path) != raw(plan.source.path),
    ensures
        lands(linked_step(t, journal, r, at), r, at, plan, shown, journal, nothing_known()),
{
    reveal(linked_step);
    broadcast use {land_done};

    if journal.phase == Phase::QuarantineLinked {
        if plan.source_disposition == SourceDisposition::Quarantine {
            let first = finish_quarantine_step(plan, journal, r, at);
            assert(gentle(first, plan, journal)) by {
                broadcast use {group_every, leave_same_file, leave_drop_name};

                reveal(finish_quarantine_step);
            }
            broadcast use {count_finish_quarantine, keep_gentle, land_chain, land_enter};

        } else {
            reveal(lands);
        }
    }
}

proof fn land_archive(
    t: TransactionView,
    journal: JournalView,
    r: Seq<Reply>,
    at: int,
    plan: PlanView,
    shown: Shown,
    from: int,
)
    requires
        t == transaction_of(plan, t.version),
        apart(plan),
        counts(plan, t.version, r, from, shown),
        from <= at,
    ensures
        lands(archive_step(t, journal, r, at), r, at, plan, shown, journal, nothing_known()),
{
    reveal(archive_step);
    reveal(counted);
    let verify = |journal: JournalView, at: int| verified_step(t, journal, r, at);
    let publish = |journal: JournalView, at: int| chain(published_step(t, journal, r, at), verify);
    let stage = |journal: JournalView, at: int| chain(staged_step(t, journal, r, at), publish);
    let one = prepared_step(t, journal, r, at);
    count_prepared(t, journal, r, at);
    land_prepared(t, journal, r, at, plan, shown);
    if let Outcome::Done(j1) = one.outcome {
        let two = staged_step(t, j1, r, one.at);
        count_staged(t, j1, r, one.at);
        land_staged(t, j1, r, one.at, plan, shown);
        if let Outcome::Done(j2) = two.outcome {
            let three = published_step(t, j2, r, two.at);
            count_published(t, j2, r, two.at);
            land_published(t, j2, r, two.at, plan, shown, from);
            if let Outcome::Done(j3) = three.outcome {
                land_verified(t, j3, r, three.at, plan, shown, from);
            }
            lemma_land_on(three, verify, r, two.at, plan, shown, j2);
        }
        lemma_land_on(two, publish, r, one.at, plan, shown, j1);
    }
    lemma_land_on(one, stage, r, at, plan, shown, journal);
    assert(archive_step(t, journal, r, at) == chain(one, stage));
}

proof fn land_dispose(
    t: TransactionView,
    journal: JournalView,
    r: Seq<Reply>,
    at: int,
    plan: PlanView,
    shown: Shown,
)
    requires
        t == transaction_of(plan, t.version),
        apart(plan),
        raw(plan.manifest_path) != raw(plan.source.path),
        raw(plan.destination_path) != raw(plan.source.path),
    ensures
        lands(dispose_step(t, journal, r, at), r, at, plan, shown, journal, nothing_known()),
{
    reveal(dispose_step);
    let next = |journal: JournalView, at: int| linked_step(t, journal, r, at);
    let first = manifested_step(t, journal, r, at);
    count_manifested(t, journal, r, at);
    land_manifested(t, journal, r, at, plan, shown);
    if let Outcome::Done(after) = first.outcome {
        land_linked(t, after, r, first.at, plan, shown);
    }
    lemma_land_on(first, next, r, at, plan, shown, journal);
    assert(dispose_step(t, journal, r, at) == chain(first, next));
}

/// A transaction that is carried on stays in order, wherever it stops.
proof fn lemma_carried_on(
    t: TransactionView,
    journal: JournalView,
    r: Seq<Reply>,
    at: int,
    plan: PlanView,
    shown: Shown,
    from: int,
    worlds: Seq<World>,
)
    requires
        t == transaction_of(plan, t.version),
        apart(plan),
        counts(plan, t.version, r, from, shown),
        from <= at,
        raw(plan.destination_path) != raw(plan.source.path),
        history(worlds, carry_on_step(t, journal, r, at).asked, r, at),
        in_force(plan, shown, journal, worlds[0]),
    ensures
        in_order(plan, shown, worlds.last()),
        carry_on_step(t, journal, r, at).outcome is Done ==> complete(plan, shown, worlds.last()),
{
    reveal(carry_on_step);
    reveal(lands);
    reveal(counted);
    if journal.phase != Phase::Complete {
        let archive = archive_step(t, journal, r, at);
        count_archive(t, journal, r, at);
        land_archive(t, journal, r, at, plan, shown, from);
        let step = carry_on_step(t, journal, r, at);
        if let Outcome::Done(after) = archive.outcome {
            let dispose = dispose_step(t, after, r, archive.at);
            land_dispose(t, after, r, archive.at, plan, shown);
            assert(step.asked =~= archive.asked + dispose.asked);
            lemma_history_splits(worlds, archive.asked, dispose.asked, r, at);
            if let Outcome::Done(last) = dispose.outcome {
                lemma_archived_phase(t, journal, r, at);
                assert(last.phase == Phase::Complete) by {
                    reveal(dispose_step);
                    reveal(manifested_step);
                    reveal(linked_step);
                    reveal(enter_step);
                }
                assert(in_force(plan, shown, last, worlds.last()));
            }
        } else {
            assert(step.asked =~= archive.asked);
        }
    }
}

/// Whether journals are read as they were written: where a journal is evaluated and
/// decoded at all, and the file holds what is written of some journal, that journal
/// is what comes of it.
pub open spec fn reads_back(
    worlds: Seq<World>,
    asked: Seq<RequestView>,
    r: Seq<Reply>,
    at: int,
) -> bool {
    forall|i: int, journal: JournalView|
        #![trigger asked[i], journal_text(journal)]
        0 <= i < asked.len() ==> (asked[i] matches RequestView::EvaluateJournal { path } ==> (
        worlds[i].has(path) && worlds[i].text(path) == journal_text(journal) ==> (r[at
            + i] matches Reply::Journal(evaluated) ==> (evaluated.decoded matches Ok(read)
            ==> read.deep_view() == journal))))
}

/// What is read back over some requests is read back over each part of them.
pub(crate) proof fn lemma_reads_back_splits(
    worlds: Seq<World>,
    first: Seq<RequestView>,
    second: Seq<RequestView>,
    r: Seq<Reply>,
    at: int,
)
    requires
        reads_back(worlds, first + second, r, at),
        worlds.len() == first.len() + second.len() + 1,
    ensures
        reads_back(worlds.take(first.len() as int + 1), first, r, at),
        reads_back(worlds.skip(first.len() as int), second, r, at + first.len()),
{
    let n = first.len() as int;
    let whole = first + second;
    let early = worlds.take(n + 1);
    let late = worlds.skip(n);
    assert forall|i: int, journal: JournalView|
        #![trigger first[i], journal_text(journal)]
        0 <= i < n implies (first[i] matches RequestView::EvaluateJournal { path } ==> (
    early[i].has(path) && early[i].text(path) == journal_text(journal) ==> (r[at
        + i] matches Reply::Journal(evaluated) ==> (evaluated.decoded matches Ok(read)
        ==> read.deep_view() == journal)))) by {
        assert(whole[i] == first[i]);
    }
    assert forall|i: int, journal: JournalView|
        #![trigger second[i], journal_text(journal)]
        0 <= i < second.len() implies (second[i] matches RequestView::EvaluateJournal { path } ==> (
    late[i].has(path) && late[i].text(path) == journal_text(journal) ==> (r[at + n
        + i] matches Reply::Journal(evaluated) ==> (evaluated.decoded matches Ok(read)
        ==> read.deep_view() == journal)))) by {
        assert(whole[n + i] == second[i]);
        assert(r[at + (n + i)] == r[at + n + i]);
    }
}

/// A transaction in order whose journal is opened stays so, with that journal in
/// force.
proof fn lemma_opened(
    t: TransactionView,
    r: Seq<Reply>,
    at: int,
    plan: PlanView,
    shown: Shown,
    worlds: Seq<World>,
)
    requires
        t == transaction_of(plan, t.version),
        apart(plan),
        history(worlds, open_journal_step(t, r, at).asked, r, at),
        reads_back(worlds, open_journal_step(t, r, at).asked, r, at),
        in_order(plan, shown, worlds[0]),
    ensures
        in_order(plan, shown, worlds.last()),
        open_journal_step(t, r, at).outcome matches Outcome::Done(journal) ==> in_force(
            plan,
            shown,
            journal,
            worlds.last(),
        ),
{
    let step = open_journal_step(t, r, at);
    let place = journal_of(plan);
    assert(raw(t.journal()) == place);
    reveal(open_journal_step);
    reveal(load_journal_step);
    reveal(enter_step);
    if step.asked.len() > 0 {
        let i: int = 0;
        assert(step.asked[i] == (RequestView::Exists { path: place }));
        assert(moves(worlds[i], step.asked[i], r[at + i], worlds[i + 1]));
        if worlds[0].has(place) {
            let journal = choose|journal: JournalView| #[trigger]
                in_force(plan, shown, journal, worlds[0]);
            if step.asked.len() > 1 {
                let j: int = 1;
                assert(step.asked[j] == (RequestView::EvaluateJournal { path: place }));
                assert(moves(worlds[j], step.asked[j], r[at + j], worlds[j + 1]));
                assert(step.asked.len() == 2);
                assert(worlds[j].text(place) == journal_text(journal));
            }
            if let Outcome::Done(read) = step.outcome {
                assert(step.asked.len() == 2);
                assert(read == journal);
            }
        } else {
            if step.asked.len() > 1 {
                let j: int = 1;
                assert(step.asked[j] == (RequestView::Exists { path: raw(plan.destination_path) }));
                assert(moves(worlds[j], step.asked[j], r[at + j], worlds[j + 1]));
            }
            if step.asked.len() > 2 {
                let k: int = 2;
                assert(step.asked[k] == (RequestView::Exists { path: raw(plan.manifest_path) }));
                assert(moves(worlds[k], step.asked[k], r[at + k], worlds[k + 1]));
            }
            if step.outcome is Done {
                assert(step.asked.len() > 3) by {
                    reveal(atomic_replace_step);
                    reveal(clear_internal_step);
                }
            }
            if step.asked.len() > 3 {
                lemma_opened_afresh(t, r, at, plan, shown, worlds);
            }
        }
    }
}

/// The first journal of a transaction comes into force, or none does.
proof fn lemma_opened_afresh(
    t: TransactionView,
    r: Seq<Reply>,
    at: int,
    plan: PlanView,
    shown: Shown,
    worlds: Seq<World>,
)
    requires
        t == transaction_of(plan, t.version),
        apart(plan),
        history(worlds, open_journal_step(t, r, at).asked, r, at),
        open_journal_step(t, r, at).asked.len() > 3,
        worlds[3] == worlds[0],
        !worlds[0].has(journal_of(plan)),
        worlds[0].has(raw(plan.source.path)),
    ensures
        in_order(plan, shown, worlds.last()),
        open_journal_step(t, r, at).outcome matches Outcome::Done(journal) ==> in_force(
            plan,
            shown,
            journal,
            worlds.last(),
        ),
{
    let step = open_journal_step(t, r, at);
    let place = journal_of(plan);
    assert(raw(t.journal()) == place);
    reveal(open_journal_step);
    reveal(load_journal_step);
    reveal(enter_step);
    let i: int = 0;
    assert(step.asked[i] == (RequestView::Exists { path: place }));
    assert(moves(worlds[i], step.asked[i], r[at + i], worlds[i + 1]));
    assert(r[at] == Reply::Flag(false));
    let journal = fresh_journal(plan, t.staging(), t.version);
    let write = write_journal_step(place, journal, r, at + 3);
    let looks = step.asked.take(3);
    assert(step.asked =~= looks + write.asked);
    assert(step.outcome is Done ==> write.outcome is Done && step.outcome == Outcome::Done(
        journal,
    ));
    let k: int = 2;
    assert(step.asked[k] == (RequestView::Exists { path: raw(plan.manifest_path) }));
    assert(moves(worlds[k], step.asked[k], r[at + k], worlds[k + 1]));
    assert(r[at + 2] == Reply::Flag(false));
    lemma_history_splits(worlds, looks, write.asked, r, at);
    let late = worlds.skip(3);
    lemma_replaced(place, journal_text(journal), r, at + 3, late);
    leave_replace(place, journal_text(journal), r, at + 3, raw(plan.source.path));
    lemma_left(write, r, at + 3, late, raw(plan.source.path));
    if late.last().has(place) {
        assert(in_force(plan, shown, journal, late.last()));
    }
}

/// Making a directory elsewhere leaves a transaction in order.
proof fn lemma_directory_keeps_order(
    directory: Seq<u8>,
    r: Seq<Reply>,
    at: int,
    plan: PlanView,
    shown: Shown,
    worlds: Seq<World>,
)
    requires
        directory != journal_of(plan),
        history(worlds, ensure_directory_step(directory, r, at).asked, r, at),
        in_order(plan, shown, worlds[0]),
    ensures
        in_order(plan, shown, worlds.last()),
{
    let step = ensure_directory_step(directory, r, at);
    let place = journal_of(plan);
    leave_ensure_directory(directory, r, at, place);
    leave_ensure_directory(directory, r, at, raw(plan.source.path));
    leave_ensure_directory(directory, r, at, raw(plan.destination_path));
    leave_ensure_directory(directory, r, at, raw(plan.manifest_path));
    if worlds[0].has(place) {
        let journal = choose|journal: JournalView| #[trigger]
            in_force(plan, shown, journal, worlds[0]);
        lemma_gentle(step, r, at, plan, shown, journal, nothing_known(), worlds);
    } else {
        spare_ensure_directory(directory, r, at, place);
        lemma_absent(step, r, at, worlds, place);
        lemma_left(step, r, at, worlds, raw(plan.source.path));
    }
}

/// A transaction in order that a run takes up stays so, with the journal that is
/// taken up in force.
proof fn lemma_begun_in_order(
    plan: PlanView,
    version: Seq<char>,
    r: Seq<Reply>,
    at: int,
    shown: Shown,
    worlds: Seq<World>,
)
    requires
        apart(plan),
        history(worlds, begin_step(plan, version, r, at).asked, r, at),
        reads_back(worlds, begin_step(plan, version, r, at).asked, r, at),
        in_order(plan, shown, worlds[0]),
    ensures
        in_order(plan, shown, worlds.last()),
        begin_step(plan, version, r, at).outcome matches Outcome::Done(journal) ==> in_force(
            plan,
            shown,
            journal,
            worlds.last(),
        ),
{
    let t = transaction_of(plan, version);
    let begin = begin_step(plan, version, r, at);
    let root = raw(transactions_root(parent(plan.destination_path)->0));
    let one = ensure_directory_step(root, r, at);
    count_ensure_directory(root, r, at);
    lemma_journal_is_no_directory(plan, version);
    reveal(counted);
    if one.outcome is Done {
        let two = ensure_directory_step(raw(t.directory), r, one.at);
        count_ensure_directory(raw(t.directory), r, one.at);
        let more = begin.asked.skip(one.asked.len() as int);
        assert(begin.asked =~= one.asked + more);
        lemma_history_splits(worlds, one.asked, more, r, at);
        lemma_reads_back_splits(worlds, one.asked, more, r, at);
        lemma_directory_keeps_order(
            root,
            r,
            at,
            plan,
            shown,
            worlds.take(one.asked.len() as int + 1),
        );
        let rest = worlds.skip(one.asked.len() as int);
        if two.outcome is Done {
            let three = open_journal_step(t, r, two.at);
            assert(more =~= two.asked + three.asked);
            lemma_history_splits(rest, two.asked, three.asked, r, one.at);
            lemma_reads_back_splits(rest, two.asked, three.asked, r, one.at);
            lemma_directory_keeps_order(
                raw(t.directory),
                r,
                one.at,
                plan,
                shown,
                rest.take(two.asked.len() as int + 1),
            );
            lemma_opened(t, r, two.at, plan, shown, rest.skip(two.asked.len() as int));
        } else {
            assert(more =~= two.asked);
            lemma_directory_keeps_order(raw(t.directory), r, one.at, plan, shown, rest);
        }
    } else {
        assert(begin.asked =~= one.asked);
        lemma_directory_keeps_order(root, r, at, plan, shown, worlds);
    }
}

/// One run of a plan: where the plan is read, the archiver's version, the replies it
/// is given from a position on, and the worlds it leads through.
pub struct Run {
    pub path: Seq<u8>,
    pub version: Seq<char>,
    pub r: Seq<Reply>,
    pub at: int,
    pub worlds: Seq<World>,
}

impl Run {
    /// Where the run came to, and what it asked for.
    pub open spec fn step(self) -> Step<Seq<char>> {
        apply_step(self.path, self.version, self.r, self.at)
    }

    /// Whether it is a run of a plan, and leads through its worlds.
    pub open spec fn is_of(self, plan: PlanView) -> bool {
        &&& load_plan_step(self.path, self.r, self.at).outcome == Outcome::Done(plan)
        &&& history(self.worlds, self.step().asked, self.r, self.at)
    }

    /// Whether it reads journals as they were written.
    pub open spec fn reads(self) -> bool {
        reads_back(self.worlds, self.step().asked, self.r, self.at)
    }
}

/// A run keeps a transaction in order, wherever it stops, and where it comes to its
/// end the transaction is complete.
proof fn lemma_run_in_order(plan: PlanView, run: Run, shown: Shown)
    requires
        apart(plan),
        run.is_of(plan),
        run.reads(),
        counts(plan, run.version, run.r, run.at, shown),
        in_order(plan, shown, run.worlds[0]),
    ensures
        in_order(plan, shown, run.worlds.last()),
        run.step().outcome is Done ==> complete(plan, shown, run.worlds.last()),
{
    let r = run.r;
    let version = run.version;
    let load = load_plan_step(run.path, r, run.at);
    let execute = execute_step(plan, version, r, load.at);
    let i: int = 0;
    assert(load.asked.len() == 1 && load.at == run.at + 1) by {
        reveal(load_plan_step);
    }
    assert(load.asked[i] == (RequestView::EvaluatePlan { path: run.path })) by {
        reveal(load_plan_step);
    }
    assert(run.step().asked =~= load.asked + execute.asked) by {
        reveal(apply_step);
    }
    assert(run.step().outcome == execute.outcome) by {
        reveal(apply_step);
    }
    lemma_history_splits(run.worlds, load.asked, execute.asked, r, run.at);
    lemma_reads_back_splits(run.worlds, load.asked, execute.asked, r, run.at);
    let first = run.worlds.take(load.asked.len() as int + 1);
    assert(moves(first[i], load.asked[i], r[run.at + i], first[i + 1]));
    let worlds = run.worlds.skip(load.asked.len() as int);
    if parent(plan.destination_path) is None {
        assert(execute.asked.len() == 0 && execute.outcome is Fail) by {
            reveal(execute_step);
        }
    } else {
        let t = transaction_of(plan, version);
        assert(plan_check(plan) is Ok) by {
            reveal(load_plan_step);
        }
        if raw(plan.destination_path) == raw(plan.source.path) {
            law_texts_have_bytes_of_their_own(plan.destination_path, plan.source.path);
        }
        lemma_run(plan, version, r, load.at);
        reveal(counted);
        let begin = begin_step(plan, version, r, load.at);
        if let Outcome::Done(journal) = begin.outcome {
            let carry = carry_on_step(t, journal, r, begin.at);
            assert(execute.asked =~= begin.asked + carry.asked);
            lemma_history_splits(worlds, begin.asked, carry.asked, r, load.at);
            lemma_reads_back_splits(worlds, begin.asked, carry.asked, r, load.at);
            lemma_begun_in_order(
                plan,
                version,
                r,
                load.at,
                shown,
                worlds.take(begin.asked.len() as int + 1),
            );
            lemma_carried_on(
                t,
                journal,
                r,
                begin.at,
                plan,
                shown,
                run.at,
                worlds.skip(begin.asked.len() as int),
            );
        } else {
            assert(execute.asked =~= begin.asked);
            lemma_begun_in_order(plan, version, r, load.at, shown, worlds);
        }
    }
}

/// Whether some runs of a plan came one after the other, each in the world that the
/// one before it left, and the first before the transaction had begun.
pub open spec fn in_succession(plan: PlanView, runs: Seq<Run>) -> bool {
    &&& runs.len() > 0
    &&& forall|k: int| 0 <= k < runs.len() ==> (#[trigger] runs[k]).is_of(plan) && runs[k].reads()
    &&& forall|k: int|
        0 < k < runs.len() ==> (#[trigger] runs[k]).worlds[0] == runs[k - 1].worlds.last()
    &&& !runs[0].worlds[0].has(journal_of(plan))
}

/// Whether one of the first runs compared an output with the source and decoded it
/// in full.
pub open spec fn verified_by(plan: PlanView, runs: Seq<Run>, count: int, output: EvidenceView) -> bool {
    exists|k: int|
        0 <= k < count && k < runs.len() && verified_in(
            plan,
            (#[trigger] runs[k]).r,
            runs[k].at,
            output,
        )
}

/// Whether one of the first runs published a manifest for an output that it, or a
/// run before it, had compared with the source and decoded in full.
pub open spec fn published_by(
    plan: PlanView,
    runs: Seq<Run>,
    count: int,
    output: EvidenceView,
) -> bool {
    exists|k: int|
        0 <= k < count && k < runs.len() && published_in(
            plan,
            (#[trigger] runs[k]).version,
            runs[k].r,
            runs[k].at,
            output,
        ) && verified_by(plan, runs, k + 1, output)
}

/// What the first of some runs have shown.
pub open spec fn shown_by(plan: PlanView, runs: Seq<Run>, count: int) -> Shown {
    Shown {
        verified: |output: EvidenceView| verified_by(plan, runs, count, output),
        published: |output: EvidenceView| published_by(plan, runs, count, output),
    }
}

/// Runs in succession keep a transaction in order.
proof fn lemma_runs_in_order(plan: PlanView, runs: Seq<Run>, count: int)
    requires
        apart(plan),
        in_succession(plan, runs),
        runs[0].worlds[0].has(raw(plan.source.path)),
        0 < count <= runs.len(),
    ensures
        in_order(plan, shown_by(plan, runs, count), runs[count - 1].worlds.last()),
        runs[count - 1].step().outcome is Done ==> complete(
            plan,
            shown_by(plan, runs, count),
            runs[count - 1].worlds.last(),
        ),
    decreases count,
{
    let run = runs[count - 1];
    let shown = shown_by(plan, runs, count);
    if count > 1 {
        lemma_runs_in_order(plan, runs, count - 1);
        let before = shown_by(plan, runs, count - 1);
        let world = run.worlds[0];
        assert(world == runs[count - 2].worlds.last());
        if world.has(journal_of(plan)) {
            let journal = choose|journal: JournalView| #[trigger]
                in_force(plan, before, journal, world);
            if journal.phase.rank() >= Phase::Verified.rank() {
                assert((before.verified)(journal.output->0));
                assert((shown.verified)(journal.output->0));
            }
            if journal.phase.rank() >= Phase::Manifested.rank() {
                assert((before.published)(journal.output->0));
                assert((shown.published)(journal.output->0));
            }
            assert(in_force(plan, shown, journal, world));
        }
    }
    assert(counts(plan, run.version, run.r, run.at, shown)) by {
        assert forall|output: EvidenceView| #[trigger]
            verified_in(plan, run.r, run.at, output) implies (shown.verified)(output) by {
            assert(runs[count - 1] == run);
        }
        assert forall|output: EvidenceView| #[trigger]
            published_in(plan, run.version, run.r, run.at, output) && (shown.verified)(
                output,
            ) implies (shown.published)(output) by {
            assert(runs[count - 1] == run);
            assert(verified_by(plan, runs, count - 1 + 1, output));
        }
    }
    assert(run.is_of(plan));
    lemma_run_in_order(plan, run, shown);
}

/// Over runs in succession a source goes only behind a sound archive. Wherever each
/// of them stopped, where the source's name is gone after the last, that was
/// planned; the manifest stands; and the output that stands at the destination was
/// compared with the source and decoded in full in one of the runs, and after that
/// its manifest was published in that run or a later one.
pub proof fn law_source_goes_behind_a_sound_archive_over_runs(plan: PlanView, runs: Seq<Run>)
    requires
        apart(plan),
        in_succession(plan, runs),
        runs[0].worlds[0].has(raw(plan.source.path)),
        !runs.last().worlds.last().has(raw(plan.source.path)),
    ensures
        plan.source_disposition != SourceDisposition::Preserve,
        runs.last().worlds.last().has(raw(plan.manifest_path)),
        runs.last().worlds.last().has(raw(plan.destination_path)),
        exists|output: EvidenceView|
            {
                &&& #[trigger] published_by(plan, runs, runs.len() as int, output)
                &&& output.sha256 == runs.last().worlds.last().digest(raw(plan.destination_path))
            },
{
    let count = runs.len() as int;
    lemma_runs_in_order(plan, runs, count);
    let shown = shown_by(plan, runs, count);
    let world = runs.last().worlds.last();
    let journal = choose|journal: JournalView| #[trigger] in_force(plan, shown, journal, world);
    assert(in_force(plan, shown, journal, world));
    assert((shown.published)(journal.output->0));
    assert(published_by(plan, runs, count, journal.output->0));
}

/// What runs in succession have archived verifies: behind a last run that came to its
/// end, as long as what stands at the destination is left alone and a probe sees the
/// same media as when it was verified, a verification against a manifest of what one
/// of the runs has published passes all its comparisons, and ends as the decode ends.
pub proof fn law_archived_output_verifies_over_runs(
    plan: PlanView,
    runs: Seq<Run>,
    version: Seq<char>,
    seen: EvidenceView,
    later: (Seq<Reply>, int, Seq<World>),
)
    requires
        apart(plan),
        in_succession(plan, runs),
        runs[0].worlds[0].has(raw(plan.source.path)),
        runs.last().step().outcome is Done,
        history(
            later.2,
            inspect_step(raw(plan.destination_path), later.0, later.1).asked,
            later.0,
            later.1,
        ),
        kept(runs.last().worlds.last(), later.2[0], raw(plan.destination_path)),
        inspect_step(raw(plan.destination_path), later.0, later.1).outcome == Outcome::Done(seen),
    ensures
        runs.last().worlds.last().has(raw(plan.manifest_path)),
        exists|output: EvidenceView|
            {
                &&& #[trigger] published_by(plan, runs, runs.len() as int, output)
                &&& output.sha256 == seen.sha256
                &&& same_media(seen, output) ==> verify_manifest_step(
                    manifest_of(plan, output, quarantine_text(plan)->Ok_0, version),
                    later.0,
                    later.1,
                ).outcome == decode_step(
                    plan.destination_path,
                    later.0,
                    inspect_step(raw(plan.destination_path), later.0, later.1).at,
                ).outcome
            },
{
    let count = runs.len() as int;
    let place = raw(plan.destination_path);
    lemma_runs_in_order(plan, runs, count);
    let shown = shown_by(plan, runs, count);
    let world = runs.last().worlds.last();
    let journal = choose|journal: JournalView| #[trigger]
        in_force(plan, shown, journal, world) && journal.phase == Phase::Complete;
    assert(in_force(plan, shown, journal, world));
    let output = journal.output->0;
    assert((shown.published)(output));
    assert(published_by(plan, runs, count, output));
    assert((shown.verified)(output));
    assert(verified_by(plan, runs, count, output));
    lemma_inspected_digest(place, later.0, later.1, later.2);
    if same_media(seen, output) {
        assert(output_check(
            plan.profile,
            plan.source,
            seen,
            plan.duration_tolerance_seconds,
        ) == output_check(plan.profile, plan.source, output, plan.duration_tolerance_seconds));
        reveal(verify_manifest_step);
    }
}

} // verus!
