//! What becomes of a source over a whole transaction, and over what follows it.
use vstd::prelude::*;

use crate::apply::{
    apply_step, archive_step, carry_on_step, complete_journal, dispose_step, enter_step,
    execute_step, linked_step, manifest_staging_place, manifested_journal, manifested_step,
    open_journal_step, prepared_step, publish_manifest_step, published_step, staged_step,
    transaction_directory, transactions_root, verified_step, TransactionView,
};
use crate::compare::output_check;
use crate::disposal::{
    check_quarantine_step, finish_quarantine_step, link_if_needed_step, link_step,
    quarantine_directories_step, quarantine_link_step, restore_by_presence_step, restore_step, verify_manifest_step,
};
use crate::flow::{
    chain, consult, done, exists_step, hash_step, reply_at, FileKind, Outcome, Reply, RequestView,
    Step,
};
use crate::inspect::{inspect_step, regular_file_step, validate_source_step};
use crate::keeping::{
    leave_archive, leave_dispose, leave_ensure_directory, leave_enter, leave_load_manifest,
    leave_open_journal, leave_preserved, leave_publish_text, leave_published,
    leave_quarantine_link, leave_verified, leaving, scratch,
};
use crate::load::{load_journal_step, load_plan_step};
use crate::model::{
    EvidenceView, JournalView, ManifestView, Phase, PlanView, SourceDisposition,
};
use crate::os_text::{law_texts_have_bytes_of_their_own, raw, shown};
use crate::outcome::{law_archived_is_sound, soundly_archived};
use crate::path::{lemma_parent_is_shorter, parent};
use crate::plan::{fresh_journal, manifest_of, plan_check, quarantine_text};
use crate::render::manifest_text;
use crate::replay::{
    count_add_name, count_archive, count_clear_internal, count_ensure_directory,
    count_finish_quarantine, count_hash_regular, count_linked, count_load_manifest,
    count_load_plan, count_manifested, count_open_journal, count_prepared, count_publish_text,
    count_published, count_quarantine_link, count_staged, count_validate,
};
use crate::safety::{
    law_archiving_changes_only_its_own, own_path, spare_ensure_directory, spare_replace, sparing,
};
use crate::storage::{
    add_name_step, clear_internal_step, drop_name_step, ensure_directory_step, hash_regular_step,
    publish_new_step, publish_text_step,
};
use crate::tool::decode_step;
use crate::trace::{counted, every, group_counted, group_every};
use crate::world::{
    count_check, count_regular_file, doubled, ends_through, found, history, issued, kept,
    law_publication_replaces_nothing, law_quarantine_link_keeps_the_source,
    law_quarantine_never_loses_the_source, law_restore_brings_back, leads, lemma_found, linked,
    moved, moves, restored, standing, unlinked, World,
};

verus! {

/// What a run of some requests leads through is what each part of it leads through.
pub(crate) proof fn lemma_history_splits(
    worlds: Seq<World>,
    first: Seq<RequestView>,
    second: Seq<RequestView>,
    r: Seq<Reply>,
    at: int,
)
    requires
        history(worlds, first + second, r, at),
    ensures
        history(worlds.take(first.len() as int + 1), first, r, at),
        history(worlds.skip(first.len() as int), second, r, at + first.len()),
        worlds.take(first.len() as int + 1)[0] == worlds[0],
        worlds.take(first.len() as int + 1).last() == worlds.skip(first.len() as int)[0],
        worlds.skip(first.len() as int).last() == worlds.last(),
{
    let n = first.len() as int;
    let whole = first + second;
    let early = worlds.take(n + 1);
    let late = worlds.skip(n);
    assert forall|i: int| 0 <= i < n implies #[trigger] moves(
        early[i],
        first[i],
        r[at + i],
        early[i + 1],
    ) by {
        assert(moves(worlds[i], whole[i], r[at + i], worlds[i + 1]));
    }
    assert forall|i: int| 0 <= i < second.len() implies #[trigger] moves(
        late[i],
        second[i],
        r[at + n + i],
        late[i + 1],
    ) by {
        assert(moves(worlds[n + i], whole[n + i], r[at + (n + i)], worlds[n + i + 1]));
    }
}

/// What no request takes away stays.
proof fn lemma_left_until(
    worlds: Seq<World>,
    asked: Seq<RequestView>,
    r: Seq<Reply>,
    at: int,
    path: Seq<u8>,
    count: int,
)
    requires
        history(worlds, asked, r, at),
        forall|i: int| 0 <= i < asked.len() ==> leaving(path)(#[trigger] asked[i]),
        worlds[0].has(path),
        0 <= count <= asked.len(),
    ensures
        kept(worlds[0], worlds[count], path),
    decreases count,
{
    if count > 0 {
        let i = count - 1;
        lemma_left_until(worlds, asked, r, at, path, i);
        assert(leaving(path)(asked[i]));
        assert(moves(worlds[i], asked[i], r[at + i], worlds[i + 1]));
        assert(kept(worlds[i], worlds[i + 1], path));
    }
}

/// What a workflow leaves where it is stays.
pub(crate) proof fn lemma_left<T>(step: Step<T>, r: Seq<Reply>, at: int, worlds: Seq<World>, path: Seq<u8>)
    requires
        every(step, leaving(path)),
        history(worlds, step.asked, r, at),
        worlds[0].has(path),
    ensures
        kept(worlds[0], worlds.last(), path),
{
    reveal(every);
    lemma_left_until(worlds, step.asked, r, at, path, step.asked.len() as int);
}

/// Whether a workflow keeps true what is true of the world it starts in,
/// wherever it stops.
#[verifier::opaque]
spec fn preserves<T>(
    step: Step<T>,
    r: Seq<Reply>,
    at: int,
    held: spec_fn(World) -> bool,
) -> bool {
    forall|worlds: Seq<World>|
        #[trigger] history(worlds, step.asked, r, at) && held(worlds[0]) ==> held(worlds.last())
}

broadcast proof fn preserve_chain<T, U>(
    first: Step<T>,
    next: spec_fn(T, int) -> Step<U>,
    r: Seq<Reply>,
    at: int,
    held: spec_fn(World) -> bool,
)
    requires
        counted(first, at),
        preserves(first, r, at, held),
        first.outcome matches Outcome::Done(value) ==> preserves(
            next(value, first.at),
            r,
            first.at,
            held,
        ),
    ensures
        #[trigger] preserves(chain(first, next), r, at, held),
{
    reveal(preserves);
    reveal(counted);
    let step = chain(first, next);
    assert forall|worlds: Seq<World>|
        #[trigger] history(worlds, step.asked, r, at) && held(worlds[0]) implies held(
        worlds.last(),
    ) by {
        if let Outcome::Done(value) = first.outcome {
            lemma_history_splits(worlds, first.asked, next(value, first.at).asked, r, at);
        } else {
            assert(step.asked =~= first.asked);
        }
    }
}

/// Whether a file of the planned digest stands at the source's path or in
/// quarantine.
pub open spec fn source_stands(plan: PlanView, quarantine: Seq<char>, world: World) -> bool {
    ||| world.has(raw(plan.source.path)) && world.digest(raw(plan.source.path))
        == plan.source.sha256
    ||| world.has(raw(quarantine)) && world.digest(raw(quarantine)) == plan.source.sha256
}

/// That a file of the planned digest stands at the source's path or in quarantine.
spec fn standing_source(plan: PlanView, quarantine: Seq<char>) -> spec_fn(World) -> bool {
    |world: World| source_stands(plan, quarantine, world)
}

/// What leaves both places as they are keeps the source.
broadcast proof fn preserve_left<T>(
    step: Step<T>,
    r: Seq<Reply>,
    at: int,
    plan: PlanView,
    quarantine: Seq<char>,
)
    requires
        every(step, leaving(raw(plan.source.path))),
        every(step, leaving(raw(quarantine))),
    ensures
        #[trigger] preserves(step, r, at, standing_source(plan, quarantine)),
{
    reveal(preserves);
    let held = standing_source(plan, quarantine);
    assert forall|worlds: Seq<World>|
        #[trigger] history(worlds, step.asked, r, at) && held(worlds[0]) implies held(
        worlds.last(),
    ) by {
        if worlds[0].has(raw(plan.source.path)) {
            lemma_left(step, r, at, worlds, raw(plan.source.path));
        }
        if worlds[0].has(raw(quarantine)) {
            lemma_left(step, r, at, worlds, raw(quarantine));
        }
    }
}

proof fn preserve_finish(
    plan: PlanView,
    journal: JournalView,
    quarantine: Seq<char>,
    r: Seq<Reply>,
    at: int,
)
    requires
        journal.quarantine_path == Some(quarantine),
        raw(quarantine) != raw(plan.source.path),
    ensures
        preserves(
            finish_quarantine_step(plan, journal, r, at),
            r,
            at,
            standing_source(plan, quarantine),
        ),
{
    reveal(preserves);
    let step = finish_quarantine_step(plan, journal, r, at);
    let held = standing_source(plan, quarantine);
    assert forall|worlds: Seq<World>|
        #[trigger] history(worlds, step.asked, r, at) && held(worlds[0]) implies held(
        worlds.last(),
    ) by {
        law_quarantine_never_loses_the_source(plan, journal, quarantine, r, at, worlds[0]);
        reveal(leads);
    }
}

/// The transaction of a plan.
pub open spec fn transaction_of(plan: PlanView, version: Seq<char>) -> TransactionView {
    TransactionView {
        plan,
        directory: transaction_directory(parent(plan.destination_path)->0, plan),
        version,
    }
}

/// Whether every journal among some replies names the planned quarantine, or none.
pub open spec fn planned_quarantine_only(plan: PlanView, r: Seq<Reply>) -> bool {
    forall|i: int|
        0 <= i < r.len() ==> (#[trigger] r[i] matches Reply::Journal(evaluated) ==> (
        evaluated.decoded matches Ok(journal) ==> (journal.deep_view().quarantine_path matches Some(
            place,
        ) ==> quarantine_text(plan) == Ok::<Option<Seq<char>>, Seq<char>>(Some(place)))))
}

/// Whether a journal names the given quarantine, or none.
spec fn names_only(journal: JournalView, quarantine: Seq<char>) -> bool {
    journal.quarantine_path matches Some(place) ==> place == quarantine
}

proof fn lemma_opened_names_only(
    t: TransactionView,
    quarantine: Seq<char>,
    r: Seq<Reply>,
    at: int,
)
    requires
        planned_quarantine_only(t.plan, r),
        quarantine_text(t.plan) == Ok::<Option<Seq<char>>, Seq<char>>(Some(quarantine)),
    ensures
        open_journal_step(t, r, at).outcome matches Outcome::Done(journal) ==> names_only(
            journal,
            quarantine,
        ),
{
    reveal(open_journal_step);
    reveal(load_journal_step);
    reveal(enter_step);
}

proof fn lemma_archived_names_only(
    t: TransactionView,
    journal: JournalView,
    quarantine: Seq<char>,
    r: Seq<Reply>,
    at: int,
)
    requires
        names_only(journal, quarantine),
        quarantine_text(t.plan) == Ok::<Option<Seq<char>>, Seq<char>>(Some(quarantine)),
    ensures
        archive_step(t, journal, r, at).outcome matches Outcome::Done(after) ==> names_only(
            after,
            quarantine,
        ),
{
    reveal(archive_step);
    reveal(prepared_step);
    reveal(staged_step);
    reveal(published_step);
    reveal(verified_step);
    reveal(enter_step);
}

proof fn count_dispose(t: TransactionView, journal: JournalView, r: Seq<Reply>, at: int)
    ensures
        counted(dispose_step(t, journal, r, at), at),
{
    broadcast use {group_counted, count_manifested, count_linked};

    reveal(dispose_step);
}

proof fn preserve_dispose(
    t: TransactionView,
    journal: JournalView,
    quarantine: Seq<char>,
    r: Seq<Reply>,
    at: int,
)
    requires
        t.plan.source_disposition == SourceDisposition::Quarantine,
        names_only(journal, quarantine),
        raw(quarantine) != raw(t.plan.source.path),
        !scratch(t, raw(t.plan.source.path)),
        !scratch(t, raw(quarantine)),
    ensures
        preserves(dispose_step(t, journal, r, at), r, at, standing_source(t.plan, quarantine)),
{
    reveal(dispose_step);
    let held = standing_source(t.plan, quarantine);
    let first = manifested_step(t, journal, r, at);
    let next = |journal: JournalView, at: int| linked_step(t, journal, r, at);
    count_manifested(t, journal, r, at);
    assert(preserves(first, r, at, held)) by {
        broadcast use {group_every, leave_enter, leave_quarantine_link, preserve_left};

        reveal(manifested_step);
    }
    if let Outcome::Done(linked) = first.outcome {
        assert(names_only(linked, quarantine)) by {
            reveal(manifested_step);
            reveal(enter_step);
        }
        preserve_linked(t, linked, quarantine, r, first.at);
    }
    preserve_chain(first, next, r, at, held);
}

proof fn preserve_linked(
    t: TransactionView,
    journal: JournalView,
    quarantine: Seq<char>,
    r: Seq<Reply>,
    at: int,
)
    requires
        names_only(journal, quarantine),
        raw(quarantine) != raw(t.plan.source.path),
        !scratch(t, raw(t.plan.source.path)),
        !scratch(t, raw(quarantine)),
    ensures
        preserves(linked_step(t, journal, r, at), r, at, standing_source(t.plan, quarantine)),
{
    let held = standing_source(t.plan, quarantine);
    let first = finish_quarantine_step(t.plan, journal, r, at);
    count_finish_quarantine(t.plan, journal, r, at);
    assert(preserves(first, r, at, held)) by {
        if journal.quarantine_path is Some {
            preserve_finish(t.plan, journal, quarantine, r, at);
        } else {
            broadcast use {group_every, preserve_left};

            reveal(finish_quarantine_step);
        }
    }
    broadcast use {group_every, leave_enter, preserve_left, preserve_chain};

    reveal(linked_step);
}

proof fn preserve_carry_on(
    t: TransactionView,
    journal: JournalView,
    quarantine: Seq<char>,
    r: Seq<Reply>,
    at: int,
)
    requires
        t.plan.source_disposition == SourceDisposition::Quarantine,
        quarantine_text(t.plan) == Ok::<Option<Seq<char>>, Seq<char>>(Some(quarantine)),
        names_only(journal, quarantine),
        raw(quarantine) != raw(t.plan.source.path),
        !scratch(t, raw(t.plan.source.path)),
        !scratch(t, raw(quarantine)),
    ensures
        preserves(carry_on_step(t, journal, r, at), r, at, standing_source(t.plan, quarantine)),
{
    reveal(carry_on_step);
    let held = standing_source(t.plan, quarantine);
    let first = archive_step(t, journal, r, at);
    count_archive(t, journal, r, at);
    leave_archive(t, journal, r, at, raw(t.plan.source.path));
    leave_archive(t, journal, r, at, raw(quarantine));
    preserve_left(first, r, at, t.plan, quarantine);
    lemma_archived_names_only(t, journal, quarantine, r, at);
    if let Outcome::Done(after) = first.outcome {
        preserve_dispose(t, after, quarantine, r, first.at);
        count_dispose(t, after, r, first.at);
    }
    broadcast use {group_every, preserve_left, preserve_chain};

}

/// With quarantine, a whole run of a plan never loses its source: from whatever
/// journal it goes on and wherever it stops, a file of the planned digest that
/// stood at the source's path or in quarantine stands at one of them.
pub proof fn law_apply_never_loses_the_source(
    path: Seq<u8>,
    plan: PlanView,
    version: Seq<char>,
    quarantine: Seq<char>,
    r: Seq<Reply>,
    at: int,
    worlds: Seq<World>,
)
    requires
        load_plan_step(path, r, at).outcome == Outcome::Done(plan),
        quarantine_text(plan) == Ok::<Option<Seq<char>>, Seq<char>>(Some(quarantine)),
        raw(quarantine) != raw(plan.source.path),
        !scratch(transaction_of(plan, version), raw(plan.source.path)),
        !scratch(transaction_of(plan, version), raw(quarantine)),
        planned_quarantine_only(plan, r),
        history(worlds, apply_step(path, version, r, at).asked, r, at),
        source_stands(plan, quarantine, worlds[0]),
    ensures
        source_stands(plan, quarantine, worlds.last()),
{
    let held = standing_source(plan, quarantine);
    let t = transaction_of(plan, version);
    let load = load_plan_step(path, r, at);
    count_load_plan(path, r, at);
    assert(preserves(load, r, at, held)) by {
        broadcast use {group_every, preserve_left};

        reveal(load_plan_step);
    }
    preserve_execute(plan, version, quarantine, r, load.at);
    assert(preserves(apply_step(path, version, r, at), r, at, held)) by {
        reveal(apply_step);
        broadcast use preserve_chain;

    }
    reveal(preserves);
}

proof fn preserve_execute(
    plan: PlanView,
    version: Seq<char>,
    quarantine: Seq<char>,
    r: Seq<Reply>,
    at: int,
)
    requires
        quarantine_text(plan) == Ok::<Option<Seq<char>>, Seq<char>>(Some(quarantine)),
        raw(quarantine) != raw(plan.source.path),
        !scratch(transaction_of(plan, version), raw(plan.source.path)),
        !scratch(transaction_of(plan, version), raw(quarantine)),
        planned_quarantine_only(plan, r),
    ensures
        preserves(execute_step(plan, version, r, at), r, at, standing_source(plan, quarantine)),
{
    reveal(execute_step);
    let t = transaction_of(plan, version);
    let held = standing_source(plan, quarantine);
    assert forall|place: Seq<u8>, p: int| #[trigger]
        preserves(
            ensure_directory_step(place, r, p),
            r,
            p,
            held,
        ) by {
        leave_ensure_directory(place, r, p, raw(plan.source.path));
        leave_ensure_directory(place, r, p, raw(quarantine));
        preserve_left(
            ensure_directory_step(place, r, p),
            r,
            p,
            plan,
            quarantine,
        );
    }
    assert forall|p: int| #[trigger] preserves(open_journal_step(t, r, p), r, p, held) by {
        leave_open_journal(t, r, p, raw(plan.source.path));
        leave_open_journal(t, r, p, raw(quarantine));
        preserve_left(open_journal_step(t, r, p), r, p, plan, quarantine);
    }
    assert forall|p: int|
        (#[trigger] open_journal_step(t, r, p)).outcome matches Outcome::Done(journal)
            ==> preserves(
            carry_on_step(t, journal, r, open_journal_step(t, r, p).at),
            r,
            open_journal_step(t, r, p).at,
            held,
        ) by {
        lemma_opened_names_only(t, quarantine, r, p);
        if let Outcome::Done(journal) = open_journal_step(t, r, p).outcome {
            preserve_carry_on(t, journal, quarantine, r, open_journal_step(t, r, p).at);
        }
    }
    broadcast use {
        group_every,
        preserve_left,
        preserve_chain,
        count_ensure_directory,
        count_open_journal,
    };

}

/// What no request makes at a path is not there.
proof fn lemma_absent_until(
    worlds: Seq<World>,
    asked: Seq<RequestView>,
    r: Seq<Reply>,
    at: int,
    path: Seq<u8>,
    count: int,
)
    requires
        history(worlds, asked, r, at),
        forall|i: int| 0 <= i < asked.len() ==> sparing(path)(#[trigger] asked[i]),
        !worlds[0].has(path),
        0 <= count <= asked.len(),
    ensures
        !worlds[count].has(path),
    decreases count,
{
    if count > 0 {
        let i = count - 1;
        lemma_absent_until(worlds, asked, r, at, path, i);
        assert(sparing(path)(asked[i]));
        assert(moves(worlds[i], asked[i], r[at + i], worlds[i + 1]));
    }
}

pub(crate) proof fn lemma_absent<T>(step: Step<T>, r: Seq<Reply>, at: int, worlds: Seq<World>, path: Seq<u8>)
    requires
        every(step, sparing(path)),
        history(worlds, step.asked, r, at),
        !worlds[0].has(path),
    ensures
        !worlds.last().has(path),
{
    reveal(every);
    lemma_absent_until(worlds, step.asked, r, at, path, step.asked.len() as int);
}

/// The directories of a transaction are not its journal.
pub(crate) proof fn lemma_journal_is_no_directory(plan: PlanView, version: Seq<char>)
    ensures
        ({
            let t = transaction_of(plan, version);
            &&& raw(transactions_root(parent(plan.destination_path)->0)) != raw(t.journal())
            &&& raw(t.directory) != raw(t.journal())
        }),
{
    let t = transaction_of(plan, version);
    let root = transactions_root(parent(plan.destination_path)->0);
    reveal_strlit("journal.pkl");
    reveal_strlit(".marchiver-transactions");
    reveal_strlit("/");
    assert(t.journal()[t.journal().len() - 1] == 'l');
    assert(root[root.len() - 1] == 's');
    assert(t.journal().len() > t.directory.len());
    if raw(root) == raw(t.journal()) {
        law_texts_have_bytes_of_their_own(root, t.journal());
    }
    if raw(t.directory) == raw(t.journal()) {
        law_texts_have_bytes_of_their_own(t.directory, t.journal());
    }
}

/// Where there is no journal, a transaction begins with a new one, and where its
/// output and manifest will stand there is nothing.
proof fn lemma_begun(t: TransactionView, r: Seq<Reply>, at: int, worlds: Seq<World>)
    requires
        history(worlds, open_journal_step(t, r, at).asked, r, at),
        !worlds[0].has(raw(t.journal())),
        open_journal_step(t, r, at).outcome is Done,
    ensures
        open_journal_step(t, r, at).outcome == Outcome::Done(
            fresh_journal(t.plan, t.staging(), t.version),
        ),
        !worlds[0].has(raw(t.plan.destination_path)),
        !worlds[0].has(raw(t.plan.manifest_path)),
{
    reveal(open_journal_step);
    reveal(enter_step);
    let asked = open_journal_step(t, r, at).asked;
    let i: int = 0;
    assert(asked[i] == (RequestView::Exists { path: raw(t.journal()) }));
    assert(moves(worlds[i], asked[i], r[at + i], worlds[i + 1]));
    assert(r[at] == Reply::Flag(false));
    let j: int = 1;
    assert(asked[j] == (RequestView::Exists { path: raw(t.plan.destination_path) }));
    assert(moves(worlds[j], asked[j], r[at + j], worlds[j + 1]));
    let k: int = 2;
    assert(asked[k] == (RequestView::Exists { path: raw(t.plan.manifest_path) }));
    assert(moves(worlds[k], asked[k], r[at + k], worlds[k + 1]));
}

/// The beginning of a run: the transaction's directories and its journal.
pub open spec fn begin_step(plan: PlanView, version: Seq<char>, r: Seq<Reply>, at: int) -> Step<
    JournalView,
> {
    let t = transaction_of(plan, version);
    chain(
        ensure_directory_step(raw(transactions_root(parent(plan.destination_path)->0)), r, at),
        |_root: (), at: int|
            chain(
                ensure_directory_step(raw(t.directory), r, at),
                |_directory: (), at: int| open_journal_step(t, r, at),
            ),
    )
}

/// The journal that a run takes up: the one it finds, or a new one.
pub open spec fn taken_up(plan: PlanView, version: Seq<char>, r: Seq<Reply>, at: int) -> JournalView {
    begin_step(plan, version, r, at).outcome->Done_0
}

/// Whether a run finds no journal, or takes up one at a phase or before it.
pub open spec fn takes_up_by(
    plan: PlanView,
    version: Seq<char>,
    r: Seq<Reply>,
    at: int,
    world: World,
    phase: Phase,
) -> bool {
    ||| !world.has(raw(transaction_of(plan, version).journal()))
    ||| taken_up(plan, version, r, at).phase.rank() <= phase.rank()
}

/// A run is its beginning and what it carries on from there.
pub(crate) proof fn lemma_run(plan: PlanView, version: Seq<char>, r: Seq<Reply>, at: int)
    requires
        parent(plan.destination_path) is Some,
    ensures
        execute_step(plan, version, r, at) == chain(
            begin_step(plan, version, r, at),
            |journal: JournalView, at: int|
                carry_on_step(transaction_of(plan, version), journal, r, at),
        ),
        counted(begin_step(plan, version, r, at), at),
{
    broadcast use {group_counted, count_ensure_directory, count_open_journal};

    reveal(execute_step);
    let t = transaction_of(plan, version);
    let one = ensure_directory_step(
        raw(transactions_root(parent(plan.destination_path)->0)),
        r,
        at,
    );
    let two = ensure_directory_step(raw(t.directory), r, one.at);
    let three = open_journal_step(t, r, two.at);
    let run = execute_step(plan, version, r, at);
    let carry = |journal: JournalView, at: int| carry_on_step(t, journal, r, at);
    let other = chain(begin_step(plan, version, r, at), carry);
    assert(run.asked =~= other.asked);
}

proof fn lemma_begin_leaves(
    plan: PlanView,
    version: Seq<char>,
    r: Seq<Reply>,
    at: int,
    kept: Seq<u8>,
)
    requires
        !scratch(transaction_of(plan, version), kept),
    ensures
        every(begin_step(plan, version, r, at), leaving(kept)),
{
    broadcast use {group_every, leave_ensure_directory, leave_open_journal};

}

/// Where there is no journal, a run begins with a new one; and where its output
/// and manifest will stand there is nothing.
proof fn lemma_begun_afresh(
    plan: PlanView,
    version: Seq<char>,
    r: Seq<Reply>,
    at: int,
    worlds: Seq<World>,
)
    requires
        history(worlds, begin_step(plan, version, r, at).asked, r, at),
        !worlds[0].has(raw(transaction_of(plan, version).journal())),
        begin_step(plan, version, r, at).outcome is Done,
    ensures
        ({
            let t = transaction_of(plan, version);
            &&& begin_step(plan, version, r, at).outcome == Outcome::Done(
                fresh_journal(plan, t.staging(), version),
            )
            &&& !worlds[0].has(raw(plan.destination_path))
            &&& !worlds[0].has(raw(plan.manifest_path))
        }),
{
    let t = transaction_of(plan, version);
    let root = raw(transactions_root(parent(plan.destination_path)->0));
    let journal = raw(t.journal());
    let one = ensure_directory_step(root, r, at);
    let two = ensure_directory_step(raw(t.directory), r, one.at);
    let three = open_journal_step(t, r, two.at);
    count_ensure_directory(root, r, at);
    count_ensure_directory(raw(t.directory), r, one.at);
    reveal(counted);
    lemma_journal_is_no_directory(plan, version);
    assert(begin_step(plan, version, r, at).asked == one.asked + (two.asked + three.asked));
    lemma_history_splits(worlds, one.asked, two.asked + three.asked, r, at);
    let first = worlds.take(one.asked.len() as int + 1);
    let rest = worlds.skip(one.asked.len() as int);
    lemma_history_splits(rest, two.asked, three.asked, r, one.at);
    let second = rest.take(two.asked.len() as int + 1);
    let third = rest.skip(two.asked.len() as int);
    spare_ensure_directory(root, r, at, journal);
    spare_ensure_directory(raw(t.directory), r, one.at, journal);
    lemma_absent(one, r, at, first, journal);
    lemma_absent(two, r, one.at, second, journal);
    lemma_begun(t, r, two.at, third);
    assert forall|place: Seq<u8>| worlds[0].has(place) implies #[trigger] third[0].has(place) by {
        leave_ensure_directory(root, r, at, place);
        leave_ensure_directory(raw(t.directory), r, one.at, place);
        lemma_left(one, r, at, first, place);
        lemma_left(two, r, one.at, second, place);
    }
    if worlds[0].has(raw(plan.destination_path)) {
        assert(third[0].has(raw(plan.destination_path)));
    }
    if worlds[0].has(raw(plan.manifest_path)) {
        assert(third[0].has(raw(plan.manifest_path)));
    }
}

/// Where a manifest is published, it stands.
pub(crate) proof fn lemma_manifest_published(
    t: TransactionView,
    manifest: ManifestView,
    r: Seq<Reply>,
    at: int,
    worlds: Seq<World>,
)
    requires
        raw(manifest_staging_place(t.directory)) != raw(t.plan.manifest_path),
        history(worlds, publish_manifest_step(t, manifest, r, at).asked, r, at),
        publish_manifest_step(t, manifest, r, at).outcome is Done,
    ensures
        worlds.last().has(raw(t.plan.manifest_path)),
{
    reveal(publish_manifest_step);
    let path = raw(t.plan.manifest_path);
    let temporary = raw(manifest_staging_place(t.directory));
    let first = exists_step(path, r, at);
    let step = publish_manifest_step(t, manifest, r, at);
    let i: int = 0;
    assert(step.asked[i] == (RequestView::Exists { path }));
    assert(moves(worlds[i], step.asked[i], r[at + i], worlds[i + 1]));
    if r[at] == Reply::Flag(true) {
        leave_manifest_found(t, manifest, r, at);
        lemma_left(step, r, at, worlds, path);
    } else {
        reveal(publish_text_step);
        let clear = clear_internal_step(temporary, r, at + 1);
        count_clear_internal(temporary, r, at + 1);
        reveal(counted);
        let publish = publish_new_step(
            temporary,
            path,
            manifest_text(manifest),
            "no-replace publication '"@ + shown(path) + "' failed"@,
            "cannot remove manifest staging"@,
            r,
            clear.at,
        );
        assert(step.asked =~= first.asked + (clear.asked + publish.asked));
        lemma_history_splits(worlds, first.asked, clear.asked + publish.asked, r, at);
        let rest = worlds.skip(first.asked.len() as int);
        lemma_history_splits(rest, clear.asked, publish.asked, r, at + 1);
        let last = rest.skip(clear.asked.len() as int);
        law_publication_replaces_nothing(
            temporary,
            path,
            manifest_text(manifest),
            "no-replace publication '"@ + shown(path) + "' failed"@,
            "cannot remove manifest staging"@,
            r,
            clear.at,
            last[0],
        );
        reveal(leads);
        assert(issued(path, last[0], last.last(), publish.outcome));
    }
}

proof fn leave_manifest_found(
    t: TransactionView,
    manifest: ManifestView,
    r: Seq<Reply>,
    at: int,
)
    requires
        raw(manifest_staging_place(t.directory)) != raw(t.plan.manifest_path),
    ensures
        every(publish_manifest_step(t, manifest, r, at), leaving(raw(t.plan.manifest_path))),
{
    broadcast use {group_every, leave_load_manifest, leave_publish_text};

    reveal(publish_manifest_step);
}

pub(crate) proof fn count_publish_manifest(
    t: TransactionView,
    manifest: ManifestView,
    r: Seq<Reply>,
    at: int,
)
    ensures
        counted(publish_manifest_step(t, manifest, r, at), at),
{
    broadcast use {group_counted, count_load_manifest, count_publish_text};

    reveal(publish_manifest_step);
}

/// Where archiving has come to its end, the manifest stands.
proof fn lemma_archived_stands(
    t: TransactionView,
    journal: JournalView,
    r: Seq<Reply>,
    at: int,
    worlds: Seq<World>,
)
    requires
        journal.phase.rank() <= Phase::Verified.rank(),
        !scratch(t, raw(t.plan.manifest_path)),
        history(worlds, archive_step(t, journal, r, at).asked, r, at),
        archive_step(t, journal, r, at).outcome is Done,
    ensures
        worlds.last().has(raw(t.plan.manifest_path)),
{
    reveal(archive_step);
    reveal(counted);
    let one = prepared_step(t, journal, r, at);
    count_prepared(t, journal, r, at);
    let j1 = one.outcome->Done_0;
    let two = staged_step(t, j1, r, one.at);
    count_staged(t, j1, r, one.at);
    let j2 = two.outcome->Done_0;
    let three = published_step(t, j2, r, two.at);
    count_published(t, j2, r, two.at);
    let j3 = three.outcome->Done_0;
    let four = verified_step(t, j3, r, three.at);
    assert(j3.phase == Phase::Verified) by {
        reveal(prepared_step);
        reveal(staged_step);
        reveal(published_step);
        reveal(enter_step);
    }
    assert(archive_step(t, journal, r, at).asked == one.asked + (two.asked + (three.asked
        + four.asked)));
    lemma_history_splits(worlds, one.asked, two.asked + (three.asked + four.asked), r, at);
    let w1 = worlds.skip(one.asked.len() as int);
    lemma_history_splits(w1, two.asked, three.asked + four.asked, r, one.at);
    let w2 = w1.skip(two.asked.len() as int);
    lemma_history_splits(w2, three.asked, four.asked, r, two.at);
    let w3 = w2.skip(three.asked.len() as int);
    lemma_verified_stands(t, j3, r, three.at, w3);
}

proof fn lemma_verified_stands(
    t: TransactionView,
    journal: JournalView,
    r: Seq<Reply>,
    at: int,
    worlds: Seq<World>,
)
    requires
        journal.phase == Phase::Verified,
        !scratch(t, raw(t.plan.manifest_path)),
        history(worlds, verified_step(t, journal, r, at).asked, r, at),
        verified_step(t, journal, r, at).outcome is Done,
    ensures
        worlds.last().has(raw(t.plan.manifest_path)),
{
    reveal(verified_step);
    reveal(counted);
    let path = raw(t.plan.manifest_path);
    let quarantine = quarantine_text(t.plan)->Ok_0;
    let manifest = manifest_of(t.plan, journal.output->0, quarantine, t.version);
    let publish = publish_manifest_step(t, manifest, r, at);
    count_publish_manifest(t, manifest, r, at);
    let enter = enter_step(t, manifested_journal(journal, quarantine), r, publish.at);
    lemma_history_splits(worlds, publish.asked, enter.asked, r, at);
    lemma_manifest_published(
        t,
        manifest,
        r,
        at,
        worlds.take(publish.asked.len() as int + 1),
    );
    leave_enter(t, manifested_journal(journal, quarantine), r, publish.at, path);
    lemma_left(enter, r, publish.at, worlds.skip(publish.asked.len() as int), path);
}

/// Where a transaction that begins afresh does not come to the end of its
/// archiving, it leaves everything but its own files where it is.
proof fn lemma_unfinished_leaves(
    plan: PlanView,
    version: Seq<char>,
    r: Seq<Reply>,
    at: int,
    kept: Seq<u8>,
)
    requires
        !scratch(transaction_of(plan, version), kept),
        begin_step(plan, version, r, at).outcome matches Outcome::Done(journal) ==> archive_step(
            transaction_of(plan, version),
            journal,
            r,
            begin_step(plan, version, r, at).at,
        ).outcome !is Done,
    ensures
        every(execute_step(plan, version, r, at), leaving(kept)),
{
    if parent(plan.destination_path) is Some {
        lemma_run(plan, version, r, at);
        lemma_begin_leaves(plan, version, r, at, kept);
        broadcast use {group_every, leave_archive};

        reveal(carry_on_step);
    } else {
        broadcast use group_every;

        reveal(execute_step);
    }
}

/// What a run shows of the world where its archiving comes to its end: `late` is
/// what the disposal of the source leads through.
proof fn lemma_archived_late(
    plan: PlanView,
    version: Seq<char>,
    r: Seq<Reply>,
    at: int,
    worlds: Seq<World>,
) -> (late: Seq<World>)
    requires
        parent(plan.destination_path) is Some,
        !scratch(transaction_of(plan, version), raw(plan.manifest_path)),
        history(worlds, execute_step(plan, version, r, at).asked, r, at),
        begin_step(plan, version, r, at).outcome matches Outcome::Done(journal) && journal.phase
            != Phase::Complete && archive_step(
            transaction_of(plan, version),
            journal,
            r,
            begin_step(plan, version, r, at).at,
        ).outcome is Done,
    ensures
        ({
            let t = transaction_of(plan, version);
            let begin = begin_step(plan, version, r, at);
            let journal = taken_up(plan, version, r, at);
            let archive = archive_step(t, journal, r, begin.at);
            let dispose = dispose_step(t, archive.outcome->Done_0, r, archive.at);
            &&& at <= begin.at
            &&& history(late, dispose.asked, r, archive.at)
            &&& late == worlds.skip(worlds.len() - dispose.asked.len() - 1)
            &&& late.last() == worlds.last()
            &&& journal.phase.rank() <= Phase::Verified.rank() ==> late[0].has(
                raw(plan.manifest_path),
            )
            &&& execute_step(plan, version, r, at).outcome is Done ==> dispose.outcome is Done
            &&& forall|place: Seq<u8>|
                !scratch(t, place) && worlds[0].has(place) ==> #[trigger] kept(
                    worlds[0],
                    late[0],
                    place,
                )
        }),
{
    let t = transaction_of(plan, version);
    let begin = begin_step(plan, version, r, at);
    let journal = begin.outcome->Done_0;
    let archive = archive_step(t, journal, r, begin.at);
    let after = archive.outcome->Done_0;
    let dispose = dispose_step(t, after, r, archive.at);
    lemma_run(plan, version, r, at);
    count_archive(t, journal, r, begin.at);
    reveal(counted);
    let carry = carry_on_step(t, journal, r, begin.at);
    lemma_history_splits(worlds, begin.asked, carry.asked, r, at);
    let first = worlds.take(begin.asked.len() as int + 1);
    let rest = worlds.skip(begin.asked.len() as int);
    assert(carry.asked =~= archive.asked + dispose.asked) by {
        reveal(carry_on_step);
    }
    assert(carry.outcome is Done ==> dispose.outcome is Done) by {
        reveal(carry_on_step);
    }
    lemma_history_splits(rest, archive.asked, dispose.asked, r, begin.at);
    let second = rest.take(archive.asked.len() as int + 1);
    let late = rest.skip(archive.asked.len() as int);
    if journal.phase.rank() <= Phase::Verified.rank() {
        lemma_archived_stands(t, journal, r, begin.at, second);
    }
    assert forall|place: Seq<u8>|
        !scratch(t, place) && worlds[0].has(place) implies #[trigger] kept(
        worlds[0],
        late[0],
        place,
    ) by {
        lemma_begin_leaves(plan, version, r, at, place);
        lemma_left(begin, r, at, first, place);
        leave_archive(t, journal, r, begin.at, place);
        lemma_left(archive, r, begin.at, second, place);
    }
    assert(late =~= worlds.skip(worlds.len() - dispose.asked.len() - 1));
    late
}

/// A source goes only behind a sound archive: where a run that found no journal,
/// or one not behind the publication of the output, has taken away the source's
/// name, that was planned, the manifest stands, and what stands at the destination
/// was compared with the source and decoded in full. A journal that is found is of
/// a plan whose manifest is not in the source's own place; where none is found,
/// that is so of itself.
pub proof fn law_source_goes_behind_a_sound_archive(
    path: Seq<u8>,
    plan: PlanView,
    version: Seq<char>,
    r: Seq<Reply>,
    at: int,
    worlds: Seq<World>,
)
    requires
        load_plan_step(path, r, at).outcome == Outcome::Done(plan),
        !scratch(transaction_of(plan, version), raw(plan.source.path)),
        !scratch(transaction_of(plan, version), raw(plan.manifest_path)),
        history(worlds, apply_step(path, version, r, at).asked, r, at),
        takes_up_by(
            plan,
            version,
            r,
            load_plan_step(path, r, at).at,
            worlds[0],
            Phase::Published,
        ),
        worlds[0].has(raw(transaction_of(plan, version).journal())) ==> raw(plan.manifest_path)
            != raw(plan.source.path),
        worlds[0].has(raw(plan.source.path)),
        !worlds.last().has(raw(plan.source.path)),
    ensures
        plan.source_disposition != SourceDisposition::Preserve,
        worlds.last().has(raw(plan.manifest_path)),
        exists|output: EvidenceView, from: int|
            at <= from && #[trigger] soundly_archived(
                transaction_of(plan, version),
                output,
                r,
                from,
            ),
{
    let t = transaction_of(plan, version);
    let source = raw(plan.source.path);
    let load = load_plan_step(path, r, at);
    let run = execute_step(plan, version, r, load.at);
    let rest = lemma_loaded(path, plan, version, r, at, worlds);
    let begin = begin_step(plan, version, r, load.at);
    let archived = begin.outcome matches Outcome::Done(journal) && archive_step(
        t,
        journal,
        r,
        begin.at,
    ).outcome is Done;
    if !archived {
        lemma_unfinished_leaves(plan, version, r, load.at, source);
        lemma_left(run, r, load.at, rest, source);
    } else if parent(plan.destination_path) is None {
        assert(run.asked.len() == 0) by {
            reveal(execute_step);
        }
    } else {
        lemma_taken_up(plan, version, r, load.at, rest);
        let late = lemma_archived_late(plan, version, r, load.at, rest);
        let journal = taken_up(plan, version, r, load.at);
        let archive = archive_step(t, journal, r, begin.at);
        let after = archive.outcome->Done_0;
        let dispose = dispose_step(t, after, r, archive.at);
        law_archived_is_sound(t, journal, r, begin.at, after);
        assert(kept(rest[0], late[0], source));
        if plan.source_disposition == SourceDisposition::Preserve {
            leave_preserved(t, after, r, archive.at, source);
            lemma_left(dispose, r, archive.at, late, source);
        }
        leave_dispose(t, after, r, archive.at, raw(plan.manifest_path));
        lemma_left(dispose, r, archive.at, late, raw(plan.manifest_path));
    }
}

/// A run that finds no journal begins with a new one, and finds no manifest.
proof fn lemma_taken_up(
    plan: PlanView,
    version: Seq<char>,
    r: Seq<Reply>,
    at: int,
    worlds: Seq<World>,
)
    requires
        parent(plan.destination_path) is Some,
        history(worlds, execute_step(plan, version, r, at).asked, r, at),
        begin_step(plan, version, r, at).outcome is Done,
    ensures
        !worlds[0].has(raw(transaction_of(plan, version).journal())) ==> taken_up(
            plan,
            version,
            r,
            at,
        ) == fresh_journal(plan, transaction_of(plan, version).staging(), version)
            && !worlds[0].has(raw(plan.manifest_path)),
{
    if !worlds[0].has(raw(transaction_of(plan, version).journal())) {
        lemma_run(plan, version, r, at);
        let begin = begin_step(plan, version, r, at);
        let carry = carry_on_step(
            transaction_of(plan, version),
            taken_up(plan, version, r, at),
            r,
            begin.at,
        );
        lemma_history_splits(worlds, begin.asked, carry.asked, r, at);
        lemma_begun_afresh(plan, version, r, at, worlds.take(begin.asked.len() as int + 1));
    }
}

/// Loading a plan changes nothing: `rest` is what its execution leads through.
pub(crate) proof fn lemma_loaded(
    path: Seq<u8>,
    plan: PlanView,
    version: Seq<char>,
    r: Seq<Reply>,
    at: int,
    worlds: Seq<World>,
) -> (rest: Seq<World>)
    requires
        load_plan_step(path, r, at).outcome == Outcome::Done(plan),
        history(worlds, apply_step(path, version, r, at).asked, r, at),
    ensures
        at < load_plan_step(path, r, at).at,
        history(
            rest,
            execute_step(plan, version, r, load_plan_step(path, r, at).at).asked,
            r,
            load_plan_step(path, r, at).at,
        ),
        apply_step(path, version, r, at).outcome == execute_step(
            plan,
            version,
            r,
            load_plan_step(path, r, at).at,
        ).outcome,
        rest[0] == worlds[0],
        rest.last() == worlds.last(),
{
    reveal(apply_step);
    reveal(load_plan_step);
    let load = load_plan_step(path, r, at);
    let run = execute_step(plan, version, r, load.at);
    lemma_history_splits(worlds, load.asked, run.asked, r, at);
    let i: int = 0;
    assert(load.asked[i] == (RequestView::EvaluatePlan { path }));
    let first = worlds.take(load.asked.len() as int + 1);
    assert(moves(first[i], load.asked[i], r[at + i], first[i + 1]));
    worlds.skip(load.asked.len() as int)
}

/// Whether a reply says that all went well: what was asked is answered, what was
/// to be done is done, and what is looked at is a regular file.
pub open spec fn willing(request: RequestView, reply: Reply) -> bool {
    match request {
        RequestView::Exists { .. } => reply is Flag,
        RequestView::Kind { .. } => reply == Reply::Kind(FileKind::Regular),
        RequestView::Resolve { .. } => reply is Resolved,
        RequestView::Stat { .. } => reply is Stat,
        RequestView::Hash { .. } => reply is Digest,
        RequestView::HardLink { .. } => reply is Finished,
        RequestView::Remove { .. } => reply is Finished,
        RequestView::SyncFile { .. } => reply is Finished,
        RequestView::SyncDirectory { .. } => reply is Finished,
        _ => true,
    }
}

/// Whether every reply to some requests says that all went well.
pub open spec fn all_willing(asked: Seq<RequestView>, r: Seq<Reply>, at: int) -> bool {
    forall|i: int| 0 <= i < asked.len() ==> #[trigger] willing(asked[i], r[at + i])
}

/// Whether a workflow, in a world where all goes well, does not fail, and comes
/// to what is wanted where it comes to its end.
#[verifier::opaque]
spec fn succeeds<T>(
    step: Step<T>,
    r: Seq<Reply>,
    at: int,
    world: World,
    wanted: spec_fn(World, T) -> bool,
) -> bool {
    forall|worlds: Seq<World>|
        #[trigger] history(worlds, step.asked, r, at) && worlds[0] == world && all_willing(
            step.asked,
            r,
            at,
        ) ==> step.outcome !is Fail && (step.outcome matches Outcome::Done(value) ==> wanted(
            worlds.last(),
            value,
        ))
}

broadcast proof fn succeed_done<T>(
    value: T,
    p: int,
    r: Seq<Reply>,
    at: int,
    world: World,
    wanted: spec_fn(World, T) -> bool,
)
    requires
        wanted(world, value),
    ensures
        #[trigger] succeeds(done(value, p), r, at, world, wanted),
{
    reveal(succeeds);
}

broadcast proof fn succeed_consult<T>(
    request: RequestView,
    read: spec_fn(Reply) -> Result<T, Seq<char>>,
    r: Seq<Reply>,
    at: int,
    world: World,
    wanted: spec_fn(World, T) -> bool,
)
    requires
        reply_at(r, at) matches Some(reply) ==> (willing(request, reply) ==> forall|after: World|
            #[trigger] moves(world, request, reply, after) ==> (read(reply) matches Ok(value)
                && wanted(after, value))),
    ensures
        #[trigger] succeeds(consult(request, read, r, at), r, at, world, wanted),
{
    reveal(succeeds);
    let step = consult(request, read, r, at);
    assert forall|worlds: Seq<World>|
        #[trigger] history(worlds, step.asked, r, at) && worlds[0] == world && all_willing(
            step.asked,
            r,
            at,
        ) implies step.outcome !is Fail && (step.outcome matches Outcome::Done(value) ==> wanted(
        worlds.last(),
        value,
    )) by {
        if reply_at(r, at) is Some {
            let i: int = 0;
            assert(willing(step.asked[i], r[at + i]));
            assert(moves(worlds[i], step.asked[i], r[at + i], worlds[i + 1]));
        }
    }
}

/// What is wanted of the first of two workflows, given what is wanted of both.
spec fn wanted_first<T, U>(
    next: spec_fn(T, int) -> Step<U>,
    at: int,
    r: Seq<Reply>,
    wanted: spec_fn(World, U) -> bool,
) -> spec_fn(World, T) -> bool {
    |world: World, value: T| succeeds(next(value, at), r, at, world, wanted)
}

broadcast proof fn succeed_chain<T, U>(
    first: Step<T>,
    next: spec_fn(T, int) -> Step<U>,
    r: Seq<Reply>,
    at: int,
    world: World,
    wanted: spec_fn(World, U) -> bool,
)
    requires
        counted(first, at),
        succeeds(first, r, at, world, wanted_first(next, first.at, r, wanted)),
    ensures
        #[trigger] succeeds(chain(first, next), r, at, world, wanted),
{
    reveal(succeeds);
    reveal(counted);
    let step = chain(first, next);
    assert forall|worlds: Seq<World>|
        #[trigger] history(worlds, step.asked, r, at) && worlds[0] == world && all_willing(
            step.asked,
            r,
            at,
        ) implies step.outcome !is Fail && (step.outcome matches Outcome::Done(value) ==> wanted(
        worlds.last(),
        value,
    )) by {
        let n = first.asked.len() as int;
        let rest = match first.outcome {
            Outcome::Done(value) => next(value, first.at).asked,
            _ => Seq::empty(),
        };
        assert(step.asked =~= first.asked + rest);
        lemma_history_splits(worlds, first.asked, rest, r, at);
        assert(all_willing(first.asked, r, at)) by {
            assert forall|i: int| 0 <= i < first.asked.len() implies #[trigger] willing(
                first.asked[i],
                r[at + i],
            ) by {
                assert(willing(step.asked[i], r[at + i]));
            }
        }
        assert(all_willing(rest, r, first.at)) by {
            assert forall|i: int| 0 <= i < rest.len() implies #[trigger] willing(
                rest[i],
                r[first.at + i],
            ) by {
                assert(willing(step.asked[n + i], r[at + (n + i)]));
            }
        }
        assert(history(worlds.take(n + 1), first.asked, r, at));
        if let Outcome::Done(value) = first.outcome {
            assert(wanted_first(next, first.at, r, wanted)(worlds.take(n + 1).last(), value));
            assert(history(worlds.skip(n), rest, r, first.at));
        }
    }
}

broadcast group group_succeeds {
    succeed_done,
    succeed_consult,
    succeed_chain,
}

/// What succeeds with one thing succeeds with everything that it implies.
proof fn lemma_succeeds_widened<T>(
    step: Step<T>,
    r: Seq<Reply>,
    at: int,
    world: World,
    narrow: spec_fn(World, T) -> bool,
    wide: spec_fn(World, T) -> bool,
)
    requires
        succeeds(step, r, at, world, narrow),
        forall|after: World, value: T| #[trigger] narrow(after, value) ==> wide(after, value),
    ensures
        succeeds(step, r, at, world, wide),
{
    reveal(succeeds);
}

/// What is wanted of resolving a regular file.
spec fn same_file(path: Seq<u8>, world: World) -> spec_fn(World, Seq<u8>) -> bool {
    |after: World, file: Seq<u8>|
        after == world && world.has(file) && world.file(file) == world.file(path)
}

proof fn lemma_resolved(path: Seq<u8>, r: Seq<Reply>, at: int, world: World)
    ensures
        succeeds(regular_file_step(path, r, at), r, at, world, same_file(path, world)),
        counted(regular_file_step(path, r, at), at),
{
    broadcast use {group_succeeds, group_counted};

    reveal(regular_file_step);
}

broadcast proof fn succeed_hash_regular(
    path: Seq<u8>,
    r: Seq<Reply>,
    at: int,
    world: World,
    wanted: spec_fn(World, Seq<char>) -> bool,
)
    requires
        wanted(world, world.digest(path)),
    ensures
        #[trigger] succeeds(hash_regular_step(path, r, at), r, at, world, wanted),
{
    reveal(hash_regular_step);
    let first = regular_file_step(path, r, at);
    let next = |file: Seq<u8>, at: int| hash_step(file, r, at);
    lemma_resolved(path, r, at, world);
    assert forall|after: World, file: Seq<u8>| #[trigger]
        same_file(path, world)(after, file) implies wanted_first(next, first.at, r, wanted)(
        after,
        file,
    ) by {
        broadcast use succeed_consult;

    }
    lemma_succeeds_widened(
        first,
        r,
        at,
        world,
        same_file(path, world),
        wanted_first(next, first.at, r, wanted),
    );
    succeed_chain(first, next, r, at, world, wanted);
}

broadcast proof fn succeed_check(
    quarantine: Seq<u8>,
    sha256: Seq<char>,
    r: Seq<Reply>,
    at: int,
    world: World,
    wanted: spec_fn(World, ()) -> bool,
)
    requires
        world.has(quarantine) ==> world.digest(quarantine) == sha256,
        wanted(world, ()),
    ensures
        #[trigger] succeeds(
            check_quarantine_step(quarantine, sha256, r, at),
            r,
            at,
            world,
            wanted,
        ),
{
    broadcast use {group_succeeds, group_counted, succeed_hash_regular, count_hash_regular};

    reveal(check_quarantine_step);
}

broadcast proof fn succeed_add_name(
    from: Seq<u8>,
    to: Seq<u8>,
    refusal: Seq<char>,
    loss: Seq<char>,
    r: Seq<Reply>,
    at: int,
    world: World,
    wanted: spec_fn(World, ()) -> bool,
)
    requires
        wanted(linked(world, from, to), ()),
    ensures
        #[trigger] succeeds(
            add_name_step(from, to, refusal, loss, r, at),
            r,
            at,
            world,
            wanted,
        ),
{
    broadcast use {group_succeeds, group_counted};

    reveal(add_name_step);
}

broadcast proof fn succeed_drop_name(
    path: Seq<u8>,
    what: Seq<char>,
    r: Seq<Reply>,
    at: int,
    world: World,
    wanted: spec_fn(World, ()) -> bool,
)
    requires
        wanted(unlinked(world, path), ()),
    ensures
        #[trigger] succeeds(drop_name_step(path, what, r, at), r, at, world, wanted),
{
    broadcast use {group_succeeds, group_counted};

    reveal(drop_name_step);
}

/// What is wanted of a restoration from quarantine.
spec fn brought_back(source: Seq<u8>, quarantine: Seq<u8>, world: World) -> spec_fn(
    World,
    (),
) -> bool {
    |after: World, _done: ()| after == unlinked(linked(world, quarantine, source), quarantine)
}

/// What is wanted of a restoration that has nothing to do.
spec fn as_before(world: World) -> spec_fn(World, ()) -> bool {
    |after: World, _done: ()| after == world
}

proof fn lemma_restoration_succeeds(
    manifest: ManifestView,
    quarantine: Seq<char>,
    r: Seq<Reply>,
    at: int,
    world: World,
)
    requires
        manifest.source_disposition == SourceDisposition::Quarantine,
        manifest.quarantine_path == Some(quarantine),
        !world.has(raw(manifest.source.path)),
        world.has(raw(quarantine)),
        world.digest(raw(quarantine)) == manifest.source.sha256,
    ensures
        succeeds(
            restore_step(manifest, r, at),
            r,
            at,
            world,
            brought_back(raw(manifest.source.path), raw(quarantine), world),
        ),
{
    broadcast use {
        group_succeeds,
        group_counted,
        succeed_check,
        succeed_add_name,
        succeed_drop_name,
        count_check,
        count_add_name,
    };

    reveal(restore_step);
    reveal(restore_by_presence_step);
}

proof fn lemma_restored_rests(
    manifest: ManifestView,
    quarantine: Seq<char>,
    r: Seq<Reply>,
    at: int,
    world: World,
)
    requires
        manifest.source_disposition == SourceDisposition::Quarantine,
        manifest.quarantine_path == Some(quarantine),
        world.has(raw(manifest.source.path)),
        world.digest(raw(manifest.source.path)) == manifest.source.sha256,
        !world.has(raw(quarantine)),
    ensures
        succeeds(restore_step(manifest, r, at), r, at, world, as_before(world)),
{
    broadcast use {
        group_succeeds,
        group_counted,
        succeed_check,
        succeed_hash_regular,
        count_check,
        count_hash_regular,
    };

    reveal(restore_step);
    reveal(restore_by_presence_step);
}

/// Restoring twice is restoring once: behind a restoration that came to its end,
/// another one does not fail where all goes well, and changes nothing.
pub proof fn law_restoring_twice_is_restoring_once(
    manifest: ManifestView,
    quarantine: Seq<char>,
    once: (Seq<Reply>, int, Seq<World>),
    again: (Seq<Reply>, int, Seq<World>),
)
    requires
        manifest.quarantine_path == Some(quarantine),
        raw(quarantine) != raw(manifest.source.path),
        ends_through(restore_step(manifest, once.0, once.1), once.0, once.1, once.2),
        history(again.2, restore_step(manifest, again.0, again.1).asked, again.0, again.1),
        again.2[0] == once.2.last(),
        all_willing(restore_step(manifest, again.0, again.1).asked, again.0, again.1),
    ensures
        restore_step(manifest, again.0, again.1).outcome !is Fail,
        restore_step(manifest, again.0, again.1).outcome is Done ==> again.2.last()
            == again.2[0],
{
    law_restore_brings_back(manifest, quarantine, once.0, once.1, once.2[0]);
    assert(manifest.source_disposition == SourceDisposition::Quarantine) by {
        reveal(restore_step);
    }
    reveal(leads);
    assert(restored(
        raw(manifest.source.path),
        raw(quarantine),
        manifest.source.sha256,
        once.2[0],
        once.2.last(),
        Outcome::Done(()),
    ));
    lemma_restored_rests(manifest, quarantine, again.0, again.1, again.2[0]);
    reveal(succeeds);
}

/// What an inspection takes for a file's digest is its digest.
pub(crate) proof fn lemma_inspected_digest(path: Seq<u8>, r: Seq<Reply>, at: int, worlds: Seq<World>)
    requires
        history(worlds, inspect_step(path, r, at).asked, r, at),
        inspect_step(path, r, at).outcome is Done,
    ensures
        worlds[0].has(path),
        inspect_step(path, r, at).outcome->Done_0.sha256 == worlds[0].digest(path),
{
    reveal(inspect_step);
    reveal(counted);
    let one = regular_file_step(path, r, at);
    count_regular_file(path, r, at);
    let file = one.outcome->Done_0;
    let asked = inspect_step(path, r, at).asked;
    let rest = asked.skip(one.asked.len() as int);
    assert(asked =~= one.asked + rest);
    lemma_history_splits(worlds, one.asked, rest, r, at);
    lemma_found(path, r, at, worlds[0]);
    assert(found(path, worlds[0])(worlds.take(one.asked.len() as int + 1).last(), one.outcome)) by {
        reveal(leads);
    }
    let late = worlds.skip(one.asked.len() as int);
    let i: int = 0;
    assert(rest[i] is Stat);
    assert(moves(late[i], rest[i], r[one.at + i], late[i + 1]));
    let j: int = 1;
    assert(rest[j] == (RequestView::Hash { path: file }));
    assert(moves(late[j], rest[j], r[one.at + j], late[j + 1]));
}

/// A source that is found to be as planned has the planned digest.
proof fn lemma_validated_digest(
    expected: EvidenceView,
    r: Seq<Reply>,
    at: int,
    worlds: Seq<World>,
)
    requires
        history(worlds, validate_source_step(expected, r, at).asked, r, at),
        validate_source_step(expected, r, at).outcome is Done,
    ensures
        worlds[0].has(raw(expected.path)),
        worlds[0].digest(raw(expected.path)) == expected.sha256,
{
    reveal(validate_source_step);
    let first = inspect_step(raw(expected.path), r, at);
    assert(validate_source_step(expected, r, at).asked =~= first.asked);
    lemma_inspected_digest(raw(expected.path), r, at, worlds);
}

/// Where archiving from the start has come to its end, the source had the planned
/// digest.
proof fn lemma_archived_digest(
    t: TransactionView,
    journal: JournalView,
    r: Seq<Reply>,
    at: int,
    worlds: Seq<World>,
)
    requires
        journal.phase == Phase::Prepared,
        history(worlds, archive_step(t, journal, r, at).asked, r, at),
        archive_step(t, journal, r, at).outcome is Done,
    ensures
        worlds[0].digest(raw(t.plan.source.path)) == t.plan.source.sha256,
{
    reveal(archive_step);
    reveal(prepared_step);
    reveal(counted);
    let validate = validate_source_step(t.plan.source, r, at);
    count_validate(t.plan.source, r, at);
    let asked = archive_step(t, journal, r, at).asked;
    let rest = asked.skip(validate.asked.len() as int);
    assert(asked =~= validate.asked + rest);
    lemma_history_splits(worlds, validate.asked, rest, r, at);
    lemma_validated_digest(
        t.plan.source,
        r,
        at,
        worlds.take(validate.asked.len() as int + 1),
    );
}

/// What becomes of a source that has its second name.
proof fn lemma_first_name_gone(
    t: TransactionView,
    journal: JournalView,
    quarantine: Seq<char>,
    r: Seq<Reply>,
    at: int,
    worlds: Seq<World>,
)
    requires
        journal.phase == Phase::QuarantineLinked,
        journal.quarantine_path == Some(quarantine),
        raw(quarantine) != raw(t.plan.source.path),
        !scratch(t, raw(t.plan.source.path)),
        !scratch(t, raw(quarantine)),
        history(worlds, linked_step(t, journal, r, at).asked, r, at),
        linked_step(t, journal, r, at).outcome is Done,
    ensures
        quarantined(raw(t.plan.source.path), raw(quarantine), worlds[0], worlds.last()),
{
    let source = raw(t.plan.source.path);
    let place = raw(quarantine);
    let one = finish_quarantine_step(t.plan, journal, r, at);
    let two = enter_step(t, complete_journal(journal), r, one.at);
    count_finish_quarantine(t.plan, journal, r, at);
    reveal(counted);
    assert(one.outcome is Done && linked_step(t, journal, r, at).asked =~= one.asked + two.asked)
        by {
        reveal(linked_step);
    }
    lemma_history_splits(worlds, one.asked, two.asked, r, at);
    let w0 = worlds.take(one.asked.len() as int + 1);
    let w1 = worlds.skip(one.asked.len() as int);
    law_quarantine_never_loses_the_source(t.plan, journal, quarantine, r, at, w0[0]);
    reveal(leads);
    assert(moved(source, place, w0[0], w0.last(), one.outcome));
    leave_enter(t, complete_journal(journal), r, one.at, place);
    lemma_left(two, r, one.at, w1, place);
    assert(every(two, sparing(source))) by {
        broadcast use {group_every, spare_replace};

        reveal(enter_step);
    }
    lemma_absent(two, r, one.at, w1, source);
}

/// Whether a source has no name but the one in quarantine, and what was in
/// quarantine stays there.
spec fn quarantined(source: Seq<u8>, quarantine: Seq<u8>, before: World, after: World) -> bool {
    &&& !after.has(source)
    &&& after.has(quarantine)
    &&& before.has(source) ==> {
        &&& after.file(quarantine) == before.file(source)
        &&& after.digest(quarantine) == before.digest(source)
        &&& after.text(quarantine) == before.text(source)
    }
    &&& before.has(quarantine) ==> kept(before, after, quarantine)
}

/// What becomes of a source that goes into quarantine.
proof fn lemma_quarantined(
    t: TransactionView,
    journal: JournalView,
    quarantine: Seq<char>,
    r: Seq<Reply>,
    at: int,
    worlds: Seq<World>,
)
    requires
        t.plan.source_disposition == SourceDisposition::Quarantine,
        journal.phase == Phase::Manifested || journal.phase == Phase::QuarantineLinked,
        names_only(journal, quarantine),
        raw(quarantine) != raw(t.plan.source.path),
        !scratch(t, raw(t.plan.source.path)),
        !scratch(t, raw(quarantine)),
        history(worlds, dispose_step(t, journal, r, at).asked, r, at),
        dispose_step(t, journal, r, at).outcome is Done,
    ensures
        quarantined(raw(t.plan.source.path), raw(quarantine), worlds[0], worlds.last()),
{
    let source = raw(t.plan.source.path);
    let place = raw(quarantine);
    let first = manifested_step(t, journal, r, at);
    let begun = first.outcome->Done_0;
    count_manifested(t, journal, r, at);
    reveal(counted);
    let second = linked_step(t, begun, r, first.at);
    assert(first.outcome is Done && second.outcome is Done) by {
        reveal(dispose_step);
    }
    assert(dispose_step(t, journal, r, at).asked =~= first.asked + second.asked) by {
        reveal(dispose_step);
    }
    assert(begun == JournalView { phase: Phase::QuarantineLinked, ..journal }) by {
        reveal(manifested_step);
        reveal(enter_step);
    }
    assert(begun.quarantine_path is Some) by {
        reveal(linked_step);
        reveal(finish_quarantine_step);
    }
    lemma_history_splits(worlds, first.asked, second.asked, r, at);
    let early = worlds.take(first.asked.len() as int + 1);
    let late = worlds.skip(first.asked.len() as int);
    lemma_first_name_gone(t, begun, quarantine, r, first.at, late);
    if journal.phase == Phase::Manifested {
        let one = quarantine_link_step(t.plan, journal, r, at);
        let two = enter_step(t, begun, r, one.at);
        count_quarantine_link(t.plan, journal, r, at);
        assert(one.outcome is Done && first.asked =~= one.asked + two.asked) by {
            reveal(manifested_step);
        }
        lemma_history_splits(early, one.asked, two.asked, r, at);
        let w0 = early.take(one.asked.len() as int + 1);
        let w1 = early.skip(one.asked.len() as int);
        law_quarantine_link_keeps_the_source(t.plan, journal, quarantine, r, at, w0[0]);
        reveal(leads);
        assert(doubled(source, place, w0[0], w0.last(), one.outcome));
        reveal(standing);
        leave_enter(t, begun, r, one.at, place);
        lemma_left(two, r, one.at, w1, place);
        if w0[0].has(source) {
            assert(kept(w0[0], w0.last(), source));
            leave_enter(t, begun, r, one.at, source);
            lemma_left(two, r, one.at, w1, source);
        }
        if w0[0].has(place) {
            assert(kept(w0[0], w0.last(), place));
        }
    } else {
        assert(first.asked.len() == 0) by {
            reveal(manifested_step);
        }
    }
}

/// A restoration brings back what a whole run has put into quarantine. The run
/// may have found no journal, or have gone on from one that names no other
/// quarantine and is not complete. The file at the source's path, or else the one in
/// quarantine, had the planned digest when the run began, or the run saw to that
/// itself: where it began at the beginning, and where it put the file into quarantine
/// while nothing was there. Behind a run that came to its end the restoration does
/// not fail where all goes well; at its end that file is at the source's path, with
/// the planned digest, nothing is in quarantine, and everything else is as the run
/// has left it, the manifest that it has published among it.
pub proof fn law_applied_source_comes_back(
    path: Seq<u8>,
    plan: PlanView,
    version: Seq<char>,
    quarantine: Seq<char>,
    output: EvidenceView,
    run: (Seq<Reply>, int, Seq<World>),
    back: (Seq<Reply>, int, Seq<World>),
)
    requires
        load_plan_step(path, run.0, run.1).outcome == Outcome::Done(plan),
        quarantine_text(plan) == Ok::<Option<Seq<char>>, Seq<char>>(Some(quarantine)),
        raw(quarantine) != raw(plan.source.path),
        !scratch(transaction_of(plan, version), raw(plan.source.path)),
        !scratch(transaction_of(plan, version), raw(plan.manifest_path)),
        !scratch(transaction_of(plan, version), raw(quarantine)),
        run.2[0].has(raw(transaction_of(plan, version).journal())) ==> planned_quarantine_only(
            plan,
            run.0,
        ),
        ends_through(apply_step(path, version, run.0, run.1), run.0, run.1, run.2),
        takes_up_by(
            plan,
            version,
            run.0,
            load_plan_step(path, run.0, run.1).at,
            run.2[0],
            Phase::QuarantineLinked,
        ),
        run.2[0].has(raw(plan.source.path)) ==> takes_up_by(
            plan,
            version,
            run.0,
            load_plan_step(path, run.0, run.1).at,
            run.2[0],
            Phase::Prepared,
        ) || run.2[0].digest(raw(plan.source.path)) == plan.source.sha256 || (takes_up_by(
            plan,
            version,
            run.0,
            load_plan_step(path, run.0, run.1).at,
            run.2[0],
            Phase::Manifested,
        ) && !run.2[0].has(raw(quarantine)) && out_of_the_way(plan, version, raw(quarantine))),
        !run.2[0].has(raw(plan.source.path)) ==> run.2[0].has(raw(quarantine))
            && run.2[0].digest(raw(quarantine)) == plan.source.sha256,
        ({
            let manifest = manifest_of(plan, output, Some(quarantine), version);
            let restoration = restore_step(manifest, back.0, back.1);
            &&& history(back.2, restoration.asked, back.0, back.1)
            &&& all_willing(restoration.asked, back.0, back.1)
        }),
        back.2[0] == run.2.last(),
    ensures
        !run.2.last().has(raw(plan.source.path)),
        takes_up_by(
            plan,
            version,
            run.0,
            load_plan_step(path, run.0, run.1).at,
            run.2[0],
            Phase::Verified,
        ) && raw(plan.manifest_path) != raw(plan.source.path) ==> run.2.last().has(
            raw(plan.manifest_path),
        ),
        run.2[0].has(raw(plan.source.path)) && !run.2[0].has(
            raw(transaction_of(plan, version).journal()),
        ) ==> raw(plan.manifest_path) != raw(plan.source.path),
        ({
            let manifest = manifest_of(plan, output, Some(quarantine), version);
            let restoration = restore_step(manifest, back.0, back.1);
            let first = run.2[0];
            let last = back.2.last();
            let source = raw(plan.source.path);
            let place = raw(quarantine);
            &&& restoration.outcome !is Fail
            &&& restoration.outcome is Done ==> {
                &&& last.has(source)
                &&& last.digest(source) == plan.source.sha256
                &&& first.has(source) ==> kept(first, last, source)
                &&& !first.has(source) ==> last.file(source) == first.file(place)
                &&& !last.has(place)
                &&& forall|p: Seq<u8>|
                    p != source && p != place ==> (#[trigger] run.2.last().has(p) ==> kept(
                        run.2.last(),
                        last,
                        p,
                    ))
            }
        }),
{
    let r = run.0;
    let t = transaction_of(plan, version);
    let source = raw(plan.source.path);
    let manifest = manifest_of(plan, output, Some(quarantine), version);
    let load = load_plan_step(path, r, run.1);
    let worlds = lemma_loaded(path, plan, version, r, run.1, run.2);
    let at = load.at;
    let begin = begin_step(plan, version, r, at);
    assert(parent(plan.destination_path) is Some) by {
        reveal(execute_step);
    }
    lemma_complete_run(plan, version, r, at, worlds);
    let late = lemma_archived_late(plan, version, r, at, worlds);
    let journal = taken_up(plan, version, r, at);
    if worlds[0].has(raw(t.journal())) {
        lemma_begun_names_only(plan, version, quarantine, r, at);
    }
    let archive = archive_step(t, journal, r, begin.at);
    let after = archive.outcome->Done_0;
    lemma_archived_names_only(t, journal, quarantine, r, begin.at);
    lemma_archived_phase(t, journal, r, begin.at);
    lemma_quarantined(t, after, quarantine, r, archive.at, late);
    if worlds[0].has(source) {
        assert(kept(worlds[0], late[0], source));
        if journal.phase == Phase::Prepared {
            lemma_planned_digest(plan, version, r, at, worlds);
        } else if worlds[0].digest(source) != plan.source.sha256 {
            lemma_nothing_in_the_way(plan, version, quarantine, r, at, worlds, late);
            lemma_quarantined_digest(t, after, quarantine, r, archive.at, late);
        }
    } else {
        assert(kept(worlds[0], late[0], raw(quarantine)));
    }
    if journal.phase.rank() <= Phase::Verified.rank() && raw(plan.manifest_path) != source {
        leave_dispose(t, after, r, archive.at, raw(plan.manifest_path));
        lemma_left(
            dispose_step(t, after, r, archive.at),
            r,
            archive.at,
            late,
            raw(plan.manifest_path),
        );
    }
    lemma_restoration_succeeds(manifest, quarantine, back.0, back.1, back.2[0]);
    reveal(succeeds);
}

/// Whether a path is none that the archiving of a plan makes, writes or removes.
pub open spec fn out_of_the_way(plan: PlanView, version: Seq<char>, path: Seq<u8>) -> bool {
    let t = transaction_of(plan, version);
    &&& !own_path(t, path)
    &&& path != raw(transactions_root(parent(plan.destination_path)->0))
    &&& path != raw(t.directory)
    &&& path != raw("-"@)
}

/// Where nothing was in quarantine, nothing is there when the source is to go.
proof fn lemma_nothing_in_the_way(
    plan: PlanView,
    version: Seq<char>,
    quarantine: Seq<char>,
    r: Seq<Reply>,
    at: int,
    worlds: Seq<World>,
    late: Seq<World>,
)
    requires
        parent(plan.destination_path) is Some,
        out_of_the_way(plan, version, raw(quarantine)),
        history(worlds, execute_step(plan, version, r, at).asked, r, at),
        begin_step(plan, version, r, at).outcome is Done,
        taken_up(plan, version, r, at).phase != Phase::Complete,
        !worlds[0].has(raw(quarantine)),
        ({
            let t = transaction_of(plan, version);
            let begin = begin_step(plan, version, r, at);
            let archive = archive_step(t, taken_up(plan, version, r, at), r, begin.at);
            let dispose = dispose_step(t, archive.outcome->Done_0, r, archive.at);
            &&& archive.outcome is Done
            &&& late == worlds.skip(worlds.len() - dispose.asked.len() - 1)
        }),
    ensures
        !late[0].has(raw(quarantine)),
{
    let t = transaction_of(plan, version);
    let place = raw(quarantine);
    let begin = begin_step(plan, version, r, at);
    let journal = taken_up(plan, version, r, at);
    let archive = archive_step(t, journal, r, begin.at);
    let dispose = dispose_step(t, archive.outcome->Done_0, r, archive.at);
    let carry = carry_on_step(t, journal, r, begin.at);
    lemma_run(plan, version, r, at);
    count_archive(t, journal, r, begin.at);
    reveal(counted);
    lemma_history_splits(worlds, begin.asked, carry.asked, r, at);
    assert(carry.asked =~= archive.asked + dispose.asked) by {
        reveal(carry_on_step);
    }
    let rest = worlds.skip(begin.asked.len() as int);
    lemma_history_splits(rest, archive.asked, dispose.asked, r, begin.at);
    assert(every(begin, sparing(place))) by {
        broadcast use {group_every, spare_ensure_directory, spare_replace};

        reveal(open_journal_step);
        reveal(load_journal_step);
        reveal(enter_step);
    }
    lemma_absent(begin, r, at, worlds.take(begin.asked.len() as int + 1), place);
    law_archiving_changes_only_its_own(t, journal, r, begin.at, place);
    lemma_absent(archive, r, begin.at, rest.take(archive.asked.len() as int + 1), place);
    assert(late[0] == rest.skip(archive.asked.len() as int)[0]);
}

/// A source that goes into quarantine where nothing is has the planned digest.
proof fn lemma_quarantined_digest(
    t: TransactionView,
    journal: JournalView,
    quarantine: Seq<char>,
    r: Seq<Reply>,
    at: int,
    worlds: Seq<World>,
)
    requires
        t.plan.source_disposition == SourceDisposition::Quarantine,
        journal.phase == Phase::Manifested,
        names_only(journal, quarantine),
        history(worlds, dispose_step(t, journal, r, at).asked, r, at),
        dispose_step(t, journal, r, at).outcome is Done,
        worlds[0].has(raw(t.plan.source.path)),
        !worlds[0].has(raw(quarantine)),
    ensures
        worlds[0].digest(raw(t.plan.source.path)) == t.plan.source.sha256,
{
    let source = raw(t.plan.source.path);
    let place = raw(quarantine);
    let asked = dispose_step(t, journal, r, at).asked;
    let link = quarantine_link_step(t.plan, journal, r, at);
    assert(link.outcome is Done && asked =~= link.asked + asked.skip(link.asked.len() as int)) by {
        reveal(dispose_step);
        reveal(manifested_step);
    }
    assert(journal.quarantine_path == Some(quarantine)) by {
        reveal(quarantine_link_step);
    }
    lemma_history_splits(worlds, link.asked, asked.skip(link.asked.len() as int), r, at);
    let early = worlds.take(link.asked.len() as int + 1);
    let directory = parent(quarantine)->0;
    let root = parent(directory)->0;
    lemma_parent_is_shorter(quarantine);
    lemma_parent_is_shorter(directory);
    let make = quarantine_directories_step(raw(root), raw(directory), r, at);
    let rest = link_if_needed_step(t.plan.source, place, r, make.at);
    assert(make.outcome is Done && rest.outcome is Done && link.asked =~= make.asked + rest.asked
        && parent(quarantine) is Some && parent(directory) is Some) by {
        reveal(quarantine_link_step);
    }
    assert(counted(make, at) && every(make, sparing(place)) && every(make, leaving(source))) by {
        if raw(root) == place {
            law_texts_have_bytes_of_their_own(root, quarantine);
        }
        if raw(directory) == place {
            law_texts_have_bytes_of_their_own(directory, quarantine);
        }
        broadcast use {
            group_every,
            group_counted,
            spare_ensure_directory,
            leave_ensure_directory,
            count_ensure_directory,
        };

        reveal(quarantine_directories_step);
    }
    reveal(counted);
    lemma_history_splits(early, make.asked, rest.asked, r, at);
    let made = early.take(make.asked.len() as int + 1);
    let late = early.skip(make.asked.len() as int);
    lemma_absent(make, r, at, made, place);
    lemma_left(make, r, at, made, source);
    reveal(link_if_needed_step);
    let i: int = 0;
    assert(rest.asked[i] == (RequestView::Exists { path: source }));
    assert(moves(late[i], rest.asked[i], r[make.at + i], late[i + 1]));
    assert(r[make.at] == Reply::Flag(true));
    let j: int = 1;
    assert(rest.asked[j] == (RequestView::Exists { path: place }));
    assert(moves(late[j], rest.asked[j], r[make.at + j], late[j + 1]));
    assert(r[make.at + 1] == Reply::Flag(false));
    reveal(link_step);
    let validate = validate_source_step(t.plan.source, r, make.at + 2);
    let looks = rest.asked.take(2);
    let more = rest.asked.skip(2 + validate.asked.len() as int);
    assert(validate.outcome is Done && rest.asked =~= looks + (validate.asked + more));
    lemma_history_splits(late, looks, validate.asked + more, r, make.at);
    lemma_history_splits(late.skip(2), validate.asked, more, r, make.at + 2);
    lemma_validated_digest(
        t.plan.source,
        r,
        make.at + 2,
        late.skip(2).take(validate.asked.len() as int + 1),
    );
}

proof fn lemma_begun_names_only(
    plan: PlanView,
    version: Seq<char>,
    quarantine: Seq<char>,
    r: Seq<Reply>,
    at: int,
)
    requires
        planned_quarantine_only(plan, r),
        quarantine_text(plan) == Ok::<Option<Seq<char>>, Seq<char>>(Some(quarantine)),
    ensures
        begin_step(plan, version, r, at).outcome matches Outcome::Done(journal) ==> names_only(
            journal,
            quarantine,
        ),
{
    let t = transaction_of(plan, version);
    let one = ensure_directory_step(
        raw(transactions_root(parent(plan.destination_path)->0)),
        r,
        at,
    );
    let two = ensure_directory_step(raw(t.directory), r, one.at);
    lemma_opened_names_only(t, quarantine, r, two.at);
}

/// Archiving ends with a manifest, or where a journal behind it was taken up.
pub(crate) proof fn lemma_archived_phase(t: TransactionView, journal: JournalView, r: Seq<Reply>, at: int)
    ensures
        archive_step(t, journal, r, at).outcome matches Outcome::Done(after) ==> after.phase
            == if journal.phase.rank() <= Phase::Verified.rank() {
            Phase::Manifested
        } else {
            journal.phase
        },
{
    reveal(archive_step);
    reveal(prepared_step);
    reveal(staged_step);
    reveal(published_step);
    reveal(verified_step);
    reveal(enter_step);
}

/// A run that came to its end, and did not find itself there already, came through
/// its archiving.
proof fn lemma_complete_run(
    plan: PlanView,
    version: Seq<char>,
    r: Seq<Reply>,
    at: int,
    worlds: Seq<World>,
)
    requires
        parent(plan.destination_path) is Some,
        history(worlds, execute_step(plan, version, r, at).asked, r, at),
        takes_up_by(plan, version, r, at, worlds[0], Phase::QuarantineLinked),
        execute_step(plan, version, r, at).outcome is Done,
    ensures
        begin_step(plan, version, r, at).outcome matches Outcome::Done(journal) && journal.phase
            != Phase::Complete && archive_step(
            transaction_of(plan, version),
            journal,
            r,
            begin_step(plan, version, r, at).at,
        ).outcome is Done,
        !worlds[0].has(raw(transaction_of(plan, version).journal())) ==> taken_up(
            plan,
            version,
            r,
            at,
        ) == fresh_journal(plan, transaction_of(plan, version).staging(), version)
            && !worlds[0].has(raw(plan.manifest_path)),
{
    lemma_run(plan, version, r, at);
    lemma_taken_up(plan, version, r, at, worlds);
    reveal(carry_on_step);
}

/// A run that began at the beginning and came through its archiving found the
/// source with the planned digest.
proof fn lemma_planned_digest(
    plan: PlanView,
    version: Seq<char>,
    r: Seq<Reply>,
    at: int,
    worlds: Seq<World>,
)
    requires
        parent(plan.destination_path) is Some,
        !scratch(transaction_of(plan, version), raw(plan.source.path)),
        history(worlds, execute_step(plan, version, r, at).asked, r, at),
        begin_step(plan, version, r, at).outcome is Done,
        taken_up(plan, version, r, at).phase == Phase::Prepared,
        execute_step(plan, version, r, at).outcome is Done,
        worlds[0].has(raw(plan.source.path)),
    ensures
        worlds[0].digest(raw(plan.source.path)) == plan.source.sha256,
{
    let t = transaction_of(plan, version);
    let source = raw(plan.source.path);
    lemma_run(plan, version, r, at);
    let begin = begin_step(plan, version, r, at);
    let journal = taken_up(plan, version, r, at);
    let carry = carry_on_step(t, journal, r, begin.at);
    let archive = archive_step(t, journal, r, begin.at);
    reveal(counted);
    lemma_history_splits(worlds, begin.asked, carry.asked, r, at);
    let first = worlds.take(begin.asked.len() as int + 1);
    let rest = worlds.skip(begin.asked.len() as int);
    let more = carry.asked.skip(archive.asked.len() as int);
    assert(archive.outcome is Done && carry.asked =~= archive.asked + more) by {
        reveal(carry_on_step);
    }
    lemma_history_splits(rest, archive.asked, more, r, begin.at);
    lemma_archived_digest(
        t,
        journal,
        r,
        begin.at,
        rest.take(archive.asked.len() as int + 1),
    );
    lemma_begin_leaves(plan, version, r, at, source);
    lemma_left(begin, r, at, first, source);
}

/// Where a published output is verified, it stands at the destination under the
/// digest that was found.
proof fn lemma_published_digest(
    t: TransactionView,
    journal: JournalView,
    r: Seq<Reply>,
    at: int,
    worlds: Seq<World>,
)
    requires
        journal.phase == Phase::Published,
        !scratch(t, raw(t.plan.destination_path)),
        history(worlds, published_step(t, journal, r, at).asked, r, at),
        published_step(t, journal, r, at).outcome is Done,
    ensures
        ({
            let place = raw(t.plan.destination_path);
            let after = published_step(t, journal, r, at).outcome->Done_0;
            &&& after.output is Some
            &&& worlds.last().has(place)
            &&& worlds.last().digest(place) == after.output->0.sha256
        }),
{
    let place = raw(t.plan.destination_path);
    let step = published_step(t, journal, r, at);
    let inspect = inspect_step(place, r, at);
    let rest = step.asked.skip(inspect.asked.len() as int);
    assert(inspect.outcome is Done && step.asked =~= inspect.asked + rest) by {
        reveal(published_step);
    }
    assert(step.outcome->Done_0.output == Some(inspect.outcome->Done_0)) by {
        reveal(published_step);
        reveal(enter_step);
    }
    lemma_history_splits(worlds, inspect.asked, rest, r, at);
    lemma_inspected_digest(place, r, at, worlds.take(inspect.asked.len() as int + 1));
    leave_published(t, journal, r, at, place);
    lemma_left(step, r, at, worlds, place);
}

/// Where archiving has come to its end through the verification of the output,
/// that stands at the destination under the digest that is archived.
proof fn lemma_archived_output(
    t: TransactionView,
    journal: JournalView,
    r: Seq<Reply>,
    at: int,
    worlds: Seq<World>,
)
    requires
        journal.phase.rank() <= Phase::Published.rank(),
        !scratch(t, raw(t.plan.destination_path)),
        history(worlds, archive_step(t, journal, r, at).asked, r, at),
        archive_step(t, journal, r, at).outcome is Done,
    ensures
        ({
            let place = raw(t.plan.destination_path);
            let after = archive_step(t, journal, r, at).outcome->Done_0;
            &&& worlds.last().has(place)
            &&& worlds.last().digest(place) == after.output->0.sha256
        }),
{
    reveal(archive_step);
    reveal(counted);
    let place = raw(t.plan.destination_path);
    let one = prepared_step(t, journal, r, at);
    count_prepared(t, journal, r, at);
    let j1 = one.outcome->Done_0;
    let two = staged_step(t, j1, r, one.at);
    count_staged(t, j1, r, one.at);
    let j2 = two.outcome->Done_0;
    let three = published_step(t, j2, r, two.at);
    count_published(t, j2, r, two.at);
    let j3 = three.outcome->Done_0;
    let four = verified_step(t, j3, r, three.at);
    assert(j2.phase == Phase::Published) by {
        reveal(prepared_step);
        reveal(staged_step);
        reveal(enter_step);
    }
    assert(four.outcome->Done_0.output == j3.output) by {
        reveal(verified_step);
        reveal(enter_step);
    }
    lemma_history_splits(worlds, one.asked, two.asked + (three.asked + four.asked), r, at);
    let w1 = worlds.skip(one.asked.len() as int);
    lemma_history_splits(w1, two.asked, three.asked + four.asked, r, one.at);
    let w2 = w1.skip(two.asked.len() as int);
    lemma_history_splits(w2, three.asked, four.asked, r, two.at);
    lemma_published_digest(t, j2, r, two.at, w2.take(three.asked.len() as int + 1));
    leave_verified(t, j3, r, three.at, place);
    lemma_left(four, r, three.at, w2.skip(three.asked.len() as int), place);
}

/// The output that a run has archived.
pub open spec fn archived_output(
    plan: PlanView,
    version: Seq<char>,
    r: Seq<Reply>,
    at: int,
) -> EvidenceView {
    let t = transaction_of(plan, version);
    archive_step(
        t,
        taken_up(plan, version, r, at),
        r,
        begin_step(plan, version, r, at).at,
    ).outcome->Done_0.output->0
}

/// Whether two inspections saw the same media.
pub open spec fn same_media(a: EvidenceView, b: EvidenceView) -> bool {
    &&& a.size == b.size
    &&& a.format == b.format
    &&& a.streams == b.streams
    &&& a.chapters == b.chapters
}

/// What a whole run has archived verifies: as long as what stands at the
/// destination is left alone and a probe sees the same media, a verification
/// against the manifest of a run that came to its end, and found no journal or
/// one not behind the publication of the output, passes all its comparisons, and
/// ends as the decode ends.
pub proof fn law_archived_output_verifies(
    path: Seq<u8>,
    plan: PlanView,
    version: Seq<char>,
    seen: EvidenceView,
    run: (Seq<Reply>, int, Seq<World>),
    later: (Seq<Reply>, int, Seq<World>),
)
    requires
        load_plan_step(path, run.0, run.1).outcome == Outcome::Done(plan),
        !scratch(transaction_of(plan, version), raw(plan.destination_path)),
        ends_through(apply_step(path, version, run.0, run.1), run.0, run.1, run.2),
        takes_up_by(
            plan,
            version,
            run.0,
            load_plan_step(path, run.0, run.1).at,
            run.2[0],
            Phase::Published,
        ),
        history(
            later.2,
            inspect_step(raw(plan.destination_path), later.0, later.1).asked,
            later.0,
            later.1,
        ),
        kept(run.2.last(), later.2[0], raw(plan.destination_path)),
        inspect_step(raw(plan.destination_path), later.0, later.1).outcome == Outcome::Done(seen),
        same_media(
            seen,
            archived_output(plan, version, run.0, load_plan_step(path, run.0, run.1).at),
        ),
    ensures
        ({
            let output = archived_output(
                plan,
                version,
                run.0,
                load_plan_step(path, run.0, run.1).at,
            );
            let manifest = manifest_of(plan, output, quarantine_text(plan)->Ok_0, version);
            verify_manifest_step(manifest, later.0, later.1).outcome == decode_step(
                plan.destination_path,
                later.0,
                inspect_step(raw(plan.destination_path), later.0, later.1).at,
            ).outcome
        }),
{
    let r = run.0;
    let t = transaction_of(plan, version);
    let place = raw(plan.destination_path);
    let load = load_plan_step(path, r, run.1);
    let at = load.at;
    let worlds = lemma_loaded(path, plan, version, r, run.1, run.2);
    assert(plan_check(plan) is Ok) by {
        reveal(load_plan_step);
    }
    if raw(plan.source.path) == place {
        law_texts_have_bytes_of_their_own(plan.source.path, plan.destination_path);
    }
    assert(parent(plan.destination_path) is Some) by {
        reveal(execute_step);
    }
    lemma_run(plan, version, r, at);
    lemma_complete_run(plan, version, r, at, worlds);
    let begin = begin_step(plan, version, r, at);
    let journal = taken_up(plan, version, r, at);
    let carry = carry_on_step(t, journal, r, begin.at);
    let archive = archive_step(t, journal, r, begin.at);
    let after = archive.outcome->Done_0;
    let dispose = dispose_step(t, after, r, archive.at);
    count_archive(t, journal, r, begin.at);
    reveal(counted);
    lemma_history_splits(worlds, begin.asked, carry.asked, r, at);
    let rest = worlds.skip(begin.asked.len() as int);
    assert(carry.asked =~= archive.asked + dispose.asked) by {
        reveal(carry_on_step);
    }
    lemma_history_splits(rest, archive.asked, dispose.asked, r, begin.at);
    lemma_archived_output(t, journal, r, begin.at, rest.take(archive.asked.len() as int + 1));
    leave_dispose(t, after, r, archive.at, place);
    lemma_left(dispose, r, archive.at, rest.skip(archive.asked.len() as int), place);
    law_archived_is_sound(t, journal, r, begin.at, after);
    lemma_inspected_digest(place, later.0, later.1, later.2);
    let output = after.output->0;
    assert(seen.sha256 == output.sha256);
    assert(output_check(
        plan.profile,
        plan.source,
        seen,
        plan.duration_tolerance_seconds,
    ) == output_check(plan.profile, plan.source, output, plan.duration_tolerance_seconds));
    reveal(verify_manifest_step);
}

/// What has taken the place of an archived output does not verify: where the file at
/// the destination has another digest and can be inspected, the verification fails,
/// and says so.
pub proof fn law_replaced_output_is_refused(
    manifest: ManifestView,
    r: Seq<Reply>,
    at: int,
    worlds: Seq<World>,
)
    requires
        history(worlds, inspect_step(raw(manifest.destination_path), r, at).asked, r, at),
        inspect_step(raw(manifest.destination_path), r, at).outcome is Done,
        worlds[0].digest(raw(manifest.destination_path)) != manifest.output.sha256,
    ensures
        verify_manifest_step(manifest, r, at).outcome == Outcome::<()>::Fail(
            "output SHA-256 differs from manifest"@,
        ),
{
    lemma_inspected_digest(raw(manifest.destination_path), r, at, worlds);
    reveal(verify_manifest_step);
}

} // verus!
