//! A transaction that has come to its end rests: another run of its plan says so and
//! does nothing.
use vstd::prelude::*;
use vstd::utf8::is_ascii_chars_encode_utf8;

use crate::apply::{
    apply_step, archive_step, carry_on_step, complete_journal, dispose_step, enter_step,
    execute_step, linked_step, manifest_staging_place, manifested_step, open_journal_step,
    prepared_step, published_step, staged_step, transactions_root, verified_step, TransactionView,
};
use crate::disposal::{delete_source_step, finish_quarantine_step};
use crate::flow::{done, FileKind, Outcome, Reply, RequestView, Step};
use crate::keeping::{
    leave_archive, leave_dispose, leave_ensure_directory, leave_open_journal, leaving, scratch,
};
use crate::lifetime::{
    begin_step, lemma_history_splits, lemma_left, lemma_loaded, lemma_run, taken_up,
    transaction_of,
};
use crate::load::{journal_in, load_journal_step, load_plan_step};
use crate::model::{JournalView, Phase, PlanView, SourceDisposition};
use crate::os_text::{law_texts_have_bytes_of_their_own, lemma_raw_concat, raw};
use crate::path::parent;
use crate::plan::journal_check;
use crate::render::journal_text;
use crate::replay::{count_ensure_directory, count_execute, count_replace};
use crate::resume::{
    law_complete_transaction_rests, law_opened_journal_resumes, law_phases_advance,
};
use crate::runs::{journal_of, lemma_reads_back_splits, lemma_replaced, reads_back, Run};
use crate::storage::{
    ensure_directory_step, hidden_name, law_replacement_is_not_its_directory, replacement_place,
    text_name, write_journal_step,
};
use crate::trace::{counted, every, group_every};
use crate::world::{history, kept, moves, World};

verus! {

/// The journal with which a run that goes on with its transaction comes to its end.
pub open spec fn final_journal(
    plan: PlanView,
    version: Seq<char>,
    r: Seq<Reply>,
    at: int,
) -> JournalView {
    let t = transaction_of(plan, version);
    let archive = archive_step(
        t,
        taken_up(plan, version, r, at),
        r,
        begin_step(plan, version, r, at).at,
    );
    dispose_step(t, archive.outcome->Done_0, r, archive.at).outcome->Done_0
}

/// Whether the last thing that a workflow did was to write a journal.
pub open spec fn entered_last<T>(
    step: Step<T>,
    place: Seq<u8>,
    journal: JournalView,
    r: Seq<Reply>,
) -> bool {
    exists|p: int| written_from(step, place, journal, r, p)
}

/// Whether all that a workflow did from a position on was to write a journal.
pub open spec fn written_from<T>(
    step: Step<T>,
    place: Seq<u8>,
    journal: JournalView,
    r: Seq<Reply>,
    p: int,
) -> bool {
    let write = write_journal_step(place, journal, r, p);
    &&& write.outcome is Done
    &&& write.at == step.at
    &&& write.asked.len() <= step.asked.len()
    &&& step.asked.skip(step.asked.len() - write.asked.len()) == write.asked
}

/// Behind another workflow, what was entered last is so still.
proof fn lemma_entered_behind<T, U, V>(
    first: Step<T>,
    second: Step<U>,
    whole: Step<V>,
    place: Seq<u8>,
    journal: JournalView,
    r: Seq<Reply>,
)
    requires
        entered_last(second, place, journal, r),
        whole.asked == first.asked + second.asked,
        whole.at == second.at,
    ensures
        entered_last(whole, place, journal, r),
{
    let p = choose|p: int| written_from(second, place, journal, r, p);
    let write = write_journal_step(place, journal, r, p);
    let n = whole.asked.len() - write.asked.len();
    assert(whole.asked.skip(n) =~= second.asked.skip(second.asked.len() - write.asked.len()));
    assert(written_from(whole, place, journal, r, p));
}

/// A journal that is entered is the last thing that was done.
proof fn lemma_entered(t: TransactionView, journal: JournalView, r: Seq<Reply>, at: int)
    requires
        enter_step(t, journal, r, at).outcome is Done,
    ensures
        entered_last(enter_step(t, journal, r, at), raw(t.journal()), journal, r),
        enter_step(t, journal, r, at).outcome == Outcome::Done(journal),
{
    reveal(enter_step);
    let write = write_journal_step(raw(t.journal()), journal, r, at);
    let step = enter_step(t, journal, r, at);
    assert(step.asked =~= write.asked);
    assert(step.asked.skip(0) =~= write.asked);
    assert(written_from(step, raw(t.journal()), journal, r, at));
}

/// The disposal of a source ends with a journal that says so.
proof fn lemma_disposed(t: TransactionView, journal: JournalView, r: Seq<Reply>, at: int)
    requires
        journal.phase == Phase::Manifested || journal.phase == Phase::QuarantineLinked,
        dispose_step(t, journal, r, at).outcome is Done,
    ensures
        ({
            let last = dispose_step(t, journal, r, at).outcome->Done_0;
            &&& last.phase == Phase::Complete
            &&& entered_last(dispose_step(t, journal, r, at), raw(t.journal()), last, r)
        }),
{
    reveal(dispose_step);
    let place = raw(t.journal());
    let whole = dispose_step(t, journal, r, at);
    let one = manifested_step(t, journal, r, at);
    let j1 = one.outcome->Done_0;
    let two = linked_step(t, j1, r, one.at);
    let last = whole.outcome->Done_0;
    if j1.phase == Phase::QuarantineLinked {
        let finish = finish_quarantine_step(t.plan, j1, r, one.at);
        let enter = enter_step(t, complete_journal(j1), r, finish.at);
        assert(finish.outcome is Done && enter.outcome is Done && two.asked == finish.asked
            + enter.asked && two.at == enter.at && two.outcome == enter.outcome) by {
            reveal(linked_step);
        }
        lemma_entered(t, complete_journal(j1), r, finish.at);
        lemma_entered_behind(finish, enter, two, place, last, r);
        lemma_entered_behind(one, two, whole, place, last, r);
    } else {
        assert(journal.phase == Phase::Manifested) by {
            reveal(manifested_step);
        }
        assert(two == done(j1, one.at)) by {
            reveal(linked_step);
        }
        assert(whole.asked =~= one.asked);
        match t.plan.source_disposition {
            SourceDisposition::Preserve => {
                assert(one == enter_step(t, complete_journal(journal), r, at)) by {
                    reveal(manifested_step);
                }
                lemma_entered(t, complete_journal(journal), r, at);
            },
            SourceDisposition::Delete => {
                let delete = delete_source_step(t.plan.source, r, at);
                let enter = enter_step(t, complete_journal(journal), r, delete.at);
                assert(delete.outcome is Done && enter.outcome is Done && one.asked
                    == delete.asked + enter.asked && one.at == enter.at && one.outcome
                    == enter.outcome) by {
                    reveal(manifested_step);
                }
                lemma_entered(t, complete_journal(journal), r, delete.at);
                lemma_entered_behind(delete, enter, one, place, last, r);
            },
            SourceDisposition::Quarantine => {
                assert(j1.phase == Phase::QuarantineLinked) by {
                    reveal(manifested_step);
                    reveal(enter_step);
                }
            },
        }
        assert(whole.asked == one.asked && whole.at == one.at);
        let p = choose|p: int| written_from(one, place, last, r, p);
        assert(written_from(whole, place, last, r, p));
    }
}

/// A run that came to its end, and did not find its transaction complete, entered a
/// journal last that says so, and that can be resumed from.
pub proof fn law_finished_run_enters_completion(
    plan: PlanView,
    version: Seq<char>,
    r: Seq<Reply>,
    at: int,
)
    requires
        version.len() > 0,
        execute_step(plan, version, r, at).outcome is Done,
        taken_up(plan, version, r, at).phase != Phase::Complete,
    ensures
        ({
            let last = final_journal(plan, version, r, at);
            &&& last.phase == Phase::Complete
            &&& journal_check(last, plan, transaction_of(plan, version).staging()) is Ok
            &&& entered_last(execute_step(plan, version, r, at), journal_of(plan), last, r)
            &&& execute_step(plan, version, r, at).outcome == Outcome::Done(plan.manifest_path)
        }),
{
    let t = transaction_of(plan, version);
    assert(parent(plan.destination_path) is Some) by {
        reveal(execute_step);
    }
    lemma_run(plan, version, r, at);
    let whole = execute_step(plan, version, r, at);
    let begin = begin_step(plan, version, r, at);
    let journal = taken_up(plan, version, r, at);
    let carry = carry_on_step(t, journal, r, begin.at);
    let archive = archive_step(t, journal, r, begin.at);
    let after = archive.outcome->Done_0;
    let dispose = dispose_step(t, after, r, archive.at);
    let last = dispose.outcome->Done_0;
    assert(archive.outcome is Done && dispose.outcome is Done && carry.at == dispose.at
        && carry.outcome == Outcome::Done(plan.manifest_path)) by {
        reveal(carry_on_step);
    }
    assert(carry.asked =~= archive.asked + dispose.asked) by {
        reveal(carry_on_step);
    }
    lemma_begun_resumes(plan, version, r, at);
    lemma_archived_resumes(t, journal, r, begin.at);
    lemma_disposed(t, after, r, archive.at);
    lemma_entered_behind(archive, dispose, carry, raw(t.journal()), last, r);
    lemma_entered_behind(begin, carry, whole, raw(t.journal()), last, r);
    assert(journal_check(last, plan, t.staging()) is Ok) by {
        reveal(dispose_step);
        let one = manifested_step(t, after, r, archive.at);
        law_phases_advance(t, after, r, archive.at);
        law_phases_advance(t, one.outcome->Done_0, r, one.at);
    }
}

proof fn lemma_begun_resumes(plan: PlanView, version: Seq<char>, r: Seq<Reply>, at: int)
    requires
        version.len() > 0,
        begin_step(plan, version, r, at).outcome is Done,
    ensures
        journal_check(
            taken_up(plan, version, r, at),
            plan,
            transaction_of(plan, version).staging(),
        ) is Ok,
{
    let t = transaction_of(plan, version);
    let one = ensure_directory_step(
        raw(transactions_root(parent(plan.destination_path)->0)),
        r,
        at,
    );
    let two = ensure_directory_step(raw(t.directory), r, one.at);
    law_opened_journal_resumes(t, r, two.at);
}

proof fn lemma_archived_resumes(t: TransactionView, journal: JournalView, r: Seq<Reply>, at: int)
    requires
        journal_check(journal, t.plan, t.staging()) is Ok,
        journal.phase != Phase::Complete,
        archive_step(t, journal, r, at).outcome is Done,
    ensures
        ({
            let after = archive_step(t, journal, r, at).outcome->Done_0;
            &&& journal_check(after, t.plan, t.staging()) is Ok
            &&& after.phase == Phase::Manifested || after.phase == Phase::QuarantineLinked
        }),
{
    reveal(archive_step);
    let one = prepared_step(t, journal, r, at);
    let j1 = one.outcome->Done_0;
    let two = staged_step(t, j1, r, one.at);
    let j2 = two.outcome->Done_0;
    let three = published_step(t, j2, r, two.at);
    let j3 = three.outcome->Done_0;
    law_phases_advance(t, journal, r, at);
    law_phases_advance(t, j1, r, one.at);
    law_phases_advance(t, j2, r, two.at);
    law_phases_advance(t, j3, r, three.at);
    assert(archive_step(t, journal, r, at).outcome->Done_0.phase != Phase::Complete) by {
        reveal(prepared_step);
        reveal(staged_step);
        reveal(published_step);
        reveal(verified_step);
        reveal(enter_step);
    }
}

/// Whether a reply says that all is at home: a directory was made or stands, what
/// stands there is a directory, what was asked is answered, and a journal is read.
pub open spec fn at_home(request: RequestView, reply: Reply) -> bool {
    match request {
        RequestView::CreateDirectory { .. } => reply is Finished || reply is AlreadyExists,
        RequestView::Kind { .. } => reply == Reply::Kind(FileKind::Directory),
        RequestView::Exists { .. } => reply is Flag,
        RequestView::EvaluateJournal { .. } => reply matches Reply::Journal(evaluated)
            && journal_in(evaluated) is Ok,
        _ => true,
    }
}

/// Whether every reply to some requests says that all is at home.
pub open spec fn all_at_home(asked: Seq<RequestView>, r: Seq<Reply>, at: int) -> bool {
    forall|i: int| 0 <= i < asked.len() ==> #[trigger] at_home(asked[i], r[at + i])
}

/// The requests of a transaction that rests: no file is read but the plan and the
/// journal, none is written, and no program is run.
pub open spec fn resting() -> spec_fn(RequestView) -> bool {
    |request: RequestView|
        match request {
            RequestView::EvaluatePlan { .. } => true,
            RequestView::CreateDirectory { .. } => true,
            RequestView::Kind { .. } => true,
            RequestView::Exists { .. } => true,
            RequestView::EvaluateJournal { .. } => true,
            _ => false,
        }
}

proof fn lemma_at_home_splits(
    first: Seq<RequestView>,
    second: Seq<RequestView>,
    r: Seq<Reply>,
    at: int,
)
    requires
        all_at_home(first + second, r, at),
    ensures
        all_at_home(first, r, at),
        all_at_home(second, r, at + first.len()),
{
    let whole = first + second;
    let n = first.len() as int;
    assert forall|i: int| 0 <= i < n implies #[trigger] at_home(first[i], r[at + i]) by {
        assert(at_home(whole[i], r[at + i]));
    }
    assert forall|i: int| 0 <= i < second.len() implies #[trigger] at_home(
        second[i],
        r[at + n + i],
    ) by {
        assert(at_home(whole[n + i], r[at + (n + i)]));
    }
}

/// A directory that stands is found standing.
proof fn lemma_directory_stands(path: Seq<u8>, r: Seq<Reply>, at: int, worlds: Seq<World>)
    requires
        history(worlds, ensure_directory_step(path, r, at).asked, r, at),
        all_at_home(ensure_directory_step(path, r, at).asked, r, at),
        worlds[0].has(path),
    ensures
        worlds.last() == worlds[0],
        ensure_directory_step(path, r, at).outcome !is Fail,
        every(ensure_directory_step(path, r, at), resting()),
{
    let step = ensure_directory_step(path, r, at);
    reveal(ensure_directory_step);
    reveal(every);
    if step.asked.len() > 0 {
        let i: int = 0;
        assert(step.asked[i] == (RequestView::CreateDirectory { path }));
        assert(at_home(step.asked[i], r[at + i]));
        assert(moves(worlds[i], step.asked[i], r[at + i], worlds[i + 1]));
        assert(r[at] is AlreadyExists);
        if step.asked.len() > 1 {
            let j: int = 1;
            assert(step.asked[j] == (RequestView::Kind { path }));
            assert(at_home(step.asked[j], r[at + j]));
            assert(moves(worlds[j], step.asked[j], r[at + j], worlds[j + 1]));
        }
    }
}

/// A directory that a workflow makes sure of stands.
proof fn lemma_directory_made(path: Seq<u8>, r: Seq<Reply>, at: int, worlds: Seq<World>)
    requires
        history(worlds, ensure_directory_step(path, r, at).asked, r, at),
        ensure_directory_step(path, r, at).outcome is Done,
    ensures
        worlds.last().has(path),
{
    let step = ensure_directory_step(path, r, at);
    reveal(ensure_directory_step);
    let i: int = 0;
    assert(step.asked[i] == (RequestView::CreateDirectory { path }));
    assert(moves(worlds[i], step.asked[i], r[at + i], worlds[i + 1]));
    let j: int = 1;
    assert(step.asked.len() == 2);
    assert(moves(worlds[j], step.asked[j], r[at + j], worlds[j + 1]));
}

/// The journal of a complete transaction is read back, and nothing else is done.
proof fn lemma_complete_opened(
    t: TransactionView,
    journal: JournalView,
    r: Seq<Reply>,
    at: int,
    worlds: Seq<World>,
)
    requires
        history(worlds, open_journal_step(t, r, at).asked, r, at),
        reads_back(worlds, open_journal_step(t, r, at).asked, r, at),
        all_at_home(open_journal_step(t, r, at).asked, r, at),
        worlds[0].has(raw(t.journal())),
        worlds[0].text(raw(t.journal())) == journal_text(journal),
        journal_check(journal, t.plan, t.staging()) is Ok,
    ensures
        worlds.last() == worlds[0],
        open_journal_step(t, r, at).outcome !is Fail,
        open_journal_step(t, r, at).outcome matches Outcome::Done(read) ==> read == journal,
        every(open_journal_step(t, r, at), resting()),
{
    let step = open_journal_step(t, r, at);
    let place = raw(t.journal());
    reveal(open_journal_step);
    reveal(load_journal_step);
    reveal(every);
    if step.asked.len() > 0 {
        let i: int = 0;
        assert(step.asked[i] == (RequestView::Exists { path: place }));
        assert(at_home(step.asked[i], r[at + i]));
        assert(moves(worlds[i], step.asked[i], r[at + i], worlds[i + 1]));
        assert(r[at] == Reply::Flag(true));
        if step.asked.len() > 1 {
            let j: int = 1;
            assert(step.asked[j] == (RequestView::EvaluateJournal { path: place }));
            assert(at_home(step.asked[j], r[at + j]));
            assert(moves(worlds[j], step.asked[j], r[at + j], worlds[j + 1]));
            assert(worlds[j].text(place) == journal_text(journal));
            assert(step.asked.len() == 2);
        }
    }
}

/// The root of transactions is none of the paths that a transaction clears.
proof fn lemma_root_stays(plan: PlanView, version: Seq<char>)
    ensures
        !scratch(
            transaction_of(plan, version),
            raw(transactions_root(parent(plan.destination_path)->0)),
        ),
{
    let t = transaction_of(plan, version);
    let base = parent(plan.destination_path)->0;
    let root = transactions_root(base);
    let other = manifest_staging_place(t.directory);
    reveal_strlit("journal.pkl");
    reveal_strlit("output.partial");
    reveal_strlit("manifest.partial");
    reveal_strlit(".marchiver-transactions");
    reveal_strlit("/");
    assert(root[root.len() - 1] == 's');
    assert(t.journal()[t.journal().len() - 1] == 'l');
    assert(t.staging()[t.staging().len() - 1] == 'l');
    assert(other[other.len() - 1] == 'l');
    if raw(root) == raw(t.journal()) {
        law_texts_have_bytes_of_their_own(root, t.journal());
    }
    if raw(root) == raw(t.staging()) {
        law_texts_have_bytes_of_their_own(root, t.staging());
    }
    if raw(root) == raw(other) {
        law_texts_have_bytes_of_their_own(root, other);
    }
    if let Some(name) = text_name(raw(t.journal())) {
        let place = replacement_place(raw(t.journal()), name);
        let end = ".marchiver.tmp"@;
        reveal_strlit(".marchiver.tmp");
        is_ascii_chars_encode_utf8(end);
        assert(hidden_name(name, end).last() == raw(end).last());
        assert(place.last() == raw(end).last());
        let start = root.drop_last();
        assert(root =~= start + seq!['s']);
        lemma_raw_concat(start, seq!['s']);
        is_ascii_chars_encode_utf8(seq!['s']);
        assert(raw(root).last() == raw(seq!['s']).last());
        assert(seq!['s'][0] as u8 == raw(seq!['s'])[0]);
        assert(end[end.len() - 1] as u8 == raw(end)[end.len() - 1]);
        assert(end[end.len() - 1] == 'p');
    }
}

/// The directory of a transaction is none of the paths that it clears.
proof fn lemma_directory_stays(t: TransactionView)
    ensures
        !scratch(t, raw(t.directory)),
{
    let other = manifest_staging_place(t.directory);
    reveal_strlit("journal.pkl");
    reveal_strlit("output.partial");
    reveal_strlit("manifest.partial");
    reveal_strlit(".");
    reveal_strlit("..");
    reveal_strlit("/");
    assert(t.journal().len() > t.directory.len());
    assert(t.staging().len() > t.directory.len());
    assert(other.len() > t.directory.len());
    if raw(t.directory) == raw(t.journal()) {
        law_texts_have_bytes_of_their_own(t.directory, t.journal());
    }
    if raw(t.directory) == raw(t.staging()) {
        law_texts_have_bytes_of_their_own(t.directory, t.staging());
    }
    if raw(t.directory) == raw(other) {
        law_texts_have_bytes_of_their_own(t.directory, other);
    }
    law_replacement_is_not_its_directory(t.directory, "journal.pkl"@);
}

/// Where a workflow that was counted entered a journal last, that journal stands.
proof fn lemma_last_entered_stands<T>(
    step: Step<T>,
    place: Seq<u8>,
    journal: JournalView,
    r: Seq<Reply>,
    at: int,
    worlds: Seq<World>,
)
    requires
        counted(step, at),
        entered_last(step, place, journal, r),
        history(worlds, step.asked, r, at),
    ensures
        worlds.last().has(place),
        worlds.last().text(place) == journal_text(journal),
{
    let p = choose|p: int| written_from(step, place, journal, r, p);
    let write = write_journal_step(place, journal, r, p);
    count_replace(place, journal_text(journal), r, p);
    reveal(counted);
    let n = step.asked.len() - write.asked.len();
    assert(step.asked =~= step.asked.take(n) + write.asked);
    lemma_history_splits(worlds, step.asked.take(n), write.asked, r, at);
    lemma_replaced(place, journal_text(journal), r, p, worlds.skip(n));
}

/// Where a run is over, the directories of its transaction stand.
proof fn lemma_directories_stand(
    plan: PlanView,
    version: Seq<char>,
    r: Seq<Reply>,
    at: int,
    worlds: Seq<World>,
)
    requires
        parent(plan.destination_path) is Some,
        raw(plan.source.path) != raw(transactions_root(parent(plan.destination_path)->0)),
        raw(plan.source.path) != raw(transaction_of(plan, version).directory),
        history(worlds, execute_step(plan, version, r, at).asked, r, at),
        execute_step(plan, version, r, at).outcome is Done,
    ensures
        worlds.last().has(raw(transactions_root(parent(plan.destination_path)->0))),
        worlds.last().has(raw(transaction_of(plan, version).directory)),
{
    let t = transaction_of(plan, version);
    let root = raw(transactions_root(parent(plan.destination_path)->0));
    let directory = raw(t.directory);
    let one = ensure_directory_step(root, r, at);
    let two = ensure_directory_step(directory, r, one.at);
    let three = open_journal_step(t, r, two.at);
    let begin = begin_step(plan, version, r, at);
    lemma_run(plan, version, r, at);
    count_ensure_directory(root, r, at);
    count_ensure_directory(directory, r, one.at);
    reveal(counted);
    let journal = taken_up(plan, version, r, at);
    let carry = carry_on_step(t, journal, r, begin.at);
    lemma_history_splits(worlds, begin.asked, carry.asked, r, at);
    let early = worlds.take(begin.asked.len() as int + 1);
    let late = worlds.skip(begin.asked.len() as int);
    assert(begin.asked =~= one.asked + (two.asked + three.asked));
    lemma_history_splits(early, one.asked, two.asked + three.asked, r, at);
    let w0 = early.take(one.asked.len() as int + 1);
    let rest = early.skip(one.asked.len() as int);
    lemma_history_splits(rest, two.asked, three.asked, r, one.at);
    let w1 = rest.take(two.asked.len() as int + 1);
    let w2 = rest.skip(two.asked.len() as int);
    lemma_directory_made(root, r, at, w0);
    lemma_directory_made(directory, r, one.at, w1);
    leave_ensure_directory(directory, r, one.at, root);
    lemma_left(two, r, one.at, w1, root);
    lemma_root_stays(plan, version);
    lemma_directory_stays(t);
    leave_open_journal(t, r, two.at, root);
    leave_open_journal(t, r, two.at, directory);
    lemma_left(three, r, two.at, w2, root);
    lemma_left(three, r, two.at, w2, directory);
    assert forall|place: Seq<u8>|
        !scratch(t, place) && place != raw(plan.source.path) && late[0].has(
            place,
        ) implies #[trigger] kept(late[0], late.last(), place) by {
        assert(every(carry, leaving(place))) by {
            broadcast use {group_every, leave_archive, leave_dispose};

            reveal(carry_on_step);
        }
        lemma_left(carry, r, begin.at, late, place);
    }
    assert(kept(late[0], late.last(), root));
    assert(kept(late[0], late.last(), directory));
}

/// Behind a run that came to its end, and had not found its transaction complete,
/// another run that reads the journal back says that it is complete, unless the
/// replies fail it, and asks for nothing more: it reads the plan and the journal and
/// finds the directories standing. Nothing is changed, and no program is run.
pub proof fn law_finished_run_rests(plan: PlanView, run: Run, again: Run)
    requires
        run.version.len() > 0,
        run.is_of(plan),
        run.step().outcome is Done,
        taken_up(plan, run.version, run.r, load_plan_step(run.path, run.r, run.at).at).phase
            != Phase::Complete,
        raw(plan.source.path) != raw(transactions_root(parent(plan.destination_path)->0)),
        raw(plan.source.path) != raw(transaction_of(plan, run.version).directory),
        again.is_of(plan),
        again.reads(),
        again.worlds[0] == run.worlds.last(),
        all_at_home(again.step().asked, again.r, again.at),
    ensures
        again.step().outcome !is Fail,
        again.step().outcome matches Outcome::Done(message) ==> message == "already complete "@
            + plan.manifest_path,
        again.worlds.last() == again.worlds[0],
        every(again.step(), resting()),
{
    let load = load_plan_step(run.path, run.r, run.at);
    let worlds = lemma_loaded(run.path, plan, run.version, run.r, run.at, run.worlds);
    let execute = execute_step(plan, run.version, run.r, load.at);
    law_finished_run_enters_completion(plan, run.version, run.r, load.at);
    let journal = final_journal(plan, run.version, run.r, load.at);
    count_execute(plan, run.version, run.r, load.at);
    lemma_last_entered_stands(execute, journal_of(plan), journal, run.r, load.at, worlds);
    assert(parent(plan.destination_path) is Some) by {
        reveal(execute_step);
    }
    lemma_directories_stand(plan, run.version, run.r, load.at, worlds);
    lemma_complete_rests(plan, journal, again);
}

/// A run that finds its directories and a journal that says so finds its transaction
/// complete.
proof fn lemma_complete_rests(plan: PlanView, journal: JournalView, run: Run)
    requires
        run.is_of(plan),
        run.reads(),
        all_at_home(run.step().asked, run.r, run.at),
        parent(plan.destination_path) is Some,
        run.worlds[0].has(raw(transactions_root(parent(plan.destination_path)->0))),
        run.worlds[0].has(raw(transaction_of(plan, run.version).directory)),
        run.worlds[0].has(journal_of(plan)),
        run.worlds[0].text(journal_of(plan)) == journal_text(journal),
        journal.phase == Phase::Complete,
        journal_check(journal, plan, transaction_of(plan, run.version).staging()) is Ok,
    ensures
        run.step().outcome !is Fail,
        run.step().outcome matches Outcome::Done(message) ==> message == "already complete "@
            + plan.manifest_path,
        run.worlds.last() == run.worlds[0],
        every(run.step(), resting()),
{
    let r = run.r;
    let t = transaction_of(plan, run.version);
    let load = load_plan_step(run.path, r, run.at);
    let execute = execute_step(plan, run.version, r, load.at);
    let i: int = 0;
    assert(load.asked.len() == 1 && load.at == run.at + 1) by {
        reveal(load_plan_step);
    }
    assert(load.asked[i] == (RequestView::EvaluatePlan { path: run.path })) by {
        reveal(load_plan_step);
    }
    assert(run.step() == Step::<Seq<char>> { asked: load.asked + execute.asked, ..execute }) by {
        reveal(apply_step);
    }
    lemma_history_splits(run.worlds, load.asked, execute.asked, r, run.at);
    lemma_reads_back_splits(run.worlds, load.asked, execute.asked, r, run.at);
    lemma_at_home_splits(load.asked, execute.asked, r, run.at);
    let first = run.worlds.take(load.asked.len() as int + 1);
    assert(moves(first[i], load.asked[i], r[run.at + i], first[i + 1]));
    let worlds = run.worlds.skip(load.asked.len() as int);
    let begin = begin_step(plan, run.version, r, load.at);
    lemma_run(plan, run.version, r, load.at);
    assert(execute.asked =~= begin.asked + execute.asked.skip(begin.asked.len() as int));
    let more = execute.asked.skip(begin.asked.len() as int);
    lemma_history_splits(worlds, begin.asked, more, r, load.at);
    lemma_reads_back_splits(worlds, begin.asked, more, r, load.at);
    lemma_at_home_splits(begin.asked, more, r, load.at);
    lemma_complete_begun(
        plan,
        run.version,
        journal,
        r,
        load.at,
        worlds.take(begin.asked.len() as int + 1),
    );
    if begin.outcome is Done {
        law_complete_transaction_rests(t, journal, r, begin.at);
    }
    assert(execute.asked =~= begin.asked);
    reveal(every);
    assert forall|k: int| 0 <= k < run.step().asked.len() implies resting()(
        #[trigger] run.step().asked[k],
    ) by {
        if k > 0 {
            assert(run.step().asked[k] == begin.asked[k - 1]);
        }
    }
}

/// The beginning of a run of a complete transaction finds all at home.
proof fn lemma_complete_begun(
    plan: PlanView,
    version: Seq<char>,
    journal: JournalView,
    r: Seq<Reply>,
    at: int,
    worlds: Seq<World>,
)
    requires
        history(worlds, begin_step(plan, version, r, at).asked, r, at),
        reads_back(worlds, begin_step(plan, version, r, at).asked, r, at),
        all_at_home(begin_step(plan, version, r, at).asked, r, at),
        worlds[0].has(raw(transactions_root(parent(plan.destination_path)->0))),
        worlds[0].has(raw(transaction_of(plan, version).directory)),
        worlds[0].has(journal_of(plan)),
        worlds[0].text(journal_of(plan)) == journal_text(journal),
        journal_check(journal, plan, transaction_of(plan, version).staging()) is Ok,
    ensures
        worlds.last() == worlds[0],
        begin_step(plan, version, r, at).outcome !is Fail,
        begin_step(plan, version, r, at).outcome matches Outcome::Done(read) ==> read == journal,
        every(begin_step(plan, version, r, at), resting()),
{
    let t = transaction_of(plan, version);
    let begin = begin_step(plan, version, r, at);
    let root = raw(transactions_root(parent(plan.destination_path)->0));
    let one = ensure_directory_step(root, r, at);
    let more = begin.asked.skip(one.asked.len() as int);
    count_ensure_directory(root, r, at);
    reveal(counted);
    assert(begin.asked =~= one.asked + more);
    lemma_history_splits(worlds, one.asked, more, r, at);
    lemma_reads_back_splits(worlds, one.asked, more, r, at);
    lemma_at_home_splits(one.asked, more, r, at);
    lemma_directory_stands(root, r, at, worlds.take(one.asked.len() as int + 1));
    let rest = worlds.skip(one.asked.len() as int);
    if one.outcome is Done {
        let two = ensure_directory_step(raw(t.directory), r, one.at);
        let last = more.skip(two.asked.len() as int);
        count_ensure_directory(raw(t.directory), r, one.at);
        assert(more =~= two.asked + last);
        lemma_history_splits(rest, two.asked, last, r, one.at);
        lemma_reads_back_splits(rest, two.asked, last, r, one.at);
        lemma_at_home_splits(two.asked, last, r, one.at);
        lemma_directory_stands(
            raw(t.directory),
            r,
            one.at,
            rest.take(two.asked.len() as int + 1),
        );
        if two.outcome is Done {
            let three = open_journal_step(t, r, two.at);
            assert(last =~= three.asked);
            lemma_complete_opened(t, journal, r, two.at, rest.skip(two.asked.len() as int));
        }
    }
    broadcast use group_every;

}

} // verus!
