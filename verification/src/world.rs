//! What workflows do to the files they work on, over a model of a file system.
//!
//! The model holds regular files and directories, each under one or more paths,
//! and no symbolic links. Only the workflow at hand changes it.
use vstd::prelude::*;

use crate::disposal::{
    check_quarantine_step, finish_quarantine_step, link_if_needed_step, link_step,
    quarantine_directories_step, quarantine_link_step, restore_by_presence_step, restore_step,
};
use crate::flow::{
    act_step, chain, consult, done, exists_step, fail, flag_in, reply_at, settled, Outcome, Reply,
    RequestView, Step, Tool,
};
use crate::inspect::{regular_file_step, validate_source_step};
use crate::model::{EvidenceView, JournalView, ManifestView, PlanView};
use crate::os_text::{raw, shown};
use crate::path::parent;
use crate::replay::{
    count_add_name, count_ensure_directory, count_hash_regular, count_same_file, count_validate,
};
use crate::safety::{law_validation_only_looks, looking};
use crate::storage::{
    add_name_step, discard_step, drop_name_step, ensure_directory_step, ensure_same_file_step,
    hash_regular_step, law_output_is_prepared_elsewhere, link_or_remove_step, output_place,
    promote_step, publish_new_step, publish_output_step, remove_internal_step, sync_parent_step,
    text_name, write_new_step, write_user_output_step,
};
use crate::trace::{counted, every, group_counted};

verus! {

/// A file system: which file stands at a path, by device and inode, the digest
/// of each file's contents, and the text that they are.
pub struct World {
    pub entries: Map<Seq<u8>, (u64, u64)>,
    pub digests: Map<(u64, u64), Seq<char>>,
    pub texts: Map<(u64, u64), Seq<char>>,
}

impl World {
    /// Whether anything stands at a path.
    pub open spec fn has(self, path: Seq<u8>) -> bool {
        self.entries.contains_key(path)
    }

    /// The file at a path.
    pub open spec fn file(self, path: Seq<u8>) -> (u64, u64) {
        self.entries[path]
    }

    /// The digest of the file at a path.
    pub open spec fn digest(self, path: Seq<u8>) -> Seq<char> {
        self.digests[self.entries[path]]
    }

    /// The text of the file at a path.
    pub open spec fn text(self, path: Seq<u8>) -> Seq<char> {
        self.texts[self.entries[path]]
    }
}

/// The world with a second name for the file at a path.
pub open spec fn linked(world: World, from: Seq<u8>, to: Seq<u8>) -> World {
    World { entries: world.entries.insert(to, world.file(from)), ..world }
}

/// The world without one of its paths.
pub open spec fn unlinked(world: World, path: Seq<u8>) -> World {
    World { entries: world.entries.remove(path), ..world }
}

/// Whether what stands at a path still stands there, with the same contents.
pub open spec fn kept(before: World, after: World, path: Seq<u8>) -> bool {
    &&& after.has(path)
    &&& after.file(path) == before.file(path)
    &&& after.digest(path) == before.digest(path)
    &&& after.text(path) == before.text(path)
}

/// Whether all that stood still stands, and at most one path has something new.
pub open spec fn appeared(before: World, after: World, path: Seq<u8>) -> bool {
    &&& forall|p: Seq<u8>| before.has(p) ==> #[trigger] kept(before, after, p)
    &&& forall|p: Seq<u8>| #[trigger] after.has(p) ==> before.has(p) || p == path
}

/// Whether something new was made at a path, or the attempt at it failed.
pub open spec fn made(before: World, reply: Reply, after: World, path: Seq<u8>) -> bool {
    &&& appeared(before, after, path)
    &&& reply is Finished ==> !before.has(path) && after.has(path)
}

/// Whether a request with its reply leads from one state of the world to another.
pub open spec fn moves(before: World, request: RequestView, reply: Reply, after: World) -> bool {
    match request {
        RequestView::Exists { path } => {
            &&& after == before
            &&& reply matches Reply::Flag(flag) ==> flag == before.has(path)
        },
        RequestView::Kind { path } => {
            &&& after == before
            &&& reply is Kind ==> before.has(path)
        },
        RequestView::Resolve { path } => {
            &&& after == before
            &&& reply matches Reply::Resolved(resolved) ==> {
                &&& before.has(path)
                &&& before.has(resolved@)
                &&& before.file(resolved@) == before.file(path)
            }
        },
        RequestView::Stat { path } => {
            &&& after == before
            &&& reply matches Reply::Stat(stat) ==> before.has(path) && before.file(path) == (
                stat.device,
                stat.inode,
            )
        },
        RequestView::Hash { path } => {
            &&& after == before
            &&& reply matches Reply::Digest(digest) ==> before.has(path) && before.digest(path)
                == digest@
        },
        RequestView::HardLink { from, to } => if reply is Finished {
            &&& before.has(from)
            &&& !before.has(to)
            &&& after == linked(before, from, to)
        } else {
            after == before
        },
        RequestView::Rename { from, to } => if reply is Finished {
            &&& before.has(from)
            &&& after == if from == to {
                before
            } else {
                unlinked(linked(before, from, to), from)
            }
        } else {
            after == before
        },
        RequestView::Remove { path } => if reply is Finished {
            &&& before.has(path)
            &&& after == unlinked(before, path)
        } else {
            after == before
        },
        RequestView::CreateDirectory { path } => if reply is Finished {
            made(before, reply, after, path)
        } else {
            &&& after == before
            &&& reply is AlreadyExists ==> before.has(path)
        },
        RequestView::WriteNew { path, contents } => {
            &&& made(before, reply, after, path)
            &&& reply is Finished ==> after.text(path) == contents
        },
        RequestView::Copy { to, .. } => made(before, reply, after, to),
        RequestView::Run { tool, arguments } => if tool == Tool::Ffmpeg && arguments.len() > 0 {
            appeared(before, after, arguments.last())
        } else {
            after == before
        },
        _ => after == before,
    }
}

/// Whether a sequence of states is what answered requests lead through.
pub open spec fn history(
    worlds: Seq<World>,
    asked: Seq<RequestView>,
    r: Seq<Reply>,
    at: int,
) -> bool {
    &&& worlds.len() == asked.len() + 1
    &&& forall|i: int|
        0 <= i < asked.len() ==> #[trigger] moves(worlds[i], asked[i], r[at + i], worlds[i + 1])
}

/// Whether a workflow that starts at a position in a world has come, in every
/// world it may have led to, to what is expected.
#[verifier::opaque]
pub open spec fn leads<T>(
    step: Step<T>,
    r: Seq<Reply>,
    at: int,
    world: World,
    expected: spec_fn(World, Outcome<T>) -> bool,
) -> bool {
    forall|worlds: Seq<World>|
        #[trigger] history(worlds, step.asked, r, at) && worlds[0] == world ==> expected(
            worlds.last(),
            step.outcome,
        )
}

broadcast proof fn lead_done<T>(
    value: T,
    p: int,
    r: Seq<Reply>,
    at: int,
    world: World,
    expected: spec_fn(World, Outcome<T>) -> bool,
)
    requires
        expected(world, Outcome::Done(value)),
    ensures
        #[trigger] leads(done(value, p), r, at, world, expected),
{
    reveal(leads);
}

broadcast proof fn lead_fail<T>(
    message: Seq<char>,
    p: int,
    r: Seq<Reply>,
    at: int,
    world: World,
    expected: spec_fn(World, Outcome<T>) -> bool,
)
    requires
        expected(world, Outcome::Fail(message)),
    ensures
        #[trigger] leads(fail(message, p), r, at, world, expected),
{
    reveal(leads);
}

broadcast proof fn lead_settled<T>(
    result: Result<T, Seq<char>>,
    p: int,
    r: Seq<Reply>,
    at: int,
    world: World,
    expected: spec_fn(World, Outcome<T>) -> bool,
)
    requires
        expected(world, settled(result, p).outcome),
    ensures
        #[trigger] leads(settled(result, p), r, at, world, expected),
{
    reveal(leads);
}

broadcast proof fn lead_consult<T>(
    request: RequestView,
    read: spec_fn(Reply) -> Result<T, Seq<char>>,
    r: Seq<Reply>,
    at: int,
    world: World,
    expected: spec_fn(World, Outcome<T>) -> bool,
)
    requires
        reply_at(r, at) is None ==> expected(world, Outcome::Ask(request)),
        reply_at(r, at) matches Some(reply) ==> forall|after: World| #[trigger]
            moves(world, request, reply, after) ==> expected(
                after,
                settled(read(reply), at + 1).outcome,
            ),
    ensures
        #[trigger] leads(consult(request, read, r, at), r, at, world, expected),
{
    reveal(leads);
    let step = consult(request, read, r, at);
    assert forall|worlds: Seq<World>|
        #[trigger] history(worlds, step.asked, r, at) && worlds[0] == world implies expected(
        worlds.last(),
        step.outcome,
    ) by {
        if reply_at(r, at) is Some {
            let i: int = 0;
            assert(moves(worlds[i], step.asked[i], r[at + i], worlds[i + 1]));
        }
    }
}

/// What is expected of the first of two workflows, given what is expected of both.
pub open spec fn expected_first<T, U>(
    next: spec_fn(T, int) -> Step<U>,
    at: int,
    r: Seq<Reply>,
    expected: spec_fn(World, Outcome<U>) -> bool,
) -> spec_fn(World, Outcome<T>) -> bool {
    |world: World, outcome: Outcome<T>|
        match outcome {
            Outcome::Done(value) => leads(next(value, at), r, at, world, expected),
            Outcome::Ask(request) => expected(world, Outcome::Ask(request)),
            Outcome::Fail(message) => expected(world, Outcome::Fail(message)),
        }
}

broadcast proof fn lead_chain<T, U>(
    first: Step<T>,
    next: spec_fn(T, int) -> Step<U>,
    r: Seq<Reply>,
    at: int,
    world: World,
    expected: spec_fn(World, Outcome<U>) -> bool,
)
    requires
        counted(first, at),
        leads(first, r, at, world, expected_first(next, first.at, r, expected)),
    ensures
        #[trigger] leads(chain(first, next), r, at, world, expected),
{
    reveal(leads);
    reveal(counted);
    let step = chain(first, next);
    assert forall|worlds: Seq<World>|
        #[trigger] history(worlds, step.asked, r, at) && worlds[0] == world implies expected(
        worlds.last(),
        step.outcome,
    ) by {
        let n = first.asked.len() as int;
        let early = worlds.take(n + 1);
        assert(history(early, first.asked, r, at)) by {
            assert forall|i: int| 0 <= i < first.asked.len() implies #[trigger] moves(
                early[i],
                first.asked[i],
                r[at + i],
                early[i + 1],
            ) by {
                assert(moves(worlds[i], step.asked[i], r[at + i], worlds[i + 1]));
            }
        }
        assert(expected_first(next, first.at, r, expected)(early.last(), first.outcome));
        if let Outcome::Done(value) = first.outcome {
            let second = next(value, first.at);
            let late = worlds.skip(n);
            assert(history(late, second.asked, r, first.at)) by {
                assert forall|i: int| 0 <= i < second.asked.len() implies #[trigger] moves(
                    late[i],
                    second.asked[i],
                    r[first.at + i],
                    late[i + 1],
                ) by {
                    assert(moves(worlds[n + i], step.asked[n + i], r[at + (n + i)], worlds[n + i
                        + 1]));
                }
            }
            assert(late[0] == early.last());
            assert(late.last() == worlds.last());
        } else {
            assert(worlds.len() == n + 1);
        }
    }
}

broadcast group group_leads {
    lead_done,
    lead_fail,
    lead_settled,
    lead_consult,
    lead_chain,
}

/// What leads to one thing leads to everything that it implies.
proof fn lemma_leads_widened<T>(
    step: Step<T>,
    r: Seq<Reply>,
    at: int,
    world: World,
    narrow: spec_fn(World, Outcome<T>) -> bool,
    wide: spec_fn(World, Outcome<T>) -> bool,
)
    requires
        leads(step, r, at, world, narrow),
        forall|after: World, outcome: Outcome<T>| #[trigger]
            narrow(after, outcome) ==> wide(after, outcome),
    ensures
        leads(step, r, at, world, wide),
{
    reveal(leads);
}

/// One workflow after another, by what comes of the first.
proof fn lemma_leads_on<T, U>(
    first: Step<T>,
    next: spec_fn(T, int) -> Step<U>,
    r: Seq<Reply>,
    at: int,
    world: World,
    middle: spec_fn(World, Outcome<T>) -> bool,
    expected: spec_fn(World, Outcome<U>) -> bool,
)
    requires
        counted(first, at),
        leads(first, r, at, world, middle),
        forall|after: World, outcome: Outcome<T>| #[trigger]
            middle(after, outcome) ==> expected_first(next, first.at, r, expected)(after, outcome),
    ensures
        leads(chain(first, next), r, at, world, expected),
{
    lemma_leads_widened(first, r, at, world, middle, expected_first(next, first.at, r, expected));
    lead_chain(first, next, r, at, world, expected);
}

/// What is expected of resolving a regular file: the world is as it was, and what
/// comes of it is a path of the same file.
pub open spec fn found(path: Seq<u8>, world: World) -> spec_fn(World, Outcome<Seq<u8>>) -> bool {
    |after: World, outcome: Outcome<Seq<u8>>|
        after == world && (outcome matches Outcome::Done(file) ==> world.has(path) && world.has(
            file,
        ) && world.file(file) == world.file(path))
}

#[verifier::spinoff_prover]
pub proof fn lemma_found(path: Seq<u8>, r: Seq<Reply>, at: int, world: World)
    ensures
        leads(regular_file_step(path, r, at), r, at, world, found(path, world)),
{
    broadcast use {group_leads, group_counted};

    reveal(regular_file_step);
}

broadcast proof fn lead_regular_file(
    path: Seq<u8>,
    r: Seq<Reply>,
    at: int,
    world: World,
    expected: spec_fn(World, Outcome<Seq<u8>>) -> bool,
)
    requires
        forall|after: World, outcome: Outcome<Seq<u8>>| #[trigger]
            found(path, world)(after, outcome) ==> expected(after, outcome),
    ensures
        #[trigger] leads(regular_file_step(path, r, at), r, at, world, expected),
{
    lemma_found(path, r, at, world);
    lemma_leads_widened(
        regular_file_step(path, r, at),
        r,
        at,
        world,
        found(path, world),
        expected,
    );
}

pub broadcast proof fn count_regular_file(path: Seq<u8>, r: Seq<Reply>, at: int)
    ensures
        #[trigger] counted(regular_file_step(path, r, at), at),
{
    broadcast use group_counted;

    reveal(regular_file_step);
}

/// What is expected of digesting a file: the world is as it was, and what comes
/// of it is the file's digest.
spec fn digested(path: Seq<u8>, world: World) -> spec_fn(World, Outcome<Seq<char>>) -> bool {
    |after: World, outcome: Outcome<Seq<char>>|
        after == world && (outcome matches Outcome::Done(digest) ==> world.has(path)
            && world.digest(path) == digest)
}

#[verifier::spinoff_prover]
proof fn lemma_digested(path: Seq<u8>, r: Seq<Reply>, at: int, world: World)
    ensures
        leads(hash_regular_step(path, r, at), r, at, world, digested(path, world)),
{
    broadcast use {lead_chain, lead_consult, lead_regular_file, count_regular_file};

    reveal(hash_regular_step);
}

broadcast proof fn lead_hash_regular(
    path: Seq<u8>,
    r: Seq<Reply>,
    at: int,
    world: World,
    expected: spec_fn(World, Outcome<Seq<char>>) -> bool,
)
    requires
        forall|outcome: Outcome<Seq<char>>|
            (outcome matches Outcome::Done(digest) ==> world.has(path) && world.digest(path)
                == digest) ==> #[trigger] expected(world, outcome),
    ensures
        #[trigger] leads(hash_regular_step(path, r, at), r, at, world, expected),
{
    lemma_digested(path, r, at, world);
    lemma_leads_widened(
        hash_regular_step(path, r, at),
        r,
        at,
        world,
        digested(path, world),
        expected,
    );
}

/// What is expected of comparing two names: the world is as it was, and they are
/// names of one file where it passes.
spec fn compared(left: Seq<u8>, right: Seq<u8>, world: World) -> spec_fn(World, Outcome<()>) -> bool {
    |after: World, outcome: Outcome<()>|
        after == world && (outcome is Done ==> world.has(left) && world.has(right) && world.file(
            left,
        ) == world.file(right))
}

proof fn lemma_compared(left: Seq<u8>, right: Seq<u8>, r: Seq<Reply>, at: int, world: World)
    ensures
        leads(
            ensure_same_file_step(left, right, r, at),
            r,
            at,
            world,
            compared(left, right, world),
        ),
{
    broadcast use {group_leads, group_counted};

    reveal(ensure_same_file_step);
}

broadcast proof fn lead_same_file(
    left: Seq<u8>,
    right: Seq<u8>,
    r: Seq<Reply>,
    at: int,
    world: World,
    expected: spec_fn(World, Outcome<()>) -> bool,
)
    requires
        forall|outcome: Outcome<()>|
            (outcome is Done ==> world.has(left) && world.has(right) && world.file(left)
                == world.file(right)) ==> #[trigger] expected(world, outcome),
    ensures
        #[trigger] leads(ensure_same_file_step(left, right, r, at), r, at, world, expected),
{
    lemma_compared(left, right, r, at, world);
    lemma_leads_widened(
        ensure_same_file_step(left, right, r, at),
        r,
        at,
        world,
        compared(left, right, world),
        expected,
    );
}

broadcast proof fn lead_exists(
    path: Seq<u8>,
    r: Seq<Reply>,
    at: int,
    world: World,
    expected: spec_fn(World, Outcome<bool>) -> bool,
)
    requires
        forall|outcome: Outcome<bool>|
            outcome !is Done ==> #[trigger] expected(world, outcome),
        expected(world, Outcome::Done(world.has(path))),
    ensures
        #[trigger] leads(exists_step(path, r, at), r, at, world, expected),
{
    lead_consult(
        RequestView::Exists { path },
        |reply: Reply| flag_in(reply),
        r,
        at,
        world,
        expected,
    );
}

/// What is expected of giving a file a second name: where it has one, it is the
/// same file's.
spec fn named(world: World, from: Seq<u8>, to: Seq<u8>) -> spec_fn(World, Outcome<()>) -> bool {
    |after: World, outcome: Outcome<()>|
        if after == world {
            outcome !is Done
        } else {
            world.has(from) && !world.has(to) && after == linked(world, from, to)
        }
}

proof fn lemma_named(
    from: Seq<u8>,
    to: Seq<u8>,
    refusal: Seq<char>,
    loss: Seq<char>,
    r: Seq<Reply>,
    at: int,
    world: World,
)
    ensures
        leads(
            add_name_step(from, to, refusal, loss, r, at),
            r,
            at,
            world,
            named(world, from, to),
        ),
{
    broadcast use {group_leads, group_counted};

    reveal(add_name_step);
    assert(!world.has(to) ==> linked(world, from, to).has(to));
}

/// What is expected of taking a name away.
spec fn unnamed(world: World, path: Seq<u8>) -> spec_fn(World, Outcome<()>) -> bool {
    |after: World, outcome: Outcome<()>|
        if after == world {
            outcome !is Done
        } else {
            world.has(path) && after == unlinked(world, path)
        }
}

proof fn lemma_unnamed(path: Seq<u8>, what: Seq<char>, r: Seq<Reply>, at: int, world: World)
    ensures
        leads(drop_name_step(path, what, r, at), r, at, world, unnamed(world, path)),
{
    broadcast use {group_leads, group_counted};

    reveal(drop_name_step);
    assert(!unlinked(world, path).has(path));
}

broadcast proof fn lead_add_name(
    from: Seq<u8>,
    to: Seq<u8>,
    refusal: Seq<char>,
    loss: Seq<char>,
    r: Seq<Reply>,
    at: int,
    world: World,
    expected: spec_fn(World, Outcome<()>) -> bool,
)
    requires
        forall|after: World, outcome: Outcome<()>| #[trigger]
            named(world, from, to)(after, outcome) ==> expected(after, outcome),
    ensures
        #[trigger] leads(add_name_step(from, to, refusal, loss, r, at), r, at, world, expected),
{
    lemma_named(from, to, refusal, loss, r, at, world);
    lemma_leads_widened(
        add_name_step(from, to, refusal, loss, r, at),
        r,
        at,
        world,
        named(world, from, to),
        expected,
    );
}

broadcast proof fn lead_drop_name(
    path: Seq<u8>,
    what: Seq<char>,
    r: Seq<Reply>,
    at: int,
    world: World,
    expected: spec_fn(World, Outcome<()>) -> bool,
)
    requires
        forall|after: World, outcome: Outcome<()>| #[trigger]
            unnamed(world, path)(after, outcome) ==> expected(after, outcome),
    ensures
        #[trigger] leads(drop_name_step(path, what, r, at), r, at, world, expected),
{
    lemma_unnamed(path, what, r, at, world);
    lemma_leads_widened(
        drop_name_step(path, what, r, at),
        r,
        at,
        world,
        unnamed(world, path),
        expected,
    );
}

/// What a restoration may do to the world, and what it has done at its end.
pub open spec fn restored(
    source: Seq<u8>,
    quarantine: Seq<u8>,
    sha256: Seq<char>,
    before: World,
    after: World,
    outcome: Outcome<()>,
) -> bool {
    // what stands in the source's place stays
    &&& before.has(source) ==> kept(before, after, source)
    // the quarantined file has one of its two names
    &&& before.has(quarantine) ==> (after.has(quarantine) && after.file(quarantine) == before.file(
        quarantine,
    )) || (after.has(source) && after.file(source) == before.file(quarantine))
    // nothing else changes
    &&& after.digests == before.digests
    &&& after.texts == before.texts
    &&& forall|p: Seq<u8>|
        p != source && p != quarantine ==> (#[trigger] after.has(p) <==> before.has(p))
            && after.file(p) == before.file(p)
    // at the end the source is in its place, and nothing in quarantine
    &&& outcome is Done ==> {
        &&& after.has(source)
        &&& after.digest(source) == sha256
        &&& !after.has(quarantine)
        &&& !before.has(source) ==> before.has(quarantine) && after.file(source) == before.file(
            quarantine,
        )
    }
}

/// What is expected of a restoration.
pub open spec fn restoring(
    source: Seq<u8>,
    quarantine: Seq<u8>,
    sha256: Seq<char>,
    before: World,
) -> spec_fn(World, Outcome<()>) -> bool {
    |after: World, outcome: Outcome<()>|
        restored(source, quarantine, sha256, before, after, outcome)
}

proof fn lemma_restored_by_link(
    source: Seq<u8>,
    quarantine: Seq<u8>,
    sha256: Seq<char>,
    r: Seq<Reply>,
    at: int,
    world: World,
)
    requires
        source != quarantine,
        !world.has(source),
        world.has(quarantine),
        world.digest(quarantine) == sha256,
    ensures
        leads(
            restore_by_presence_step(source, quarantine, sha256, false, true, r, at),
            r,
            at,
            world,
            restoring(source, quarantine, sha256, world),
        ),
{
    broadcast use {lead_chain, lead_add_name, lead_drop_name, count_add_name};

    reveal(restore_by_presence_step);
}

proof fn lemma_restored_by_unlink(
    source: Seq<u8>,
    quarantine: Seq<u8>,
    sha256: Seq<char>,
    r: Seq<Reply>,
    at: int,
    world: World,
)
    requires
        source != quarantine,
        world.has(source),
        world.has(quarantine),
        world.digest(quarantine) == sha256,
    ensures
        leads(
            restore_by_presence_step(source, quarantine, sha256, true, true, r, at),
            r,
            at,
            world,
            restoring(source, quarantine, sha256, world),
        ),
{
    broadcast use {lead_chain, lead_same_file, lead_drop_name, count_same_file};

    reveal(restore_by_presence_step);
}

proof fn lemma_restored_before(
    source: Seq<u8>,
    quarantine: Seq<u8>,
    sha256: Seq<char>,
    r: Seq<Reply>,
    at: int,
    world: World,
)
    requires
        world.has(source),
        !world.has(quarantine),
    ensures
        leads(
            restore_by_presence_step(source, quarantine, sha256, true, false, r, at),
            r,
            at,
            world,
            restoring(source, quarantine, sha256, world),
        ),
{
    broadcast use {lead_chain, lead_done, lead_fail, lead_hash_regular, count_hash_regular};

    reveal(restore_by_presence_step);
}

proof fn lemma_restored_not(
    source: Seq<u8>,
    quarantine: Seq<u8>,
    sha256: Seq<char>,
    r: Seq<Reply>,
    at: int,
    world: World,
)
    requires
        !world.has(source),
        !world.has(quarantine),
    ensures
        leads(
            restore_by_presence_step(source, quarantine, sha256, false, false, r, at),
            r,
            at,
            world,
            restoring(source, quarantine, sha256, world),
        ),
{
    broadcast use lead_fail;

    reveal(restore_by_presence_step);
}

broadcast proof fn lead_restore_by_presence(
    source: Seq<u8>,
    quarantine: Seq<u8>,
    sha256: Seq<char>,
    source_there: bool,
    quarantine_there: bool,
    r: Seq<Reply>,
    at: int,
    world: World,
)
    requires
        source != quarantine,
        source_there == world.has(source),
        quarantine_there == world.has(quarantine),
        world.has(quarantine) ==> world.digest(quarantine) == sha256,
    ensures
        #[trigger] leads(
            restore_by_presence_step(
                source,
                quarantine,
                sha256,
                source_there,
                quarantine_there,
                r,
                at,
            ),
            r,
            at,
            world,
            restoring(source, quarantine, sha256, world),
        ),
{
    if world.has(source) && world.has(quarantine) {
        lemma_restored_by_unlink(source, quarantine, sha256, r, at, world);
    } else if world.has(source) {
        lemma_restored_before(source, quarantine, sha256, r, at, world);
    } else if world.has(quarantine) {
        lemma_restored_by_link(source, quarantine, sha256, r, at, world);
    } else {
        lemma_restored_not(source, quarantine, sha256, r, at, world);
    }
}

/// What is expected of checking a quarantined file: the world is as it was, and
/// the file, if there is one, has the digest it should where it passes.
spec fn checked(quarantine: Seq<u8>, sha256: Seq<char>, world: World) -> spec_fn(
    World,
    Outcome<()>,
) -> bool {
    |after: World, outcome: Outcome<()>|
        after == world && (outcome is Done && world.has(quarantine) ==> world.digest(quarantine)
            == sha256)
}

proof fn lemma_checked(
    quarantine: Seq<u8>,
    sha256: Seq<char>,
    r: Seq<Reply>,
    at: int,
    world: World,
)
    ensures
        leads(
            check_quarantine_step(quarantine, sha256, r, at),
            r,
            at,
            world,
            checked(quarantine, sha256, world),
        ),
{
    broadcast use {
        lead_chain,
        lead_done,
        lead_fail,
        lead_exists,
        lead_hash_regular,
        count_hash_regular,
        group_counted,
    };

    reveal(check_quarantine_step);
}

broadcast proof fn lead_check(
    quarantine: Seq<u8>,
    sha256: Seq<char>,
    r: Seq<Reply>,
    at: int,
    world: World,
    expected: spec_fn(World, Outcome<()>) -> bool,
)
    requires
        forall|after: World, outcome: Outcome<()>| #[trigger]
            checked(quarantine, sha256, world)(after, outcome) ==> expected(after, outcome),
    ensures
        #[trigger] leads(
            check_quarantine_step(quarantine, sha256, r, at),
            r,
            at,
            world,
            expected,
        ),
{
    lemma_checked(quarantine, sha256, r, at, world);
    lemma_leads_widened(
        check_quarantine_step(quarantine, sha256, r, at),
        r,
        at,
        world,
        checked(quarantine, sha256, world),
        expected,
    );
}

pub broadcast proof fn count_check(
    quarantine: Seq<u8>,
    sha256: Seq<char>,
    r: Seq<Reply>,
    at: int,
)
    ensures
        #[trigger] counted(check_quarantine_step(quarantine, sha256, r, at), at),
{
    broadcast use {group_counted, count_hash_regular};

    reveal(check_quarantine_step);
}

/// A restoration never overwrites what stands in the source's place and never
/// loses the quarantined file, wherever it stops. Where it comes to its end, the
/// source is back: the very file that was in quarantine, unless it was in its
/// place already.
pub proof fn law_restore_brings_back(
    manifest: ManifestView,
    quarantine: Seq<char>,
    r: Seq<Reply>,
    at: int,
    world: World,
)
    requires
        manifest.quarantine_path == Some(quarantine),
        raw(quarantine) != raw(manifest.source.path),
    ensures
        leads(
            restore_step(manifest, r, at),
            r,
            at,
            world,
            restoring(raw(manifest.source.path), raw(quarantine), manifest.source.sha256, world),
        ),
{
    broadcast use {
        lead_chain,
        lead_fail,
        lead_exists,
        lead_check,
        lead_restore_by_presence,
        count_check,
        group_counted,
    };

    reveal(restore_step);
}

/// What only looks leaves the world as it is.
pub proof fn law_looking_changes_nothing<T>(step: Step<T>, r: Seq<Reply>, at: int, world: World)
    requires
        every(step, looking()),
    ensures
        leads(step, r, at, world, |after: World, outcome: Outcome<T>| after == world),
{
    reveal(every);
    reveal(leads);
    assert forall|worlds: Seq<World>|
        #[trigger] history(worlds, step.asked, r, at) && worlds[0] == world implies worlds.last()
        == world by {
        lemma_still(worlds, step.asked, r, at, step.asked.len() as int);
    }
}

proof fn lemma_still(
    worlds: Seq<World>,
    asked: Seq<RequestView>,
    r: Seq<Reply>,
    at: int,
    count: int,
)
    requires
        history(worlds, asked, r, at),
        0 <= count <= asked.len(),
        forall|i: int| 0 <= i < asked.len() ==> looking()(#[trigger] asked[i]),
    ensures
        worlds[count] == worlds[0],
    decreases count,
{
    if count > 0 {
        let i = count - 1;
        lemma_still(worlds, asked, r, at, i);
        assert(moves(worlds[i], asked[i], r[at + i], worlds[i + 1]));
        assert(looking()(asked[i]));
    }
}

broadcast proof fn lead_validate(
    source: EvidenceView,
    r: Seq<Reply>,
    at: int,
    world: World,
    expected: spec_fn(World, Outcome<()>) -> bool,
)
    requires
        forall|outcome: Outcome<()>| #[trigger] expected(world, outcome),
    ensures
        #[trigger] leads(validate_source_step(source, r, at), r, at, world, expected),
{
    law_validation_only_looks(source, r, at);
    law_looking_changes_nothing(validate_source_step(source, r, at), r, at, world);
    lemma_leads_widened(
        validate_source_step(source, r, at),
        r,
        at,
        world,
        |after: World, outcome: Outcome<()>| after == world,
        expected,
    );
}

/// Whether all that stood still stands.
#[verifier::opaque]
pub open spec fn standing(before: World, after: World) -> bool {
    forall|p: Seq<u8>| before.has(p) ==> #[trigger] kept(before, after, p)
}

/// What is expected of work that only adds.
spec fn adding(world: World) -> spec_fn(World, Outcome<()>) -> bool {
    |after: World, outcome: Outcome<()>| standing(world, after)
}

proof fn lemma_standing_on(first: World, second: World, third: World)
    requires
        standing(first, second),
        standing(second, third),
    ensures
        standing(first, third),
{
    reveal(standing);
    assert forall|p: Seq<u8>| first.has(p) implies #[trigger] kept(first, third, p) by {
        assert(kept(first, second, p));
        assert(kept(second, third, p));
    }
}

#[verifier::spinoff_prover]
proof fn lemma_directory_added(path: Seq<u8>, r: Seq<Reply>, at: int, world: World)
    ensures
        leads(ensure_directory_step(path, r, at), r, at, world, adding(world)),
{
    broadcast use {group_leads, group_counted};

    reveal(ensure_directory_step);
    reveal(standing);
}

#[verifier::spinoff_prover]
proof fn lemma_directories_added(
    root: Seq<u8>,
    directory: Seq<u8>,
    r: Seq<Reply>,
    at: int,
    world: World,
)
    ensures
        leads(
            quarantine_directories_step(root, directory, r, at),
            r,
            at,
            world,
            adding(world),
        ),
{
    let first = ensure_directory_step(root, r, at);
    let next = |_root: (), at: int| ensure_directory_step(directory, r, at);
    reveal(quarantine_directories_step);
    assert(quarantine_directories_step(root, directory, r, at) == chain(first, next));
    count_ensure_directory(root, r, at);
    lemma_directory_added(root, r, at, world);
    let goal = adding(world);
    assert forall|after: World, outcome: Outcome<()>| #[trigger]
        goal(after, outcome) implies expected_first(next, first.at, r, goal)(after, outcome) by {
        if outcome is Done {
            lemma_directory_added(directory, r, first.at, after);
            assert forall|last: World, end: Outcome<()>| #[trigger]
                adding(after)(last, end) implies adding(world)(last, end) by {
                lemma_standing_on(world, after, last);
            }
            lemma_leads_widened(
                ensure_directory_step(directory, r, first.at),
                r,
                first.at,
                after,
                adding(after),
                adding(world),
            );
        }
    }
    lemma_leads_on(first, next, r, at, world, goal, goal);
}

/// What the first half of a quarantine may do to the world, and what it has done
/// at its end.
pub open spec fn doubled(
    source: Seq<u8>,
    quarantine: Seq<u8>,
    before: World,
    after: World,
    outcome: Outcome<()>,
) -> bool {
    // whatever stands stays
    &&& standing(before, after)
    // at the end the source's file has its second name
    &&& outcome is Done ==> {
        &&& after.has(quarantine)
        &&& before.has(source) ==> after.file(quarantine) == before.file(source)
    }
}

/// What is expected of the first half of a quarantine.
pub open spec fn doubling(source: Seq<u8>, quarantine: Seq<u8>, before: World) -> spec_fn(
    World,
    Outcome<()>,
) -> bool {
    |after: World, outcome: Outcome<()>| doubled(source, quarantine, before, after, outcome)
}

proof fn lemma_linked(
    source: EvidenceView,
    quarantine: Seq<u8>,
    r: Seq<Reply>,
    at: int,
    world: World,
)
    ensures
        leads(
            link_step(source, quarantine, r, at),
            r,
            at,
            world,
            doubling(raw(source.path), quarantine, world),
        ),
{
    broadcast use {lead_chain, lead_validate, lead_add_name, count_validate};

    reveal(link_step);
    reveal(standing);
}

broadcast proof fn lead_link(
    source: EvidenceView,
    quarantine: Seq<u8>,
    r: Seq<Reply>,
    at: int,
    world: World,
)
    ensures
        #[trigger] leads(
            link_step(source, quarantine, r, at),
            r,
            at,
            world,
            doubling(raw(source.path), quarantine, world),
        ),
{
    lemma_linked(source, quarantine, r, at, world);
}

proof fn lemma_linked_if_needed(
    source: EvidenceView,
    quarantine: Seq<u8>,
    r: Seq<Reply>,
    at: int,
    world: World,
)
    ensures
        leads(
            link_if_needed_step(source, quarantine, r, at),
            r,
            at,
            world,
            doubling(raw(source.path), quarantine, world),
        ),
{
    broadcast use {
        lead_chain,
        lead_done,
        lead_fail,
        lead_exists,
        lead_link,
        lead_same_file,
        group_counted,
    };

    reveal(link_if_needed_step);
    assert(standing(world, world)) by {
        reveal(standing);
    }
}

/// The first half of a quarantine keeps all that stands, wherever it stops; where
/// it comes to its end, the source's file has its second name.
pub proof fn law_quarantine_link_keeps_the_source(
    plan: PlanView,
    journal: JournalView,
    quarantine: Seq<char>,
    r: Seq<Reply>,
    at: int,
    world: World,
)
    requires
        journal.quarantine_path == Some(quarantine),
    ensures
        leads(
            quarantine_link_step(plan, journal, r, at),
            r,
            at,
            world,
            doubling(raw(plan.source.path), raw(quarantine), world),
        ),
{
    broadcast use lead_fail;

    reveal(quarantine_link_step);
    let source = raw(plan.source.path);
    let place = raw(quarantine);
    let goal = doubling(source, place, world);
    assert(standing(world, world)) by {
        reveal(standing);
    }
    if parent(quarantine) is Some && parent(parent(quarantine)->0) is Some {
        let directory = raw(parent(quarantine)->0);
        let root = raw(parent(parent(quarantine)->0)->0);
        let first = quarantine_directories_step(root, directory, r, at);
        let next = |_directories: (), at: int|
            link_if_needed_step(plan.source, place, r, at);
        assert(quarantine_link_step(plan, journal, r, at) == chain(first, next));
        assert(counted(first, at)) by {
            broadcast use {group_counted, count_ensure_directory};

            reveal(quarantine_directories_step);
        }
        lemma_directories_added(root, directory, r, at, world);
        assert forall|after: World, outcome: Outcome<()>| #[trigger]
            adding(world)(after, outcome) implies expected_first(next, first.at, r, goal)(
            after,
            outcome,
        ) by {
            lemma_linked_if_needed(plan.source, place, r, first.at, after);
            assert forall|last: World, end: Outcome<()>| #[trigger]
                doubling(source, place, after)(last, end) implies goal(last, end) by {
                lemma_standing_on(world, after, last);
                reveal(standing);
                assert(world.has(source) ==> kept(world, after, source));
            }
            lemma_leads_widened(
                link_if_needed_step(plan.source, place, r, first.at),
                r,
                first.at,
                after,
                doubling(source, place, after),
                goal,
            );
        }
        lemma_leads_on(first, next, r, at, world, adding(world), goal);
    }
}

/// What the second half of a quarantine may do to the world, and what it has
/// done at its end.
pub open spec fn moved(
    source: Seq<u8>,
    quarantine: Seq<u8>,
    before: World,
    after: World,
    outcome: Outcome<()>,
) -> bool {
    // what is in quarantine stays
    &&& before.has(quarantine) ==> kept(before, after, quarantine)
    // the source's file has one of its two names
    &&& before.has(source) ==> (after.has(source) && after.file(source) == before.file(source)) || (
    after.has(quarantine) && after.file(quarantine) == before.file(source))
    // nothing else changes
    &&& after.digests == before.digests
    &&& after.texts == before.texts
    &&& forall|p: Seq<u8>|
        p != source ==> (#[trigger] after.has(p) <==> before.has(p)) && after.file(p)
            == before.file(p)
    // at the end the file is in quarantine only
    &&& outcome is Done ==> {
        &&& !after.has(source)
        &&& after.has(quarantine)
        &&& before.has(source) ==> after.file(quarantine) == before.file(source)
    }
}

/// What is expected of the second half of a quarantine.
pub open spec fn moving(source: Seq<u8>, quarantine: Seq<u8>, before: World) -> spec_fn(
    World,
    Outcome<()>,
) -> bool {
    |after: World, outcome: Outcome<()>| moved(source, quarantine, before, after, outcome)
}

/// The second half of a quarantine never loses the source's file, wherever it
/// stops; where it comes to its end, the file is in quarantine only.
pub proof fn law_quarantine_never_loses_the_source(
    plan: PlanView,
    journal: JournalView,
    quarantine: Seq<char>,
    r: Seq<Reply>,
    at: int,
    world: World,
)
    requires
        journal.quarantine_path == Some(quarantine),
        raw(quarantine) != raw(plan.source.path),
    ensures
        leads(
            finish_quarantine_step(plan, journal, r, at),
            r,
            at,
            world,
            moving(raw(plan.source.path), raw(quarantine), world),
        ),
{
    broadcast use {
        lead_chain,
        lead_done,
        lead_fail,
        lead_exists,
        lead_same_file,
        lead_drop_name,
        count_same_file,
        group_counted,
    };

    reveal(finish_quarantine_step);
}

/// Whether a workflow came to its end through a sequence of states.
pub open spec fn ends_through<T>(
    step: Step<T>,
    r: Seq<Reply>,
    at: int,
    worlds: Seq<World>,
) -> bool {
    step.outcome is Done && history(worlds, step.asked, r, at)
}

/// A restoration reverses a quarantine: whatever file was at the source's path
/// before the quarantine is there again after the restoration, under no other
/// name in quarantine.
pub proof fn law_restore_reverses_quarantine(
    plan: PlanView,
    journal: JournalView,
    manifest: ManifestView,
    quarantine: Seq<char>,
    link: (Seq<Reply>, int, Seq<World>),
    unlink: (Seq<Reply>, int, Seq<World>),
    back: (Seq<Reply>, int, Seq<World>),
)
    requires
        raw(quarantine) != raw(plan.source.path),
        journal.quarantine_path == Some(quarantine),
        manifest.quarantine_path == Some(quarantine),
        manifest.source.path == plan.source.path,
        ends_through(quarantine_link_step(plan, journal, link.0, link.1), link.0, link.1, link.2),
        ends_through(
            finish_quarantine_step(plan, journal, unlink.0, unlink.1),
            unlink.0,
            unlink.1,
            unlink.2,
        ),
        ends_through(restore_step(manifest, back.0, back.1), back.0, back.1, back.2),
        unlink.2[0] == link.2.last(),
        back.2[0] == unlink.2.last(),
        link.2[0].has(raw(plan.source.path)),
    ensures
        !unlink.2.last().has(raw(plan.source.path)),
        kept(link.2[0], back.2.last(), raw(plan.source.path)),
        back.2.last().digest(raw(plan.source.path)) == manifest.source.sha256,
        !back.2.last().has(raw(quarantine)),
{
    let source = raw(plan.source.path);
    law_quarantine_link_keeps_the_source(plan, journal, quarantine, link.0, link.1, link.2[0]);
    law_quarantine_never_loses_the_source(
        plan,
        journal,
        quarantine,
        unlink.0,
        unlink.1,
        unlink.2[0],
    );
    law_restore_brings_back(manifest, quarantine, back.0, back.1, back.2[0]);
    reveal(leads);
    reveal(standing);
    let one = link.2.last();
    let two = unlink.2.last();
    let three = back.2.last();
    assert(doubled(source, raw(quarantine), link.2[0], one, Outcome::Done(())));
    assert(kept(link.2[0], one, source));
    assert(moved(source, raw(quarantine), one, two, Outcome::Done(())));
    assert(restored(source, raw(quarantine), manifest.source.sha256, two, three, Outcome::Done(())));
}

/// What the publication of a new file may do to the world, and what it has done
/// at its end.
pub open spec fn issued(
    path: Seq<u8>,
    before: World,
    after: World,
    outcome: Outcome<()>,
) -> bool {
    // whatever stands stays
    &&& standing(before, after)
    // at the end something new stands
    &&& outcome is Done ==> !before.has(path) && after.has(path)
}

/// What is expected of the publication of a new file.
pub open spec fn issuing(path: Seq<u8>, before: World) -> spec_fn(World, Outcome<()>) -> bool {
    |after: World, outcome: Outcome<()>| issued(path, before, after, outcome)
}

/// What is expected of writing a new file.
spec fn writing(path: Seq<u8>, world: World) -> spec_fn(World, Outcome<()>) -> bool {
    |after: World, outcome: Outcome<()>|
        appeared(world, after, path) && (outcome is Done ==> !world.has(path) && after.has(path))
}

#[verifier::spinoff_prover]
proof fn lemma_written(
    path: Seq<u8>,
    contents: Seq<char>,
    r: Seq<Reply>,
    at: int,
    world: World,
)
    ensures
        leads(write_new_step(path, contents, r, at), r, at, world, writing(path, world)),
{
    broadcast use lead_consult;

}

/// What is expected of giving a file its final name, or taking it back.
spec fn finalizing(from: Seq<u8>, to: Seq<u8>, world: World) -> spec_fn(
    World,
    Outcome<()>,
) -> bool {
    |after: World, outcome: Outcome<()>|
        if outcome is Done {
            world.has(from) && !world.has(to) && after == linked(world, from, to)
        } else {
            after == world || (world.has(from) && after == unlinked(world, from))
        }
}

#[verifier::spinoff_prover]
proof fn lemma_finalized(
    from: Seq<u8>,
    to: Seq<u8>,
    what: Seq<char>,
    r: Seq<Reply>,
    at: int,
    world: World,
)
    ensures
        leads(
            link_or_remove_step(from, to, what, r, at),
            r,
            at,
            world,
            finalizing(from, to, world),
        ),
{
    reveal(link_or_remove_step);
    reveal(leads);
    let first = act_step(RequestView::HardLink { from, to }, what, r, at);
    let step = link_or_remove_step(from, to, what, r, at);
    assert forall|worlds: Seq<World>|
        #[trigger] history(worlds, step.asked, r, at) && worlds[0]
            == world implies finalizing(from, to, world)(worlds.last(), step.outcome) by {
        let i: int = 0;
        let k: int = 1;
        if step.asked.len() > 0 {
            assert(step.asked[i] == (RequestView::HardLink { from, to }));
            assert(moves(worlds[i], step.asked[i], r[at + i], worlds[i + 1]));
        }
        if step.asked.len() > 1 {
            assert(step.asked[k] == (RequestView::Remove { path: from }));
            assert(moves(worlds[k], step.asked[k], r[at + k], worlds[k + 1]));
        }
    }
}

/// What is expected behind the final name of a file: its first name goes.
spec fn tidying(temporary: Seq<u8>, world: World) -> spec_fn(World, Outcome<()>) -> bool {
    |after: World, outcome: Outcome<()>|
        {
            ||| world.has(temporary) && after == unlinked(world, temporary)
            ||| after == world && outcome !is Done
        }
}

#[verifier::spinoff_prover]
proof fn lemma_tidied(
    path: Seq<u8>,
    temporary: Seq<u8>,
    what: Seq<char>,
    r: Seq<Reply>,
    at: int,
    world: World,
)
    ensures
        leads(
            chain(
                sync_parent_step(path, r, at),
                |_synced: (), at: int| drop_name_step(temporary, what, r, at),
            ),
            r,
            at,
            world,
            tidying(temporary, world),
        ),
{
    broadcast use {lead_chain, lead_consult, lead_drop_name, group_counted};

}

#[verifier::spinoff_prover]
proof fn lemma_finished(
    path: Seq<u8>,
    temporary: Seq<u8>,
    refusal: Seq<char>,
    leftover: Seq<char>,
    r: Seq<Reply>,
    at: int,
    before: World,
    world: World,
)
    requires
        temporary != path,
        !before.has(temporary),
        appeared(before, world, temporary),
    ensures
        leads(
            chain(
                link_or_remove_step(temporary, path, refusal, r, at),
                |_linked: (), at: int|
                    chain(
                        sync_parent_step(path, r, at),
                        |_synced: (), at: int| drop_name_step(temporary, leftover, r, at),
                    ),
            ),
            r,
            at,
            world,
            issuing(path, before),
        ),
{
    let first = link_or_remove_step(temporary, path, refusal, r, at);
    let next = |_linked: (), at: int|
        chain(
            sync_parent_step(path, r, at),
            |_synced: (), at: int| drop_name_step(temporary, leftover, r, at),
        );
    let goal = issuing(path, before);
    let middle = finalizing(temporary, path, world);
    lemma_finalized(temporary, path, refusal, r, at, world);
    assert(counted(first, at)) by {
        broadcast use group_counted;

        reveal(link_or_remove_step);
    }
    assert forall|after: World, outcome: Outcome<()>| #[trigger]
        middle(after, outcome) implies expected_first(next, first.at, r, goal)(after, outcome) by {
        reveal(standing);
        if outcome is Done {
            lemma_tidied(path, temporary, leftover, r, first.at, after);
            assert forall|last: World, end: Outcome<()>| #[trigger]
                tidying(temporary, after)(last, end) implies goal(last, end) by {
                assert forall|p: Seq<u8>| before.has(p) implies #[trigger] kept(
                    before,
                    last,
                    p,
                ) by {
                    assert(kept(before, world, p));
                }
                if before.has(path) {
                    assert(kept(before, world, path));
                }
            }
            lemma_leads_widened(
                next((), first.at),
                r,
                first.at,
                after,
                tidying(temporary, after),
                goal,
            );
        } else {
            assert forall|p: Seq<u8>| before.has(p) implies #[trigger] kept(
                before,
                after,
                p,
            ) by {
                assert(kept(before, world, p));
            }
        }
    }
    lemma_leads_on(first, next, r, at, world, middle, goal);
}

/// A new file is published without replacing or removing anything, wherever its
/// publication stops; where that comes to its end, the file is new.
#[verifier::spinoff_prover]
pub proof fn law_publication_replaces_nothing(
    temporary: Seq<u8>,
    path: Seq<u8>,
    contents: Seq<char>,
    refusal: Seq<char>,
    leftover: Seq<char>,
    r: Seq<Reply>,
    at: int,
    world: World,
)
    requires
        temporary != path,
    ensures
        leads(
            publish_new_step(temporary, path, contents, refusal, leftover, r, at),
            r,
            at,
            world,
            issuing(path, world),
        ),
{
    let first = write_new_step(temporary, contents, r, at);
    let next = |_written: (), at: int|
        chain(
            link_or_remove_step(temporary, path, refusal, r, at),
            |_linked: (), at: int|
                chain(
                    sync_parent_step(path, r, at),
                    |_synced: (), at: int| drop_name_step(temporary, leftover, r, at),
                ),
        );
    let goal = issuing(path, world);
    let middle = writing(temporary, world);
    reveal(publish_new_step);
    assert(publish_new_step(temporary, path, contents, refusal, leftover, r, at) == chain(
        first,
        next,
    ));
    lemma_written(temporary, contents, r, at, world);
    assert(counted(first, at)) by {
        broadcast use group_counted;

    }
    assert forall|after: World, outcome: Outcome<()>| #[trigger]
        middle(after, outcome) implies expected_first(next, first.at, r, goal)(after, outcome) by {
        reveal(standing);
        if outcome is Done {
            lemma_finished(
                path,
                temporary,
                refusal,
                leftover,
                r,
                first.at,
                world,
                after,
            );
        }
    }
    lemma_leads_on(first, next, r, at, world, middle, goal);
}

/// What is written for a user replaces and removes nothing, wherever the writing
/// stops; where that comes to its end, the file is new.
pub proof fn law_user_output_replaces_nothing(
    path: Seq<u8>,
    contents: Seq<char>,
    process: nat,
    r: Seq<Reply>,
    at: int,
    world: World,
)
    ensures
        leads(
            write_user_output_step(path, contents, process, r, at),
            r,
            at,
            world,
            issuing(path, world),
        ),
{
    if let Some(name) = text_name(path) {
        law_output_is_prepared_elsewhere(path, process);
        law_publication_replaces_nothing(
            output_place(path, name, process),
            path,
            contents,
            "refusing to replace output '"@ + shown(path) + "'"@,
            "cannot remove output staging file"@,
            r,
            at,
            world,
        );
    } else {
        assert(standing(world, world)) by {
            reveal(standing);
        }
        lead_fail(
            "output file name must be UTF-8"@,
            at,
            r,
            at,
            world,
            issuing(path, world),
        );
    }
}

/// What the publication of an output may do to the world, and what it has done
/// at its end.
pub open spec fn published(
    staging: Seq<u8>,
    destination: Seq<u8>,
    expected: Seq<char>,
    before: World,
    after: World,
    outcome: Outcome<()>,
) -> bool {
    // whatever stands stays, but for the staging name
    &&& forall|p: Seq<u8>| p != staging && before.has(p) ==> #[trigger] kept(before, after, p)
    // the staged file has one of its two names, or its like was published before
    &&& before.has(staging) ==> {
        ||| after.has(staging) && after.file(staging) == before.file(staging)
        ||| after.has(destination) && after.file(destination) == before.file(staging)
        ||| before.has(destination) && before.digest(destination) == expected
    }
    // at the end the output is published
    &&& outcome is Done ==> {
        &&& after.has(destination)
        &&& !after.has(staging)
        &&& before.has(destination) ==> after.digest(destination) == expected
        &&& !before.has(destination) ==> before.has(staging) && after.file(destination)
            == before.file(staging)
    }
}

/// What is expected of the publication of an output.
pub open spec fn publishing(
    staging: Seq<u8>,
    destination: Seq<u8>,
    expected: Seq<char>,
    before: World,
) -> spec_fn(World, Outcome<()>) -> bool {
    |after: World, outcome: Outcome<()>|
        published(staging, destination, expected, before, after, outcome)
}

/// What is expected of removing a file of the archiver's own.
spec fn removing(path: Seq<u8>, world: World) -> spec_fn(World, Outcome<()>) -> bool {
    |after: World, outcome: Outcome<()>|
        if outcome is Done {
            world.has(path) && after == unlinked(world, path)
        } else {
            after == world
        }
}

#[verifier::spinoff_prover]
proof fn lemma_removed(path: Seq<u8>, r: Seq<Reply>, at: int, world: World)
    ensures
        leads(remove_internal_step(path, r, at), r, at, world, removing(path, world)),
{
    broadcast use {group_leads, group_counted};

    reveal(remove_internal_step);
}

broadcast proof fn lead_remove_internal(
    path: Seq<u8>,
    r: Seq<Reply>,
    at: int,
    world: World,
    expected: spec_fn(World, Outcome<()>) -> bool,
)
    requires
        forall|after: World, outcome: Outcome<()>| #[trigger]
            removing(path, world)(after, outcome) ==> expected(after, outcome),
    ensures
        #[trigger] leads(remove_internal_step(path, r, at), r, at, world, expected),
{
    lemma_removed(path, r, at, world);
    lemma_leads_widened(
        remove_internal_step(path, r, at),
        r,
        at,
        world,
        removing(path, world),
        expected,
    );
}

broadcast proof fn lead_sync_parent(
    path: Seq<u8>,
    r: Seq<Reply>,
    at: int,
    world: World,
    expected: spec_fn(World, Outcome<()>) -> bool,
)
    requires
        forall|outcome: Outcome<()>| #[trigger] expected(world, outcome),
    ensures
        #[trigger] leads(sync_parent_step(path, r, at), r, at, world, expected),
{
    broadcast use lead_consult;

}

broadcast proof fn count_remove_internal(path: Seq<u8>, r: Seq<Reply>, at: int)
    ensures
        #[trigger] counted(remove_internal_step(path, r, at), at),
{
    broadcast use group_counted;

    reveal(remove_internal_step);
}

/// What is expected of taking a staging name away.
spec fn discarding(staging: Seq<u8>, world: World) -> spec_fn(World, Outcome<()>) -> bool {
    |after: World, outcome: Outcome<()>|
        {
            &&& after == world || after == unlinked(world, staging)
            &&& outcome is Done ==> !after.has(staging)
        }
}

#[verifier::spinoff_prover]
proof fn lemma_discarded(staging: Seq<u8>, r: Seq<Reply>, at: int, world: World)
    ensures
        leads(discard_step(staging, r, at), r, at, world, discarding(staging, world)),
{
    broadcast use {
        lead_chain,
        lead_done,
        lead_exists,
        lead_remove_internal,
        lead_sync_parent,
        count_remove_internal,
        group_counted,
    };

    reveal(discard_step);
}

#[verifier::spinoff_prover]
proof fn lemma_promoted(
    staging: Seq<u8>,
    destination: Seq<u8>,
    expected: Seq<char>,
    r: Seq<Reply>,
    at: int,
    world: World,
)
    requires
        staging != destination,
        !world.has(destination),
    ensures
        leads(
            promote_step(staging, destination, r, at),
            r,
            at,
            world,
            publishing(staging, destination, expected, world),
        ),
{
    let goal = publishing(staging, destination, expected, world);
    let what = "atomic no-replace publication '"@ + shown(destination) + "' failed"@;
    let leftover = "cannot remove published staging link"@;
    let request = RequestView::HardLink { from: staging, to: destination };
    let first = act_step(request, what, r, at);
    let next = |_linked: (), at: int|
        chain(
            sync_parent_step(destination, r, at),
            |_synced: (), at: int| drop_name_step(staging, leftover, r, at),
        );
    reveal(promote_step);
    assert(promote_step(staging, destination, r, at) == chain(first, next));
    let middle = |after: World, outcome: Outcome<()>|
        if outcome is Done {
            world.has(staging) && after == linked(world, staging, destination)
        } else {
            after == world
        };
    assert(leads(first, r, at, world, middle)) by {
        broadcast use lead_consult;

    }
    assert(counted(first, at)) by {
        broadcast use group_counted;

    }
    assert forall|after: World, outcome: Outcome<()>| #[trigger]
        middle(after, outcome) implies expected_first(next, first.at, r, goal)(after, outcome) by {
        if outcome is Done {
            lemma_tidied(destination, staging, leftover, r, first.at, after);
            assert(leads(next((), first.at), r, first.at, after, tidying(staging, after)));
            lemma_leads_widened(
                next((), first.at),
                r,
                first.at,
                after,
                tidying(staging, after),
                goal,
            );
        }
    }
    lemma_leads_on(first, next, r, at, world, middle, goal);
}

/// An output is published without replacing or removing anything but its staging
/// name, wherever its publication stops; what stood at the destination before is
/// taken for it only if it has its digest.
#[verifier::spinoff_prover]
pub proof fn law_published_output_replaces_nothing(
    staging: Seq<u8>,
    destination: Seq<u8>,
    expected: Seq<char>,
    r: Seq<Reply>,
    at: int,
    world: World,
)
    requires
        staging != destination,
    ensures
        leads(
            publish_output_step(staging, destination, expected, r, at),
            r,
            at,
            world,
            publishing(staging, destination, expected, world),
        ),
{
    let goal = publishing(staging, destination, expected, world);
    let first = exists_step(destination, r, at);
    let next = |there: bool, at: int|
        if there {
            chain(
                hash_regular_step(destination, r, at),
                |actual: Seq<char>, at: int|
                    if actual != expected {
                        fail(
                            "destination already exists and is not this transaction's output"@,
                            at,
                        )
                    } else {
                        discard_step(staging, r, at)
                    },
            )
        } else {
            promote_step(staging, destination, r, at)
        };
    reveal(publish_output_step);
    assert(publish_output_step(staging, destination, expected, r, at) == chain(first, next));
    let middle = |after: World, outcome: Outcome<bool>|
        after == world && (outcome matches Outcome::Done(there) ==> there == world.has(
            destination,
        ));
    assert(leads(first, r, at, world, middle)) by {
        broadcast use lead_exists;

    }
    assert(counted(first, at)) by {
        broadcast use group_counted;

    }
    assert forall|after: World, outcome: Outcome<bool>| #[trigger]
        middle(after, outcome) implies expected_first(next, first.at, r, goal)(after, outcome) by {
        if let Outcome::Done(there) = outcome {
            if there {
                lemma_published_before(staging, destination, expected, r, first.at, world);
            } else {
                lemma_promoted(staging, destination, expected, r, first.at, world);
            }
        }
    }
    lemma_leads_on(first, next, r, at, world, middle, goal);
}

#[verifier::spinoff_prover]
proof fn lemma_published_before(
    staging: Seq<u8>,
    destination: Seq<u8>,
    expected: Seq<char>,
    r: Seq<Reply>,
    at: int,
    world: World,
)
    requires
        staging != destination,
        world.has(destination),
    ensures
        leads(
            chain(
                hash_regular_step(destination, r, at),
                |actual: Seq<char>, at: int|
                    if actual != expected {
                        fail(
                            "destination already exists and is not this transaction's output"@,
                            at,
                        )
                    } else {
                        discard_step(staging, r, at)
                    },
            ),
            r,
            at,
            world,
            publishing(staging, destination, expected, world),
        ),
{
    let goal = publishing(staging, destination, expected, world);
    let message = "destination already exists and is not this transaction's output"@;
    let first = hash_regular_step(destination, r, at);
    let next = |actual: Seq<char>, at: int|
        if actual != expected {
            fail(message, at)
        } else {
            discard_step(staging, r, at)
        };
    let middle = digested(destination, world);
    lemma_digested(destination, r, at, world);
    count_hash_regular(destination, r, at);
    assert forall|after: World, outcome: Outcome<Seq<char>>| #[trigger]
        middle(after, outcome) implies expected_first(next, first.at, r, goal)(after, outcome) by {
        if let Outcome::Done(actual) = outcome {
            if actual == expected {
                lemma_discarded(staging, r, first.at, world);
                lemma_leads_widened(
                    discard_step(staging, r, first.at),
                    r,
                    first.at,
                    world,
                    discarding(staging, world),
                    goal,
                );
            } else {
                lead_fail(message, first.at, r, first.at, world, goal);
            }
        }
    }
    lemma_leads_on(first, next, r, at, world, middle, goal);
}

} // verus!
