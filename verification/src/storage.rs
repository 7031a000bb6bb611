//! Durable file operations that never replace what they did not write.
use vstd::prelude::*;
use vstd::string::*;
use vstd::utf8::{is_ascii_chars, is_ascii_chars_encode_utf8, valid_utf8};

use crate::flow::{
    act_by_point_step, act_step, chain, create_directory_step, done, exists_step, fail, failure,
    follows, hash_step, kind_step, rescue, stat_step, try_act_step, Blame, BlameView, FileKind,
    FileStat, Reply, Request, RequestView, Step, Stop, Tape,
};
use crate::inspect::{regular_file, regular_file_step};
use crate::model::{Journal, JournalView};
use crate::os_text::{raw, shown, OsText};
use crate::path::{
    joined, law_join_then_split, lemma_raw_file_name, lemma_raw_joined, lemma_raw_parent,
    lemma_wide_joined, names, plain_name, raw_file_name, raw_file_name_of, raw_join, raw_joined,
    raw_parent, raw_parent_directory, raw_parent_directory_of, raw_parent_of, wide,
};
use crate::render::{journal_text, render_journal};
use crate::text::{cat2, cat3, decimal, decimal_text, lemma_decimal_is_digits, same_text};

verus! {

/// A directory's entries made durable.
pub open spec fn sync_directory_step(path: Seq<u8>, r: Seq<Reply>, at: int) -> Step<()> {
    act_step(
        RequestView::SyncDirectory { path },
        "cannot sync directory '"@ + shown(path) + "'"@,
        r,
        at,
    )
}

/// Makes a directory's entries durable.
pub fn sync_directory(tape: &mut Tape, path: &OsText) -> (result: Result<(), Stop>)
    ensures
        follows(
            *old(tape),
            *final(tape),
            result,
            sync_directory_step(path@, old(tape).replies@, old(tape).at as int),
        ),
{
    tape.act(
        Request::SyncDirectory { path: path.copy() },
        &path.show_in("cannot sync directory '", "'"),
    )
}

/// A path's entry made durable.
pub open spec fn sync_parent_step(path: Seq<u8>, r: Seq<Reply>, at: int) -> Step<()> {
    sync_directory_step(raw_parent_directory(path), r, at)
}

/// Makes a path's entry in its directory durable.
pub fn sync_parent(tape: &mut Tape, path: &OsText) -> (result: Result<(), Stop>)
    ensures
        follows(
            *old(tape),
            *final(tape),
            result,
            sync_parent_step(path@, old(tape).replies@, old(tape).at as int),
        ),
{
    sync_directory(tape, &raw_parent_directory_of(path))
}

/// A directory that was made, or that stood there already.
#[verifier::opaque]
pub open spec fn ensure_directory_step(path: Seq<u8>, r: Seq<Reply>, at: int) -> Step<()> {
    chain(
        create_directory_step(path, r, at),
        |made: bool, at: int|
            if made {
                sync_parent_step(path, r, at)
            } else {
                chain(
                    kind_step(path, "cannot inspect directory '"@ + shown(path) + "'"@, r, at),
                    |kind: FileKind, at: int|
                        if kind == FileKind::Directory {
                            done((), at)
                        } else {
                            fail("refusing non-directory path: "@ + shown(path), at)
                        },
                )
            },
    )
}

/// Makes a directory where none stands.
pub fn ensure_directory(tape: &mut Tape, path: &OsText) -> (result: Result<(), Stop>)
    ensures
        follows(
            *old(tape),
            *final(tape),
            result,
            ensure_directory_step(path@, old(tape).replies@, old(tape).at as int),
        ),
{
    proof {
        reveal(ensure_directory_step);
    }
    if tape.create_directory(path)? {
        return sync_parent(tape, path);
    }
    let kind = tape.kind(path, &path.show_in("cannot inspect directory '", "'"))?;
    if kind == FileKind::Directory {
        Ok(())
    } else {
        Err(Stop::Fail(cat2("refusing non-directory path: ", &path.show())))
    }
}

/// A file of the archiver's own removed.
#[verifier::opaque]
pub open spec fn remove_internal_step(path: Seq<u8>, r: Seq<Reply>, at: int) -> Step<()> {
    chain(
        kind_step(path, "cannot inspect internal file '"@ + shown(path) + "'"@, r, at),
        |kind: FileKind, at: int|
            if kind != FileKind::Regular {
                fail("refusing to remove non-regular internal path: "@ + shown(path), at)
            } else {
                act_step(
                    RequestView::Remove { path },
                    "cannot remove internal file '"@ + shown(path) + "'"@,
                    r,
                    at,
                )
            },
    )
}

/// Removes a file of the archiver's own, and nothing but a regular file.
pub fn remove_internal_regular(tape: &mut Tape, path: &OsText) -> (result: Result<(), Stop>)
    ensures
        follows(
            *old(tape),
            *final(tape),
            result,
            remove_internal_step(path@, old(tape).replies@, old(tape).at as int),
        ),
{
    proof {
        reveal(remove_internal_step);
    }
    let kind = tape.kind(path, &path.show_in("cannot inspect internal file '", "'"))?;
    if kind != FileKind::Regular {
        return Err(Stop::Fail(cat2("refusing to remove non-regular internal path: ", &path.show())));
    }
    tape.act(
        Request::Remove { path: path.copy() },
        &path.show_in("cannot remove internal file '", "'"),
    )
}

/// A file of the archiver's own removed where there is one.
#[verifier::opaque]
pub open spec fn clear_internal_step(path: Seq<u8>, r: Seq<Reply>, at: int) -> Step<()> {
    chain(
        exists_step(path, r, at),
        |there: bool, at: int|
            if there {
                remove_internal_step(path, r, at)
            } else {
                done((), at)
            },
    )
}

/// Removes a file of the archiver's own where there is one.
pub fn clear_internal(tape: &mut Tape, path: &OsText) -> (result: Result<(), Stop>)
    ensures
        follows(
            *old(tape),
            *final(tape),
            result,
            clear_internal_step(path@, old(tape).replies@, old(tape).at as int),
        ),
{
    proof {
        reveal(clear_internal_step);
    }
    if tape.is_there(path)? {
        remove_internal_regular(tape, path)
    } else {
        Ok(())
    }
}

/// What is said where a new file cannot be written.
pub open spec fn write_blame(path: Seq<u8>) -> BlameView {
    BlameView {
        open: "cannot create '"@ + shown(path) + "'"@,
        create: "cannot create '"@ + shown(path) + "'"@,
        transfer: "cannot write '"@ + shown(path) + "'"@,
        flush: "cannot write '"@ + shown(path) + "'"@,
        sync: "cannot sync '"@ + shown(path) + "'"@,
    }
}

/// A new file written and made durable.
pub open spec fn write_new_step(
    path: Seq<u8>,
    contents: Seq<char>,
    r: Seq<Reply>,
    at: int,
) -> Step<()> {
    act_by_point_step(RequestView::WriteNew { path, contents }, write_blame(path), r, at)
}

/// Writes a new file and makes it durable.
pub fn write_new_synced(tape: &mut Tape, path: &OsText, contents: &str) -> (result: Result<(), Stop>)
    ensures
        follows(
            *old(tape),
            *final(tape),
            result,
            write_new_step(path@, contents@, old(tape).replies@, old(tape).at as int),
        ),
{
    let create = path.show_in("cannot create '", "'");
    let write = path.show_in("cannot write '", "'");
    let sync = path.show_in("cannot sync '", "'");
    tape.act_by_point(
        Request::WriteNew { path: path.copy(), contents: contents.to_owned() },
        &Blame { open: &create, create: &create, transfer: &write, flush: &write, sync: &sync },
    )
}

/// The directory in which a file is prepared for its place.
pub open spec fn workplace(path: Seq<u8>) -> Seq<u8> {
    match raw_parent(path) {
        Some(directory) => directory,
        None => raw("."@),
    }
}

fn workplace_of(path: &OsText) -> (directory: OsText)
    ensures
        directory@ == workplace(path@),
{
    match raw_parent_of(path) {
        Some(directory) => directory,
        None => OsText::of("."),
    }
}

/// The name of the file at a path, where it is a text.
pub open spec fn text_name(path: Seq<u8>) -> Option<Seq<u8>> {
    match raw_file_name(path) {
        Some(name) => if valid_utf8(name) {
            Some(name)
        } else {
            None
        },
        None => None,
    }
}

fn text_name_of(path: &OsText) -> (name: Option<OsText>)
    ensures
        name.deep_view() == text_name(path@),
{
    match raw_file_name_of(path) {
        Some(name) => if name.text().is_some() {
            Some(name)
        } else {
            None
        },
        None => None,
    }
}

/// A hidden name made of another.
pub open spec fn hidden_name(name: Seq<u8>, end: Seq<char>) -> Seq<u8> {
    raw("."@) + name + raw(end)
}

fn hidden_name_of(name: &OsText, end: &str) -> (hidden: OsText)
    ensures
        hidden@ == hidden_name(name@, end@),
{
    OsText::of(".").plus(name).plus(&OsText::of(end))
}

/// Where the next contents of a file are prepared.
pub open spec fn replacement_place(path: Seq<u8>, name: Seq<u8>) -> Seq<u8> {
    raw_joined(workplace(path), hidden_name(name, ".marchiver.tmp"@))
}

/// A file's contents replaced as one.
#[verifier::opaque]
pub open spec fn atomic_replace_step(
    path: Seq<u8>,
    contents: Seq<char>,
    r: Seq<Reply>,
    at: int,
) -> Step<()> {
    match text_name(path) {
        None => fail("output file name must be UTF-8"@, at),
        Some(name) => {
            let temporary = replacement_place(path, name);
            chain(
                clear_internal_step(temporary, r, at),
                |_cleared: (), at: int|
                    chain(
                        write_new_step(temporary, contents, r, at),
                        |_written: (), at: int|
                            chain(
                                act_step(
                                    RequestView::Rename { from: temporary, to: path },
                                    "cannot publish '"@ + shown(path) + "'"@,
                                    r,
                                    at,
                                ),
                                |_moved: (), at: int| sync_parent_step(path, r, at),
                            ),
                    ),
            )
        },
    }
}

/// Replaces a file's contents as one: whoever reads it finds the earlier
/// contents or the new ones.
pub fn atomic_replace(tape: &mut Tape, path: &OsText, contents: &str) -> (result: Result<(), Stop>)
    ensures
        follows(
            *old(tape),
            *final(tape),
            result,
            atomic_replace_step(path@, contents@, old(tape).replies@, old(tape).at as int),
        ),
{
    proof {
        reveal(atomic_replace_step);
    }
    let name = match text_name_of(path) {
        Some(name) => name,
        None => {
            return Err(failure("output file name must be UTF-8"));
        },
    };
    let temporary = raw_join(&workplace_of(path), &hidden_name_of(&name, ".marchiver.tmp"));
    clear_internal(tape, &temporary)?;
    write_new_synced(tape, &temporary, contents)?;
    tape.act(
        Request::Rename { from: temporary, to: path.copy() },
        &path.show_in("cannot publish '", "'"),
    )?;
    sync_parent(tape, path)
}

/// A journal written.
pub open spec fn write_journal_step(
    path: Seq<u8>,
    journal: JournalView,
    r: Seq<Reply>,
    at: int,
) -> Step<()> {
    atomic_replace_step(path, journal_text(journal), r, at)
}

/// Writes a journal.
pub fn write_journal(tape: &mut Tape, path: &OsText, journal: &Journal) -> (result: Result<(), Stop>)
    ensures
        follows(
            *old(tape),
            *final(tape),
            result,
            write_journal_step(
                path@,
                journal.deep_view(),
                old(tape).replies@,
                old(tape).at as int,
            ),
        ),
{
    atomic_replace(tape, path, &render_journal(journal))
}

/// A file given a second, durable name that must be free.
#[verifier::opaque]
pub open spec fn add_name_step(
    from: Seq<u8>,
    to: Seq<u8>,
    refusal: Seq<char>,
    loss: Seq<char>,
    r: Seq<Reply>,
    at: int,
) -> Step<()> {
    chain(
        act_step(RequestView::HardLink { from, to }, refusal, r, at),
        |_linked: (), at: int|
            chain(
                act_step(RequestView::SyncFile { path: to }, loss, r, at),
                |_synced: (), at: int| sync_parent_step(to, r, at),
            ),
    )
}

/// Gives a file a second, durable name that must be free.
pub fn add_name(tape: &mut Tape, from: &OsText, to: &OsText, refusal: &str, loss: &str) -> (result: Result<
    (),
    Stop,
>)
    ensures
        follows(
            *old(tape),
            *final(tape),
            result,
            add_name_step(
                from@,
                to@,
                refusal@,
                loss@,
                old(tape).replies@,
                old(tape).at as int,
            ),
        ),
{
    proof {
        reveal(add_name_step);
    }
    tape.act(Request::HardLink { from: from.copy(), to: to.copy() }, refusal)?;
    tape.act(Request::SyncFile { path: to.copy() }, loss)?;
    sync_parent(tape, to)
}

/// One of a file's names taken away for good.
#[verifier::opaque]
pub open spec fn drop_name_step(
    path: Seq<u8>,
    what: Seq<char>,
    r: Seq<Reply>,
    at: int,
) -> Step<()> {
    chain(
        act_step(RequestView::Remove { path }, what, r, at),
        |_removed: (), at: int| sync_parent_step(path, r, at),
    )
}

/// Takes one of a file's names away for good.
pub fn drop_name(tape: &mut Tape, path: &OsText, what: &str) -> (result: Result<(), Stop>)
    ensures
        follows(
            *old(tape),
            *final(tape),
            result,
            drop_name_step(path@, what@, old(tape).replies@, old(tape).at as int),
        ),
{
    proof {
        reveal(drop_name_step);
    }
    tape.act(Request::Remove { path: path.copy() }, what)?;
    sync_parent(tape, path)
}

/// A file given a second name that must be free. Where it is not, the first
/// name is taken back.
#[verifier::opaque]
pub open spec fn link_or_remove_step(
    from: Seq<u8>,
    to: Seq<u8>,
    what: Seq<char>,
    r: Seq<Reply>,
    at: int,
) -> Step<()> {
    rescue(
        act_step(RequestView::HardLink { from, to }, what, r, at),
        |message: Seq<char>, at: int|
            chain(
                try_act_step(RequestView::Remove { path: from }, r, at),
                |_removed: (), at: int| fail(message, at),
            ),
    )
}

fn link_or_remove(tape: &mut Tape, from: &OsText, to: &OsText, what: &str) -> (result: Result<(), Stop>)
    ensures
        follows(
            *old(tape),
            *final(tape),
            result,
            link_or_remove_step(from@, to@, what@, old(tape).replies@, old(tape).at as int),
        ),
{
    proof {
        reveal(link_or_remove_step);
    }
    match tape.act(Request::HardLink { from: from.copy(), to: to.copy() }, what) {
        Err(Stop::Fail(message)) => {
            tape.try_act(Request::Remove { path: from.copy() })?;
            Err(Stop::Fail(message))
        },
        other => other,
    }
}

/// The steps that give a written file its final name, without replacing
/// anything, and take its first name away.
#[verifier::opaque]
pub open spec fn publish_new_step(
    temporary: Seq<u8>,
    path: Seq<u8>,
    contents: Seq<char>,
    refusal: Seq<char>,
    leftover: Seq<char>,
    r: Seq<Reply>,
    at: int,
) -> Step<()> {
    chain(
        write_new_step(temporary, contents, r, at),
        |_written: (), at: int|
            chain(
                link_or_remove_step(temporary, path, refusal, r, at),
                |_linked: (), at: int|
                    chain(
                        sync_parent_step(path, r, at),
                        |_synced: (), at: int| drop_name_step(temporary, leftover, r, at),
                    ),
            ),
    )
}

fn publish_new(
    tape: &mut Tape,
    temporary: &OsText,
    path: &OsText,
    contents: &str,
    refusal: &str,
    leftover: &str,
) -> (result: Result<(), Stop>)
    ensures
        follows(
            *old(tape),
            *final(tape),
            result,
            publish_new_step(
                temporary@,
                path@,
                contents@,
                refusal@,
                leftover@,
                old(tape).replies@,
                old(tape).at as int,
            ),
        ),
{
    proof {
        reveal(publish_new_step);
    }
    write_new_synced(tape, temporary, contents)?;
    link_or_remove(tape, temporary, path, refusal)?;
    sync_parent(tape, path)?;
    drop_name(tape, temporary, leftover)
}

/// Where a process prepares what a user asked it to write.
pub open spec fn output_place(path: Seq<u8>, name: Seq<u8>, process: nat) -> Seq<u8> {
    raw_joined(
        workplace(path),
        hidden_name(name, ".marchiver-"@ + decimal_text(process) + ".tmp"@),
    )
}

/// A file written for the user, where nothing stands yet.
pub open spec fn write_user_output_step(
    path: Seq<u8>,
    contents: Seq<char>,
    process: nat,
    r: Seq<Reply>,
    at: int,
) -> Step<()> {
    match text_name(path) {
        None => fail("output file name must be UTF-8"@, at),
        Some(name) => publish_new_step(
            output_place(path, name, process),
            path,
            contents,
            "refusing to replace output '"@ + shown(path) + "'"@,
            "cannot remove output staging file"@,
            r,
            at,
        ),
    }
}

/// Writes a file for the user, where nothing stands yet.
pub fn write_user_output(tape: &mut Tape, path: &OsText, contents: &str, process: u32) -> (result:
    Result<(), Stop>)
    ensures
        follows(
            *old(tape),
            *final(tape),
            result,
            write_user_output_step(
                path@,
                contents@,
                process as nat,
                old(tape).replies@,
                old(tape).at as int,
            ),
        ),
{
    let name = match text_name_of(path) {
        Some(name) => name,
        None => {
            return Err(failure("output file name must be UTF-8"));
        },
    };
    let end = cat3(".marchiver-", &decimal(process as u64), ".tmp");
    let temporary = raw_join(&workplace_of(path), &hidden_name_of(&name, &end));
    publish_new(
        tape,
        &temporary,
        path,
        contents,
        &path.show_in("refusing to replace output '", "'"),
        "cannot remove output staging file",
    )
}

/// A text published where nothing stands yet.
#[verifier::opaque]
pub open spec fn publish_text_step(
    temporary: Seq<u8>,
    destination: Seq<u8>,
    contents: Seq<char>,
    r: Seq<Reply>,
    at: int,
) -> Step<()> {
    chain(
        clear_internal_step(temporary, r, at),
        |_cleared: (), at: int|
            publish_new_step(
                temporary,
                destination,
                contents,
                "no-replace publication '"@ + shown(destination) + "' failed"@,
                "cannot remove manifest staging"@,
                r,
                at,
            ),
    )
}

/// Publishes a text where nothing stands yet.
pub fn publish_text_no_replace(
    tape: &mut Tape,
    temporary: &OsText,
    destination: &OsText,
    contents: &str,
) -> (result: Result<(), Stop>)
    ensures
        follows(
            *old(tape),
            *final(tape),
            result,
            publish_text_step(
                temporary@,
                destination@,
                contents@,
                old(tape).replies@,
                old(tape).at as int,
            ),
        ),
{
    proof {
        reveal(publish_text_step);
    }
    clear_internal(tape, temporary)?;
    publish_new(
        tape,
        temporary,
        destination,
        contents,
        &destination.show_in("no-replace publication '", "' failed"),
        "cannot remove manifest staging",
    )
}

/// Two names that have to be names of one file.
#[verifier::opaque]
pub open spec fn ensure_same_file_step(
    left: Seq<u8>,
    right: Seq<u8>,
    r: Seq<Reply>,
    at: int,
) -> Step<()> {
    chain(
        stat_step(left, "cannot stat '"@ + shown(left) + "'"@, r, at),
        |first: FileStat, at: int|
            chain(
                stat_step(right, "cannot stat '"@ + shown(right) + "'"@, r, at),
                |second: FileStat, at: int|
                    if first.device == second.device && first.inode == second.inode {
                        done((), at)
                    } else {
                        fail("existing files are not links to the same inode"@, at)
                    },
            ),
    )
}

/// Accepts two names of one file.
pub fn ensure_same_file(tape: &mut Tape, left: &OsText, right: &OsText) -> (result: Result<(), Stop>)
    ensures
        follows(
            *old(tape),
            *final(tape),
            result,
            ensure_same_file_step(left@, right@, old(tape).replies@, old(tape).at as int),
        ),
{
    proof {
        reveal(ensure_same_file_step);
    }
    let first = tape.stat(left, &left.show_in("cannot stat '", "'"))?;
    let second = tape.stat(right, &right.show_in("cannot stat '", "'"))?;
    if first.device == second.device && first.inode == second.inode {
        Ok(())
    } else {
        Err(failure("existing files are not links to the same inode"))
    }
}

/// The digest of the regular file at a path.
#[verifier::opaque]
pub open spec fn hash_regular_step(path: Seq<u8>, r: Seq<Reply>, at: int) -> Step<Seq<char>> {
    chain(regular_file_step(path, r, at), |file: Seq<u8>, at: int| hash_step(file, r, at))
}

/// Digests the regular file at a path.
pub fn hash_regular(tape: &mut Tape, path: &OsText) -> (result: Result<String, Stop>)
    ensures
        follows(
            *old(tape),
            *final(tape),
            result,
            hash_regular_step(path@, old(tape).replies@, old(tape).at as int),
        ),
{
    proof {
        reveal(hash_regular_step);
    }
    let file = regular_file(tape, path)?;
    tape.hash_file(&file)
}

/// A staging name taken away for good, where there is one.
#[verifier::opaque]
pub open spec fn discard_step(staging: Seq<u8>, r: Seq<Reply>, at: int) -> Step<()> {
    chain(
        exists_step(staging, r, at),
        |left: bool, at: int|
            if left {
                chain(
                    remove_internal_step(staging, r, at),
                    |_removed: (), at: int| sync_parent_step(staging, r, at),
                )
            } else {
                done((), at)
            },
    )
}

fn discard(tape: &mut Tape, staging: &OsText) -> (result: Result<(), Stop>)
    ensures
        follows(
            *old(tape),
            *final(tape),
            result,
            discard_step(staging@, old(tape).replies@, old(tape).at as int),
        ),
{
    proof {
        reveal(discard_step);
    }
    if tape.is_there(staging)? {
        remove_internal_regular(tape, staging)?;
        return sync_parent(tape, staging);
    }
    Ok(())
}

/// A staged file given its final name, which must be free, in place of the first.
#[verifier::opaque]
pub open spec fn promote_step(
    staging: Seq<u8>,
    destination: Seq<u8>,
    r: Seq<Reply>,
    at: int,
) -> Step<()> {
    chain(
        act_step(
            RequestView::HardLink { from: staging, to: destination },
            "atomic no-replace publication '"@ + shown(destination) + "' failed"@,
            r,
            at,
        ),
        |_linked: (), at: int|
            chain(
                sync_parent_step(destination, r, at),
                |_synced: (), at: int|
                    drop_name_step(staging, "cannot remove published staging link"@, r, at),
            ),
    )
}

fn promote(tape: &mut Tape, staging: &OsText, destination: &OsText) -> (result: Result<(), Stop>)
    ensures
        follows(
            *old(tape),
            *final(tape),
            result,
            promote_step(staging@, destination@, old(tape).replies@, old(tape).at as int),
        ),
{
    proof {
        reveal(promote_step);
    }
    tape.act(
        Request::HardLink { from: staging.copy(), to: destination.copy() },
        &destination.show_in("atomic no-replace publication '", "' failed"),
    )?;
    sync_parent(tape, destination)?;
    drop_name(tape, staging, "cannot remove published staging link")
}

/// A staged output published, or found to be published already.
#[verifier::opaque]
pub open spec fn publish_output_step(
    staging: Seq<u8>,
    destination: Seq<u8>,
    expected: Seq<char>,
    r: Seq<Reply>,
    at: int,
) -> Step<()> {
    chain(
        exists_step(destination, r, at),
        |there: bool, at: int|
            if there {
                chain(
                    hash_regular_step(destination, r, at),
                    |actual: Seq<char>, at: int|
                        if actual != expected {
                            fail(
                                "destination already exists and is not this transaction's output"@,
                                at,
                            )
                        } else {
                            discard_step(staging, r, at)
                        },
                )
            } else {
                promote_step(staging, destination, r, at)
            },
    )
}

/// Publishes a staged output whose digest is known. Where something stands at
/// the destination, it has to be that output, published before.
pub fn publish_output(tape: &mut Tape, staging: &OsText, destination: &OsText, expected: &str) -> (result:
    Result<(), Stop>)
    ensures
        follows(
            *old(tape),
            *final(tape),
            result,
            publish_output_step(
                staging@,
                destination@,
                expected@,
                old(tape).replies@,
                old(tape).at as int,
            ),
        ),
{
    proof {
        reveal(publish_output_step);
    }
    if tape.is_there(destination)? {
        let actual = hash_regular(tape, destination)?;
        if !same_text(&actual, expected) {
            return Err(failure("destination already exists and is not this transaction's output"));
        }
        discard(tape, staging)
    } else {
        promote(tape, staging, destination)
    }
}

/// A file under a hidden name of its own stands one name below its workplace, and
/// not in the file's place.
proof fn lemma_hidden_elsewhere(path: Seq<u8>, end: Seq<char>)
    requires
        text_name(path) is Some,
        end.len() > 1,
        is_ascii_chars(end),
        forall|i: int| 0 <= i < end.len() ==> end[i] != '/',
    ensures
        ({
            let hidden = hidden_name(text_name(path)->0, end);
            let place = raw_joined(workplace(path), hidden);
            let directory = wide(workplace(path));
            &&& place != path
            &&& names(wide(place), place.len() as int) == names(
                directory,
                directory.len() as int,
            ).push(wide(hidden))
        }),
{
    let name = text_name(path)->0;
    let other = hidden_name(name, end);
    reveal_strlit(".");
    reveal_strlit("..");
    is_ascii_chars_encode_utf8(end);
    is_ascii_chars_encode_utf8("."@);
    lemma_raw_file_name(path);
    lemma_raw_joined(workplace(path), other);
    let plain = wide(other);
    assert(plain.len() == 1 + name.len() + end.len());
    assert forall|i: int| 0 <= i < plain.len() implies plain[i] != '/' by {
        if i == 0 {
            assert(other[0] == raw("."@)[0]);
        } else if i < 1 + name.len() {
            assert(other[i] == name[i - 1]);
            assert(wide(name)[i - 1] != '/');
        } else {
            assert(other[i] == raw(end)[i - 1 - name.len()]);
            assert(end[i - 1 - name.len()] != '/');
        }
    }
    law_join_then_split(wide(workplace(path)), plain);
    assert(wide(name).len() == name.len());
}

/// What a user asked for is prepared under another path than its own.
pub proof fn law_output_is_prepared_elsewhere(path: Seq<u8>, process: nat)
    requires
        text_name(path) is Some,
    ensures
        output_place(path, text_name(path)->0, process) != path,
{
    let number = decimal_text(process);
    let end = ".marchiver-"@ + number + ".tmp"@;
    reveal_strlit(".marchiver-");
    reveal_strlit(".tmp");
    lemma_decimal_is_digits(process);
    let start = ".marchiver-"@ + number;
    assert forall|i: int| 0 <= i < end.len() implies 0 <= #[trigger] end[i] as nat && (end[i] as nat)
        < 128 && end[i] != '/' by {
        if i < ".marchiver-"@.len() {
            assert(end[i] == ".marchiver-"@[i]);
        } else if i < start.len() {
            assert(end[i] == number[i - ".marchiver-"@.len()]);
        } else {
            assert(end[i] == ".tmp"@[i - start.len()]);
        }
    }
    lemma_hidden_elsewhere(path, end);
}

/// The next contents of a file are prepared one name below the directory it is in,
/// and not in the file's place.
pub proof fn law_replacement_is_prepared_elsewhere(path: Seq<u8>)
    requires
        text_name(path) is Some,
    ensures
        ({
            let place = replacement_place(path, text_name(path)->0);
            let directory = wide(workplace(path));
            &&& place != path
            &&& names(wide(place), place.len() as int).len() == names(
                directory,
                directory.len() as int,
            ).len() + 1
        }),
{
    reveal_strlit(".marchiver.tmp");
    lemma_hidden_elsewhere(path, ".marchiver.tmp"@);
}

/// The next contents of a file in a directory are not prepared in the directory's
/// place.
pub proof fn law_replacement_is_not_its_directory(directory: Seq<char>, name: Seq<char>)
    requires
        plain_name(name),
        is_ascii_chars(name),
    ensures
        text_name(raw(joined(directory, name))) matches Some(text) ==> replacement_place(
            raw(joined(directory, name)),
            text,
        ) != raw(directory),
{
    let path = raw(joined(directory, name));
    if text_name(path) is Some {
        lemma_wide_joined(directory, name);
        law_join_then_split(wide(raw(directory)), name);
        lemma_raw_parent(path);
        law_replacement_is_prepared_elsewhere(path);
    }
}

} // verus!
