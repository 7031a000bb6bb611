use marchiver::command::final_destination;
use marchiver::disposal::{delete_source, finish_quarantine, quarantine_link, restore};
use marchiver::flow::{
    FileKind, FileStat, ModifiedTime, Point, Reply, Request, Stop, Tape, Tool, ToolOutput,
};
use marchiver::inspect::{inspect_file, regular_file, validate_source};
use marchiver::load::validate_manifest;
use marchiver::model::{
    ArchiveManifest, ArchivePlan, Av1Config, Config, FormatSummary, Journal, MediaEvidence, Phase,
    Profile, SourceDisposition,
};
use marchiver::os_text::OsText;
use marchiver::plan::{manifest_from_plan, new_journal, plan_for, quarantine_path};
use marchiver::seconds::Seconds;
use marchiver::storage::{
    add_name, atomic_replace, clear_internal, drop_name, ensure_directory, ensure_same_file,
    hash_regular, publish_output, publish_text_no_replace, remove_internal_regular,
    sync_directory, sync_parent, write_new_synced, write_user_output,
};
use marchiver::tool::{av1_stage, copy_stage, decode_output, ffprobe};

fn raw(text: &str) -> OsText {
    OsText::of(text)
}

fn failed(point: Point) -> Reply {
    Reply::Failed {
        point,
        error: "boom".to_owned(),
    }
}

fn resolved(path: &str) -> Reply {
    Reply::Resolved(raw(path))
}

fn odd() -> Reply {
    Reply::Resolved(OsText {
        bytes: b"/caf\xe9".to_vec(),
    })
}

fn stat(inode: u64) -> Reply {
    Reply::Stat(FileStat {
        device: 1,
        inode,
        size: 3,
        modified: ModifiedTime::After(9),
    })
}

fn ran(success: bool) -> Reply {
    Reply::Ran(ToolOutput {
        success,
        stdout: b"{}".to_vec(),
        stderr: b"bad\n".to_vec(),
    })
}

fn stop<T>(result: Result<T, Stop>) -> Stop {
    match result {
        Ok(_) => panic!("expected a stop"),
        Err(stop) => stop,
    }
}

fn fails<T>(replies: Vec<Reply>, work: fn(&mut Tape) -> Result<T, Stop>, message: &str) {
    let mut tape = Tape::new(&replies);
    match work(&mut tape) {
        Err(Stop::Fail(text)) => assert_eq!(text, message),
        Err(Stop::Ask(request)) => panic!("asked {request:?} instead of: {message}"),
        Ok(_) => panic!("succeeded instead of: {message}"),
    }
    assert_eq!(tape.at, replies.len());
}

fn succeeds<T>(replies: Vec<Reply>, work: fn(&mut Tape) -> Result<T, Stop>) -> T {
    let mut tape = Tape::new(&replies);
    match work(&mut tape) {
        Ok(value) => {
            assert_eq!(tape.at, replies.len());
            value
        }
        Err(stop) => panic!("{stop:?}"),
    }
}

fn asks<T>(replies: Vec<Reply>, work: fn(&mut Tape) -> Result<T, Stop>, wanted: Request) {
    let mut tape = Tape::new(&replies);
    assert_eq!(stop(work(&mut tape)), Stop::Ask(wanted));
    assert_eq!(tape.at, replies.len());
}

fn seconds(value: f64) -> Seconds {
    Seconds {
        bits: value.to_bits(),
        text: format!("{value:?}"),
    }
}

fn evidence(path: &str) -> MediaEvidence {
    MediaEvidence {
        path: path.to_owned(),
        sha256: "a".repeat(64),
        size: 3,
        modified_ns: 9,
        format: FormatSummary {
            format_name: None,
            duration_seconds: None,
        },
        streams: Vec::new(),
        chapters: Vec::new(),
        raw_probe_json: "{}".to_owned(),
    }
}

fn plan() -> ArchivePlan {
    let config = Config {
        schema_version: 1,
        source_disposition: SourceDisposition::Quarantine,
        default_profile: Profile::Copy,
        av1: Av1Config {
            crf: 20,
            preset: 6,
            container: "mkv".to_owned(),
        },
        duration_tolerance_seconds: seconds(0.5),
    };
    match plan_for(evidence("/s/a.mkv"), "/d/a.mkv", Profile::Copy, &config, "1") {
        Ok(plan) => plan,
        Err(error) => panic!("{error}"),
    }
}

fn manifest() -> ArchiveManifest {
    let plan = plan();
    let quarantine = quarantine_path(&plan).unwrap();
    manifest_from_plan(&plan, evidence("/d/a.mkv"), quarantine, "1")
}

fn journal() -> Journal {
    let plan = plan();
    let mut journal = new_journal(&plan, "/d/staging", "1");
    journal.phase = Phase::Manifested;
    journal.quarantine_path = quarantine_path(&plan).unwrap();
    journal
}

#[test]
fn replies_must_answer_their_requests() {
    let mismatch = "reply does not answer the request";
    fails(vec![Reply::Finished], |tape| tape.is_there(&raw("/a")), mismatch);
    fails(vec![Reply::Finished], |tape| tape.kind(&raw("/a"), "x"), mismatch);
    fails(vec![Reply::Flag(true)], |tape| sync_directory(tape, &raw("/a")), mismatch);
    fails(vec![Reply::Flag(true)], |tape| tape.hash_file(&raw("/a")), mismatch);
    fails(vec![Reply::Flag(true)], |tape| tape.create_directory(&raw("/a")), mismatch);
    fails(vec![Reply::Flag(true)], |tape| ffprobe(tape, &raw("/a")), mismatch);
    asks(
        vec![],
        |tape| tape.is_there(&raw("/a")),
        Request::Exists {
            path: raw("/a"),
        },
    );
}

#[test]
fn directories_are_made_or_found() {
    succeeds(vec![Reply::Finished, Reply::Finished], |tape| {
        ensure_directory(tape, &raw("/a/b"))
    });
    asks(
        vec![Reply::Finished],
        |tape| ensure_directory(tape, &raw("/a/b")),
        Request::SyncDirectory {
            path: raw("/a"),
        },
    );
    succeeds(
        vec![Reply::AlreadyExists, Reply::Kind(FileKind::Directory)],
        |tape| ensure_directory(tape, &raw("/a/b")),
    );
    for kind in [FileKind::Regular, FileKind::Other] {
        fails(
            vec![Reply::AlreadyExists, Reply::Kind(kind)],
            |tape| ensure_directory(tape, &raw("/a/b")),
            "refusing non-directory path: /a/b",
        );
    }
    fails(
        vec![Reply::AlreadyExists, failed(Point::Open)],
        |tape| ensure_directory(tape, &raw("/a/b")),
        "cannot inspect directory '/a/b': boom",
    );
    fails(
        vec![failed(Point::Open)],
        |tape| ensure_directory(tape, &raw("/a/b")),
        "cannot create directory '/a/b': boom",
    );
    asks(
        vec![],
        |tape| sync_parent(tape, &raw("plan.pkl")),
        Request::SyncDirectory {
            path: raw("."),
        },
    );
    fails(
        vec![failed(Point::Open)],
        |tape| sync_parent(tape, &raw("/plan.pkl")),
        "cannot sync directory '/': boom",
    );
}

#[test]
fn only_regular_files_of_its_own_are_removed() {
    succeeds(
        vec![Reply::Kind(FileKind::Regular), Reply::Finished],
        |tape| remove_internal_regular(tape, &raw("/t")),
    );
    for kind in [FileKind::Directory, FileKind::Other] {
        fails(
            vec![Reply::Kind(kind)],
            |tape| remove_internal_regular(tape, &raw("/t")),
            "refusing to remove non-regular internal path: /t",
        );
    }
    fails(
        vec![failed(Point::Open)],
        |tape| remove_internal_regular(tape, &raw("/t")),
        "cannot inspect internal file '/t': boom",
    );
    fails(
        vec![Reply::Kind(FileKind::Regular), failed(Point::Open)],
        |tape| remove_internal_regular(tape, &raw("/t")),
        "cannot remove internal file '/t': boom",
    );
    succeeds(vec![Reply::Flag(false)], |tape| clear_internal(tape, &raw("/t")));
}

#[test]
fn writing_says_where_it_failed() {
    let write = |tape: &mut Tape| write_new_synced(tape, &raw("/t"), "text");
    fails(vec![failed(Point::Create)], write, "cannot create '/t': boom");
    fails(vec![failed(Point::Transfer)], write, "cannot write '/t': boom");
    fails(vec![failed(Point::Sync)], write, "cannot sync '/t': boom");
    asks(
        vec![],
        write,
        Request::WriteNew {
            path: raw("/t"),
            contents: "text".to_owned(),
        },
    );
}

#[test]
fn contents_are_replaced_by_a_rename() {
    let replace = |tape: &mut Tape| atomic_replace(tape, &raw("/d/journal.pkl"), "text");
    let temporary = "/d/.journal.pkl.marchiver.tmp";
    asks(vec![], replace, Request::Exists { path: raw(temporary) });
    asks(
        vec![Reply::Flag(true), Reply::Kind(FileKind::Regular)],
        replace,
        Request::Remove { path: raw(temporary) },
    );
    asks(
        vec![Reply::Flag(false), Reply::Finished],
        replace,
        Request::Rename {
            from: raw(temporary),
            to: raw("/d/journal.pkl"),
        },
    );
    fails(
        vec![Reply::Flag(false), Reply::Finished, failed(Point::Open)],
        replace,
        "cannot publish '/d/journal.pkl': boom",
    );
    succeeds(
        vec![Reply::Flag(false), Reply::Finished, Reply::Finished, Reply::Finished],
        replace,
    );
    fails(
        vec![],
        |tape| atomic_replace(tape, &raw("/.."), "text"),
        "output file name must be UTF-8",
    );
}

#[test]
fn user_output_is_linked_into_a_free_place() {
    let write = |tape: &mut Tape| write_user_output(tape, &raw("/d/out.pkl"), "text", 42);
    let temporary = "/d/.out.pkl.marchiver-42.tmp";
    asks(
        vec![],
        write,
        Request::WriteNew {
            path: raw(temporary),
            contents: "text".to_owned(),
        },
    );
    asks(
        vec![Reply::Finished],
        write,
        Request::HardLink {
            from: raw(temporary),
            to: raw("/d/out.pkl"),
        },
    );
    asks(
        vec![Reply::Finished, failed(Point::Open)],
        write,
        Request::Remove { path: raw(temporary) },
    );
    for reply in [Reply::Finished, failed(Point::Open)] {
        fails(
            vec![Reply::Finished, failed(Point::Open), reply],
            write,
            "refusing to replace output '/d/out.pkl': boom",
        );
    }
    fails(
        vec![Reply::Finished, Reply::Finished, Reply::Finished, failed(Point::Open)],
        write,
        "cannot remove output staging file: boom",
    );
    fails(
        vec![],
        |tape| write_user_output(tape, &raw("/"), "text", 42),
        "output file name must be UTF-8",
    );
    asks(
        vec![],
        |tape| write_user_output(tape, &raw("out.pkl"), "text", 7),
        Request::WriteNew {
            path: raw(".out.pkl.marchiver-7.tmp"),
            contents: "text".to_owned(),
        },
    );
}

#[test]
fn manifests_are_published_into_a_free_place() {
    let publish = |tape: &mut Tape| publish_text_no_replace(tape, &raw("/t"), &raw("/m"), "text");
    fails(
        vec![Reply::Flag(false), Reply::Finished, failed(Point::Open), Reply::Finished],
        publish,
        "no-replace publication '/m' failed: boom",
    );
    fails(
        vec![
            Reply::Flag(false),
            Reply::Finished,
            Reply::Finished,
            Reply::Finished,
            failed(Point::Open),
        ],
        publish,
        "cannot remove manifest staging: boom",
    );
}

#[test]
fn outputs_are_published_once() {
    let publish = |tape: &mut Tape| publish_output(tape, &raw("/p"), &raw("/d"), "digest");
    asks(
        vec![Reply::Flag(false)],
        publish,
        Request::HardLink {
            from: raw("/p"),
            to: raw("/d"),
        },
    );
    fails(
        vec![Reply::Flag(false), failed(Point::Open)],
        publish,
        "atomic no-replace publication '/d' failed: boom",
    );
    fails(
        vec![Reply::Flag(false), Reply::Finished, Reply::Finished, failed(Point::Open)],
        publish,
        "cannot remove published staging link: boom",
    );
    let there = || vec![Reply::Flag(true), Reply::Kind(FileKind::Regular), resolved("/d")];
    let mut replies = there();
    replies.push(Reply::Digest("other".to_owned()));
    fails(
        replies,
        publish,
        "destination already exists and is not this transaction's output",
    );
    let mut replies = there();
    replies.push(Reply::Digest("digest".to_owned()));
    replies.push(Reply::Flag(false));
    succeeds(replies, publish);
    let mut replies = there();
    replies.push(Reply::Digest("digest".to_owned()));
    replies.push(Reply::Flag(true));
    replies.push(Reply::Kind(FileKind::Regular));
    replies.push(Reply::Finished);
    asks(
        replies,
        publish,
        Request::SyncDirectory {
            path: raw("/"),
        },
    );
}

#[test]
fn names_must_be_of_one_file() {
    let same = |tape: &mut Tape| ensure_same_file(tape, &raw("/a"), &raw("/b"));
    succeeds(vec![stat(5), stat(5)], same);
    fails(
        vec![stat(5), stat(6)],
        same,
        "existing files are not links to the same inode",
    );
    fails(vec![failed(Point::Open)], same, "cannot stat '/a': boom");
    fails(vec![stat(5), failed(Point::Open)], same, "cannot stat '/b': boom");
    fails(
        vec![Reply::Finished, failed(Point::Open)],
        |tape| add_name(tape, &raw("/a"), &raw("/b"), "refused", "lost"),
        "lost: boom",
    );
    fails(
        vec![failed(Point::Open)],
        |tape| drop_name(tape, &raw("/a"), "kept"),
        "kept: boom",
    );
}

#[test]
fn digests_are_of_regular_files() {
    let hash = |tape: &mut Tape| hash_regular(tape, &raw("/a"));
    let found = || vec![Reply::Kind(FileKind::Regular), resolved("/real")];
    asks(
        found(),
        hash,
        Request::Hash {
            path: raw("/real"),
        },
    );
    let mut replies = found();
    replies.push(failed(Point::Open));
    fails(replies, hash, "cannot open '/real': boom");
    let mut replies = found();
    replies.push(failed(Point::Transfer));
    fails(replies, hash, "cannot hash '/real': boom");
    fails(
        vec![Reply::Kind(FileKind::Other)],
        |tape| regular_file(tape, &raw("/a")),
        "not a regular file: /a",
    );
    fails(
        vec![failed(Point::Open)],
        |tape| regular_file(tape, &raw("/a")),
        "cannot inspect '/a': boom",
    );
    fails(
        vec![Reply::Kind(FileKind::Regular), failed(Point::Open)],
        |tape| regular_file(tape, &raw("/a")),
        "cannot resolve '/a': boom",
    );
    let file = succeeds(
        vec![Reply::Kind(FileKind::Regular), odd()],
        |tape| regular_file(tape, &raw("/a")),
    );
    assert_eq!(file.bytes, b"/caf\xe9");
    asks(
        vec![Reply::Kind(FileKind::Regular), odd()],
        hash,
        Request::Hash { path: file },
    );
}

#[test]
fn inspections_say_what_failed() {
    let inspect = |tape: &mut Tape| inspect_file(tape, &raw("/a"));
    let until = |count: usize| {
        let mut replies = vec![
            Reply::Kind(FileKind::Regular),
            resolved("/real"),
            stat(5),
            Reply::Digest("d".to_owned()),
            ran(true),
        ];
        replies.truncate(count);
        replies
    };
    let mut replies = until(2);
    replies.push(failed(Point::Open));
    fails(replies, inspect, "cannot stat '/real': boom");
    let mut replies = until(4);
    replies.push(failed(Point::Open));
    fails(replies, inspect, "failed to execute ffprobe: boom");
    let mut replies = until(4);
    replies.push(ran(false));
    fails(replies, inspect, "ffprobe failed: bad");
    let mut replies = until(5);
    replies.push(failed(Point::Open));
    fails(replies, inspect, "ffprobe returned invalid JSON: boom");
    let arguments = [
        "-v", "error", "-show_format", "-show_streams", "-show_chapters", "-of", "json", "/real",
    ];
    asks(
        until(4),
        inspect,
        Request::Run {
            tool: Tool::Ffprobe,
            arguments: arguments.iter().map(|argument| raw(argument)).collect(),
        },
    );
    asks(
        until(5),
        inspect,
        Request::ParseProbe {
            json: "{}".to_owned(),
        },
    );
}

#[test]
fn staging_says_what_failed() {
    let copy = |tape: &mut Tape| copy_stage(tape, "/s", "/p");
    fails(vec![failed(Point::Open)], copy, "cannot open source '/s': boom");
    fails(
        vec![failed(Point::Create)],
        copy,
        "cannot create staging file '/p': boom",
    );
    fails(
        vec![failed(Point::Transfer)],
        copy,
        "copy to staging failed: boom",
    );
    fails(
        vec![failed(Point::Flush)],
        copy,
        "cannot flush staging output: boom",
    );
    fails(
        vec![failed(Point::Sync)],
        copy,
        "cannot sync staging output: boom",
    );
    let encode = |tape: &mut Tape| av1_stage(tape, &plan(), "/p");
    fails(
        vec![failed(Point::Open)],
        encode,
        "failed to execute ffmpeg: boom",
    );
    fails(vec![ran(false)], encode, "ffmpeg transcode failed: bad");
    fails(
        vec![ran(true), failed(Point::Open)],
        encode,
        "ffmpeg did not create staging output: boom",
    );
    fails(
        vec![ran(true), failed(Point::Sync)],
        encode,
        "cannot sync staging output: boom",
    );
    succeeds(vec![ran(true), Reply::Finished], encode);
    let decode = |tape: &mut Tape| decode_output(tape, "/d");
    fails(vec![ran(false)], decode, "ffmpeg full decode failed: bad");
    fails(
        vec![failed(Point::Open)],
        decode,
        "failed to execute ffmpeg: boom",
    );
    let arguments = ["-v", "error", "-i", "/d", "-map", "0", "-f", "null", "-"];
    asks(
        vec![],
        decode,
        Request::Run {
            tool: Tool::Ffmpeg,
            arguments: arguments.iter().map(|argument| raw(argument)).collect(),
        },
    );
}

#[test]
fn quarantine_needs_a_source_or_its_link() {
    let directories = || {
        vec![
            Reply::AlreadyExists,
            Reply::Kind(FileKind::Directory),
            Reply::AlreadyExists,
            Reply::Kind(FileKind::Directory),
        ]
    };
    let link = |tape: &mut Tape| quarantine_link(tape, &plan(), &journal());
    let with = |source: bool, quarantine: bool| {
        let mut replies = directories();
        replies.push(Reply::Flag(source));
        replies.push(Reply::Flag(quarantine));
        replies
    };
    fails(
        with(false, false),
        link,
        "both source and quarantine are missing",
    );
    succeeds(with(false, true), link);
    let mut replies = with(true, true);
    replies.push(stat(1));
    replies.push(stat(2));
    fails(
        replies,
        link,
        "existing files are not links to the same inode",
    );
    asks(
        with(true, false),
        link,
        Request::Kind {
            path: raw("/s/a.mkv"),
        },
    );
    fails(
        vec![],
        |tape| {
            let mut journal = journal();
            journal.quarantine_path = None;
            quarantine_link(tape, &plan(), &journal)
        },
        "quarantine journal is missing quarantinePath",
    );
    fails(
        vec![],
        |tape| {
            let mut journal = journal();
            journal.quarantine_path = Some("/".to_owned());
            quarantine_link(tape, &plan(), &journal)
        },
        "quarantine path has no parent",
    );
    fails(
        vec![],
        |tape| {
            let mut journal = journal();
            journal.quarantine_path = Some("/q".to_owned());
            quarantine_link(tape, &plan(), &journal)
        },
        "quarantine path has no root",
    );
}

#[test]
fn sources_go_only_once_their_link_stands() {
    let finish = |tape: &mut Tape| finish_quarantine(tape, &plan(), &journal());
    fails(
        vec![Reply::Flag(true), Reply::Flag(false)],
        finish,
        "quarantine link disappeared before source unlink",
    );
    fails(
        vec![Reply::Flag(false), Reply::Flag(false)],
        finish,
        "both source and quarantine are missing",
    );
    succeeds(vec![Reply::Flag(false), Reply::Flag(true)], finish);
    fails(
        vec![Reply::Flag(true), Reply::Flag(true), stat(1), stat(1), failed(Point::Open)],
        finish,
        "cannot unlink source: boom",
    );
    asks(
        vec![Reply::Flag(true), Reply::Flag(true), stat(1), stat(1)],
        finish,
        Request::Remove {
            path: raw("/s/a.mkv"),
        },
    );
    succeeds(vec![Reply::Flag(false)], |tape| delete_source(tape, &plan()));
    asks(
        vec![Reply::Flag(true)],
        |tape| delete_source(tape, &plan()),
        Request::Kind {
            path: raw("/s/a.mkv"),
        },
    );
    fails(
        vec![Reply::Kind(FileKind::Directory)],
        |tape| validate_source(tape, &plan().source),
        "not a regular file: /s/a.mkv",
    );
}

#[test]
fn restorations_overwrite_nothing() {
    let bring = |tape: &mut Tape| restore(tape, &manifest());
    let digest = |text: &str| Reply::Digest(text.to_owned());
    let quarantined = |sum: &str| {
        vec![
            Reply::Flag(true),
            Reply::Kind(FileKind::Regular),
            resolved("/q"),
            digest(sum),
        ]
    };
    let right = "a".repeat(64);
    fails(
        quarantined("other"),
        bring,
        "quarantined source SHA-256 differs from manifest",
    );
    let mut replies = quarantined(&right);
    replies.push(Reply::Flag(false));
    replies.push(Reply::Flag(true));
    replies.push(failed(Point::Open));
    fails(
        replies,
        bring,
        "restore hard-link failed; no copy fallback is permitted: boom",
    );
    let mut replies = quarantined(&right);
    replies.push(Reply::Flag(false));
    replies.push(Reply::Flag(true));
    replies.push(Reply::Finished);
    replies.push(failed(Point::Open));
    fails(replies, bring, "cannot sync restored source: boom");
    let mut replies = quarantined(&right);
    replies.push(Reply::Flag(true));
    replies.push(Reply::Flag(true));
    replies.push(stat(1));
    replies.push(stat(1));
    replies.push(failed(Point::Open));
    fails(replies, bring, "cannot finish interrupted restore: boom");
    fails(
        vec![
            Reply::Flag(false),
            Reply::Flag(true),
            Reply::Flag(false),
            Reply::Kind(FileKind::Regular),
            resolved("/s/a.mkv"),
            digest("other"),
        ],
        bring,
        "existing source does not match manifest; refusing overwrite",
    );
    fails(
        vec![Reply::Flag(false), Reply::Flag(false), Reply::Flag(false)],
        bring,
        "both source and quarantine are missing",
    );
    fails(
        vec![],
        |tape| {
            let mut manifest = manifest();
            manifest.source_disposition = SourceDisposition::Preserve;
            restore(tape, &manifest)
        },
        "restore is only valid for quarantined sources",
    );
    fails(
        vec![],
        |tape| {
            let mut manifest = manifest();
            manifest.quarantine_path = None;
            restore(tape, &manifest)
        },
        "manifest has no quarantinePath",
    );
}

#[test]
fn manifests_are_read_from_their_own_place() {
    let check = |tape: &mut Tape| validate_manifest(tape, &manifest(), Some(&raw("m.pkl")));
    succeeds(vec![resolved("/m"), resolved("/m")], check);
    fails(
        vec![resolved("/m"), resolved("/n")],
        check,
        "manifestPath does not identify the loaded manifest",
    );
    fails(
        vec![failed(Point::Open)],
        check,
        "cannot resolve manifest 'm.pkl': boom",
    );
    fails(
        vec![resolved("/m"), failed(Point::Open)],
        check,
        "cannot resolve declared manifest path: boom",
    );
    succeeds(vec![], |tape| validate_manifest(tape, &manifest(), None));
}

#[test]
fn canonical_paths_need_not_be_text() {
    let digest = |text: &str| Reply::Digest(text.to_owned());
    // a manifest that stands where it says
    succeeds(vec![odd(), odd()], |tape| {
        validate_manifest(tape, &manifest(), Some(&raw("m.pkl")))
    });
    fails(
        vec![odd(), resolved("/caf\u{e9}")],
        |tape| validate_manifest(tape, &manifest(), Some(&raw("m.pkl"))),
        "manifestPath does not identify the loaded manifest",
    );
    // an output that is published already
    succeeds(
        vec![
            Reply::Flag(true),
            Reply::Kind(FileKind::Regular),
            odd(),
            digest("digest"),
            Reply::Flag(false),
        ],
        |tape| publish_output(tape, &raw("/p"), &raw("/d"), "digest"),
    );
    // a quarantined file that is another
    fails(
        vec![
            Reply::Flag(true),
            Reply::Kind(FileKind::Regular),
            odd(),
            digest("other"),
        ],
        |tape| restore(tape, &manifest()),
        "quarantined source SHA-256 differs from manifest",
    );
    // a free destination
    let destination = |tape: &mut Tape| final_destination(tape, &raw("movie.mkv"));
    let found = || vec![Reply::Flag(false), odd(), Reply::Flag(true)];
    assert_eq!(succeeds(found(), destination).bytes, b"/caf\xe9/movie.mkv");
    asks(
        vec![Reply::Flag(false)],
        destination,
        Request::Resolve { path: raw(".") },
    );
    fails(
        vec![Reply::Flag(false), odd(), Reply::Flag(false)],
        destination,
        "destination parent is not a directory",
    );
    fails(
        vec![Reply::Flag(true)],
        destination,
        "destination already exists: movie.mkv",
    );
    fails(
        vec![],
        |tape| final_destination(tape, &raw("/")),
        "destination must be a final file path",
    );
    fails(
        vec![],
        |tape| {
            let path = OsText {
                bytes: b"/d/caf\xe9".to_vec(),
            };
            write_user_output(tape, &path, "text", 1)
        },
        "output file name must be UTF-8",
    );
}
