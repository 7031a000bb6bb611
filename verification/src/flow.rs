//! Workflows that alternate decisions with work outside the library.
//!
//! A workflow is an ordinary function over a [`Tape`] of the replies that were
//! given so far. It runs until it needs a reply that is not there yet, and then
//! stops with the [`Request`] it needs answered. The caller performs the
//! request, adds the reply to the tape and runs the workflow again from the
//! start: the same replies lead it to the same place. What a workflow does is
//! stated by a [`Step`], the outcome that a sequence of replies leads to and the
//! position up to which they were used.
use vstd::prelude::*;
use vstd::string::*;

use crate::model::{ArchiveManifest, ArchivePlan, Config, Journal, Probe};
use crate::os_text::{copy_optional_text, shown, OsText};
use crate::pkl::Document;
use crate::text::{cat2, cat3};

verus! {

/// An outside program.
#[derive(Clone, Copy, Debug, PartialEq, Eq, Structural)]
pub enum Tool {
    Ffprobe,
    Ffmpeg,
}

impl Tool {
    /// The program's name.
    pub open spec fn name(self) -> Seq<char> {
        match self {
            Tool::Ffprobe => "ffprobe"@,
            Tool::Ffmpeg => "ffmpeg"@,
        }
    }

    /// The program's name.
    pub fn as_str(self) -> (name: &'static str)
        ensures
            name@ == self.name(),
    {
        match self {
            Tool::Ffprobe => "ffprobe",
            Tool::Ffmpeg => "ffmpeg",
        }
    }
}

/// One piece of work for the caller.
#[derive(Debug, PartialEq, Eq)]
pub enum Request {
    /// Whether anything stands at a path.
    Exists { path: OsText },
    /// Whether a directory stands at a path.
    IsDirectory { path: OsText },
    /// What kind of entry stands at a path, links not followed.
    Kind { path: OsText },
    /// The canonical form of a path.
    Resolve { path: OsText },
    /// The identity, size and modification time of the file at a path.
    Stat { path: OsText },
    /// The hexadecimal SHA-256 digest of the file at a path.
    Hash { path: OsText },
    /// Make one directory.
    CreateDirectory { path: OsText },
    /// Make a new file with the given contents and make it durable.
    WriteNew { path: OsText, contents: String },
    /// Copy a file into a new file and make that durable.
    Copy { from: OsText, to: OsText },
    /// Give a file a second name; an existing entry is never replaced.
    HardLink { from: OsText, to: OsText },
    /// Move a file over another.
    Rename { from: OsText, to: OsText },
    /// Remove a file.
    Remove { path: OsText },
    /// Make a file durable.
    SyncFile { path: OsText },
    /// Make a directory's entries durable.
    SyncDirectory { path: OsText },
    /// Run a program with the given arguments, without a shell.
    Run { tool: Tool, arguments: Vec<OsText> },
    /// Read a probe's JSON.
    ParseProbe { json: String },
    /// Evaluate a configuration, or the built-in one.
    EvaluateConfig { file: Option<OsText> },
    /// Evaluate a plan.
    EvaluatePlan { path: OsText },
    /// Evaluate a manifest.
    EvaluateManifest { path: OsText },
    /// Evaluate a journal.
    EvaluateJournal { path: OsText },
    /// Write to the standard output.
    Print { text: String },
}

/// What a [`Request`] denotes.
pub enum RequestView {
    Exists { path: Seq<u8> },
    IsDirectory { path: Seq<u8> },
    Kind { path: Seq<u8> },
    Resolve { path: Seq<u8> },
    Stat { path: Seq<u8> },
    Hash { path: Seq<u8> },
    CreateDirectory { path: Seq<u8> },
    WriteNew { path: Seq<u8>, contents: Seq<char> },
    Copy { from: Seq<u8>, to: Seq<u8> },
    HardLink { from: Seq<u8>, to: Seq<u8> },
    Rename { from: Seq<u8>, to: Seq<u8> },
    Remove { path: Seq<u8> },
    SyncFile { path: Seq<u8> },
    SyncDirectory { path: Seq<u8> },
    Run { tool: Tool, arguments: Seq<Seq<u8>> },
    ParseProbe { json: Seq<char> },
    EvaluateConfig { file: Option<Seq<u8>> },
    EvaluatePlan { path: Seq<u8> },
    EvaluateManifest { path: Seq<u8> },
    EvaluateJournal { path: Seq<u8> },
    Print { text: Seq<char> },
}

impl DeepView for Request {
    type V = RequestView;

    open spec fn deep_view(&self) -> RequestView {
        match self {
            Request::Exists { path } => RequestView::Exists { path: path@ },
            Request::IsDirectory { path } => RequestView::IsDirectory { path: path@ },
            Request::Kind { path } => RequestView::Kind { path: path@ },
            Request::Resolve { path } => RequestView::Resolve { path: path@ },
            Request::Stat { path } => RequestView::Stat { path: path@ },
            Request::Hash { path } => RequestView::Hash { path: path@ },
            Request::CreateDirectory { path } => RequestView::CreateDirectory { path: path@ },
            Request::WriteNew { path, contents } => RequestView::WriteNew {
                path: path@,
                contents: contents@,
            },
            Request::Copy { from, to } => RequestView::Copy { from: from@, to: to@ },
            Request::HardLink { from, to } => RequestView::HardLink { from: from@, to: to@ },
            Request::Rename { from, to } => RequestView::Rename { from: from@, to: to@ },
            Request::Remove { path } => RequestView::Remove { path: path@ },
            Request::SyncFile { path } => RequestView::SyncFile { path: path@ },
            Request::SyncDirectory { path } => RequestView::SyncDirectory { path: path@ },
            Request::Run { tool, arguments } => RequestView::Run {
                tool: *tool,
                arguments: arguments.deep_view(),
            },
            Request::ParseProbe { json } => RequestView::ParseProbe { json: json@ },
            Request::EvaluateConfig { file } => RequestView::EvaluateConfig {
                file: file.deep_view(),
            },
            Request::EvaluatePlan { path } => RequestView::EvaluatePlan { path: path@ },
            Request::EvaluateManifest { path } => RequestView::EvaluateManifest { path: path@ },
            Request::EvaluateJournal { path } => RequestView::EvaluateJournal { path: path@ },
            Request::Print { text } => RequestView::Print { text: text@ },
        }
    }
}

/// The kind of a directory entry.
#[derive(Clone, Copy, Debug, PartialEq, Eq, Structural)]
pub enum FileKind {
    Regular,
    Directory,
    Other,
}

impl DeepView for FileKind {
    type V = FileKind;

    open spec fn deep_view(&self) -> FileKind {
        *self
    }
}

/// When a file was last modified.
pub enum ModifiedTime {
    /// Nanoseconds after the Unix epoch.
    After(u128),
    /// Before the Unix epoch.
    BeforeEpoch,
    /// Not known, and why.
    Unavailable(String),
}

/// The identity, size and modification time of a file.
pub struct FileStat {
    pub device: u64,
    pub inode: u64,
    pub size: u64,
    pub modified: ModifiedTime,
}

impl DeepView for FileStat {
    type V = FileStat;

    open spec fn deep_view(&self) -> FileStat {
        *self
    }
}

/// What a program left behind: whether it succeeded, its output and its error
/// output.
pub struct ToolOutput {
    pub success: bool,
    pub stdout: Vec<u8>,
    pub stderr: Vec<u8>,
}

impl DeepView for ToolOutput {
    type V = ToolOutput;

    open spec fn deep_view(&self) -> ToolOutput {
        *self
    }
}

impl DeepView for Probe {
    type V = Probe;

    open spec fn deep_view(&self) -> Probe {
        *self
    }
}

/// The point at which a piece of work failed.
#[derive(Clone, Copy, Debug, PartialEq, Eq, Structural)]
pub enum Point {
    /// Opening what is read, or the work as a whole.
    Open,
    /// Making what is written.
    Create,
    /// Moving the contents.
    Transfer,
    /// Handing on what was buffered.
    Flush,
    /// Making the result durable.
    Sync,
}

/// An evaluated document, and what it reads as or why it does not.
pub struct Evaluated<T> {
    pub document: Document,
    pub decoded: Result<T, String>,
}

impl<T> DeepView for Evaluated<T> {
    type V = Evaluated<T>;

    open spec fn deep_view(&self) -> Evaluated<T> {
        *self
    }
}

/// The answer to a request.
pub enum Reply {
    Flag(bool),
    Kind(FileKind),
    /// A canonical path.
    Resolved(OsText),
    Stat(FileStat),
    Digest(String),
    Finished,
    /// A directory that was to be made stands already.
    AlreadyExists,
    Failed { point: Point, error: String },
    Ran(ToolOutput),
    Probe(Probe),
    Config(Evaluated<Config>),
    Plan(Evaluated<ArchivePlan>),
    Manifest(Evaluated<ArchiveManifest>),
    Journal(Evaluated<Journal>),
}

/// Why a workflow stopped before its end.
#[derive(Debug, PartialEq, Eq)]
pub enum Stop {
    /// A reply is needed.
    Ask(Request),
    /// It failed.
    Fail(String),
}

/// Where a workflow came to.
pub enum Outcome<T> {
    Done(T),
    Ask(RequestView),
    Fail(Seq<char>),
}

/// Where a workflow came to, the position behind the last reply it used, and
/// the requests that the replies it used were answers to.
pub struct Step<T> {
    pub outcome: Outcome<T>,
    pub at: int,
    pub asked: Seq<RequestView>,
}

/// A workflow that has come to its end.
pub open spec fn done<T>(value: T, at: int) -> Step<T> {
    Step { outcome: Outcome::Done(value), at, asked: Seq::empty() }
}

/// A workflow that needs a reply.
pub open spec fn ask<T>(request: RequestView, at: int) -> Step<T> {
    Step { outcome: Outcome::Ask(request), at, asked: Seq::empty() }
}

/// A workflow that has failed.
pub open spec fn fail<T>(message: Seq<char>, at: int) -> Step<T> {
    Step { outcome: Outcome::Fail(message), at, asked: Seq::empty() }
}

/// A step behind requests that were answered before.
pub open spec fn behind<T>(asked: Seq<RequestView>, step: Step<T>) -> Step<T> {
    Step { outcome: step.outcome, at: step.at, asked: asked + step.asked }
}

/// One workflow after another: the second starts where the first came to its
/// end, and does not start where the first did not.
pub open spec fn chain<T, U>(first: Step<T>, next: spec_fn(T, int) -> Step<U>) -> Step<U> {
    behind(
        first.asked,
        match first.outcome {
            Outcome::Done(value) => next(value, first.at),
            Outcome::Ask(request) => ask(request, first.at),
            Outcome::Fail(message) => fail(message, first.at),
        },
    )
}

/// A workflow whose failure is dealt with by another.
pub open spec fn rescue<T>(first: Step<T>, handler: spec_fn(Seq<char>, int) -> Step<T>) -> Step<T> {
    match first.outcome {
        Outcome::Fail(message) => behind(first.asked, handler(message, first.at)),
        _ => first,
    }
}

/// A decision that takes no reply.
pub open spec fn settled<T>(result: Result<T, Seq<char>>, at: int) -> Step<T> {
    match result {
        Ok(value) => done(value, at),
        Err(message) => fail(message, at),
    }
}

/// The reply at a position.
pub open spec fn reply_at(r: Seq<Reply>, at: int) -> Option<Reply> {
    if 0 <= at < r.len() {
        Some(r[at])
    } else {
        None
    }
}

/// One request: the workflow needs its reply, or reads it.
pub open spec fn consult<T>(
    request: RequestView,
    read: spec_fn(Reply) -> Result<T, Seq<char>>,
    r: Seq<Reply>,
    at: int,
) -> Step<T> {
    match reply_at(r, at) {
        None => ask(request, at),
        Some(reply) => behind(seq![request], settled(read(reply), at + 1)),
    }
}

/// What is said where a reply does not answer its request.
pub open spec fn mismatch() -> Seq<char> {
    "reply does not answer the request"@
}

/// What is said of a failure: what failed, and why.
pub open spec fn because(what: Seq<char>, error: Seq<char>) -> Seq<char> {
    what + ": "@ + error
}

/// Whether a fallible result is the expected one: the same value, or a failure
/// with the same message.
pub open spec fn agrees<T: DeepView>(
    result: Result<T, String>,
    expected: Result<T::V, Seq<char>>,
) -> bool {
    match (result, expected) {
        (Ok(value), Ok(wanted)) => value.deep_view() == wanted,
        (Err(message), Err(wanted)) => message@ == wanted,
        _ => false,
    }
}

/// Whether a workflow's run over a tape is the expected step.
pub open spec fn follows<T: DeepView>(
    before: Tape,
    after: Tape,
    result: Result<T, Stop>,
    step: Step<T::V>,
) -> bool {
    &&& after.replies@ == before.replies@
    &&& after.at == step.at
    &&& match (result, step.outcome) {
        (Ok(value), Outcome::Done(wanted)) => value.deep_view() == wanted,
        (Err(Stop::Ask(request)), Outcome::Ask(wanted)) => request.deep_view() == wanted,
        (Err(Stop::Fail(message)), Outcome::Fail(wanted)) => message@ == wanted,
        _ => false,
    }
}

/// Turns a decision into a step of a workflow.
pub fn settle<T: DeepView>(result: Result<T, String>) -> (step: Result<T, Stop>)
    ensures
        match (result, step) {
            (Ok(value), Ok(same)) => value == same,
            (Err(message), Err(Stop::Fail(same))) => message == same,
            _ => false,
        },
{
    match result {
        Ok(value) => Ok(value),
        Err(message) => Err(Stop::Fail(message)),
    }
}

/// A failure with a fixed message.
pub fn failure(message: &str) -> (stop: Stop)
    ensures
        stop matches Stop::Fail(text) && text@ == message@,
{
    Stop::Fail(message.to_owned())
}

/// What is said of work that failed, by the point at which it failed.
pub struct Blame<'b> {
    pub open: &'b str,
    pub create: &'b str,
    pub transfer: &'b str,
    pub flush: &'b str,
    pub sync: &'b str,
}

pub struct BlameView {
    pub open: Seq<char>,
    pub create: Seq<char>,
    pub transfer: Seq<char>,
    pub flush: Seq<char>,
    pub sync: Seq<char>,
}

impl<'b> DeepView for Blame<'b> {
    type V = BlameView;

    open spec fn deep_view(&self) -> BlameView {
        BlameView {
            open: self.open@,
            create: self.create@,
            transfer: self.transfer@,
            flush: self.flush@,
            sync: self.sync@,
        }
    }
}

impl BlameView {
    /// What is said of a failure at a point.
    pub open spec fn of(self, point: Point) -> Seq<char> {
        match point {
            Point::Open => self.open,
            Point::Create => self.create,
            Point::Transfer => self.transfer,
            Point::Flush => self.flush,
            Point::Sync => self.sync,
        }
    }
}

impl<'b> Blame<'b> {
    fn of(&self, point: Point) -> (what: &'b str)
        ensures
            what@ == self.deep_view().of(point),
    {
        match point {
            Point::Open => self.open,
            Point::Create => self.create,
            Point::Transfer => self.transfer,
            Point::Flush => self.flush,
            Point::Sync => self.sync,
        }
    }
}

/// A yes or no.
pub open spec fn flag_in(reply: Reply) -> Result<bool, Seq<char>> {
    match reply {
        Reply::Flag(flag) => Ok(flag),
        _ => Err(mismatch()),
    }
}

/// Work that is finished, or failed at a point of which something is said.
pub open spec fn finished_in(reply: Reply, blame: BlameView) -> Result<(), Seq<char>> {
    match reply {
        Reply::Finished => Ok(()),
        Reply::Failed { point, error } => Err(because(blame.of(point), error@)),
        _ => Err(mismatch()),
    }
}

/// One thing said of a failure at any point.
pub open spec fn one_blame(what: Seq<char>) -> BlameView {
    BlameView { open: what, create: what, transfer: what, flush: what, sync: what }
}

/// Whether anything stands at a path.
pub open spec fn exists_step(path: Seq<u8>, r: Seq<Reply>, at: int) -> Step<bool> {
    consult(RequestView::Exists { path }, |reply: Reply| flag_in(reply), r, at)
}

/// Whether a directory stands at a path.
pub open spec fn is_directory_step(path: Seq<u8>, r: Seq<Reply>, at: int) -> Step<bool> {
    consult(RequestView::IsDirectory { path }, |reply: Reply| flag_in(reply), r, at)
}

/// An entry's kind.
pub open spec fn kind_in(reply: Reply, what: Seq<char>) -> Result<FileKind, Seq<char>> {
    match reply {
        Reply::Kind(kind) => Ok(kind),
        Reply::Failed { point, error } => Err(because(what, error@)),
        _ => Err(mismatch()),
    }
}

/// The kind of the entry at a path.
pub open spec fn kind_step(path: Seq<u8>, what: Seq<char>, r: Seq<Reply>, at: int) -> Step<
    FileKind,
> {
    consult(RequestView::Kind { path }, |reply: Reply| kind_in(reply, what), r, at)
}

/// A canonical path.
pub open spec fn resolved_in(reply: Reply, what: Seq<char>) -> Result<Seq<u8>, Seq<char>> {
    match reply {
        Reply::Resolved(resolved) => Ok(resolved@),
        Reply::Failed { point, error } => Err(because(what, error@)),
        _ => Err(mismatch()),
    }
}

/// The canonical form of a path.
pub open spec fn resolve_step(path: Seq<u8>, what: Seq<char>, r: Seq<Reply>, at: int) -> Step<
    Seq<u8>,
> {
    consult(RequestView::Resolve { path }, |reply: Reply| resolved_in(reply, what), r, at)
}

/// A file's identity, size and modification time.
pub open spec fn stat_in(reply: Reply, what: Seq<char>) -> Result<FileStat, Seq<char>> {
    match reply {
        Reply::Stat(stat) => Ok(stat),
        Reply::Failed { point, error } => Err(because(what, error@)),
        _ => Err(mismatch()),
    }
}

/// The identity, size and modification time of a file.
pub open spec fn stat_step(path: Seq<u8>, what: Seq<char>, r: Seq<Reply>, at: int) -> Step<
    FileStat,
> {
    consult(RequestView::Stat { path }, |reply: Reply| stat_in(reply, what), r, at)
}

/// A file's digest.
pub open spec fn digest_in(reply: Reply, path: Seq<u8>) -> Result<Seq<char>, Seq<char>> {
    match reply {
        Reply::Digest(digest) => Ok(digest@),
        Reply::Failed { point, error } => Err(
            because(
                if point == Point::Open {
                    "cannot open '"@ + shown(path) + "'"@
                } else {
                    "cannot hash '"@ + shown(path) + "'"@
                },
                error@,
            ),
        ),
        _ => Err(mismatch()),
    }
}

/// The digest of a file.
pub open spec fn hash_step(path: Seq<u8>, r: Seq<Reply>, at: int) -> Step<Seq<char>> {
    consult(RequestView::Hash { path }, |reply: Reply| digest_in(reply, path), r, at)
}

/// A directory that was made, or found.
pub open spec fn creation_in(reply: Reply, path: Seq<u8>) -> Result<bool, Seq<char>> {
    match reply {
        Reply::Finished => Ok(true),
        Reply::AlreadyExists => Ok(false),
        Reply::Failed { point, error } => Err(
            because("cannot create directory '"@ + shown(path) + "'"@, error@),
        ),
        _ => Err(mismatch()),
    }
}

/// Whether a directory was made, rather than found.
pub open spec fn create_directory_step(path: Seq<u8>, r: Seq<Reply>, at: int) -> Step<bool> {
    consult(RequestView::CreateDirectory { path }, |reply: Reply| creation_in(reply, path), r, at)
}

/// Work that is finished or fails, with what is said by the point of failure.
pub open spec fn act_by_point_step(
    request: RequestView,
    blame: BlameView,
    r: Seq<Reply>,
    at: int,
) -> Step<()> {
    consult(request, |reply: Reply| finished_in(reply, blame), r, at)
}

/// Work that is finished or fails, with one thing said of every failure.
pub open spec fn act_step(request: RequestView, what: Seq<char>, r: Seq<Reply>, at: int) -> Step<
    (),
> {
    act_by_point_step(request, one_blame(what), r, at)
}

/// Work that is finished or not.
pub open spec fn attempted_in(reply: Reply) -> Result<(), Seq<char>> {
    match reply {
        Reply::Finished => Ok(()),
        Reply::Failed { point, error } => Ok(()),
        _ => Err(mismatch()),
    }
}

/// Work whose outcome does not matter.
pub open spec fn try_act_step(request: RequestView, r: Seq<Reply>, at: int) -> Step<()> {
    consult(request, |reply: Reply| attempted_in(reply), r, at)
}

/// What a program left behind, or why it did not run.
pub open spec fn output_in(reply: Reply, tool: Tool) -> Result<ToolOutput, Seq<char>> {
    match reply {
        Reply::Ran(output) => Ok(output),
        Reply::Failed { point, error } => Err(
            because("failed to execute "@ + tool.name(), error@),
        ),
        _ => Err(mismatch()),
    }
}

/// What a program left behind.
pub open spec fn run_step(tool: Tool, arguments: Seq<Seq<u8>>, r: Seq<Reply>, at: int) -> Step<
    ToolOutput,
> {
    consult(RequestView::Run { tool, arguments }, |reply: Reply| output_in(reply, tool), r, at)
}

/// A probe, or why the JSON is none.
pub open spec fn probe_in(reply: Reply) -> Result<Probe, Seq<char>> {
    match reply {
        Reply::Probe(probe) => Ok(probe),
        Reply::Failed { point, error } => Err(
            because("ffprobe returned invalid JSON"@, error@),
        ),
        _ => Err(mismatch()),
    }
}

/// What a probe's JSON says.
pub open spec fn parse_probe_step(json: Seq<char>, r: Seq<Reply>, at: int) -> Step<Probe> {
    consult(RequestView::ParseProbe { json }, |reply: Reply| probe_in(reply), r, at)
}

/// What is said where a document does not evaluate.
pub open spec fn evaluation_failure(path: Seq<u8>) -> Seq<char> {
    "failed to evaluate trusted Pkl '"@ + shown(path) + "'"@
}

/// An evaluated configuration, or why there is none.
pub open spec fn evaluated_config_in(reply: Reply, path: Option<Seq<u8>>) -> Result<
    Evaluated<Config>,
    Seq<char>,
> {
    match reply {
        Reply::Config(evaluated) => Ok(evaluated),
        Reply::Failed { point, error } => Err(
            because(
                match path {
                    Some(path) => "failed to evaluate trusted config '"@ + shown(path) + "'"@,
                    None => "failed to evaluate embedded config"@,
                },
                error@,
            ),
        ),
        _ => Err(mismatch()),
    }
}

/// An evaluated configuration.
pub open spec fn evaluate_config_step(path: Option<Seq<u8>>, r: Seq<Reply>, at: int) -> Step<
    Evaluated<Config>,
> {
    consult(
        RequestView::EvaluateConfig { file: path },
        |reply: Reply| evaluated_config_in(reply, path),
        r,
        at,
    )
}

/// An evaluated plan, or why there is none.
pub open spec fn evaluated_plan_in(reply: Reply, path: Seq<u8>) -> Result<
    Evaluated<ArchivePlan>,
    Seq<char>,
> {
    match reply {
        Reply::Plan(evaluated) => Ok(evaluated),
        Reply::Failed { point, error } => Err(because(evaluation_failure(path), error@)),
        _ => Err(mismatch()),
    }
}

/// An evaluated plan.
pub open spec fn evaluate_plan_step(path: Seq<u8>, r: Seq<Reply>, at: int) -> Step<
    Evaluated<ArchivePlan>,
> {
    consult(
        RequestView::EvaluatePlan { path },
        |reply: Reply| evaluated_plan_in(reply, path),
        r,
        at,
    )
}

/// An evaluated manifest, or why there is none.
pub open spec fn evaluated_manifest_in(reply: Reply, path: Seq<u8>) -> Result<
    Evaluated<ArchiveManifest>,
    Seq<char>,
> {
    match reply {
        Reply::Manifest(evaluated) => Ok(evaluated),
        Reply::Failed { point, error } => Err(because(evaluation_failure(path), error@)),
        _ => Err(mismatch()),
    }
}

/// An evaluated manifest.
pub open spec fn evaluate_manifest_step(path: Seq<u8>, r: Seq<Reply>, at: int) -> Step<
    Evaluated<ArchiveManifest>,
> {
    consult(
        RequestView::EvaluateManifest { path },
        |reply: Reply| evaluated_manifest_in(reply, path),
        r,
        at,
    )
}

/// An evaluated journal, or why there is none.
pub open spec fn evaluated_journal_in(reply: Reply, path: Seq<u8>) -> Result<
    Evaluated<Journal>,
    Seq<char>,
> {
    match reply {
        Reply::Journal(evaluated) => Ok(evaluated),
        Reply::Failed { point, error } => Err(because(evaluation_failure(path), error@)),
        _ => Err(mismatch()),
    }
}

/// An evaluated journal.
pub open spec fn evaluate_journal_step(path: Seq<u8>, r: Seq<Reply>, at: int) -> Step<
    Evaluated<Journal>,
> {
    consult(
        RequestView::EvaluateJournal { path },
        |reply: Reply| evaluated_journal_in(reply, path),
        r,
        at,
    )
}

/// The replies given so far, and the position of the next one to use.
pub struct Tape<'a> {
    pub replies: &'a Vec<Reply>,
    pub at: usize,
}

impl<'a> Tape<'a> {
    /// A tape of which nothing was used yet.
    pub fn new(replies: &'a Vec<Reply>) -> (tape: Tape<'a>)
        ensures
            tape.replies@ == replies@,
            tape.at == 0,
    {
        Tape { replies, at: 0 }
    }

    /// The next reply.
    fn next_reply(&mut self) -> (reply: Option<&'a Reply>)
        ensures
            final(self).replies@ == old(self).replies@,
            match reply {
                Some(reply) => reply_at(old(self).replies@, old(self).at as int) == Some(*reply)
                    && final(self).at == old(self).at + 1,
                None => reply_at(old(self).replies@, old(self).at as int) is None && final(self).at
                    == old(self).at,
            },
    {
        if self.at < self.replies.len() {
            let reply = &self.replies[self.at];
            self.at = self.at + 1;
            Some(reply)
        } else {
            None
        }
    }

    /// Asks whether anything stands at a path.
    pub fn is_there(&mut self, path: &OsText) -> (result: Result<bool, Stop>)
        ensures
            follows(
                *old(self),
                *final(self),
                result,
                exists_step(path@, old(self).replies@, old(self).at as int),
            ),
    {
        match self.next_reply() {
            None => Err(Stop::Ask(Request::Exists { path: path.copy() })),
            Some(Reply::Flag(flag)) => Ok(*flag),
            Some(_) => Err(failure("reply does not answer the request")),
        }
    }

    /// Asks whether a directory stands at a path.
    pub fn is_directory(&mut self, path: &OsText) -> (result: Result<bool, Stop>)
        ensures
            follows(
                *old(self),
                *final(self),
                result,
                is_directory_step(path@, old(self).replies@, old(self).at as int),
            ),
    {
        match self.next_reply() {
            None => Err(Stop::Ask(Request::IsDirectory { path: path.copy() })),
            Some(Reply::Flag(flag)) => Ok(*flag),
            Some(_) => Err(failure("reply does not answer the request")),
        }
    }

    /// Asks for the kind of the entry at a path.
    pub fn kind(&mut self, path: &OsText, what: &str) -> (result: Result<FileKind, Stop>)
        ensures
            follows(
                *old(self),
                *final(self),
                result,
                kind_step(path@, what@, old(self).replies@, old(self).at as int),
            ),
    {
        match self.next_reply() {
            None => Err(Stop::Ask(Request::Kind { path: path.copy() })),
            Some(Reply::Kind(kind)) => Ok(*kind),
            Some(Reply::Failed { point, error }) => Err(Stop::Fail(cat3(what, ": ", error))),
            Some(_) => Err(failure("reply does not answer the request")),
        }
    }

    /// Asks for the canonical form of a path.
    pub fn resolve(&mut self, path: &OsText, what: &str) -> (result: Result<&'a OsText, Stop>)
        ensures
            follows(
                *old(self),
                *final(self),
                result,
                resolve_step(path@, what@, old(self).replies@, old(self).at as int),
            ),
    {
        match self.next_reply() {
            None => Err(Stop::Ask(Request::Resolve { path: path.copy() })),
            Some(Reply::Resolved(resolved)) => Ok(resolved),
            Some(Reply::Failed { point, error }) => Err(Stop::Fail(cat3(what, ": ", error))),
            Some(_) => Err(failure("reply does not answer the request")),
        }
    }

    /// Asks for the identity, size and modification time of a file.
    pub fn stat(&mut self, path: &OsText, what: &str) -> (result: Result<&'a FileStat, Stop>)
        ensures
            follows(
                *old(self),
                *final(self),
                result,
                stat_step(path@, what@, old(self).replies@, old(self).at as int),
            ),
    {
        match self.next_reply() {
            None => Err(Stop::Ask(Request::Stat { path: path.copy() })),
            Some(Reply::Stat(stat)) => Ok(stat),
            Some(Reply::Failed { point, error }) => Err(Stop::Fail(cat3(what, ": ", error))),
            Some(_) => Err(failure("reply does not answer the request")),
        }
    }

    /// Asks for the digest of a file.
    pub fn hash_file(&mut self, path: &OsText) -> (result: Result<String, Stop>)
        ensures
            follows(
                *old(self),
                *final(self),
                result,
                hash_step(path@, old(self).replies@, old(self).at as int),
            ),
    {
        match self.next_reply() {
            None => Err(Stop::Ask(Request::Hash { path: path.copy() })),
            Some(Reply::Digest(digest)) => Ok(digest.clone()),
            Some(Reply::Failed { point, error }) => {
                let what = if *point == Point::Open {
                    path.show_in("cannot open '", "'")
                } else {
                    path.show_in("cannot hash '", "'")
                };
                Err(Stop::Fail(cat3(&what, ": ", error)))
            },
            Some(_) => Err(failure("reply does not answer the request")),
        }
    }

    /// Asks for a directory to be made; says whether it was, rather than found.
    pub fn create_directory(&mut self, path: &OsText) -> (result: Result<bool, Stop>)
        ensures
            follows(
                *old(self),
                *final(self),
                result,
                create_directory_step(path@, old(self).replies@, old(self).at as int),
            ),
    {
        match self.next_reply() {
            None => Err(Stop::Ask(Request::CreateDirectory { path: path.copy() })),
            Some(Reply::Finished) => Ok(true),
            Some(Reply::AlreadyExists) => Ok(false),
            Some(Reply::Failed { point, error }) => {
                let what = path.show_in("cannot create directory '", "'");
                Err(Stop::Fail(cat3(&what, ": ", error)))
            },
            Some(_) => Err(failure("reply does not answer the request")),
        }
    }

    /// Asks for work that is finished or fails.
    pub fn act(&mut self, request: Request, what: &str) -> (result: Result<(), Stop>)
        ensures
            follows(
                *old(self),
                *final(self),
                result,
                act_step(request.deep_view(), what@, old(self).replies@, old(self).at as int),
            ),
    {
        match self.next_reply() {
            None => Err(Stop::Ask(request)),
            Some(Reply::Finished) => Ok(()),
            Some(Reply::Failed { point, error }) => Err(Stop::Fail(cat3(what, ": ", error))),
            Some(_) => Err(failure("reply does not answer the request")),
        }
    }

    /// Asks for work that is finished or fails at one of several points.
    pub fn act_by_point(&mut self, request: Request, blame: &Blame) -> (result: Result<(), Stop>)
        ensures
            follows(
                *old(self),
                *final(self),
                result,
                act_by_point_step(
                    request.deep_view(),
                    blame.deep_view(),
                    old(self).replies@,
                    old(self).at as int,
                ),
            ),
    {
        match self.next_reply() {
            None => Err(Stop::Ask(request)),
            Some(Reply::Finished) => Ok(()),
            Some(Reply::Failed { point, error }) => Err(
                Stop::Fail(cat3(blame.of(*point), ": ", error)),
            ),
            Some(_) => Err(failure("reply does not answer the request")),
        }
    }

    /// Asks for work whose outcome does not matter.
    pub fn try_act(&mut self, request: Request) -> (result: Result<(), Stop>)
        ensures
            follows(
                *old(self),
                *final(self),
                result,
                try_act_step(request.deep_view(), old(self).replies@, old(self).at as int),
            ),
    {
        match self.next_reply() {
            None => Err(Stop::Ask(request)),
            Some(Reply::Finished) => Ok(()),
            Some(Reply::Failed { point, error }) => Ok(()),
            Some(_) => Err(failure("reply does not answer the request")),
        }
    }

    /// Asks for a program to be run.
    pub fn run(&mut self, tool: Tool, arguments: Vec<OsText>) -> (result: Result<
        &'a ToolOutput,
        Stop,
    >)
        ensures
            follows(
                *old(self),
                *final(self),
                result,
                run_step(tool, arguments.deep_view(), old(self).replies@, old(self).at as int),
            ),
    {
        match self.next_reply() {
            None => Err(Stop::Ask(Request::Run { tool, arguments })),
            Some(Reply::Ran(output)) => Ok(output),
            Some(Reply::Failed { point, error }) => {
                let what = cat2("failed to execute ", tool.as_str());
                Err(Stop::Fail(cat3(&what, ": ", error)))
            },
            Some(_) => Err(failure("reply does not answer the request")),
        }
    }

    /// Asks for a probe's JSON to be read.
    pub fn parse_probe(&mut self, json: &str) -> (result: Result<&'a Probe, Stop>)
        ensures
            follows(
                *old(self),
                *final(self),
                result,
                parse_probe_step(json@, old(self).replies@, old(self).at as int),
            ),
    {
        match self.next_reply() {
            None => Err(Stop::Ask(Request::ParseProbe { json: json.to_owned() })),
            Some(Reply::Probe(probe)) => Ok(probe),
            Some(Reply::Failed { point, error }) => Err(
                Stop::Fail(cat3("ffprobe returned invalid JSON", ": ", error)),
            ),
            Some(_) => Err(failure("reply does not answer the request")),
        }
    }

    /// Asks for a configuration to be evaluated.
    pub fn evaluate_config(&mut self, path: &Option<OsText>) -> (result: Result<
        &'a Evaluated<Config>,
        Stop,
    >)
        ensures
            follows(
                *old(self),
                *final(self),
                result,
                evaluate_config_step(path.deep_view(), old(self).replies@, old(self).at as int),
            ),
    {
        match self.next_reply() {
            None => Err(Stop::Ask(Request::EvaluateConfig { file: copy_optional_text(path) })),
            Some(Reply::Config(evaluated)) => Ok(evaluated),
            Some(Reply::Failed { point, error }) => {
                let what = match path {
                    Some(path) => path.show_in("failed to evaluate trusted config '", "'"),
                    None => "failed to evaluate embedded config".to_owned(),
                };
                Err(Stop::Fail(cat3(&what, ": ", error)))
            },
            Some(_) => Err(failure("reply does not answer the request")),
        }
    }

    /// Asks for a plan to be evaluated.
    pub fn evaluate_plan(&mut self, path: &OsText) -> (result: Result<
        &'a Evaluated<ArchivePlan>,
        Stop,
    >)
        ensures
            follows(
                *old(self),
                *final(self),
                result,
                evaluate_plan_step(path@, old(self).replies@, old(self).at as int),
            ),
    {
        match self.next_reply() {
            None => Err(Stop::Ask(Request::EvaluatePlan { path: path.copy() })),
            Some(Reply::Plan(evaluated)) => Ok(evaluated),
            Some(Reply::Failed { point, error }) => {
                let what = path.show_in("failed to evaluate trusted Pkl '", "'");
                Err(Stop::Fail(cat3(&what, ": ", error)))
            },
            Some(_) => Err(failure("reply does not answer the request")),
        }
    }

    /// Asks for a manifest to be evaluated.
    pub fn evaluate_manifest(&mut self, path: &OsText) -> (result: Result<
        &'a Evaluated<ArchiveManifest>,
        Stop,
    >)
        ensures
            follows(
                *old(self),
                *final(self),
                result,
                evaluate_manifest_step(path@, old(self).replies@, old(self).at as int),
            ),
    {
        match self.next_reply() {
            None => Err(Stop::Ask(Request::EvaluateManifest { path: path.copy() })),
            Some(Reply::Manifest(evaluated)) => Ok(evaluated),
            Some(Reply::Failed { point, error }) => {
                let what = path.show_in("failed to evaluate trusted Pkl '", "'");
                Err(Stop::Fail(cat3(&what, ": ", error)))
            },
            Some(_) => Err(failure("reply does not answer the request")),
        }
    }

    /// Asks for a journal to be evaluated.
    pub fn evaluate_journal(&mut self, path: &OsText) -> (result: Result<
        &'a Evaluated<Journal>,
        Stop,
    >)
        ensures
            follows(
                *old(self),
                *final(self),
                result,
                evaluate_journal_step(path@, old(self).replies@, old(self).at as int),
            ),
    {
        match self.next_reply() {
            None => Err(Stop::Ask(Request::EvaluateJournal { path: path.copy() })),
            Some(Reply::Journal(evaluated)) => Ok(evaluated),
            Some(Reply::Failed { point, error }) => {
                let what = path.show_in("failed to evaluate trusted Pkl '", "'");
                Err(Stop::Fail(cat3(&what, ": ", error)))
            },
            Some(_) => Err(failure("reply does not answer the request")),
        }
    }
}

} // verus!
