//! The archiver's commands, and how a run of the program begins.
use vstd::prelude::*;
use vstd::string::*;

use crate::apply::{apply, apply_step};
use crate::disposal::{restore, restore_step, verify_manifest, verify_manifest_step};
use crate::flow::{
    act_step, chain, done, exists_step, fail, failure, follows, is_directory_step, resolve_step,
    settle, settled, Outcome, Reply, Request, RequestView, Step, Stop, Tape,
};
use crate::inspect::{inspect_file, inspect_step, path_string, path_text};
use crate::load::{load_config, load_config_step, load_manifest, load_manifest_step};
use crate::model::{
    ArchiveInspection, ArchivePlan, Config, ConfigView, EvidenceView, InspectionView, ManifestView,
    PlanView, Profile, SCHEMA_VERSION,
};
use crate::os_text::{shown, OsText};
use crate::path::{
    raw_file_name, raw_file_name_of, raw_join, raw_joined, raw_parent_directory,
    raw_parent_directory_of,
};
use crate::plan::{plan_for, planned};
use crate::render::{inspection_text, plan_text, render_inspection, render_plan};
use crate::storage::{write_user_output, write_user_output_step};
use crate::text::{cat2, cat3, same_text};

verus! {

/// The configuration that plans are made with unless another one is named.
pub const EMBEDDED_CONFIG: &'static str =
    "schemaVersion = 1\nsourceDisposition = \"quarantine\"\ndefaultProfile = \"copy\"\nav1 = new {\n  crf = 20\n  preset = 6\n  container = \"mkv\"\n}\ndurationToleranceSeconds = 0.5\n";

/// One command.
pub enum Command {
    /// Inspect and hash one regular media file.
    Inspect { source: OsText, report: Option<OsText> },
    /// Produce a trusted, self-contained archive plan.
    Plan {
        source: OsText,
        destination: OsText,
        profile: Option<Profile>,
        config: Option<OsText>,
        output: OsText,
    },
    /// Execute or resume one trusted archive plan.
    Apply { plan: OsText },
    /// Verify an archived output from its trusted manifest.
    Verify { manifest: OsText },
    /// Restore a quarantined source from its trusted manifest.
    Restore { manifest: OsText },
}

/// What a [`Command`] denotes.
pub enum CommandView {
    Inspect { source: Seq<u8>, report: Option<Seq<u8>> },
    Plan {
        source: Seq<u8>,
        destination: Seq<u8>,
        profile: Option<Profile>,
        config: Option<Seq<u8>>,
        output: Seq<u8>,
    },
    Apply { plan: Seq<u8> },
    Verify { manifest: Seq<u8> },
    Restore { manifest: Seq<u8> },
}

impl DeepView for Command {
    type V = CommandView;

    open spec fn deep_view(&self) -> CommandView {
        match self {
            Command::Inspect { source, report } => CommandView::Inspect {
                source: source@,
                report: report.deep_view(),
            },
            Command::Plan { source, destination, profile, config, output } => CommandView::Plan {
                source: source@,
                destination: destination@,
                profile: *profile,
                config: config.deep_view(),
                output: output@,
            },
            Command::Apply { plan } => CommandView::Apply { plan: plan@ },
            Command::Verify { manifest } => CommandView::Verify { manifest: manifest@ },
            Command::Restore { manifest } => CommandView::Restore { manifest: manifest@ },
        }
    }
}

/// The program at work: its version, and the number of its process.
pub struct Session {
    pub version: String,
    pub process: u32,
}

/// What a [`Session`] denotes.
pub struct SessionView {
    pub version: Seq<char>,
    pub process: nat,
}

impl DeepView for Session {
    type V = SessionView;

    open spec fn deep_view(&self) -> SessionView {
        SessionView { version: self.version@, process: self.process as nat }
    }
}

/// A destination that is free, under the canonical path of its directory.
#[verifier::opaque]
pub open spec fn final_destination_step(path: Seq<u8>, r: Seq<Reply>, at: int) -> Step<Seq<u8>> {
    match raw_file_name(path) {
        None => fail("destination must be a final file path"@, at),
        Some(name) => chain(
            exists_step(path, r, at),
            |there: bool, at: int|
                if there {
                    fail("destination already exists: "@ + shown(path), at)
                } else {
                    chain(
                        resolve_step(
                            raw_parent_directory(path),
                            "invalid destination parent '"@ + shown(raw_parent_directory(path))
                                + "'"@,
                            r,
                            at,
                        ),
                        |directory: Seq<u8>, at: int|
                            chain(
                                is_directory_step(directory, r, at),
                                |is_directory: bool, at: int|
                                    if is_directory {
                                        done(raw_joined(directory, name), at)
                                    } else {
                                        fail("destination parent is not a directory"@, at)
                                    },
                            ),
                    )
                },
        ),
    }
}

/// Takes a destination that is free, under the canonical path of its directory.
pub fn final_destination(tape: &mut Tape, path: &OsText) -> (result: Result<OsText, Stop>)
    ensures
        follows(
            *old(tape),
            *final(tape),
            result,
            final_destination_step(path@, old(tape).replies@, old(tape).at as int),
        ),
{
    proof {
        reveal(final_destination_step);
    }
    let name = match raw_file_name_of(path) {
        Some(name) => name,
        None => {
            return Err(failure("destination must be a final file path"));
        },
    };
    if tape.is_there(path)? {
        return Err(Stop::Fail(cat2("destination already exists: ", &path.show())));
    }
    let parent = raw_parent_directory_of(path);
    let directory = tape.resolve(&parent, &parent.show_in("invalid destination parent '", "'"))?;
    if !tape.is_directory(directory)? {
        return Err(failure("destination parent is not a directory"));
    }
    Ok(raw_join(directory, &name))
}

/// A plan made: the source inspected, the destination found free and its path a
/// text.
#[verifier::opaque]
pub open spec fn make_plan_step(
    source: Seq<u8>,
    destination: Seq<u8>,
    profile: Profile,
    config: ConfigView,
    version: Seq<char>,
    r: Seq<Reply>,
    at: int,
) -> Step<PlanView> {
    chain(
        inspect_step(source, r, at),
        |source: EvidenceView, at: int|
            chain(
                final_destination_step(destination, r, at),
                |destination: Seq<u8>, at: int|
                    chain(
                        settled(path_text(destination), at),
                        |destination: Seq<char>, at: int|
                            settled(planned(source, destination, profile, config, version), at),
                    ),
            ),
    )
}

/// Makes a plan.
pub fn make_plan(
    tape: &mut Tape,
    source: &OsText,
    destination: &OsText,
    profile: Profile,
    config: &Config,
    version: &str,
) -> (result: Result<ArchivePlan, Stop>)
    ensures
        follows(
            *old(tape),
            *final(tape),
            result,
            make_plan_step(
                source@,
                destination@,
                profile,
                config.deep_view(),
                version@,
                old(tape).replies@,
                old(tape).at as int,
            ),
        ),
{
    proof {
        reveal(make_plan_step);
    }
    let source = inspect_file(tape, source)?;
    let destination = final_destination(tape, destination)?;
    let destination = settle(path_string(&destination))?;
    settle(plan_for(source, &destination, profile, config, version))
}

/// The document of an inspection.
pub open spec fn inspection_of(evidence: EvidenceView, version: Seq<char>) -> InspectionView {
    InspectionView {
        schema_version: SCHEMA_VERSION,
        kind: "ArchiveInspection"@,
        producer_version: version,
        evidence,
    }
}

/// The inspection command.
#[verifier::opaque]
pub open spec fn run_inspect_step(
    source: Seq<u8>,
    output: Option<Seq<u8>>,
    session: SessionView,
    r: Seq<Reply>,
    at: int,
) -> Step<Option<Seq<char>>> {
    chain(
        inspect_step(source, r, at),
        |evidence: EvidenceView, at: int|
            {
                let text = inspection_text(inspection_of(evidence, session.version));
                match output {
                    Some(output) => chain(
                        write_user_output_step(output, text, session.process, r, at),
                        |_written: (), at: int| done(Some(shown(output)), at),
                    ),
                    None => chain(
                        act_step(
                            RequestView::Print { text },
                            "cannot write to standard output"@,
                            r,
                            at,
                        ),
                        |_printed: (), at: int| done(None, at),
                    ),
                }
            },
    )
}

fn run_inspect(tape: &mut Tape, source: &OsText, output: &Option<OsText>, session: &Session) -> (result:
    Result<Option<String>, Stop>)
    ensures
        follows(
            *old(tape),
            *final(tape),
            result,
            run_inspect_step(
                source@,
                output.deep_view(),
                session.deep_view(),
                old(tape).replies@,
                old(tape).at as int,
            ),
        ),
{
    proof {
        reveal(run_inspect_step);
    }
    let inspection = ArchiveInspection {
        schema_version: SCHEMA_VERSION,
        kind: "ArchiveInspection".to_owned(),
        producer_version: session.version.clone(),
        evidence: inspect_file(tape, source)?,
    };
    let text = render_inspection(&inspection);
    match output {
        Some(output) => {
            write_user_output(tape, output, &text, session.process)?;
            Ok(Some(output.show()))
        },
        None => {
            tape.act(Request::Print { text }, "cannot write to standard output")?;
            Ok(None)
        },
    }
}

/// The planning command.
#[verifier::opaque]
pub open spec fn run_plan_step(
    source: Seq<u8>,
    destination: Seq<u8>,
    profile: Option<Profile>,
    config: Option<Seq<u8>>,
    output: Seq<u8>,
    session: SessionView,
    r: Seq<Reply>,
    at: int,
) -> Step<Option<Seq<char>>> {
    chain(
        load_config_step(config, r, at),
        |config: ConfigView, at: int|
            chain(
                make_plan_step(
                    source,
                    destination,
                    match profile {
                        Some(profile) => profile,
                        None => config.default_profile,
                    },
                    config,
                    session.version,
                    r,
                    at,
                ),
                |plan: PlanView, at: int|
                    chain(
                        write_user_output_step(output, plan_text(plan), session.process, r, at),
                        |_written: (), at: int| done(Some(shown(output)), at),
                    ),
            ),
    )
}

fn run_plan(
    tape: &mut Tape,
    source: &OsText,
    destination: &OsText,
    profile: Option<Profile>,
    config: &Option<OsText>,
    output: &OsText,
    session: &Session,
) -> (result: Result<Option<String>, Stop>)
    ensures
        follows(
            *old(tape),
            *final(tape),
            result,
            run_plan_step(
                source@,
                destination@,
                profile,
                config.deep_view(),
                output@,
                session.deep_view(),
                old(tape).replies@,
                old(tape).at as int,
            ),
        ),
{
    proof {
        reveal(run_plan_step);
    }
    let config = load_config(tape, config)?;
    let profile = match profile {
        Some(profile) => profile,
        None => config.default_profile,
    };
    let plan = make_plan(tape, source, destination, profile, config, &session.version)?;
    write_user_output(tape, output, &render_plan(&plan), session.process)?;
    Ok(Some(output.show()))
}

/// A command run.
pub open spec fn run_step(command: CommandView, session: SessionView, r: Seq<Reply>, at: int) -> Step<
    Option<Seq<char>>,
> {
    match command {
        CommandView::Inspect { source, report } => run_inspect_step(source, report, session, r, at),
        CommandView::Plan { source, destination, profile, config, output } => run_plan_step(
            source,
            destination,
            profile,
            config,
            output,
            session,
            r,
            at,
        ),
        CommandView::Apply { plan } => chain(
            apply_step(plan, session.version, r, at),
            |message: Seq<char>, at: int| done(Some(message), at),
        ),
        CommandView::Verify { manifest } => chain(
            load_manifest_step(manifest, r, at),
            |manifest: ManifestView, at: int|
                chain(
                    verify_manifest_step(manifest, r, at),
                    |_verified: (), at: int|
                        done(Some("verified "@ + manifest.destination_path), at),
                ),
        ),
        CommandView::Restore { manifest } => chain(
            load_manifest_step(manifest, r, at),
            |manifest: ManifestView, at: int|
                chain(
                    restore_step(manifest, r, at),
                    |_restored: (), at: int| done(Some("restored "@ + manifest.source.path), at),
                ),
        ),
    }
}

/// Runs a command: what to print at the end, if anything.
pub fn run(tape: &mut Tape, command: &Command, session: &Session) -> (result: Result<
    Option<String>,
    Stop,
>)
    ensures
        follows(
            *old(tape),
            *final(tape),
            result,
            run_step(
                command.deep_view(),
                session.deep_view(),
                old(tape).replies@,
                old(tape).at as int,
            ),
        ),
{
    match command {
        Command::Inspect { source, report } => run_inspect(tape, source, report, session),
        Command::Plan { source, destination, profile, config, output } => run_plan(
            tape,
            source,
            destination,
            *profile,
            config,
            output,
            session,
        ),
        Command::Apply { plan } => Ok(Some(apply(tape, plan, &session.version)?)),
        Command::Verify { manifest } => {
            let manifest = load_manifest(tape, manifest)?;
            verify_manifest(tape, manifest)?;
            Ok(Some(cat2("verified ", &manifest.destination_path)))
        },
        Command::Restore { manifest } => {
            let manifest = load_manifest(tape, manifest)?;
            restore(tape, manifest)?;
            Ok(Some(cat2("restored ", &manifest.source.path)))
        },
    }
}

/// How far a command has come.
#[derive(Debug, PartialEq, Eq)]
pub enum Progress {
    /// It needs a request performed.
    Ask(Request),
    /// It is over, with something to print or not, or with what went wrong.
    Finished(Result<Option<String>, String>),
}

/// Whether the progress of a command is the expected step.
pub open spec fn comes_to(progress: Progress, step: Step<Option<Seq<char>>>) -> bool {
    match (progress, step.outcome) {
        (Progress::Ask(request), Outcome::Ask(wanted)) => request.deep_view() == wanted,
        (Progress::Finished(Ok(message)), Outcome::Done(wanted)) => message.deep_view() == wanted,
        (Progress::Finished(Err(message)), Outcome::Fail(wanted)) => message@ == wanted,
        _ => false,
    }
}

/// Runs a command as far as the replies given so far lead.
pub fn proceed(command: &Command, session: &Session, replies: &Vec<Reply>) -> (progress: Progress)
    ensures
        comes_to(progress, run_step(command.deep_view(), session.deep_view(), replies@, 0)),
{
    let mut tape = Tape::new(replies);
    match run(&mut tape, command, session) {
        Ok(message) => Progress::Finished(Ok(message)),
        Err(Stop::Ask(request)) => Progress::Ask(request),
        Err(Stop::Fail(message)) => Progress::Finished(Err(message)),
    }
}

/// Whether an argument is one of two spellings of a flag.
pub open spec fn spells(argument: Option<Seq<char>>, short: Seq<char>, long: Seq<char>) -> bool {
    argument == Some(short) || argument == Some(long)
}

fn is_flag(argument: &Option<String>, short: &str, long: &str) -> (result: bool)
    ensures
        result == spells(argument.deep_view(), short@, long@),
{
    match argument {
        Some(argument) => same_text(argument, short) || same_text(argument, long),
        None => false,
    }
}

/// Whether a program was started with one flag and nothing else. Arguments start
/// with the program's name; one that is no text is absent.
pub open spec fn single_flag(
    arguments: Seq<Option<Seq<char>>>,
    short: Seq<char>,
    long: Seq<char>,
) -> bool {
    arguments.len() == 2 && spells(arguments[1], short, long)
}

/// Whether a program was started with one flag and nothing else.
pub fn matches_single_flag(arguments: &Vec<Option<String>>, short: &str, long: &str) -> (result: bool)
    ensures
        result == single_flag(arguments.deep_view(), short@, long@),
{
    arguments.len() == 2 && is_flag(&arguments[1], short, long)
}

/// What a program was started for.
#[derive(Clone, Copy, Debug, PartialEq, Eq, Structural)]
pub enum Startup {
    /// To say how it is used.
    Help,
    /// To say its version.
    Version,
    /// For nothing known: a flag that stands alone was not alone.
    Unknown,
    /// To run a command.
    Command,
}

/// What a program was started for, by its arguments.
pub open spec fn startup_of(arguments: Seq<Option<Seq<char>>>) -> Startup {
    if arguments.len() == 1 || single_flag(arguments, "-h"@, "--help"@) {
        Startup::Help
    } else if single_flag(arguments, "-V"@, "--version"@) {
        Startup::Version
    } else if arguments.len() > 2 && (spells(arguments[1], "-h"@, "--help"@) || spells(
        arguments[1],
        "-V"@,
        "--version"@,
    )) {
        Startup::Unknown
    } else {
        Startup::Command
    }
}

/// Tells what a program was started for.
pub fn startup(arguments: &Vec<Option<String>>) -> (result: Startup)
    ensures
        result == startup_of(arguments.deep_view()),
{
    if arguments.len() == 1 || matches_single_flag(arguments, "-h", "--help") {
        return Startup::Help;
    }
    if matches_single_flag(arguments, "-V", "--version") {
        return Startup::Version;
    }
    if arguments.len() > 2 && (is_flag(&arguments[1], "-h", "--help") || is_flag(
        &arguments[1],
        "-V",
        "--version",
    )) {
        return Startup::Unknown;
    }
    Startup::Command
}

/// How the program is used.
pub open spec fn root_help_text(version: Seq<char>) -> Seq<char> {
    "marchiver "@ + version
        + "\n\nPortable CLI for quality-conscious media archiving and migration.\n\nUsage:\n  marchiver [OPTIONS]\n  marchiver <COMMAND>\n\nCommands:\n  inspect  Inspect and hash one regular media file\n  plan     Produce a trusted, self-contained Pkl archive plan\n  apply    Execute or resume one trusted Pkl archive plan\n  verify   Verify an archived output from its trusted Pkl manifest\n  restore  Restore a quarantined source from its trusted Pkl manifest\n\nOptions:\n  -h, --help       Print help\n  -V, --version    Print version"@
}

/// Says how the program is used.
pub fn root_help(version: &str) -> (text: String)
    ensures
        text@ == root_help_text(version@),
{
    cat3(
        "marchiver ",
        version,
        "\n\nPortable CLI for quality-conscious media archiving and migration.\n\nUsage:\n  marchiver [OPTIONS]\n  marchiver <COMMAND>\n\nCommands:\n  inspect  Inspect and hash one regular media file\n  plan     Produce a trusted, self-contained Pkl archive plan\n  apply    Execute or resume one trusted Pkl archive plan\n  verify   Verify an archived output from its trusted Pkl manifest\n  restore  Restore a quarantined source from its trusted Pkl manifest\n\nOptions:\n  -h, --help       Print help\n  -V, --version    Print version",
    )
}

} // verus!
