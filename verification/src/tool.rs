//! The runs of the outside programs: their arguments, and what is made of what
//! they leave behind.
use vstd::prelude::*;
use vstd::string::*;
use vstd::utf8::{decode_utf8, valid_utf8};

use crate::flow::{
    act_by_point_step, agrees, chain, done, fail, follows, run_step, settle, settled, Blame,
    BlameView, Outcome, Point, Reply, Request, RequestView, Step, Stop, Tape, Tool, ToolOutput,
};
use crate::model::{ArchivePlan, Av1Config, Av1View, PlanView, StreamSummary, StreamView};
use crate::os_text::{
    from_utf8, from_utf8_lossy, raw, raw_all, shown, texts_of, utf8_error, OsText,
};
use crate::text::{
    cat2, cat3, cat4, characters, decimal, decimal_text, push_text, same_text,
};

verus! {

/// Whether a character is Unicode white space.
pub open spec fn white_space(c: char) -> bool {
    let code = c as u32;
    ||| 0x9 <= code <= 0xd
    ||| code == 0x20
    ||| code == 0x85
    ||| code == 0xa0
    ||| code == 0x1680
    ||| 0x2000 <= code <= 0x200a
    ||| code == 0x2028
    ||| code == 0x2029
    ||| code == 0x202f
    ||| code == 0x205f
    ||| code == 0x3000
}

fn is_white_space(c: char) -> (result: bool)
    ensures
        result == white_space(c),
{
    let code: u32 = c as u32;
    (0x9 <= code && code <= 0xd) || code == 0x20 || code == 0x85 || code == 0xa0 || code == 0x1680
        || (0x2000 <= code && code <= 0x200a) || code == 0x2028 || code == 0x2029 || code == 0x202f
        || code == 0x205f || code == 0x3000
}

/// The text without the white space around it.
pub open spec fn stripped(text: Seq<char>) -> Seq<char>
    decreases text.len(),
{
    if text.len() > 0 && white_space(text[0]) {
        stripped(text.subrange(1, text.len() as int))
    } else if text.len() > 0 && white_space(text.last()) {
        stripped(text.drop_last())
    } else {
        text
    }
}

/// The text without the white space around it.
pub fn strip(text: &str) -> (result: String)
    ensures
        result@ == stripped(text@),
{
    let chars = characters(text);
    let mut start: usize = 0;
    let mut end: usize = chars.len();
    assert(text@.subrange(0, text@.len() as int) =~= text@);
    while start < end && is_white_space(chars[start])
        invariant
            chars@ == text@,
            start <= end <= chars.len(),
            stripped(text@.subrange(start as int, end as int)) == stripped(text@),
        ensures
            start <= end <= chars.len(),
            stripped(text@.subrange(start as int, end as int)) == stripped(text@),
            start < end ==> !white_space(text@[start as int]),
        decreases end - start,
    {
        proof {
            let rest = text@.subrange(start as int, end as int);
            assert(rest.subrange(1, rest.len() as int) =~= text@.subrange(start + 1, end as int));
        }
        start = start + 1;
    }
    while start < end && is_white_space(chars[end - 1])
        invariant
            chars@ == text@,
            start <= end <= chars.len(),
            stripped(text@.subrange(start as int, end as int)) == stripped(text@),
            start < end ==> !white_space(text@[start as int]),
        ensures
            start <= end <= chars.len(),
            stripped(text@.subrange(start as int, end as int)) == stripped(text@),
            start < end ==> !white_space(text@[start as int]),
            start < end ==> !white_space(text@[end - 1]),
        decreases end - start,
    {
        proof {
            let rest = text@.subrange(start as int, end as int);
            assert(rest.drop_last() =~= text@.subrange(start as int, end - 1));
        }
        end = end - 1;
    }
    text.substring_char(start, end).to_owned()
}

/// What is said of a program that failed, given what it wrote about it.
pub open spec fn failure_report(command: Seq<char>, stderr: Seq<char>) -> Seq<char> {
    if stripped(stderr).len() == 0 {
        command + " failed without diagnostics"@
    } else {
        command + " failed: "@ + stripped(stderr)
    }
}

/// Says that a program failed, given what it wrote about it.
pub fn report_failure(command: &str, stderr: &str) -> (message: String)
    ensures
        message@ == failure_report(command@, stderr@),
{
    let stderr = strip(stderr);
    if stderr.as_str().is_empty() {
        cat2(command, " failed without diagnostics")
    } else {
        cat3(command, " failed: ", &stderr)
    }
}

/// Says that a program failed, given the bytes of its error output.
pub fn command_failure(command: &str, stderr: &[u8]) -> (message: String)
    ensures
        message@ == failure_report(command@, shown(stderr@)),
{
    let stderr = from_utf8_lossy(stderr);
    report_failure(command, &stderr)
}

/// The options of a probe.
pub open spec fn probe_options() -> Seq<Seq<char>> {
    seq![
        "-v"@,
        "error"@,
        "-show_format"@,
        "-show_streams"@,
        "-show_chapters"@,
        "-of"@,
        "json"@,
    ]
}

/// The arguments of a probe: its options, and the file.
pub open spec fn probe_arguments(path: Seq<u8>) -> Seq<Seq<u8>> {
    raw_all(probe_options()).push(path)
}

fn no_arguments() -> (arguments: Vec<String>)
    ensures
        arguments.deep_view() == Seq::<Seq<char>>::empty(),
{
    let arguments: Vec<String> = Vec::new();
    assert(arguments.deep_view() =~= Seq::<Seq<char>>::empty());
    arguments
}

fn probe_command(path: &OsText) -> (arguments: Vec<OsText>)
    ensures
        arguments.deep_view() == probe_arguments(path@),
{
    let mut options = no_arguments();
    push_text(&mut options, "-v");
    push_text(&mut options, "error");
    push_text(&mut options, "-show_format");
    push_text(&mut options, "-show_streams");
    push_text(&mut options, "-show_chapters");
    push_text(&mut options, "-of");
    push_text(&mut options, "json");
    let mut arguments = texts_of(&options);
    let ghost before = arguments.deep_view();
    arguments.push(path.copy());
    assert(arguments.deep_view() =~= before.push(path@));
    arguments
}

/// What a probe printed, or why it printed nothing of use.
pub open spec fn probe_output(output: ToolOutput) -> Result<Seq<char>, Seq<char>> {
    if !output.success {
        Err(failure_report("ffprobe"@, shown(output.stderr@)))
    } else if valid_utf8(output.stdout@) {
        Ok(decode_utf8(output.stdout@))
    } else {
        Err("ffprobe output is not UTF-8: "@ + utf8_error(output.stdout@))
    }
}

/// Takes a probe's output that was read as text, or says why it was not.
pub fn take_probe_text(read: Result<String, String>) -> (result: Result<String, String>)
    ensures
        match (read, result) {
            (Ok(text), Ok(same)) => same@ == text@,
            (Err(error), Err(message)) => message@ == "ffprobe output is not UTF-8: "@ + error@,
            _ => false,
        },
{
    match read {
        Ok(text) => Ok(text),
        Err(error) => Err(cat2("ffprobe output is not UTF-8: ", &error)),
    }
}

/// Takes what a probe printed.
pub fn take_probe_output(output: &ToolOutput) -> (result: Result<String, String>)
    ensures
        agrees(result, probe_output(*output)),
{
    if !output.success {
        return Err(command_failure("ffprobe", output.stderr.as_slice()));
    }
    take_probe_text(from_utf8(&output.stdout))
}

/// A file's probe, as text.
#[verifier::opaque]
pub open spec fn ffprobe_step(path: Seq<u8>, r: Seq<Reply>, at: int) -> Step<Seq<char>> {
    chain(
        run_step(Tool::Ffprobe, probe_arguments(path), r, at),
        |output: ToolOutput, at: int| settled(probe_output(output), at),
    )
}

/// Probes a file.
pub fn ffprobe(tape: &mut Tape, path: &OsText) -> (result: Result<String, Stop>)
    ensures
        follows(
            *old(tape),
            *final(tape),
            result,
            ffprobe_step(path@, old(tape).replies@, old(tape).at as int),
        ),
{
    proof {
        reveal(ffprobe_step);
    }
    let output = tape.run(Tool::Ffprobe, probe_command(path))?;
    settle(take_probe_output(output))
}

/// Whether a stream is video.
pub open spec fn video(stream: StreamView) -> bool {
    stream.codec_type == Some("video"@)
}

/// How many streams are video.
pub open spec fn video_count(streams: Seq<StreamView>) -> nat
    decreases streams.len(),
{
    if streams.len() == 0 {
        0
    } else if video(streams.last()) {
        video_count(streams.drop_last()) + 1
    } else {
        video_count(streams.drop_last())
    }
}

/// An option for one video stream.
pub open spec fn stream_option(name: Seq<char>, ordinal: nat) -> Seq<char> {
    "-"@ + name + ":v:"@ + decimal_text(ordinal)
}

/// An option for one video stream with its value, where there is a value.
pub open spec fn option_arguments(
    name: Seq<char>,
    ordinal: nat,
    value: Option<Seq<char>>,
) -> Seq<Seq<char>> {
    match value {
        Some(value) => seq![stream_option(name, ordinal), value],
        None => Seq::empty(),
    }
}

/// The options that have one video stream encoded anew.
pub open spec fn stream_arguments(stream: StreamView, ordinal: nat, av1: Av1View) -> Seq<
    Seq<char>,
> {
    seq![
        stream_option("c"@, ordinal),
        "libsvtav1"@,
        stream_option("crf"@, ordinal),
        decimal_text(av1.crf as nat),
        stream_option("preset"@, ordinal),
        decimal_text(av1.preset as nat),
    ] + option_arguments("pix_fmt"@, ordinal, stream.pixel_format) + option_arguments(
        "color_primaries"@,
        ordinal,
        stream.color_primaries,
    ) + option_arguments("color_trc"@, ordinal, stream.color_transfer) + option_arguments(
        "colorspace"@,
        ordinal,
        stream.color_space,
    )
}

/// The options that have the video streams encoded anew, but for attached
/// pictures. A video stream is numbered by the video streams before it.
pub open spec fn encoder_arguments(streams: Seq<StreamView>, av1: Av1View) -> Seq<Seq<char>>
    decreases streams.len(),
{
    if streams.len() == 0 {
        Seq::empty()
    } else if video(streams.last()) && !streams.last().attached_picture {
        encoder_arguments(streams.drop_last(), av1) + stream_arguments(
            streams.last(),
            video_count(streams.drop_last()),
            av1,
        )
    } else {
        encoder_arguments(streams.drop_last(), av1)
    }
}

/// The arguments of an encoding: everything is kept as it is, and then the video
/// streams are encoded anew.
pub open spec fn av1_arguments(plan: PlanView, staging: Seq<char>) -> Seq<Seq<char>> {
    seq![
        "-v"@,
        "error"@,
        "-nostdin"@,
        "-n"@,
        "-i"@,
        plan.source.path,
        "-map"@,
        "0"@,
        "-map_metadata"@,
        "0"@,
        "-map_chapters"@,
        "0"@,
        "-c"@,
        "copy"@,
    ] + encoder_arguments(plan.source.streams, plan.av1) + seq!["-f"@, "matroska"@, staging]
}

fn stream_option_text(name: &str, ordinal: u64) -> (text: String)
    ensures
        text@ == stream_option(name@, ordinal as nat),
{
    cat4("-", name, ":v:", &decimal(ordinal))
}

/// Adds an option for one video stream, where there is a value for it.
pub fn add_stream_option(
    arguments: &mut Vec<String>,
    name: &str,
    ordinal: u64,
    value: &Option<String>,
)
    ensures
        final(arguments).deep_view() == old(arguments).deep_view() + option_arguments(
            name@,
            ordinal as nat,
            value.deep_view(),
        ),
{
    let ghost before = arguments.deep_view();
    if let Some(value) = value {
        push_text(arguments, &stream_option_text(name, ordinal));
        push_text(arguments, value);
    }
    proof {
        assert(arguments.deep_view() =~= before + option_arguments(
            name@,
            ordinal as nat,
            value.deep_view(),
        ));
    }
}

fn add_stream(arguments: &mut Vec<String>, stream: &StreamSummary, ordinal: u64, av1: &Av1Config)
    ensures
        final(arguments).deep_view() == old(arguments).deep_view() + stream_arguments(
            stream.deep_view(),
            ordinal as nat,
            av1.deep_view(),
        ),
{
    let ghost before = arguments.deep_view();
    push_text(arguments, &stream_option_text("c", ordinal));
    push_text(arguments, "libsvtav1");
    push_text(arguments, &stream_option_text("crf", ordinal));
    push_text(arguments, &decimal(av1.crf as u64));
    push_text(arguments, &stream_option_text("preset", ordinal));
    push_text(arguments, &decimal(av1.preset as u64));
    add_stream_option(arguments, "pix_fmt", ordinal, &stream.pixel_format);
    add_stream_option(arguments, "color_primaries", ordinal, &stream.color_primaries);
    add_stream_option(arguments, "color_trc", ordinal, &stream.color_transfer);
    add_stream_option(arguments, "colorspace", ordinal, &stream.color_space);
    proof {
        assert(arguments.deep_view() =~= before + stream_arguments(
            stream.deep_view(),
            ordinal as nat,
            av1.deep_view(),
        ));
    }
}

/// The arguments of an encoding.
pub fn av1_command(plan: &ArchivePlan, staging: &str) -> (arguments: Vec<String>)
    ensures
        arguments.deep_view() == av1_arguments(plan.deep_view(), staging@),
{
    let mut arguments = no_arguments();
    push_text(&mut arguments, "-v");
    push_text(&mut arguments, "error");
    push_text(&mut arguments, "-nostdin");
    push_text(&mut arguments, "-n");
    push_text(&mut arguments, "-i");
    push_text(&mut arguments, &plan.source.path);
    push_text(&mut arguments, "-map");
    push_text(&mut arguments, "0");
    push_text(&mut arguments, "-map_metadata");
    push_text(&mut arguments, "0");
    push_text(&mut arguments, "-map_chapters");
    push_text(&mut arguments, "0");
    push_text(&mut arguments, "-c");
    push_text(&mut arguments, "copy");
    let ghost start = arguments.deep_view();
    let ghost streams = plan.deep_view().source.streams;
    let mut ordinal: u64 = 0;
    let mut i: usize = 0;
    proof {
        assert(streams.subrange(0, 0) =~= Seq::empty());
        assert(start =~= start + encoder_arguments(streams.subrange(0, 0), plan.deep_view().av1));
    }
    while i < plan.source.streams.len()
        invariant
            streams == plan.deep_view().source.streams,
            i <= plan.source.streams.len(),
            ordinal <= i,
            ordinal == video_count(streams.subrange(0, i as int)),
            arguments.deep_view() == start + encoder_arguments(
                streams.subrange(0, i as int),
                plan.deep_view().av1,
            ),
        decreases plan.source.streams.len() - i,
    {
        let stream = &plan.source.streams[i];
        let is_video = match &stream.codec_type {
            Some(codec_type) => same_text(codec_type, "video"),
            None => false,
        };
        proof {
            let next = streams.subrange(0, i + 1);
            assert(next.drop_last() =~= streams.subrange(0, i as int));
            assert(next.last() == stream.deep_view());
            assert(is_video == video(stream.deep_view()));
        }
        if is_video {
            if !stream.attached_picture {
                add_stream(&mut arguments, stream, ordinal, &plan.av1);
                proof {
                    let av1 = plan.deep_view().av1;
                    assert(arguments.deep_view() =~= start + encoder_arguments(
                        streams.subrange(0, i + 1),
                        av1,
                    ));
                }
            }
            ordinal = ordinal + 1;
        }
        i = i + 1;
    }
    push_text(&mut arguments, "-f");
    push_text(&mut arguments, "matroska");
    push_text(&mut arguments, staging);
    proof {
        assert(streams.subrange(0, streams.len() as int) =~= streams);
        assert(arguments.deep_view() =~= av1_arguments(plan.deep_view(), staging@));
    }
    arguments
}

/// A run of the encoder that has to succeed.
#[verifier::opaque]
pub open spec fn ffmpeg_step(
    arguments: Seq<Seq<char>>,
    what: Seq<char>,
    r: Seq<Reply>,
    at: int,
) -> Step<()> {
    chain(
        run_step(Tool::Ffmpeg, raw_all(arguments), r, at),
        |output: ToolOutput, at: int|
            if output.success {
                done((), at)
            } else {
                fail(failure_report(what, shown(output.stderr@)), at)
            },
    )
}

fn ffmpeg(tape: &mut Tape, arguments: Vec<String>, what: &str) -> (result: Result<(), Stop>)
    ensures
        follows(
            *old(tape),
            *final(tape),
            result,
            ffmpeg_step(arguments.deep_view(), what@, old(tape).replies@, old(tape).at as int),
        ),
{
    proof {
        reveal(ffmpeg_step);
    }
    let output = tape.run(Tool::Ffmpeg, texts_of(&arguments))?;
    if output.success {
        Ok(())
    } else {
        Err(Stop::Fail(command_failure(what, output.stderr.as_slice())))
    }
}

/// What is said where an encoding's output cannot be made durable.
pub open spec fn staged_blame() -> BlameView {
    BlameView {
        open: "ffmpeg did not create staging output"@,
        create: "cannot sync staging output"@,
        transfer: "cannot sync staging output"@,
        flush: "cannot sync staging output"@,
        sync: "cannot sync staging output"@,
    }
}

/// An encoding into the staging file.
#[verifier::opaque]
pub open spec fn av1_stage_step(
    plan: PlanView,
    staging: Seq<char>,
    r: Seq<Reply>,
    at: int,
) -> Step<()> {
    chain(
        ffmpeg_step(av1_arguments(plan, staging), "ffmpeg transcode"@, r, at),
        |_done: (), at: int|
            act_by_point_step(RequestView::SyncFile { path: raw(staging) }, staged_blame(), r, at),
    )
}

/// Encodes the source into the staging file.
pub fn av1_stage(tape: &mut Tape, plan: &ArchivePlan, staging: &str) -> (result: Result<(), Stop>)
    ensures
        follows(
            *old(tape),
            *final(tape),
            result,
            av1_stage_step(
                plan.deep_view(),
                staging@,
                old(tape).replies@,
                old(tape).at as int,
            ),
        ),
{
    proof {
        reveal(av1_stage_step);
    }
    ffmpeg(tape, av1_command(plan, staging), "ffmpeg transcode")?;
    tape.act_by_point(
        Request::SyncFile { path: OsText::of(staging) },
        &Blame {
            open: "ffmpeg did not create staging output",
            create: "cannot sync staging output",
            transfer: "cannot sync staging output",
            flush: "cannot sync staging output",
            sync: "cannot sync staging output",
        },
    )
}

/// What is said where a copy fails.
pub open spec fn copy_blame(source: Seq<char>, staging: Seq<char>) -> BlameView {
    BlameView {
        open: "cannot open source '"@ + source + "'"@,
        create: "cannot create staging file '"@ + staging + "'"@,
        transfer: "copy to staging failed"@,
        flush: "cannot flush staging output"@,
        sync: "cannot sync staging output"@,
    }
}

/// A copy into the staging file.
pub open spec fn copy_stage_step(
    source: Seq<char>,
    staging: Seq<char>,
    r: Seq<Reply>,
    at: int,
) -> Step<()> {
    act_by_point_step(
        RequestView::Copy { from: raw(source), to: raw(staging) },
        copy_blame(source, staging),
        r,
        at,
    )
}

/// Copies the source into the staging file.
pub fn copy_stage(tape: &mut Tape, source: &str, staging: &str) -> (result: Result<(), Stop>)
    ensures
        follows(
            *old(tape),
            *final(tape),
            result,
            copy_stage_step(source@, staging@, old(tape).replies@, old(tape).at as int),
        ),
{
    tape.act_by_point(
        Request::Copy { from: OsText::of(source), to: OsText::of(staging) },
        &Blame {
            open: &cat3("cannot open source '", source, "'"),
            create: &cat3("cannot create staging file '", staging, "'"),
            transfer: "copy to staging failed",
            flush: "cannot flush staging output",
            sync: "cannot sync staging output",
        },
    )
}

/// The arguments of a full decode.
pub open spec fn decode_arguments(path: Seq<char>) -> Seq<Seq<char>> {
    seq!["-v"@, "error"@, "-i"@, path, "-map"@, "0"@, "-f"@, "null"@, "-"@]
}

fn decode_command(path: &str) -> (arguments: Vec<String>)
    ensures
        arguments.deep_view() == decode_arguments(path@),
{
    let mut arguments = no_arguments();
    push_text(&mut arguments, "-v");
    push_text(&mut arguments, "error");
    push_text(&mut arguments, "-i");
    push_text(&mut arguments, path);
    push_text(&mut arguments, "-map");
    push_text(&mut arguments, "0");
    push_text(&mut arguments, "-f");
    push_text(&mut arguments, "null");
    push_text(&mut arguments, "-");
    arguments
}

/// A full decode.
pub open spec fn decode_step(path: Seq<char>, r: Seq<Reply>, at: int) -> Step<()> {
    ffmpeg_step(decode_arguments(path), "ffmpeg full decode"@, r, at)
}

/// Decodes a file in full, to see that it can be.
pub fn decode_output(tape: &mut Tape, path: &str) -> (result: Result<(), Stop>)
    ensures
        follows(
            *old(tape),
            *final(tape),
            result,
            decode_step(path@, old(tape).replies@, old(tape).at as int),
        ),
{
    ffmpeg(tape, decode_command(path), "ffmpeg full decode")
}

/// Whether a stream is encoded anew: it is video, and no attached picture.
pub open spec fn eligible(stream: StreamView) -> bool {
    video(stream) && !stream.attached_picture
}

/// Where no stream is encoded anew, everything is copied and nothing else.
pub proof fn law_other_streams_are_copied(streams: Seq<StreamView>, av1: Av1View)
    requires
        forall|i: int| 0 <= i < streams.len() ==> !eligible(#[trigger] streams[i]),
    ensures
        encoder_arguments(streams, av1) == Seq::<Seq<char>>::empty(),
    decreases streams.len(),
{
    if streams.len() > 0 {
        let rest = streams.drop_last();
        assert forall|i: int| 0 <= i < rest.len() implies !eligible(#[trigger] rest[i]) by {
            assert(rest[i] == streams[i]);
        }
        law_other_streams_are_copied(rest, av1);
        assert(!eligible(streams[streams.len() - 1]));
    }
}

/// Each stream that is encoded anew has its options, under its number among the
/// video streams, and the options of two streams do not mix.
pub proof fn law_eligible_streams_are_encoded(streams: Seq<StreamView>, av1: Av1View, i: int)
    requires
        0 <= i < streams.len(),
        eligible(streams[i]),
    ensures
        ({
            let start = encoder_arguments(streams.take(i), av1).len() as int;
            let options = stream_arguments(streams[i], video_count(streams.take(i)), av1);
            &&& start + options.len() <= encoder_arguments(streams, av1).len()
            &&& encoder_arguments(streams, av1).subrange(start, start + options.len()) == options
            &&& options[0] == stream_option("c"@, video_count(streams.take(i)))
            &&& options[1] == "libsvtav1"@
        }),
    decreases streams.len(),
{
    let whole = encoder_arguments(streams, av1);
    let start = encoder_arguments(streams.take(i), av1).len() as int;
    let options = stream_arguments(streams[i], video_count(streams.take(i)), av1);
    if i == streams.len() - 1 {
        assert(streams.take(i) =~= streams.drop_last());
        assert(whole.subrange(start, start + options.len()) =~= options);
    } else {
        let rest = streams.drop_last();
        assert(rest.take(i) =~= streams.take(i));
        law_eligible_streams_are_encoded(rest, av1, i);
        assert(whole.subrange(start, start + options.len()) =~= encoder_arguments(
            rest,
            av1,
        ).subrange(start, start + options.len()));
    }
}

/// A failure is reported under the name of the program, with what it wrote about it
/// but for the white space around that; where there is no more than white space, it is
/// said that there is nothing.
pub proof fn law_failures_carry_what_was_written(
    command: Seq<char>,
    before: Seq<char>,
    said: Seq<char>,
    after: Seq<char>,
)
    requires
        forall|i: int| 0 <= i < before.len() ==> white_space(before[i]),
        forall|i: int| 0 <= i < after.len() ==> white_space(after[i]),
        said.len() > 0 ==> !white_space(said[0]) && !white_space(said.last()),
    ensures
        said.len() > 0 ==> failure_report(command, before + said + after) == command
            + " failed: "@ + said,
        said.len() == 0 ==> failure_report(command, before + said + after) == command
            + " failed without diagnostics"@,
    decreases before.len() + after.len(),
{
    lemma_stripped(before, said, after);
}

proof fn lemma_stripped(before: Seq<char>, said: Seq<char>, after: Seq<char>)
    requires
        forall|i: int| 0 <= i < before.len() ==> white_space(before[i]),
        forall|i: int| 0 <= i < after.len() ==> white_space(after[i]),
        said.len() > 0 ==> !white_space(said[0]) && !white_space(said.last()),
    ensures
        stripped(before + said + after) == said,
    decreases before.len() + after.len(),
{
    let whole = before + said + after;
    if before.len() > 0 {
        let rest = before.skip(1);
        assert(whole[0] == before[0]);
        assert(whole.subrange(1, whole.len() as int) =~= rest + said + after);
        assert forall|i: int| 0 <= i < rest.len() implies white_space(rest[i]) by {
            assert(rest[i] == before[i + 1]);
        }
        lemma_stripped(rest, said, after);
    } else if said.len() == 0 {
        assert(whole =~= after);
        if after.len() > 0 {
            let rest = after.skip(1);
            let none = Seq::<char>::empty();
            assert(white_space(after[0]));
            assert(whole.subrange(1, whole.len() as int) =~= none + said + rest);
            assert forall|i: int| 0 <= i < rest.len() implies white_space(rest[i]) by {
                assert(rest[i] == after[i + 1]);
            }
            lemma_stripped(none, said, rest);
        } else {
            assert(whole =~= said);
        }
    } else {
        assert(whole[0] == said[0]);
        if after.len() > 0 {
            let rest = after.drop_last();
            assert(whole.last() == after.last());
            assert(white_space(after[after.len() - 1]));
            assert(whole.drop_last() =~= before + said + rest);
            lemma_stripped(before, said, rest);
        } else {
            assert(whole =~= said);
        }
    }
}

/// A program that succeeds is done with; one that fails is reported.
pub proof fn law_programs_succeed_or_are_reported(
    arguments: Seq<Seq<char>>,
    what: Seq<char>,
    path: Seq<u8>,
    r: Seq<Reply>,
    at: int,
)
    requires
        0 <= at < r.len(),
        r[at] is Ran,
    ensures
        ({
            let output = r[at]->Ran_0;
            &&& ffmpeg_step(arguments, what, r, at).asked == seq![
                RequestView::Run { tool: Tool::Ffmpeg, arguments: raw_all(arguments) },
            ]
            &&& output.success ==> ffmpeg_step(arguments, what, r, at).outcome is Done
            &&& !output.success ==> ffmpeg_step(arguments, what, r, at).outcome == Outcome::<
                (),
            >::Fail(failure_report(what, shown(output.stderr@)))
            &&& ffprobe_step(path, r, at).asked == seq![
                RequestView::Run { tool: Tool::Ffprobe, arguments: probe_arguments(path) },
            ]
            &&& !output.success ==> ffprobe_step(path, r, at).outcome == Outcome::<
                Seq<char>,
            >::Fail(failure_report("ffprobe"@, shown(output.stderr@)))
            &&& output.success && valid_utf8(output.stdout@) ==> ffprobe_step(path, r, at).outcome
                == Outcome::Done(decode_utf8(output.stdout@))
            &&& output.success && !valid_utf8(output.stdout@) ==> ffprobe_step(
                path,
                r,
                at,
            ).outcome is Fail
        }),
{
    reveal(ffmpeg_step);
    reveal(ffprobe_step);
    let run = RequestView::Run { tool: Tool::Ffmpeg, arguments: raw_all(arguments) };
    let probe = RequestView::Run { tool: Tool::Ffprobe, arguments: probe_arguments(path) };
    assert(ffmpeg_step(arguments, what, r, at).asked =~= seq![run]);
    assert(ffprobe_step(path, r, at).asked =~= seq![probe]);
}

/// Each program has its own name, under which it is started, and a program that could
/// not be started is named.
pub proof fn law_programs_are_started_under_their_names(
    arguments: Seq<Seq<char>>,
    what: Seq<char>,
    path: Seq<u8>,
    error: String,
    point: Point,
    r: Seq<Reply>,
    at: int,
)
    requires
        0 <= at < r.len(),
        r[at] == (Reply::Failed { point, error }),
    ensures
        Tool::Ffmpeg.name() == "ffmpeg"@,
        Tool::Ffprobe.name() == "ffprobe"@,
        ffmpeg_step(arguments, what, r, at).outcome == Outcome::<()>::Fail(
            "failed to execute ffmpeg: "@ + error@,
        ),
        ffprobe_step(path, r, at).outcome == Outcome::<Seq<char>>::Fail(
            "failed to execute ffprobe: "@ + error@,
        ),
{
    reveal(ffmpeg_step);
    reveal(ffprobe_step);
    reveal_strlit("failed to execute ");
    reveal_strlit("ffmpeg");
    reveal_strlit("ffprobe");
    reveal_strlit(": ");
    reveal_strlit("failed to execute ffmpeg: ");
    reveal_strlit("failed to execute ffprobe: ");
    assert("failed to execute "@ + "ffmpeg"@ + ": "@ =~= "failed to execute ffmpeg: "@);
    assert("failed to execute "@ + "ffprobe"@ + ": "@ =~= "failed to execute ffprobe: "@);
}

} // verus!
