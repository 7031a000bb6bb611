//! The inspection of one media file.
use vstd::prelude::*;
use vstd::string::*;
use vstd::utf8::{decode_utf8, valid_utf8};

use crate::flow::{
    agrees, chain, done, fail, follows, hash_step, kind_step, parse_probe_step, resolve_step,
    settle, settled, stat_step, FileKind, FileStat, ModifiedTime, Outcome, Reply, Step,
    Stop, Tape,
};
use crate::model::{
    ChapterSummary, ChapterView, EvidenceView, FormatSummary, FormatView, MediaEvidence, Probe,
    ProbeChapter, ProbeFormat, ProbeStream, ProbeTime, StreamSummary, StreamView,
};
use crate::os_text::{law_read_texts_have_their_bytes, raw, shown, OsText};
use crate::seconds::{
    Seconds, SecondsView, equal_numbers, is_non_negative, non_negative, same_seconds,
};
use crate::text::{cat2, cat3, cat5, copy_optional, same_optional};
use crate::tool::{ffprobe, ffprobe_step};

verus! {

/// A path's text, or why it has none.
pub open spec fn path_text(path: Seq<u8>) -> Result<Seq<char>, Seq<char>> {
    if valid_utf8(path) {
        Ok(decode_utf8(path))
    } else {
        Err("path is not valid UTF-8: "@ + shown(path))
    }
}

/// Takes a path's text.
pub fn path_string(path: &OsText) -> (result: Result<String, String>)
    ensures
        agrees(result, path_text(path@)),
{
    match path.text() {
        Some(text) => Ok(text),
        None => Err(cat2("path is not valid UTF-8: ", &path.show())),
    }
}

/// The canonical path of a regular file that is no link.
#[verifier::opaque]
pub open spec fn regular_file_step(path: Seq<u8>, r: Seq<Reply>, at: int) -> Step<Seq<u8>> {
    chain(
        kind_step(path, "cannot inspect '"@ + shown(path) + "'"@, r, at),
        |kind: FileKind, at: int|
            if kind != FileKind::Regular {
                fail("not a regular file: "@ + shown(path), at)
            } else {
                resolve_step(path, "cannot resolve '"@ + shown(path) + "'"@, r, at)
            },
    )
}

/// Resolves a path that has to name a regular file, and no link to one.
pub fn regular_file(tape: &mut Tape, path: &OsText) -> (result: Result<OsText, Stop>)
    ensures
        follows(
            *old(tape),
            *final(tape),
            result,
            regular_file_step(path@, old(tape).replies@, old(tape).at as int),
        ),
{
    proof {
        reveal(regular_file_step);
    }
    let kind = tape.kind(path, &path.show_in("cannot inspect '", "'"))?;
    if kind != FileKind::Regular {
        return Err(Stop::Fail(cat2("not a regular file: ", &path.show())));
    }
    let resolved = tape.resolve(path, &path.show_in("cannot resolve '", "'"))?;
    Ok(resolved.copy())
}

/// When a file was modified, in nanoseconds after the Unix epoch.
pub open spec fn modified_time(modified: ModifiedTime) -> Result<i64, Seq<char>> {
    match modified {
        ModifiedTime::After(nanoseconds) => if nanoseconds <= i64::MAX {
            Ok(nanoseconds as i64)
        } else {
            Err("file modification time is out of range"@)
        },
        ModifiedTime::BeforeEpoch => Err("file modification time predates Unix epoch"@),
        ModifiedTime::Unavailable(error) => Err("cannot read modification time: "@ + error@),
    }
}

/// When a file was modified, in nanoseconds after the Unix epoch.
pub fn modified_ns(stat: &FileStat) -> (result: Result<i64, String>)
    ensures
        agrees(result, modified_time(stat.modified)),
{
    match &stat.modified {
        ModifiedTime::After(nanoseconds) => if *nanoseconds <= i64::MAX as u128 {
            Ok(*nanoseconds as i64)
        } else {
            Err("file modification time is out of range".to_owned())
        },
        ModifiedTime::BeforeEpoch => Err("file modification time predates Unix epoch".to_owned()),
        ModifiedTime::Unavailable(error) => Err(cat2("cannot read modification time: ", error)),
    }
}

/// Whether two looks at a file saw it unchanged.
pub open spec fn unchanged(left: FileStat, right: FileStat) -> Result<bool, Seq<char>> {
    if left.device != right.device || left.inode != right.inode || left.size != right.size {
        Ok(false)
    } else {
        match (modified_time(left.modified), modified_time(right.modified)) {
            (Ok(left), Ok(right)) => Ok(left == right),
            (Err(message), _) => Err(message),
            (Ok(_), Err(message)) => Err(message),
        }
    }
}

/// Whether two looks at a file saw it unchanged.
pub fn same_metadata(left: &FileStat, right: &FileStat) -> (result: Result<bool, String>)
    ensures
        agrees(result, unchanged(*left, *right)),
{
    if left.device != right.device || left.inode != right.inode || left.size != right.size {
        return Ok(false);
    }
    let before: i64 = modified_ns(left)?;
    let after: i64 = modified_ns(right)?;
    Ok(before == after)
}

/// A time that a probe wrote, or why it is none.
pub open spec fn time_of(time: ProbeTime, name: Seq<char>) -> Result<SecondsView, Seq<char>> {
    match time.number {
        Err(error) => Err("invalid "@ + name + " '"@ + time.text@ + "': "@ + error@),
        Ok(number) => if non_negative(number.bits) {
            Ok(number.deep_view())
        } else {
            Err("invalid "@ + name + ": must be finite and non-negative"@)
        },
    }
}

/// Takes a time that a probe wrote.
pub fn parse_time(time: &ProbeTime, name: &str) -> (result: Result<Seconds, String>)
    ensures
        agrees(result, time_of(*time, name@)),
{
    match &time.number {
        Err(error) => {
            let start = cat5("invalid ", name, " '", &time.text, "': ");
            Err(cat2(&start, error))
        },
        Ok(number) => if is_non_negative(number) {
            Ok(number.copy())
        } else {
            Err(cat3("invalid ", name, ": must be finite and non-negative"))
        },
    }
}

/// A time that a probe may have written.
pub open spec fn optional_time_of(time: Option<ProbeTime>, name: Seq<char>) -> Result<
    Option<SecondsView>,
    Seq<char>,
> {
    match time {
        None => Ok(None),
        Some(time) => match time_of(time, name) {
            Ok(seconds) => Ok(Some(seconds)),
            Err(message) => Err(message),
        },
    }
}

/// Takes a time that a probe may have written.
pub fn parse_optional_time(time: &Option<ProbeTime>, name: &str) -> (result: Result<
    Option<Seconds>,
    String,
>)
    ensures
        agrees(result, optional_time_of(*time, name@)),
{
    match time {
        None => Ok(None),
        Some(time) => Ok(Some(parse_time(time, name)?)),
    }
}

/// The summary of a probed container.
pub open spec fn format_of(format: ProbeFormat) -> Result<FormatView, Seq<char>> {
    match optional_time_of(format.duration, "format duration"@) {
        Err(message) => Err(message),
        Ok(duration_seconds) => Ok(
            FormatView { format_name: format.format_name.deep_view(), duration_seconds },
        ),
    }
}

fn summarize_format(format: &ProbeFormat) -> (result: Result<FormatSummary, String>)
    ensures
        agrees(result, format_of(*format)),
{
    let duration_seconds = parse_optional_time(&format.duration, "format duration")?;
    Ok(FormatSummary { format_name: copy_optional(&format.format_name), duration_seconds })
}

/// The summary of one probed stream.
pub open spec fn stream_of(stream: ProbeStream) -> Result<StreamView, Seq<char>> {
    match optional_time_of(stream.duration, "stream duration"@) {
        Err(message) => Err(message),
        Ok(duration_seconds) => Ok(
            StreamView {
                index: stream.index,
                codec_name: stream.codec_name.deep_view(),
                codec_type: stream.codec_type.deep_view(),
                width: stream.width,
                height: stream.height,
                duration_seconds,
                bits_per_raw_sample: stream.bits_per_raw_sample.deep_view(),
                pixel_format: stream.pix_fmt.deep_view(),
                color_space: stream.color_space.deep_view(),
                color_transfer: stream.color_transfer.deep_view(),
                color_primaries: stream.color_primaries.deep_view(),
                attached_picture: stream.disposition.attached_pic != 0,
            },
        ),
    }
}

fn summarize_stream(stream: &ProbeStream) -> (result: Result<StreamSummary, String>)
    ensures
        agrees(result, stream_of(*stream)),
{
    let duration_seconds = parse_optional_time(&stream.duration, "stream duration")?;
    Ok(
        StreamSummary {
            index: stream.index,
            codec_name: copy_optional(&stream.codec_name),
            codec_type: copy_optional(&stream.codec_type),
            width: stream.width,
            height: stream.height,
            duration_seconds,
            bits_per_raw_sample: copy_optional(&stream.bits_per_raw_sample),
            pixel_format: copy_optional(&stream.pix_fmt),
            color_space: copy_optional(&stream.color_space),
            color_transfer: copy_optional(&stream.color_transfer),
            color_primaries: copy_optional(&stream.color_primaries),
            attached_picture: stream.disposition.attached_pic != 0,
        },
    )
}

/// The summaries of probed streams, or what is wrong with the first that has none.
pub open spec fn streams_of(streams: Seq<ProbeStream>) -> Result<Seq<StreamView>, Seq<char>>
    decreases streams.len(),
{
    if streams.len() == 0 {
        Ok(Seq::empty())
    } else {
        match (streams_of(streams.drop_last()), stream_of(streams.last())) {
            (Ok(before), Ok(last)) => Ok(before.push(last)),
            (Err(message), _) => Err(message),
            (Ok(_), Err(message)) => Err(message),
        }
    }
}

/// An error among the first streams is the error of them all.
proof fn lemma_streams_fail(streams: Seq<ProbeStream>, count: int)
    requires
        0 <= count <= streams.len(),
        streams_of(streams.subrange(0, count)) is Err,
    ensures
        streams_of(streams) == streams_of(streams.subrange(0, count)),
    decreases streams.len(),
{
    if count == streams.len() {
        assert(streams.subrange(0, count) =~= streams);
    } else {
        assert(streams.drop_last().subrange(0, count) =~= streams.subrange(0, count));
        lemma_streams_fail(streams.drop_last(), count);
    }
}

fn summarize_streams(streams: &Vec<ProbeStream>) -> (result: Result<Vec<StreamSummary>, String>)
    ensures
        agrees(result, streams_of(streams@)),
{
    let mut summaries: Vec<StreamSummary> = Vec::new();
    let mut i: usize = 0;
    assert(summaries.deep_view() =~= Seq::empty());
    while i < streams.len()
        invariant
            i <= streams.len(),
            streams_of(streams@.subrange(0, i as int)) == Ok::<Seq<StreamView>, Seq<char>>(
                summaries.deep_view(),
            ),
        decreases streams.len() - i,
    {
        proof {
            let next = streams@.subrange(0, i + 1);
            assert(next.drop_last() =~= streams@.subrange(0, i as int));
            assert(next.last() == streams@[i as int]);
            if stream_of(streams@[i as int]) is Err {
                lemma_streams_fail(streams@, i + 1);
            }
        }
        let ghost before = summaries.deep_view();
        let summary = summarize_stream(&streams[i])?;
        summaries.push(summary);
        proof {
            assert(summaries.deep_view() =~= before.push(summary.deep_view()));
        }
        i = i + 1;
    }
    assert(streams@.subrange(0, streams@.len() as int) =~= streams@);
    Ok(summaries)
}

/// The summary of one probed chapter.
pub open spec fn chapter_of(chapter: ProbeChapter) -> Result<ChapterView, Seq<char>> {
    match (time_of(chapter.start_time, "chapter start"@), time_of(
        chapter.end_time,
        "chapter end"@,
    )) {
        (Ok(start_seconds), Ok(end_seconds)) => Ok(ChapterView { start_seconds, end_seconds }),
        (Err(message), _) => Err(message),
        (Ok(_), Err(message)) => Err(message),
    }
}

fn summarize_chapter(chapter: &ProbeChapter) -> (result: Result<ChapterSummary, String>)
    ensures
        agrees(result, chapter_of(*chapter)),
{
    let start_seconds = parse_time(&chapter.start_time, "chapter start")?;
    let end_seconds = parse_time(&chapter.end_time, "chapter end")?;
    Ok(ChapterSummary { start_seconds, end_seconds })
}

/// The summaries of probed chapters, or what is wrong with the first that has none.
pub open spec fn chapters_of(chapters: Seq<ProbeChapter>) -> Result<Seq<ChapterView>, Seq<char>>
    decreases chapters.len(),
{
    if chapters.len() == 0 {
        Ok(Seq::empty())
    } else {
        match (chapters_of(chapters.drop_last()), chapter_of(chapters.last())) {
            (Ok(before), Ok(last)) => Ok(before.push(last)),
            (Err(message), _) => Err(message),
            (Ok(_), Err(message)) => Err(message),
        }
    }
}

/// An error among the first chapters is the error of them all.
proof fn lemma_chapters_fail(chapters: Seq<ProbeChapter>, count: int)
    requires
        0 <= count <= chapters.len(),
        chapters_of(chapters.subrange(0, count)) is Err,
    ensures
        chapters_of(chapters) == chapters_of(chapters.subrange(0, count)),
    decreases chapters.len(),
{
    if count == chapters.len() {
        assert(chapters.subrange(0, count) =~= chapters);
    } else {
        assert(chapters.drop_last().subrange(0, count) =~= chapters.subrange(0, count));
        lemma_chapters_fail(chapters.drop_last(), count);
    }
}

fn summarize_chapters(chapters: &Vec<ProbeChapter>) -> (result: Result<
    Vec<ChapterSummary>,
    String,
>)
    ensures
        agrees(result, chapters_of(chapters@)),
{
    let mut summaries: Vec<ChapterSummary> = Vec::new();
    let mut i: usize = 0;
    assert(summaries.deep_view() =~= Seq::empty());
    while i < chapters.len()
        invariant
            i <= chapters.len(),
            chapters_of(chapters@.subrange(0, i as int)) == Ok::<Seq<ChapterView>, Seq<char>>(
                summaries.deep_view(),
            ),
        decreases chapters.len() - i,
    {
        proof {
            let next = chapters@.subrange(0, i + 1);
            assert(next.drop_last() =~= chapters@.subrange(0, i as int));
            assert(next.last() == chapters@[i as int]);
            if chapter_of(chapters@[i as int]) is Err {
                lemma_chapters_fail(chapters@, i + 1);
            }
        }
        let ghost before = summaries.deep_view();
        let summary = summarize_chapter(&chapters[i])?;
        summaries.push(summary);
        proof {
            assert(summaries.deep_view() =~= before.push(summary.deep_view()));
        }
        i = i + 1;
    }
    assert(chapters@.subrange(0, chapters@.len() as int) =~= chapters@);
    Ok(summaries)
}

/// The evidence that two looks at a file, its digest and its probe give, or why
/// they give none.
pub open spec fn evidence_of(
    path: Seq<u8>,
    before: FileStat,
    sha256: Seq<char>,
    json: Seq<char>,
    probe: Probe,
    after: FileStat,
) -> Result<EvidenceView, Seq<char>> {
    match unchanged(before, after) {
        Err(message) => Err(message),
        Ok(false) => Err("source changed while inspecting: "@ + shown(path)),
        Ok(true) => match (
            modified_time(after.modified),
            path_text(path),
            format_of(probe.format),
            streams_of(probe.streams@),
            chapters_of(probe.chapters@),
        ) {
            (Err(message), _, _, _, _) => Err(message),
            (Ok(_), Err(message), _, _, _) => Err(message),
            (Ok(_), Ok(_), Err(message), _, _) => Err(message),
            (Ok(_), Ok(_), Ok(_), Err(message), _) => Err(message),
            (Ok(_), Ok(_), Ok(_), Ok(_), Err(message)) => Err(message),
            (Ok(modified_ns), Ok(path), Ok(format), Ok(streams), Ok(chapters)) => Ok(
                EvidenceView {
                    path,
                    sha256,
                    size: after.size,
                    modified_ns,
                    format,
                    streams,
                    chapters,
                    raw_probe_json: json,
                },
            ),
        },
    }
}

/// Puts the evidence together that two looks at a file, its digest and its
/// probe give.
pub fn gather_evidence(
    path: &OsText,
    before: &FileStat,
    sha256: String,
    json: String,
    probe: &Probe,
    after: &FileStat,
) -> (result: Result<MediaEvidence, String>)
    ensures
        agrees(result, evidence_of(path@, *before, sha256@, json@, *probe, *after)),
{
    if !same_metadata(before, after)? {
        return Err(cat2("source changed while inspecting: ", &path.show()));
    }
    let modified_ns: i64 = modified_ns(after)?;
    let path = path_string(path)?;
    let format = summarize_format(&probe.format)?;
    let streams = summarize_streams(&probe.streams)?;
    let chapters = summarize_chapters(&probe.chapters)?;
    Ok(
        MediaEvidence {
            path,
            sha256,
            size: after.size,
            modified_ns,
            format,
            streams,
            chapters,
            raw_probe_json: json,
        },
    )
}

/// The evidence of a file: it is looked at, digested, probed and looked at again.
#[verifier::opaque]
pub open spec fn inspect_step(path: Seq<u8>, r: Seq<Reply>, at: int) -> Step<EvidenceView> {
    chain(
        regular_file_step(path, r, at),
        |file: Seq<u8>, at: int|
            chain(
                stat_step(file, "cannot stat '"@ + shown(file) + "'"@, r, at),
                |before: FileStat, at: int|
                    chain(
                        hash_step(file, r, at),
                        |sha256: Seq<char>, at: int|
                            chain(
                                ffprobe_step(file, r, at),
                                |json: Seq<char>, at: int|
                                    chain(
                                        parse_probe_step(json, r, at),
                                        |probe: Probe, at: int|
                                            chain(
                                                stat_step(
                                                    file,
                                                    "cannot restat '"@ + shown(file) + "'"@,
                                                    r,
                                                    at,
                                                ),
                                                |after: FileStat, at: int|
                                                    settled(
                                                        evidence_of(
                                                            file,
                                                            before,
                                                            sha256,
                                                            json,
                                                            probe,
                                                            after,
                                                        ),
                                                        at,
                                                    ),
                                            ),
                                    ),
                            ),
                    ),
            ),
    )
}

/// Inspects a file.
pub fn inspect_file(tape: &mut Tape, path: &OsText) -> (result: Result<MediaEvidence, Stop>)
    ensures
        follows(
            *old(tape),
            *final(tape),
            result,
            inspect_step(path@, old(tape).replies@, old(tape).at as int),
        ),
{
    proof {
        reveal(inspect_step);
    }
    let file = regular_file(tape, path)?;
    let before = tape.stat(&file, &file.show_in("cannot stat '", "'"))?;
    let sha256 = tape.hash_file(&file)?;
    let json = ffprobe(tape, &file)?;
    let probe = tape.parse_probe(&json)?;
    let after = tape.stat(&file, &file.show_in("cannot restat '", "'"))?;
    settle(gather_evidence(&file, before, sha256, json, probe, after))
}

/// Whether two optional times are equal as numbers.
pub open spec fn equal_times(a: Option<SecondsView>, b: Option<SecondsView>) -> bool {
    match (a, b) {
        (Some(a), Some(b)) => equal_numbers(a.bits, b.bits),
        (None, None) => true,
        _ => false,
    }
}

fn same_times(a: &Option<Seconds>, b: &Option<Seconds>) -> (same: bool)
    ensures
        same == equal_times(a.deep_view(), b.deep_view()),
{
    match (a, b) {
        (Some(a), Some(b)) => same_seconds(a, b),
        (None, None) => true,
        _ => false,
    }
}

/// Whether two summaries of a container are equal.
pub open spec fn equal_formats(a: FormatView, b: FormatView) -> bool {
    a.format_name == b.format_name && equal_times(a.duration_seconds, b.duration_seconds)
}

/// Whether two summaries of a stream are equal.
pub open spec fn equal_streams(a: StreamView, b: StreamView) -> bool {
    &&& a.index == b.index
    &&& a.codec_name == b.codec_name
    &&& a.codec_type == b.codec_type
    &&& a.width == b.width
    &&& a.height == b.height
    &&& equal_times(a.duration_seconds, b.duration_seconds)
    &&& a.bits_per_raw_sample == b.bits_per_raw_sample
    &&& a.pixel_format == b.pixel_format
    &&& a.color_space == b.color_space
    &&& a.color_transfer == b.color_transfer
    &&& a.color_primaries == b.color_primaries
    &&& a.attached_picture == b.attached_picture
}

fn same_stream(a: &StreamSummary, b: &StreamSummary) -> (same: bool)
    ensures
        same == equal_streams(a.deep_view(), b.deep_view()),
{
    a.index == b.index && same_optional(&a.codec_name, &b.codec_name) && same_optional(
        &a.codec_type,
        &b.codec_type,
    ) && a.width == b.width && a.height == b.height && same_times(
        &a.duration_seconds,
        &b.duration_seconds,
    ) && same_optional(&a.bits_per_raw_sample, &b.bits_per_raw_sample) && same_optional(
        &a.pixel_format,
        &b.pixel_format,
    ) && same_optional(&a.color_space, &b.color_space) && same_optional(
        &a.color_transfer,
        &b.color_transfer,
    ) && same_optional(&a.color_primaries, &b.color_primaries) && a.attached_picture
        == b.attached_picture
}

/// Whether two chapters are equal.
pub open spec fn equal_chapters(a: ChapterView, b: ChapterView) -> bool {
    equal_numbers(a.start_seconds.bits, b.start_seconds.bits) && equal_numbers(
        a.end_seconds.bits,
        b.end_seconds.bits,
    )
}

/// Whether two inspections found the same file: the same bytes, the same
/// modification time and the same media.
pub open spec fn same_evidence(a: EvidenceView, b: EvidenceView) -> bool {
    &&& a.sha256 == b.sha256
    &&& a.size == b.size
    &&& a.modified_ns == b.modified_ns
    &&& equal_formats(a.format, b.format)
    &&& a.streams.len() == b.streams.len()
    &&& forall|i: int| 0 <= i < a.streams.len() ==> equal_streams(a.streams[i], b.streams[i])
    &&& a.chapters.len() == b.chapters.len()
    &&& forall|i: int| 0 <= i < a.chapters.len() ==> equal_chapters(a.chapters[i], b.chapters[i])
}

/// Whether two inspections found the same file.
pub fn is_same_evidence(a: &MediaEvidence, b: &MediaEvidence) -> (same: bool)
    ensures
        same == same_evidence(a.deep_view(), b.deep_view()),
{
    if a.sha256 != b.sha256 || a.size != b.size || a.modified_ns != b.modified_ns {
        return false;
    }
    if !same_optional(&a.format.format_name, &b.format.format_name) || !same_times(
        &a.format.duration_seconds,
        &b.format.duration_seconds,
    ) {
        return false;
    }
    if a.streams.len() != b.streams.len() || a.chapters.len() != b.chapters.len() {
        return false;
    }
    let ghost va = a.deep_view();
    let ghost vb = b.deep_view();
    let mut i: usize = 0;
    while i < a.streams.len()
        invariant
            va == a.deep_view(),
            vb == b.deep_view(),
            a.streams.len() == b.streams.len(),
            i <= a.streams.len(),
            forall|k: int| 0 <= k < i ==> equal_streams(va.streams[k], vb.streams[k]),
        decreases a.streams.len() - i,
    {
        if !same_stream(&a.streams[i], &b.streams[i]) {
            assert(!equal_streams(va.streams[i as int], vb.streams[i as int]));
            return false;
        }
        i = i + 1;
    }
    let mut k: usize = 0;
    while k < a.chapters.len()
        invariant
            va == a.deep_view(),
            vb == b.deep_view(),
            a.chapters.len() == b.chapters.len(),
            k <= a.chapters.len(),
            forall|j: int| 0 <= j < k ==> equal_chapters(va.chapters[j], vb.chapters[j]),
        decreases a.chapters.len() - k,
    {
        if !same_seconds(&a.chapters[k].start_seconds, &b.chapters[k].start_seconds)
            || !same_seconds(&a.chapters[k].end_seconds, &b.chapters[k].end_seconds) {
            assert(!equal_chapters(va.chapters[k as int], vb.chapters[k as int]));
            return false;
        }
        k = k + 1;
    }
    true
}

/// A new inspection of a source that has to find what an earlier one found.
#[verifier::opaque]
pub open spec fn validate_source_step(expected: EvidenceView, r: Seq<Reply>, at: int) -> Step<()> {
    chain(
        inspect_step(raw(expected.path), r, at),
        |actual: EvidenceView, at: int|
            if same_evidence(actual, expected) {
                done((), at)
            } else {
                fail("source changed since planning: "@ + expected.path, at)
            },
    )
}

/// Inspects a source anew and accepts it where nothing about it has changed.
pub fn validate_source(tape: &mut Tape, expected: &MediaEvidence) -> (result: Result<(), Stop>)
    ensures
        follows(
            *old(tape),
            *final(tape),
            result,
            validate_source_step(
                expected.deep_view(),
                old(tape).replies@,
                old(tape).at as int,
            ),
        ),
{
    proof {
        reveal(validate_source_step);
    }
    let actual = inspect_file(tape, &OsText::of(&expected.path))?;
    if is_same_evidence(&actual, expected) {
        Ok(())
    } else {
        Err(Stop::Fail(cat2("source changed since planning: ", &expected.path)))
    }
}

/// Whether an optional time is a finite number, zero or more.
pub open spec fn proper_time(time: Option<SecondsView>) -> bool {
    time matches Some(seconds) ==> non_negative(seconds.bits)
}

/// Whether all times in some evidence are finite numbers, zero or more.
pub open spec fn proper_times(evidence: EvidenceView) -> bool {
    &&& proper_time(evidence.format.duration_seconds)
    &&& forall|i: int|
        0 <= i < evidence.streams.len() ==> proper_time(
            #[trigger] evidence.streams[i].duration_seconds,
        )
    &&& forall|i: int|
        0 <= i < evidence.chapters.len() ==> non_negative(
            #[trigger] evidence.chapters[i].start_seconds.bits,
        ) && non_negative(evidence.chapters[i].end_seconds.bits)
}

proof fn lemma_stream_times(streams: Seq<ProbeStream>)
    ensures
        streams_of(streams) matches Ok(summaries) ==> forall|i: int|
            0 <= i < summaries.len() ==> proper_time(#[trigger] summaries[i].duration_seconds),
    decreases streams.len(),
{
    if streams.len() > 0 {
        lemma_stream_times(streams.drop_last());
    }
}

proof fn lemma_chapter_times(chapters: Seq<ProbeChapter>)
    ensures
        chapters_of(chapters) matches Ok(summaries) ==> forall|i: int|
            0 <= i < summaries.len() ==> non_negative(
                #[trigger] summaries[i].start_seconds.bits,
            ) && non_negative(summaries[i].end_seconds.bits),
    decreases chapters.len(),
{
    if chapters.len() > 0 {
        lemma_chapter_times(chapters.drop_last());
        if let Ok(summaries) = chapters_of(chapters) {
            let before = chapters_of(chapters.drop_last())->Ok_0;
            assert forall|i: int| 0 <= i < summaries.len() implies non_negative(
                #[trigger] summaries[i].start_seconds.bits,
            ) && non_negative(summaries[i].end_seconds.bits) by {
                if i < before.len() {
                    assert(summaries[i] == before[i]);
                    assert(non_negative(before[i].start_seconds.bits));
                }
            }
        }
    }
}

/// What is inspected has finite, non-negative times, and the size and time of
/// the second look at it.
pub proof fn law_inspected_evidence_is_proper(
    path: Seq<u8>,
    before: FileStat,
    sha256: Seq<char>,
    json: Seq<char>,
    probe: Probe,
    after: FileStat,
)
    ensures
        evidence_of(path, before, sha256, json, probe, after) matches Ok(evidence) ==> {
            &&& proper_times(evidence)
            &&& raw(evidence.path) == path
            &&& evidence.sha256 == sha256
            &&& evidence.size == after.size
            &&& evidence.raw_probe_json == json
            &&& (before.device, before.inode, before.size) == (
                after.device,
                after.inode,
                after.size,
            )
        },
{
    lemma_stream_times(probe.streams@);
    lemma_chapter_times(probe.chapters@);
    if valid_utf8(path) {
        law_read_texts_have_their_bytes(path);
    }
}

/// Proper evidence is the same as itself.
pub proof fn law_evidence_is_the_same_as_itself(evidence: EvidenceView)
    requires
        proper_times(evidence),
    ensures
        same_evidence(evidence, evidence),
{
    assert forall|i: int| 0 <= i < evidence.streams.len() implies equal_streams(
        evidence.streams[i],
        evidence.streams[i],
    ) by {
        assert(proper_time(evidence.streams[i].duration_seconds));
    }
    assert forall|i: int| 0 <= i < evidence.chapters.len() implies equal_chapters(
        evidence.chapters[i],
        evidence.chapters[i],
    ) by {
        assert(non_negative(evidence.chapters[i].start_seconds.bits));
    }
}

/// Evidence is the same whichever of the two comes first.
pub proof fn law_same_evidence_is_symmetric(a: EvidenceView, b: EvidenceView)
    ensures
        same_evidence(a, b) == same_evidence(b, a),
{
    if same_evidence(a, b) {
        assert forall|i: int| 0 <= i < b.streams.len() implies equal_streams(
            b.streams[i],
            a.streams[i],
        ) by {
            assert(equal_streams(a.streams[i], b.streams[i]));
        }
        assert forall|i: int| 0 <= i < b.chapters.len() implies equal_chapters(
            b.chapters[i],
            a.chapters[i],
        ) by {
            assert(equal_chapters(a.chapters[i], b.chapters[i]));
        }
    }
    if same_evidence(b, a) {
        assert forall|i: int| 0 <= i < a.streams.len() implies equal_streams(
            a.streams[i],
            b.streams[i],
        ) by {
            assert(equal_streams(b.streams[i], a.streams[i]));
        }
        assert forall|i: int| 0 <= i < a.chapters.len() implies equal_chapters(
            a.chapters[i],
            b.chapters[i],
        ) by {
            assert(equal_chapters(b.chapters[i], a.chapters[i]));
        }
    }
}

/// A source is accepted where a new inspection finds what was found before, and
/// is refused as changed where it finds something else.
pub proof fn law_changed_sources_are_refused(
    expected: EvidenceView,
    actual: EvidenceView,
    r: Seq<Reply>,
    at: int,
)
    requires
        inspect_step(raw(expected.path), r, at).outcome == Outcome::Done(actual),
    ensures
        same_evidence(actual, expected) ==> validate_source_step(expected, r, at).outcome is Done,
        !same_evidence(actual, expected) ==> validate_source_step(expected, r, at).outcome
            == Outcome::<()>::Fail("source changed since planning: "@ + expected.path),
{
    reveal(validate_source_step);
}

} // verus!
