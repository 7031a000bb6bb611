//! What an inspection records of what was found, and when a source counts as changed.
use vstd::prelude::*;
use vstd::string::*;
use vstd::utf8::{decode_utf8, valid_utf8};

use crate::flow::{FileKind, FileStat, Outcome, Point, Reply, RequestView, Tool};
use crate::inspect::{
    chapter_of, chapters_of, equal_chapters, equal_streams, evidence_of, inspect_step,
    regular_file_step, same_evidence, stream_of, streams_of, validate_source_step,
};
use crate::model::{
    ChapterView, EvidenceView, FormatView, Probe, ProbeChapter, ProbeFormat, ProbeStream,
    ProbeTime, StreamView,
};
use crate::os_text::{law_read_texts_have_their_bytes, raw, shown};
use crate::seconds::{equal_numbers, non_negative, SecondsView};
use crate::tool::{ffprobe_step, probe_arguments};

verus! {

/// Whether a number of seconds is the one a probe wrote, which has to be finite and
/// not below zero.
pub open spec fn time_recorded(time: ProbeTime, recorded: SecondsView) -> bool {
    &&& time.number is Ok
    &&& recorded.bits == time.number->Ok_0.bits
    &&& recorded.text == time.number->Ok_0.text@
    &&& non_negative(time.number->Ok_0.bits)
}

/// Whether a duration is the one a probe wrote, if it wrote one.
pub open spec fn duration_recorded(
    time: Option<ProbeTime>,
    recorded: Option<SecondsView>,
) -> bool {
    &&& time is Some <==> recorded is Some
    &&& time is Some ==> time_recorded(time->0, recorded->0)
}

/// Whether a text is the one a probe wrote, if it wrote one.
pub open spec fn text_recorded(text: Option<String>, recorded: Option<Seq<char>>) -> bool {
    &&& text is Some <==> recorded is Some
    &&& text is Some ==> recorded->0 == text->0@
}

/// Whether a container is recorded as a probe reported it.
pub open spec fn format_recorded(format: ProbeFormat, recorded: FormatView) -> bool {
    &&& text_recorded(format.format_name, recorded.format_name)
    &&& duration_recorded(format.duration, recorded.duration_seconds)
}

/// Whether a stream is recorded as a probe reported it.
pub open spec fn stream_recorded(stream: ProbeStream, recorded: StreamView) -> bool {
    &&& recorded.index == stream.index
    &&& text_recorded(stream.codec_name, recorded.codec_name)
    &&& text_recorded(stream.codec_type, recorded.codec_type)
    &&& recorded.width == stream.width
    &&& recorded.height == stream.height
    &&& duration_recorded(stream.duration, recorded.duration_seconds)
    &&& text_recorded(stream.bits_per_raw_sample, recorded.bits_per_raw_sample)
    &&& text_recorded(stream.pix_fmt, recorded.pixel_format)
    &&& text_recorded(stream.color_space, recorded.color_space)
    &&& text_recorded(stream.color_transfer, recorded.color_transfer)
    &&& text_recorded(stream.color_primaries, recorded.color_primaries)
    &&& recorded.attached_picture <==> stream.disposition.attached_pic != 0
}

/// Whether a chapter is recorded as a probe reported it.
pub open spec fn chapter_recorded(chapter: ProbeChapter, recorded: ChapterView) -> bool {
    &&& time_recorded(chapter.start_time, recorded.start_seconds)
    &&& time_recorded(chapter.end_time, recorded.end_seconds)
}

/// Whether evidence records all that a probe reported, each stream and each chapter
/// in its place.
pub open spec fn probe_recorded(probe: Probe, recorded: EvidenceView) -> bool {
    &&& format_recorded(probe.format, recorded.format)
    &&& recorded.streams.len() == probe.streams@.len()
    &&& forall|i: int|
        0 <= i < probe.streams@.len() ==> stream_recorded(
            #[trigger] probe.streams@[i],
            recorded.streams[i],
        )
    &&& recorded.chapters.len() == probe.chapters@.len()
    &&& forall|i: int|
        0 <= i < probe.chapters@.len() ==> chapter_recorded(
            #[trigger] probe.chapters@[i],
            recorded.chapters[i],
        )
}

/// Whether a time can be recorded: it reads as a finite number that is not below zero.
pub open spec fn readable(time: ProbeTime) -> bool {
    time.number is Ok && non_negative(time.number->Ok_0.bits)
}

/// Whether all times that a probe reports can be recorded.
pub open spec fn probe_readable(probe: Probe) -> bool {
    &&& probe.format.duration is Some ==> readable(probe.format.duration->0)
    &&& forall|i: int|
        0 <= i < probe.streams@.len() ==> ((
        #[trigger] probe.streams@[i]).duration is Some ==> readable(probe.streams@[i].duration->0))
    &&& forall|i: int|
        0 <= i < probe.chapters@.len() ==> readable((#[trigger] probe.chapters@[i]).start_time)
            && readable(probe.chapters@[i].end_time)
}

/// Whether two looks at a file saw one file of one size and one modification time
/// that can be recorded.
pub open spec fn looked_alike(before: FileStat, after: FileStat) -> bool {
    &&& before.device == after.device
    &&& before.inode == after.inode
    &&& before.size == after.size
    &&& before.modified is After && before.modified->After_0 <= i64::MAX
    &&& after.modified is After && after.modified->After_0 == before.modified->After_0
}

proof fn lemma_streams_recorded(streams: Seq<ProbeStream>)
    ensures
        streams_of(streams) matches Ok(recorded) ==> {
            &&& recorded.len() == streams.len()
            &&& forall|i: int|
                0 <= i < streams.len() ==> stream_recorded(#[trigger] streams[i], recorded[i])
        },
        streams_of(streams) is Ok <==> forall|i: int|
            0 <= i < streams.len() ==> ((#[trigger] streams[i]).duration is Some ==> readable(
                streams[i].duration->0,
            )),
    decreases streams.len(),
{
    if streams.len() > 0 {
        let rest = streams.drop_last();
        let n = streams.len() - 1;
        lemma_streams_recorded(rest);
        let last = stream_of(streams[n]);
        assert(last is Ok <==> (streams[n].duration is Some ==> readable(streams[n].duration->0)));
        if let Ok(recorded) = streams_of(streams) {
            let before = streams_of(rest)->Ok_0;
            assert forall|i: int| 0 <= i < streams.len() implies stream_recorded(
                #[trigger] streams[i],
                recorded[i],
            ) && (streams[i].duration is Some ==> readable(streams[i].duration->0)) by {
                if i < n {
                    assert(rest[i] == streams[i]);
                    assert(recorded[i] == before[i]);
                } else {
                    assert(stream_recorded(streams[n], last->Ok_0));
                }
            }
        } else if streams_of(rest) is Err {
            let i = choose|i: int|
                0 <= i < rest.len() && !((#[trigger] rest[i]).duration is Some ==> readable(
                    rest[i].duration->0,
                ));
            assert(streams[i] == rest[i]);
        }
    }
}

proof fn lemma_chapters_recorded(chapters: Seq<ProbeChapter>)
    ensures
        chapters_of(chapters) matches Ok(recorded) ==> {
            &&& recorded.len() == chapters.len()
            &&& forall|i: int|
                0 <= i < chapters.len() ==> chapter_recorded(#[trigger] chapters[i], recorded[i])
        },
        chapters_of(chapters) is Ok <==> forall|i: int|
            0 <= i < chapters.len() ==> readable((#[trigger] chapters[i]).start_time) && readable(
                chapters[i].end_time,
            ),
    decreases chapters.len(),
{
    if chapters.len() > 0 {
        let rest = chapters.drop_last();
        let n = chapters.len() - 1;
        lemma_chapters_recorded(rest);
        let last = chapter_of(chapters[n]);
        assert(last is Ok <==> readable(chapters[n].start_time) && readable(chapters[n].end_time));
        if let Ok(recorded) = chapters_of(chapters) {
            let before = chapters_of(rest)->Ok_0;
            assert forall|i: int| 0 <= i < chapters.len() implies chapter_recorded(
                #[trigger] chapters[i],
                recorded[i],
            ) && readable(chapters[i].start_time) && readable(chapters[i].end_time) by {
                if i < n {
                    assert(rest[i] == chapters[i]);
                    assert(recorded[i] == before[i]);
                } else {
                    assert(chapter_recorded(chapters[n], last->Ok_0));
                }
            }
        } else if chapters_of(rest) is Err {
            let i = choose|i: int|
                0 <= i < rest.len() && !(readable((#[trigger] rest[i]).start_time) && readable(
                    rest[i].end_time,
                ));
            assert(chapters[i] == rest[i]);
        }
    }
}

/// Evidence records what was found: the path, the digest and the probe's own words as
/// they are, the size and the modification time that both looks saw, and every
/// property of the container, of each stream and of each chapter under its own name.
pub proof fn law_evidence_records_what_was_found(
    path: Seq<u8>,
    before: FileStat,
    sha256: Seq<char>,
    json: Seq<char>,
    probe: Probe,
    after: FileStat,
)
    ensures
        evidence_of(path, before, sha256, json, probe, after) matches Ok(evidence) ==> {
            &&& raw(evidence.path) == path
            &&& evidence.sha256 == sha256
            &&& evidence.size == after.size
            &&& after.modified is After
            &&& evidence.modified_ns == after.modified->After_0
            &&& evidence.raw_probe_json == json
            &&& probe_recorded(probe, evidence)
        },
{
    lemma_streams_recorded(probe.streams@);
    lemma_chapters_recorded(probe.chapters@);
    if valid_utf8(path) {
        law_read_texts_have_their_bytes(path);
    }
}

/// There is evidence exactly where both looks saw the same, the path is a text and
/// every reported time reads as a finite number that is not below zero.
pub proof fn law_evidence_is_had_where_all_is_readable(
    path: Seq<u8>,
    before: FileStat,
    sha256: Seq<char>,
    json: Seq<char>,
    probe: Probe,
    after: FileStat,
)
    ensures
        evidence_of(path, before, sha256, json, probe, after) is Ok <==> looked_alike(
            before,
            after,
        ) && valid_utf8(path) && probe_readable(probe),
        before.device != after.device || before.inode != after.inode || before.size != after.size
            ==> evidence_of(path, before, sha256, json, probe, after) == Err::<
            EvidenceView,
            Seq<char>,
        >("source changed while inspecting: "@ + shown(path)),
        before.modified is After && after.modified is After && before.modified->After_0
            <= i64::MAX && after.modified->After_0 <= i64::MAX && before.modified->After_0
            != after.modified->After_0 ==> evidence_of(path, before, sha256, json, probe, after)
            == Err::<EvidenceView, Seq<char>>("source changed while inspecting: "@ + shown(path)),
        looked_alike(before, after) && !valid_utf8(path) ==> evidence_of(
            path,
            before,
            sha256,
            json,
            probe,
            after,
        ) == Err::<EvidenceView, Seq<char>>("path is not valid UTF-8: "@ + shown(path)),
{
    lemma_streams_recorded(probe.streams@);
    lemma_chapters_recorded(probe.chapters@);
}

/// A file that is inspected is a regular one; it is found under its canonical path,
/// looked at, digested, probed and looked at again there, and the evidence records
/// what that gave.
pub proof fn law_inspection_records_what_was_found(path: Seq<u8>, r: Seq<Reply>, at: int)
    ensures
        inspect_step(path, r, at).outcome matches Outcome::Done(evidence) ==> {
            let file = r[at + 1]->Resolved_0@;
            &&& 0 <= at && at + 7 <= r.len()
            &&& r[at] == Reply::Kind(FileKind::Regular)
            &&& r[at + 1] is Resolved
            &&& r[at + 2] is Stat
            &&& r[at + 3] is Digest
            &&& r[at + 4] is Ran && r[at + 4]->Ran_0.success
            &&& r[at + 5] is Probe
            &&& r[at + 6] is Stat
            &&& looked_alike(r[at + 2]->Stat_0, r[at + 6]->Stat_0)
            &&& raw(evidence.path) == file
            &&& evidence.sha256 == r[at + 3]->Digest_0@
            &&& evidence.size == r[at + 6]->Stat_0.size
            &&& evidence.modified_ns == r[at + 6]->Stat_0.modified->After_0
            &&& valid_utf8(r[at + 4]->Ran_0.stdout@)
            &&& evidence.raw_probe_json == decode_utf8(r[at + 4]->Ran_0.stdout@)
            &&& probe_recorded(r[at + 5]->Probe_0, evidence)
            &&& inspect_step(path, r, at).asked == seq![
                RequestView::Kind { path },
                RequestView::Resolve { path },
                RequestView::Stat { path: file },
                RequestView::Hash { path: file },
                RequestView::Run { tool: Tool::Ffprobe, arguments: probe_arguments(file) },
                RequestView::ParseProbe { json: evidence.raw_probe_json },
                RequestView::Stat { path: file },
            ]
        },
{
    reveal(inspect_step);
    reveal(regular_file_step);
    reveal(ffprobe_step);
    let step = inspect_step(path, r, at);
    if let Outcome::Done(evidence) = step.outcome {
        let file = r[at + 1]->Resolved_0@;
        let json = evidence.raw_probe_json;
        law_evidence_records_what_was_found(
            file,
            r[at + 2]->Stat_0,
            r[at + 3]->Digest_0@,
            decode_utf8(r[at + 4]->Ran_0.stdout@),
            r[at + 5]->Probe_0,
            r[at + 6]->Stat_0,
        );
        law_evidence_is_had_where_all_is_readable(
            file,
            r[at + 2]->Stat_0,
            r[at + 3]->Digest_0@,
            decode_utf8(r[at + 4]->Ran_0.stdout@),
            r[at + 5]->Probe_0,
            r[at + 6]->Stat_0,
        );
        assert(step.asked =~= seq![
            RequestView::Kind { path },
            RequestView::Resolve { path },
            RequestView::Stat { path: file },
            RequestView::Hash { path: file },
            RequestView::Run { tool: Tool::Ffprobe, arguments: probe_arguments(file) },
            RequestView::ParseProbe { json },
            RequestView::Stat { path: file },
        ]);
    }
}

/// What is no regular file is refused as such, whatever a link to it leads to.
pub proof fn law_only_regular_files_are_inspected(path: Seq<u8>, r: Seq<Reply>, at: int)
    requires
        0 <= at < r.len(),
        r[at] is Kind,
        r[at]->Kind_0 != FileKind::Regular,
    ensures
        inspect_step(path, r, at).outcome == Outcome::<EvidenceView>::Fail(
            "not a regular file: "@ + shown(path),
        ),
{
    reveal(inspect_step);
    reveal(regular_file_step);
}

/// Whether two durations are one number, or both missing.
pub open spec fn same_duration(a: Option<SecondsView>, b: Option<SecondsView>) -> bool {
    &&& a is Some <==> b is Some
    &&& a is Some ==> equal_numbers(a->0.bits, b->0.bits)
}

/// Whether two inspections of a file agree in everything but the words of the probe
/// and the path.
pub open spec fn nothing_changed(a: EvidenceView, b: EvidenceView) -> bool {
    &&& a.sha256 == b.sha256
    &&& a.size == b.size
    &&& a.modified_ns == b.modified_ns
    &&& a.format.format_name == b.format.format_name
    &&& same_duration(a.format.duration_seconds, b.format.duration_seconds)
    &&& a.streams.len() == b.streams.len()
    &&& forall|i: int|
        0 <= i < a.streams.len() ==> {
            let (x, y) = (#[trigger] a.streams[i], b.streams[i]);
            &&& (x.index, x.codec_name, x.codec_type) == (y.index, y.codec_name, y.codec_type)
            &&& (x.width, x.height) == (y.width, y.height)
            &&& same_duration(x.duration_seconds, y.duration_seconds)
            &&& x.bits_per_raw_sample == y.bits_per_raw_sample
            &&& x.pixel_format == y.pixel_format
            &&& (x.color_space, x.color_transfer, x.color_primaries) == (
                y.color_space,
                y.color_transfer,
                y.color_primaries,
            )
            &&& x.attached_picture == y.attached_picture
        }
    &&& a.chapters.len() == b.chapters.len()
    &&& forall|i: int|
        0 <= i < a.chapters.len() ==> {
            let (x, y) = (#[trigger] a.chapters[i], b.chapters[i]);
            &&& equal_numbers(x.start_seconds.bits, y.start_seconds.bits)
            &&& equal_numbers(x.end_seconds.bits, y.end_seconds.bits)
        }
}

/// A source is accepted exactly where a new inspection agrees with the earlier one in
/// its bytes, size, modification time and every property of its media; where it does
/// not, the source is refused as changed, and where there is no inspection, for that.
pub proof fn law_sources_are_accepted_where_nothing_changed(
    expected: EvidenceView,
    r: Seq<Reply>,
    at: int,
)
    ensures
        ({
            let inspection = inspect_step(raw(expected.path), r, at);
            let validation = validate_source_step(expected, r, at);
            &&& validation.asked == inspection.asked
            &&& match inspection.outcome {
                Outcome::Done(actual) => if nothing_changed(actual, expected) {
                    validation.outcome == Outcome::Done(())
                } else {
                    validation.outcome == Outcome::<()>::Fail(
                        "source changed since planning: "@ + expected.path,
                    )
                },
                Outcome::Ask(request) => validation.outcome == Outcome::<()>::Ask(request),
                Outcome::Fail(message) => validation.outcome == Outcome::<()>::Fail(message),
            }
        }),
{
    reveal(validate_source_step);
    let inspection = inspect_step(raw(expected.path), r, at);
    let validation = validate_source_step(expected, r, at);
    assert(validation.asked =~= inspection.asked);
    if let Outcome::Done(actual) = inspection.outcome {
        assert(nothing_changed(actual, expected) == same_evidence(actual, expected)) by {
            if same_evidence(actual, expected) {
                assert forall|i: int| 0 <= i < actual.streams.len() implies equal_streams(
                    #[trigger] actual.streams[i],
                    expected.streams[i],
                ) by {}
                assert forall|i: int| 0 <= i < actual.chapters.len() implies equal_chapters(
                    #[trigger] actual.chapters[i],
                    expected.chapters[i],
                ) by {}
            }
        }
    }
}

/// A regular file is inspected wherever each request is answered, the probe succeeds
/// with a text, both looks saw the same, the canonical path is a text and every
/// reported time can be recorded.
pub proof fn law_sound_files_are_inspected(path: Seq<u8>, r: Seq<Reply>, at: int)
    requires
        0 <= at && at + 7 <= r.len(),
        r[at] == Reply::Kind(FileKind::Regular),
        r[at + 1] is Resolved,
        r[at + 2] is Stat,
        r[at + 3] is Digest,
        r[at + 4] is Ran && r[at + 4]->Ran_0.success && valid_utf8(r[at + 4]->Ran_0.stdout@),
        r[at + 5] is Probe,
        r[at + 6] is Stat,
    ensures
        looked_alike(r[at + 2]->Stat_0, r[at + 6]->Stat_0) && valid_utf8(
            r[at + 1]->Resolved_0@,
        ) && probe_readable(r[at + 5]->Probe_0) <==> inspect_step(path, r, at).outcome is Done,
{
    reveal(inspect_step);
    reveal(regular_file_step);
    reveal(ffprobe_step);
    law_evidence_is_had_where_all_is_readable(
        r[at + 1]->Resolved_0@,
        r[at + 2]->Stat_0,
        r[at + 3]->Digest_0@,
        decode_utf8(r[at + 4]->Ran_0.stdout@),
        r[at + 5]->Probe_0,
        r[at + 6]->Stat_0,
    );
}

/// What is said of a time that cannot be recorded.
pub open spec fn unreadable(time: ProbeTime, name: Seq<char>) -> Seq<char> {
    match time.number {
        Err(error) => "invalid "@ + name + " '"@ + time.text@ + "': "@ + error@,
        Ok(_) => "invalid "@ + name + ": must be finite and non-negative"@,
    }
}

proof fn lemma_first_bad_stream(streams: Seq<ProbeStream>, i: int)
    requires
        0 <= i < streams.len(),
        streams[i].duration is Some,
        !readable(streams[i].duration->0),
        forall|j: int|
            0 <= j < i ==> ((#[trigger] streams[j]).duration is Some ==> readable(
                streams[j].duration->0,
            )),
    ensures
        streams_of(streams) == Err::<Seq<StreamView>, Seq<char>>(
            unreadable(streams[i].duration->0, "stream duration"@),
        ),
    decreases streams.len(),
{
    let rest = streams.drop_last();
    if i < rest.len() {
        assert(rest[i] == streams[i]);
        assert forall|j: int|
            0 <= j < i && (#[trigger] rest[j]).duration is Some implies readable(
            rest[j].duration->0,
        ) by {
            assert(rest[j] == streams[j]);
        }
        lemma_first_bad_stream(rest, i);
    } else {
        assert forall|j: int|
            0 <= j < rest.len() && (#[trigger] rest[j]).duration is Some implies readable(
            rest[j].duration->0,
        ) by {
            assert(rest[j] == streams[j]);
        }
        lemma_streams_recorded(rest);
    }
}

proof fn lemma_first_bad_chapter(chapters: Seq<ProbeChapter>, i: int)
    requires
        0 <= i < chapters.len(),
        !(readable(chapters[i].start_time) && readable(chapters[i].end_time)),
        forall|j: int|
            0 <= j < i ==> readable((#[trigger] chapters[j]).start_time) && readable(
                chapters[j].end_time,
            ),
    ensures
        chapters_of(chapters) == Err::<Seq<ChapterView>, Seq<char>>(
            if !readable(chapters[i].start_time) {
                unreadable(chapters[i].start_time, "chapter start"@)
            } else {
                unreadable(chapters[i].end_time, "chapter end"@)
            },
        ),
    decreases chapters.len(),
{
    let rest = chapters.drop_last();
    if i < rest.len() {
        assert(rest[i] == chapters[i]);
        assert forall|j: int| 0 <= j < i implies readable((#[trigger] rest[j]).start_time)
            && readable(rest[j].end_time) by {
            assert(rest[j] == chapters[j]);
        }
        lemma_first_bad_chapter(rest, i);
    } else {
        assert forall|j: int| 0 <= j < rest.len() implies readable(
            (#[trigger] rest[j]).start_time,
        ) && readable(rest[j].end_time) by {
            assert(rest[j] == chapters[j]);
        }
        lemma_chapters_recorded(rest);
    }
}

/// The first time that cannot be recorded is named: the container's, then that of the
/// first stream, then the start or the end of the first chapter.
pub proof fn law_first_unreadable_time_is_named(
    path: Seq<u8>,
    before: FileStat,
    sha256: Seq<char>,
    json: Seq<char>,
    probe: Probe,
    after: FileStat,
    i: int,
)
    requires
        looked_alike(before, after),
        valid_utf8(path),
    ensures
        ({
            let result = evidence_of(path, before, sha256, json, probe, after);
            let streams = probe.streams@;
            let chapters = probe.chapters@;
            let whole = probe.format.duration is Some ==> readable(probe.format.duration->0);
            &&& !whole ==> result == Err::<EvidenceView, Seq<char>>(
                unreadable(probe.format.duration->0, "format duration"@),
            )
            &&& whole && 0 <= i < streams.len() && streams[i].duration is Some && !readable(
                streams[i].duration->0,
            ) && (forall|j: int|
                0 <= j < i ==> ((#[trigger] streams[j]).duration is Some ==> readable(
                    streams[j].duration->0,
                ))) ==> result == Err::<EvidenceView, Seq<char>>(
                unreadable(streams[i].duration->0, "stream duration"@),
            )
            &&& whole && 0 <= i < chapters.len() && (forall|j: int|
                0 <= j < streams.len() ==> ((#[trigger] streams[j]).duration is Some ==> readable(
                    streams[j].duration->0,
                ))) && (forall|j: int|
                0 <= j < i ==> readable((#[trigger] chapters[j]).start_time) && readable(
                    chapters[j].end_time,
                )) && !(readable(chapters[i].start_time) && readable(chapters[i].end_time))
                ==> result == Err::<EvidenceView, Seq<char>>(
                if !readable(chapters[i].start_time) {
                    unreadable(chapters[i].start_time, "chapter start"@)
                } else {
                    unreadable(chapters[i].end_time, "chapter end"@)
                },
            )
        }),
{
    let streams = probe.streams@;
    let chapters = probe.chapters@;
    lemma_streams_recorded(streams);
    if 0 <= i < streams.len() && streams[i].duration is Some && !readable(streams[i].duration->0)
        && (forall|j: int|
        0 <= j < i ==> ((#[trigger] streams[j]).duration is Some ==> readable(
            streams[j].duration->0,
        ))) {
        lemma_first_bad_stream(streams, i);
    }
    if 0 <= i < chapters.len() && (forall|j: int|
        0 <= j < i ==> readable((#[trigger] chapters[j]).start_time) && readable(
            chapters[j].end_time,
        )) && !(readable(chapters[i].start_time) && readable(chapters[i].end_time)) {
        lemma_first_bad_chapter(chapters, i);
    }
}

/// Whether the replies before a position are those of a sound inspection.
pub open spec fn sound_until(r: Seq<Reply>, at: int, count: int) -> bool {
    &&& 0 <= at && at + count < r.len()
    &&& count > 0 ==> r[at] == Reply::Kind(FileKind::Regular)
    &&& count > 1 ==> r[at + 1] is Resolved
    &&& count > 2 ==> r[at + 2] is Stat
    &&& count > 3 ==> r[at + 3] is Digest
    &&& count > 4 ==> r[at + 4] is Ran && r[at + 4]->Ran_0.success && valid_utf8(
        r[at + 4]->Ran_0.stdout@,
    )
    &&& count > 5 ==> r[at + 5] is Probe
}

/// What could not be done in an inspection is named, with why.
pub proof fn law_failed_inspections_are_named(
    path: Seq<u8>,
    error: String,
    point: Point,
    r: Seq<Reply>,
    at: int,
)
    ensures
        ({
            let outcome = inspect_step(path, r, at).outcome;
            let file = shown(r[at + 1]->Resolved_0@);
            let failed = Reply::Failed { point, error };
            let because = ": "@ + error@;
            &&& sound_until(r, at, 0) && r[at] == failed ==> outcome == Outcome::<
                EvidenceView,
            >::Fail("cannot inspect '"@ + shown(path) + "'"@ + because)
            &&& sound_until(r, at, 1) && r[at + 1] == failed ==> outcome == Outcome::<
                EvidenceView,
            >::Fail("cannot resolve '"@ + shown(path) + "'"@ + because)
            &&& sound_until(r, at, 2) && r[at + 2] == failed ==> outcome == Outcome::<
                EvidenceView,
            >::Fail("cannot stat '"@ + file + "'"@ + because)
            &&& sound_until(r, at, 3) && r[at + 3] == failed ==> outcome == Outcome::<
                EvidenceView,
            >::Fail(
                (if point == Point::Open {
                    "cannot open '"@
                } else {
                    "cannot hash '"@
                }) + file + "'"@ + because,
            )
            &&& sound_until(r, at, 4) && r[at + 4] == failed ==> outcome == Outcome::<
                EvidenceView,
            >::Fail("failed to execute ffprobe"@ + because)
            &&& sound_until(r, at, 5) && r[at + 5] == failed ==> outcome == Outcome::<
                EvidenceView,
            >::Fail("ffprobe returned invalid JSON"@ + because)
            &&& sound_until(r, at, 6) && r[at + 6] == failed ==> outcome == Outcome::<
                EvidenceView,
            >::Fail("cannot restat '"@ + file + "'"@ + because)
        }),
{
    reveal(inspect_step);
    reveal(regular_file_step);
    reveal(ffprobe_step);
    assert("failed to execute "@ + "ffprobe"@ =~= "failed to execute ffprobe"@) by {
        reveal_strlit("failed to execute ");
        reveal_strlit("ffprobe");
        reveal_strlit("failed to execute ffprobe");
    }
    assert forall|a: Seq<char>| #[trigger]
        (a + ": "@ + error@) == a + (": "@ + error@) by {
        assert(a + ": "@ + error@ =~= a + (": "@ + error@));
    }
}

} // verus!
