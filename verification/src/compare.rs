//! Whether an output says the same as its source, as far as its profile asks.
use vstd::prelude::*;
use vstd::string::*;

use crate::flow::agrees;
use crate::model::{
    ChapterView, EvidenceView, MediaEvidence, Profile, StreamSummary, StreamView,
};
use crate::inspect::{proper_time, proper_times};
use crate::seconds::{
    at_most, beyond, beyond_tolerance, law_within_a_larger_tolerance, law_within_is_reflexive,
    non_negative, within, within_tolerance, Seconds, SecondsView,
};
use crate::text::{cat2, cat3, cat5, characters, decimal, decimal_text, same_optional, same_text};

verus! {

/// Whether two durations are both absent, or within a tolerance of each other.
pub open spec fn durations_match(
    source: Option<SecondsView>,
    output: Option<SecondsView>,
    tolerance: SecondsView,
) -> bool {
    match (source, output) {
        (Some(source), Some(output)) => within(source.bits, output.bits, tolerance.bits),
        (None, None) => true,
        _ => false,
    }
}

/// What the comparison of two optional durations says.
pub open spec fn duration_check(
    source: Option<SecondsView>,
    output: Option<SecondsView>,
    tolerance: SecondsView,
    subject: Seq<char>,
) -> Result<(), Seq<char>> {
    if durations_match(source, output, tolerance) {
        Ok(())
    } else {
        Err(subject + " duration changed beyond tolerance"@)
    }
}

/// Accepts two durations that are both absent, or both present and within the
/// tolerance of each other.
pub fn compare_duration(
    source: &Option<Seconds>,
    output: &Option<Seconds>,
    tolerance: &Seconds,
    subject: &str,
) -> (result: Result<(), String>)
    ensures
        agrees(
            result,
            duration_check(
                source.deep_view(),
                output.deep_view(),
                tolerance.deep_view(),
                subject@,
            ),
        ),
{
    let same = match (source, output) {
        (Some(source), Some(output)) => within_tolerance(source, output, tolerance),
        (None, None) => true,
        _ => false,
    };
    if same {
        Ok(())
    } else {
        Err(cat2(subject, " duration changed beyond tolerance"))
    }
}

/// A stream, as messages name it.
pub open spec fn stream_name(index: u32) -> Seq<char> {
    "stream "@ + decimal_text(index as nat)
}

/// Whether a property that the source reports is the same in the output.
pub open spec fn kept_where_reported(source: Option<Seq<char>>, output: Option<Seq<char>>) -> bool {
    source is Some ==> output == source
}

/// What the comparison of a property that the source may report says.
pub open spec fn reported_check(
    source: Option<Seq<char>>,
    output: Option<Seq<char>>,
    field: Seq<char>,
    index: u32,
) -> Result<(), Seq<char>> {
    if kept_where_reported(source, output) {
        Ok(())
    } else {
        Err(stream_name(index) + " "@ + field + " changed"@)
    }
}

/// Accepts a property that the source does not report, or that the output
/// reports alike.
pub fn compare_reported(
    source: &Option<String>,
    output: &Option<String>,
    field: &str,
    index: u32,
) -> (result: Result<(), String>)
    ensures
        agrees(result, reported_check(source.deep_view(), output.deep_view(), field@, index)),
{
    if source.is_some() && !same_optional(source, output) {
        Err(cat5("stream ", &decimal(index as u64), " ", field, " changed"))
    } else {
        Ok(())
    }
}

/// Whether a stretch of a comma-separated list is one of its items.
pub open spec fn list_item(list: Seq<char>, start: int, end: int) -> bool {
    &&& 0 <= start <= end <= list.len()
    &&& start == 0 || list[start - 1] == ','
    &&& end == list.len() || list[end] == ','
    &&& forall|i: int| start <= i < end ==> list[i] != ','
}

/// Whether a comma-separated list has the given item.
pub open spec fn lists(list: Seq<char>, item: Seq<char>) -> bool {
    exists|start: int, end: int| #[trigger]
        list_item(list, start, end) && list.subrange(start, end) == item
}

/// Whether `item` stands in `list` from `start` up to `end`.
fn stands_at(list: &Vec<char>, start: usize, end: usize, item: &Vec<char>) -> (result: bool)
    requires
        start <= end <= list.len(),
    ensures
        result == (list@.subrange(start as int, end as int) == item@),
{
    if end - start != item.len() {
        return false;
    }
    let mut i: usize = 0;
    while i < item.len()
        invariant
            start <= end <= list.len(),
            end - start == item.len(),
            i <= item.len(),
            forall|k: int| 0 <= k < i ==> list[start + k] == item[k],
        decreases item.len() - i,
    {
        if list[start + i] != item[i] {
            assert(list@.subrange(start as int, end as int)[i as int] != item@[i as int]);
            return false;
        }
        i = i + 1;
    }
    assert(list@.subrange(start as int, end as int) =~= item@);
    true
}

/// Whether a comma-separated list has the given item.
pub fn has_item(list: &str, item: &str) -> (result: bool)
    ensures
        result == lists(list@, item@),
{
    let chars = characters(list);
    let wanted = characters(item);
    let mut start: usize = 0;
    let mut end: usize = 0;
    while end < chars.len()
        invariant
            chars@ == list@,
            wanted@ == item@,
            start <= end <= chars.len(),
            start == 0 || chars[start - 1] == ',',
            forall|i: int| start <= i < end ==> chars[i] != ',',
            forall|s: int, e: int|
                #![trigger list_item(list@, s, e)]
                list_item(list@, s, e) && s < start ==> list@.subrange(s, e) != item@,
        decreases chars.len() - end,
    {
        if chars[end] == ',' {
            if stands_at(&chars, start, end, &wanted) {
                assert(list_item(list@, start as int, end as int));
                return true;
            }
            proof {
                assert forall|s: int, e: int|
                    #![trigger list_item(list@, s, e)]
                    list_item(list@, s, e) && s < end + 1 implies list@.subrange(s, e)
                    != item@ by {
                    if s >= start {
                        if s > start {
                            assert(list@[s - 1] == ',');
                        }
                        if e < end {
                            assert(list@[e] == ',');
                        } else if e > end {
                            assert(list@[end as int] != ',');
                        }
                    }
                }
            }
            start = end + 1;
        }
        end = end + 1;
    }
    let result = stands_at(&chars, start, end, &wanted);
    proof {
        if result {
            assert(list_item(list@, start as int, end as int));
        } else {
            assert forall|s: int, e: int|
                #![trigger list_item(list@, s, e)]
                list_item(list@, s, e) implies list@.subrange(s, e) != item@ by {
                if s >= start {
                    if s > start {
                        assert(list@[s - 1] == ',');
                    }
                    if e < end {
                        assert(list@[e] == ',');
                    }
                }
            }
        }
    }
    result
}

/// Whether a stream is encoded anew rather than kept.
pub open spec fn transcoded(profile: Profile, stream: StreamView) -> bool {
    profile == Profile::Av1 && stream.codec_type == Some("video"@) && !stream.attached_picture
}

/// The first of two results that is an error, or else success.
pub open spec fn both(
    first: Result<(), Seq<char>>,
    second: Result<(), Seq<char>>,
) -> Result<(), Seq<char>> {
    match first {
        Ok(()) => second,
        Err(message) => Err(message),
    }
}

/// What the comparison of a stream that was encoded anew says: it is AV1 now,
/// and looks as the source says it looked.
pub open spec fn transcoded_check(source: StreamView, output: StreamView) -> Result<
    (),
    Seq<char>,
> {
    if output.codec_name != Some("av1"@) {
        Err(stream_name(source.index) + " is not AV1"@)
    } else {
        both(
            reported_check(
                source.pixel_format,
                output.pixel_format,
                "pixel format"@,
                source.index,
            ),
            both(
                if source.pixel_format is None {
                    reported_check(
                        source.bits_per_raw_sample,
                        output.bits_per_raw_sample,
                        "bit depth"@,
                        source.index,
                    )
                } else {
                    Ok(())
                },
                both(
                    reported_check(
                        source.color_space,
                        output.color_space,
                        "color space"@,
                        source.index,
                    ),
                    both(
                        reported_check(
                            source.color_transfer,
                            output.color_transfer,
                            "color transfer"@,
                            source.index,
                        ),
                        reported_check(
                            source.color_primaries,
                            output.color_primaries,
                            "color primaries"@,
                            source.index,
                        ),
                    ),
                ),
            ),
        )
    }
}

/// What the comparison of one stream of the source with the output's says.
pub open spec fn stream_check(
    profile: Profile,
    source: StreamView,
    output: StreamView,
    tolerance: SecondsView,
) -> Result<(), Seq<char>> {
    if source.codec_type != output.codec_type {
        Err(stream_name(source.index) + " type changed"@)
    } else if source.width != output.width || source.height != output.height {
        Err(stream_name(source.index) + " dimensions changed"@)
    } else {
        both(
            duration_check(
                source.duration_seconds,
                output.duration_seconds,
                tolerance,
                stream_name(source.index),
            ),
            if transcoded(profile, source) {
                transcoded_check(source, output)
            } else if source.codec_name != output.codec_name {
                Err("preserved "@ + stream_name(source.index) + " codec changed"@)
            } else {
                Ok(())
            },
        )
    }
}

/// What the comparison of the streams from a position on says: the first
/// stream that differs decides.
pub open spec fn streams_check(
    profile: Profile,
    source: Seq<StreamView>,
    output: Seq<StreamView>,
    tolerance: SecondsView,
    from: int,
) -> Result<(), Seq<char>>
    decreases source.len() - from,
{
    if from < 0 || from >= source.len() {
        Ok(())
    } else {
        both(
            stream_check(profile, source[from], output[from], tolerance),
            streams_check(profile, source, output, tolerance, from + 1),
        )
    }
}

/// What the comparison of the chapters from a position on says.
pub open spec fn chapters_check(
    source: Seq<ChapterView>,
    output: Seq<ChapterView>,
    tolerance: SecondsView,
    from: int,
) -> Result<(), Seq<char>>
    decreases source.len() - from,
{
    if from < 0 || from >= source.len() {
        Ok(())
    } else if beyond(
        source[from].start_seconds.bits,
        output[from].start_seconds.bits,
        tolerance.bits,
    ) || beyond(source[from].end_seconds.bits, output[from].end_seconds.bits, tolerance.bits) {
        Err("chapter "@ + decimal_text(from as nat) + " timing changed"@)
    } else {
        chapters_check(source, output, tolerance, from + 1)
    }
}

/// What the comparison of an output with its source says.
pub open spec fn output_check(
    profile: Profile,
    source: EvidenceView,
    output: EvidenceView,
    tolerance: SecondsView,
) -> Result<(), Seq<char>> {
    if output.size == 0 {
        Err("output is empty"@)
    } else if profile == Profile::Copy && output.sha256 != source.sha256 {
        Err("copy profile output hash differs from source hash"@)
    } else if profile == Profile::Av1 && !(output.format.format_name is Some && lists(
        output.format.format_name->0,
        "matroska"@,
    )) {
        Err("AV1 output is not Matroska"@)
    } else if source.streams.len() != output.streams.len() {
        Err("stream count changed"@)
    } else {
        both(
            streams_check(profile, source.streams, output.streams, tolerance, 0),
            both(
                duration_check(
                    source.format.duration_seconds,
                    output.format.duration_seconds,
                    tolerance,
                    "container"@,
                ),
                if source.chapters.len() != output.chapters.len() {
                    Err("chapter count changed"@)
                } else {
                    chapters_check(source.chapters, output.chapters, tolerance, 0)
                },
            ),
        )
    }
}

fn is_text(value: &Option<String>, wanted: &str) -> (result: bool)
    ensures
        result == (value.deep_view() == Some(wanted@)),
{
    match value {
        Some(value) => same_text(value, wanted),
        None => false,
    }
}

/// A stream, as messages name it.
fn stream_label(index: u32) -> (name: String)
    ensures
        name@ == stream_name(index),
{
    cat2("stream ", &decimal(index as u64))
}

/// Compares a stream that was encoded anew.
pub fn verify_transcoded(source: &StreamSummary, output: &StreamSummary) -> (result: Result<
    (),
    String,
>)
    ensures
        agrees(result, transcoded_check(source.deep_view(), output.deep_view())),
{
    let index: u32 = source.index;
    if !is_text(&output.codec_name, "av1") {
        return Err(cat2(&stream_label(index), " is not AV1"));
    }
    compare_reported(&source.pixel_format, &output.pixel_format, "pixel format", index)?;
    if source.pixel_format.is_none() {
        compare_reported(
            &source.bits_per_raw_sample,
            &output.bits_per_raw_sample,
            "bit depth",
            index,
        )?;
    }
    compare_reported(&source.color_space, &output.color_space, "color space", index)?;
    compare_reported(&source.color_transfer, &output.color_transfer, "color transfer", index)?;
    compare_reported(&source.color_primaries, &output.color_primaries, "color primaries", index)
}

/// Compares one stream of the source with the output's.
pub fn verify_stream(
    profile: Profile,
    source: &StreamSummary,
    output: &StreamSummary,
    tolerance: &Seconds,
) -> (result: Result<(), String>)
    ensures
        agrees(
            result,
            stream_check(profile, source.deep_view(), output.deep_view(), tolerance.deep_view()),
        ),
{
    let name = stream_label(source.index);
    if !same_optional(&source.codec_type, &output.codec_type) {
        return Err(cat2(&name, " type changed"));
    }
    if source.width != output.width || source.height != output.height {
        return Err(cat2(&name, " dimensions changed"));
    }
    compare_duration(&source.duration_seconds, &output.duration_seconds, tolerance, &name)?;
    if profile == Profile::Av1 && is_text(&source.codec_type, "video") && !source.attached_picture {
        verify_transcoded(source, output)
    } else if !same_optional(&source.codec_name, &output.codec_name) {
        Err(cat3("preserved ", &name, " codec changed"))
    } else {
        Ok(())
    }
}

/// Accepts an output that says the same as its source: of a copy, that it holds
/// the same bytes; of an encoding, that it is Matroska with AV1 video; of both,
/// that streams, durations and chapters are as they were, within a tolerance.
pub fn verify_output(
    profile: Profile,
    source: &MediaEvidence,
    output: &MediaEvidence,
    tolerance: &Seconds,
) -> (result: Result<(), String>)
    ensures
        agrees(
            result,
            output_check(profile, source.deep_view(), output.deep_view(), tolerance.deep_view()),
        ),
{
    if output.size == 0 {
        return Err("output is empty".to_owned());
    }
    if profile == Profile::Copy && !same_text(&output.sha256, &source.sha256) {
        return Err("copy profile output hash differs from source hash".to_owned());
    }
    if profile == Profile::Av1 {
        let matroska = match &output.format.format_name {
            Some(names) => has_item(names, "matroska"),
            None => false,
        };
        if !matroska {
            return Err("AV1 output is not Matroska".to_owned());
        }
    }
    if source.streams.len() != output.streams.len() {
        return Err("stream count changed".to_owned());
    }
    let mut i: usize = 0;
    while i < source.streams.len()
        invariant
            i <= source.streams.len(),
            source.streams.len() == output.streams.len(),
            output.size != 0,
            profile == Profile::Copy ==> output.sha256@ == source.sha256@,
            profile == Profile::Av1 ==> output.format.format_name is Some && lists(
                output.format.format_name->0@,
                "matroska"@,
            ),
            streams_check(
                profile,
                source.deep_view().streams,
                output.deep_view().streams,
                tolerance.deep_view(),
                i as int,
            ) == streams_check(
                profile,
                source.deep_view().streams,
                output.deep_view().streams,
                tolerance.deep_view(),
                0,
            ),
        decreases source.streams.len() - i,
    {
        verify_stream(profile, &source.streams[i], &output.streams[i], tolerance)?;
        i = i + 1;
    }
    compare_duration(
        &source.format.duration_seconds,
        &output.format.duration_seconds,
        tolerance,
        "container",
    )?;
    if source.chapters.len() != output.chapters.len() {
        return Err("chapter count changed".to_owned());
    }
    let ghost before = chapters_check(
        source.deep_view().chapters,
        output.deep_view().chapters,
        tolerance.deep_view(),
        0,
    );
    let mut k: usize = 0;
    while k < source.chapters.len()
        invariant
            k <= source.chapters.len(),
            source.chapters.len() == output.chapters.len(),
            before == output_check(
                profile,
                source.deep_view(),
                output.deep_view(),
                tolerance.deep_view(),
            ),
            chapters_check(
                source.deep_view().chapters,
                output.deep_view().chapters,
                tolerance.deep_view(),
                k as int,
            ) == before,
        decreases source.chapters.len() - k,
    {
        if beyond_tolerance(
            &source.chapters[k].start_seconds,
            &output.chapters[k].start_seconds,
            tolerance,
        ) || beyond_tolerance(
            &source.chapters[k].end_seconds,
            &output.chapters[k].end_seconds,
            tolerance,
        ) {
            return Err(cat3("chapter ", &decimal(k as u64), " timing changed"));
        }
        k = k + 1;
    }
    Ok(())
}

proof fn lemma_streams_compare_with_themselves(
    profile: Profile,
    streams: Seq<StreamView>,
    tolerance: SecondsView,
    from: int,
)
    requires
        profile == Profile::Copy,
        non_negative(tolerance.bits),
        forall|i: int|
            0 <= i < streams.len() ==> proper_time(#[trigger] streams[i].duration_seconds),
    ensures
        streams_check(profile, streams, streams, tolerance, from) is Ok,
    decreases streams.len() - from,
{
    if 0 <= from < streams.len() {
        assert(proper_time(streams[from].duration_seconds));
        if let Some(seconds) = streams[from].duration_seconds {
            law_within_is_reflexive(seconds.bits, tolerance.bits);
        }
        lemma_streams_compare_with_themselves(profile, streams, tolerance, from + 1);
    }
}

proof fn lemma_chapters_compare_with_themselves(
    chapters: Seq<ChapterView>,
    tolerance: SecondsView,
    from: int,
)
    requires
        non_negative(tolerance.bits),
        forall|i: int|
            0 <= i < chapters.len() ==> non_negative(#[trigger] chapters[i].start_seconds.bits)
                && non_negative(chapters[i].end_seconds.bits),
    ensures
        chapters_check(chapters, chapters, tolerance, from) is Ok,
    decreases chapters.len() - from,
{
    if 0 <= from < chapters.len() {
        assert(non_negative(chapters[from].start_seconds.bits));
        law_within_is_reflexive(chapters[from].start_seconds.bits, tolerance.bits);
        law_within_is_reflexive(chapters[from].end_seconds.bits, tolerance.bits);
        lemma_chapters_compare_with_themselves(chapters, tolerance, from + 1);
    }
}

/// An exact copy of a file that is not empty passes the comparison with it.
#[verifier::spinoff_prover]
pub proof fn law_exact_copies_verify(
    source: EvidenceView,
    output: EvidenceView,
    tolerance: SecondsView,
)
    requires
        proper_times(source),
        non_negative(tolerance.bits),
        output.size > 0,
        output.sha256 == source.sha256,
        output.format == source.format,
        output.streams == source.streams,
        output.chapters == source.chapters,
    ensures
        output_check(Profile::Copy, source, output, tolerance) is Ok,
{
    assert forall|i: int| 0 <= i < source.streams.len() implies proper_time(
        #[trigger] source.streams[i].duration_seconds,
    ) by {}
    assert forall|i: int| 0 <= i < source.chapters.len() implies non_negative(
        #[trigger] source.chapters[i].start_seconds.bits,
    ) && non_negative(source.chapters[i].end_seconds.bits) by {}
    lemma_streams_compare_with_themselves(Profile::Copy, source.streams, tolerance, 0);
    lemma_chapters_compare_with_themselves(source.chapters, tolerance, 0);
    if let Some(seconds) = source.format.duration_seconds {
        law_within_is_reflexive(seconds.bits, tolerance.bits);
    }
}

proof fn lemma_compared_streams(
    profile: Profile,
    source: Seq<StreamView>,
    output: Seq<StreamView>,
    tolerance: SecondsView,
    from: int,
    i: int,
)
    requires
        streams_check(profile, source, output, tolerance, from) is Ok,
        0 <= from <= i < source.len(),
    ensures
        stream_check(profile, source[i], output[i], tolerance) is Ok,
    decreases i - from,
{
    if from < i {
        lemma_compared_streams(profile, source, output, tolerance, from + 1, i);
    }
}

/// Whether a stream that was encoded anew looks as the source says it looked:
/// the pixel format where the source reports one, else the bit depth, and the
/// colour properties that it reports.
pub open spec fn looks_as_reported(source: StreamView, output: StreamView) -> bool {
    &&& kept_where_reported(source.pixel_format, output.pixel_format)
    &&& source.pixel_format is None ==> kept_where_reported(
        source.bits_per_raw_sample,
        output.bits_per_raw_sample,
    )
    &&& kept_where_reported(source.color_space, output.color_space)
    &&& kept_where_reported(source.color_transfer, output.color_transfer)
    &&& kept_where_reported(source.color_primaries, output.color_primaries)
}

/// What passes the comparison has a stream for each of the source's, of the same
/// type and dimensions and, within the tolerance, of the same duration; a stream
/// that was encoded anew is AV1 now and looks as the source says it looked, and
/// every other one has the codec it had.
pub proof fn law_verified_streams_correspond(
    profile: Profile,
    source: EvidenceView,
    output: EvidenceView,
    tolerance: SecondsView,
    i: int,
)
    requires
        output_check(profile, source, output, tolerance) is Ok,
        0 <= i < source.streams.len(),
    ensures
        source.streams.len() == output.streams.len(),
        source.chapters.len() == output.chapters.len(),
        source.streams[i].codec_type == output.streams[i].codec_type,
        source.streams[i].width == output.streams[i].width,
        source.streams[i].height == output.streams[i].height,
        durations_match(
            source.streams[i].duration_seconds,
            output.streams[i].duration_seconds,
            tolerance,
        ),
        transcoded(profile, source.streams[i]) ==> output.streams[i].codec_name == Some("av1"@)
            && looks_as_reported(source.streams[i], output.streams[i]),
        !transcoded(profile, source.streams[i]) ==> output.streams[i].codec_name
            == source.streams[i].codec_name,
{
    lemma_compared_streams(profile, source.streams, output.streams, tolerance, 0, i);
}

proof fn lemma_durations_match_more(
    source: Option<SecondsView>,
    output: Option<SecondsView>,
    tolerance: SecondsView,
    larger: SecondsView,
)
    requires
        durations_match(source, output, tolerance),
        at_most(tolerance.bits, larger.bits),
    ensures
        durations_match(source, output, larger),
{
    if let (Some(source), Some(output)) = (source, output) {
        law_within_a_larger_tolerance(source.bits, output.bits, tolerance.bits, larger.bits);
    }
}

proof fn lemma_streams_match_more(
    profile: Profile,
    source: Seq<StreamView>,
    output: Seq<StreamView>,
    tolerance: SecondsView,
    larger: SecondsView,
    from: int,
)
    requires
        streams_check(profile, source, output, tolerance, from) is Ok,
        at_most(tolerance.bits, larger.bits),
    ensures
        streams_check(profile, source, output, larger, from) is Ok,
    decreases source.len() - from,
{
    if 0 <= from < source.len() {
        lemma_durations_match_more(
            source[from].duration_seconds,
            output[from].duration_seconds,
            tolerance,
            larger,
        );
        lemma_streams_match_more(profile, source, output, tolerance, larger, from + 1);
    }
}

proof fn lemma_chapters_match_more(
    source: Seq<ChapterView>,
    output: Seq<ChapterView>,
    tolerance: SecondsView,
    larger: SecondsView,
    from: int,
)
    requires
        chapters_check(source, output, tolerance, from) is Ok,
        at_most(tolerance.bits, larger.bits),
    ensures
        chapters_check(source, output, larger, from) is Ok,
    decreases source.len() - from,
{
    if 0 <= from < source.len() {
        let (a, b) = (source[from], output[from]);
        law_within_a_larger_tolerance(
            a.start_seconds.bits,
            b.start_seconds.bits,
            tolerance.bits,
            larger.bits,
        );
        law_within_a_larger_tolerance(
            a.end_seconds.bits,
            b.end_seconds.bits,
            tolerance.bits,
            larger.bits,
        );
        lemma_chapters_match_more(source, output, tolerance, larger, from + 1);
    }
}

/// What passes the comparison at one tolerance passes it at every larger one.
pub proof fn law_larger_tolerance_accepts_more(
    profile: Profile,
    source: EvidenceView,
    output: EvidenceView,
    tolerance: SecondsView,
    larger: SecondsView,
)
    requires
        output_check(profile, source, output, tolerance) is Ok,
        at_most(tolerance.bits, larger.bits),
    ensures
        output_check(profile, source, output, larger) is Ok,
{
    lemma_streams_match_more(profile, source.streams, output.streams, tolerance, larger, 0);
    lemma_durations_match_more(
        source.format.duration_seconds,
        output.format.duration_seconds,
        tolerance,
        larger,
    );
    lemma_chapters_match_more(source.chapters, output.chapters, tolerance, larger, 0);
}

} // verus!
