//! When an output passes the comparison with its source, and what is said where it
//! does not.
use vstd::prelude::*;
use vstd::string::*;

use crate::compare::{
    chapters_check, list_item, lists, output_check, stream_check, streams_check,
};
use crate::model::{ChapterView, EvidenceView, Profile, StreamView};
use crate::seconds::{beyond, within, SecondsView};
use crate::text::decimal_text;

verus! {

/// Whether a duration was kept: both have one, within the tolerance of each other,
/// or neither has.
pub open spec fn duration_kept(
    source: Option<SecondsView>,
    output: Option<SecondsView>,
    tolerance: SecondsView,
) -> bool {
    &&& source is Some <==> output is Some
    &&& source is Some ==> within(source->0.bits, output->0.bits, tolerance.bits)
}

/// Whether an encoded stream looks as its source says it looked: AV1 now, and of the
/// pixel format and colours that the source reports; of its bit depth where the
/// source reports no pixel format.
pub open spec fn look_kept(source: StreamView, output: StreamView) -> bool {
    &&& output.codec_name == Some("av1"@)
    &&& source.pixel_format is Some ==> output.pixel_format == source.pixel_format
    &&& source.pixel_format is None && source.bits_per_raw_sample is Some
        ==> output.bits_per_raw_sample == source.bits_per_raw_sample
    &&& source.color_space is Some ==> output.color_space == source.color_space
    &&& source.color_transfer is Some ==> output.color_transfer == source.color_transfer
    &&& source.color_primaries is Some ==> output.color_primaries == source.color_primaries
}

/// Whether a stream was kept: its type, its dimensions and its duration, and its
/// codec or, where it was encoded, its look.
pub open spec fn stream_kept(
    profile: Profile,
    source: StreamView,
    output: StreamView,
    tolerance: SecondsView,
) -> bool {
    &&& output.codec_type == source.codec_type
    &&& output.width == source.width
    &&& output.height == source.height
    &&& duration_kept(source.duration_seconds, output.duration_seconds, tolerance)
    &&& if profile == Profile::Av1 && source.codec_type == Some("video"@)
        && !source.attached_picture {
        look_kept(source, output)
    } else {
        output.codec_name == source.codec_name
    }
}

/// Whether a chapter was kept: neither its start nor its end is beyond the tolerance.
pub open spec fn chapter_kept(
    source: ChapterView,
    output: ChapterView,
    tolerance: SecondsView,
) -> bool {
    &&& !beyond(source.start_seconds.bits, output.start_seconds.bits, tolerance.bits)
    &&& !beyond(source.end_seconds.bits, output.end_seconds.bits, tolerance.bits)
}

/// Whether a text stands in another between commas, or between a comma and an end.
pub open spec fn among(whole: Seq<char>, item: Seq<char>) -> bool {
    exists|before: Seq<char>, after: Seq<char>|
        {
            &&& whole == #[trigger] (before + item + after)
            &&& before.len() == 0 || before.last() == ','
            &&& after.len() == 0 || after[0] == ','
        }
}

/// Whether an output is a file of its profile's kind: of a copy, the same bytes; of an
/// encoding, Matroska.
pub open spec fn kind_kept(
    profile: Profile,
    source: EvidenceView,
    output: EvidenceView,
) -> bool {
    &&& output.size > 0
    &&& profile == Profile::Copy ==> output.sha256 == source.sha256
    &&& profile == Profile::Av1 ==> output.format.format_name is Some && among(
        output.format.format_name->0,
        "matroska"@,
    )
}

proof fn lemma_among(whole: Seq<char>, item: Seq<char>)
    requires
        forall|i: int| 0 <= i < item.len() ==> item[i] != ',',
    ensures
        lists(whole, item) == among(whole, item),
{
    if lists(whole, item) {
        let (start, end) = choose|start: int, end: int| #[trigger]
            list_item(whole, start, end) && whole.subrange(start, end) == item;
        let before = whole.take(start);
        let after = whole.skip(end);
        assert(whole =~= before + item + after);
        assert(before.len() > 0 ==> before.last() == whole[start - 1]);
        assert(after.len() > 0 ==> after[0] == whole[end]);
    }
    if among(whole, item) {
        let (before, after) = choose|before: Seq<char>, after: Seq<char>|
            {
                &&& whole == #[trigger] (before + item + after)
                &&& before.len() == 0 || before.last() == ','
                &&& after.len() == 0 || after[0] == ','
            };
        let start = before.len() as int;
        let end = start + item.len();
        assert(before.len() > 0 ==> whole[start - 1] == before.last());
        assert(after.len() > 0 ==> whole[end] == after[0]);
        assert(whole.subrange(start, end) =~= item);
        assert forall|i: int| start <= i < end implies whole[i] != ',' by {
            assert(whole[i] == item[i - start]);
        }
        assert(list_item(whole, start, end));
    }
}

proof fn lemma_stream_kept(
    profile: Profile,
    source: StreamView,
    output: StreamView,
    tolerance: SecondsView,
)
    ensures
        stream_check(profile, source, output, tolerance) is Ok == stream_kept(
            profile,
            source,
            output,
            tolerance,
        ),
{
}

proof fn lemma_streams_kept(
    profile: Profile,
    source: Seq<StreamView>,
    output: Seq<StreamView>,
    tolerance: SecondsView,
    from: int,
)
    requires
        0 <= from <= source.len(),
    ensures
        streams_check(profile, source, output, tolerance, from) is Ok == (forall|i: int|
            from <= i < source.len() ==> stream_kept(
                profile,
                #[trigger] source[i],
                output[i],
                tolerance,
            )),
    decreases source.len() - from,
{
    if from < source.len() {
        lemma_streams_kept(profile, source, output, tolerance, from + 1);
        lemma_stream_kept(profile, source[from], output[from], tolerance);
    }
}

proof fn lemma_chapters_kept(
    source: Seq<ChapterView>,
    output: Seq<ChapterView>,
    tolerance: SecondsView,
    from: int,
)
    requires
        0 <= from <= source.len(),
    ensures
        chapters_check(source, output, tolerance, from) is Ok == (forall|i: int|
            from <= i < source.len() ==> chapter_kept(#[trigger] source[i], output[i], tolerance)),
    decreases source.len() - from,
{
    if from < source.len() {
        lemma_chapters_kept(source, output, tolerance, from + 1);
    }
}

/// An output passes the comparison exactly where all was kept: it is a file of its
/// profile's kind; it has as many streams and chapters as the source, each of them
/// kept; and the duration of the whole was kept.
pub proof fn law_outputs_pass_where_all_was_kept(
    profile: Profile,
    source: EvidenceView,
    output: EvidenceView,
    tolerance: SecondsView,
)
    ensures
        output_check(profile, source, output, tolerance) is Ok <==> {
            &&& kind_kept(profile, source, output)
            &&& output.streams.len() == source.streams.len()
            &&& forall|i: int|
                0 <= i < source.streams.len() ==> stream_kept(
                    profile,
                    #[trigger] source.streams[i],
                    output.streams[i],
                    tolerance,
                )
            &&& duration_kept(
                source.format.duration_seconds,
                output.format.duration_seconds,
                tolerance,
            )
            &&& output.chapters.len() == source.chapters.len()
            &&& forall|i: int|
                0 <= i < source.chapters.len() ==> chapter_kept(
                    #[trigger] source.chapters[i],
                    output.chapters[i],
                    tolerance,
                )
        },
{
    reveal_strlit("matroska");
    if output.format.format_name is Some {
        lemma_among(output.format.format_name->0, "matroska"@);
    }
    lemma_streams_kept(profile, source.streams, output.streams, tolerance, 0);
    lemma_chapters_kept(source.chapters, output.chapters, tolerance, 0);
}

/// An output that passes the comparison has the source's chapters: as many, and of
/// each neither the start nor the end is beyond the tolerance of the source's.
pub proof fn law_verified_chapters_correspond(
    profile: Profile,
    source: EvidenceView,
    output: EvidenceView,
    tolerance: SecondsView,
    i: int,
)
    requires
        output_check(profile, source, output, tolerance) is Ok,
        0 <= i < source.chapters.len(),
    ensures
        output.chapters.len() == source.chapters.len(),
        !beyond(
            source.chapters[i].start_seconds.bits,
            output.chapters[i].start_seconds.bits,
            tolerance.bits,
        ),
        !beyond(
            source.chapters[i].end_seconds.bits,
            output.chapters[i].end_seconds.bits,
            tolerance.bits,
        ),
{
    law_outputs_pass_where_all_was_kept(profile, source, output, tolerance);
    assert(chapter_kept(source.chapters[i], output.chapters[i], tolerance));
}

/// What is said of the first stream that was not kept.
pub open spec fn stream_complaint(
    profile: Profile,
    source: StreamView,
    output: StreamView,
    tolerance: SecondsView,
    message: Seq<char>,
) -> bool {
    let name = "stream "@ + decimal_text(source.index as nat);
    let encoded = profile == Profile::Av1 && source.codec_type == Some("video"@)
        && !source.attached_picture;
    if output.codec_type != source.codec_type {
        message == name + " type changed"@
    } else if output.width != source.width || output.height != source.height {
        message == name + " dimensions changed"@
    } else if !duration_kept(source.duration_seconds, output.duration_seconds, tolerance) {
        message == name + " duration changed beyond tolerance"@
    } else if !encoded {
        message == "preserved "@ + name + " codec changed"@
    } else if output.codec_name != Some("av1"@) {
        message == name + " is not AV1"@
    } else if source.pixel_format is Some && output.pixel_format != source.pixel_format {
        message == name + " pixel format changed"@
    } else if source.pixel_format is None && source.bits_per_raw_sample is Some
        && output.bits_per_raw_sample != source.bits_per_raw_sample {
        message == name + " bit depth changed"@
    } else if source.color_space is Some && output.color_space != source.color_space {
        message == name + " color space changed"@
    } else if source.color_transfer is Some && output.color_transfer != source.color_transfer {
        message == name + " color transfer changed"@
    } else {
        message == name + " color primaries changed"@
    }
}

#[verifier::spinoff_prover]
proof fn lemma_stream_complaint(
    profile: Profile,
    source: StreamView,
    output: StreamView,
    tolerance: SecondsView,
)
    requires
        !stream_kept(profile, source, output, tolerance),
    ensures
        stream_check(profile, source, output, tolerance) matches Err(message) && stream_complaint(
            profile,
            source,
            output,
            tolerance,
            message,
        ),
{
    let name = "stream "@ + decimal_text(source.index as nat);
    reveal_strlit(" ");
    reveal_strlit(" changed");
    reveal_strlit("pixel format");
    reveal_strlit(" pixel format changed");
    reveal_strlit("bit depth");
    reveal_strlit(" bit depth changed");
    reveal_strlit("color space");
    reveal_strlit(" color space changed");
    reveal_strlit("color transfer");
    reveal_strlit(" color transfer changed");
    reveal_strlit("color primaries");
    reveal_strlit(" color primaries changed");
    assert(name + " "@ + "pixel format"@ + " changed"@ =~= name + " pixel format changed"@);
    assert(name + " "@ + "bit depth"@ + " changed"@ =~= name + " bit depth changed"@);
    assert(name + " "@ + "color space"@ + " changed"@ =~= name + " color space changed"@);
    assert(name + " "@ + "color transfer"@ + " changed"@ =~= name + " color transfer changed"@);
    assert(name + " "@ + "color primaries"@ + " changed"@ =~= name + " color primaries changed"@);
}

proof fn lemma_first_stream(
    profile: Profile,
    source: Seq<StreamView>,
    output: Seq<StreamView>,
    tolerance: SecondsView,
    from: int,
    i: int,
)
    requires
        0 <= from <= i < source.len(),
        forall|j: int|
            from <= j < i ==> stream_kept(profile, #[trigger] source[j], output[j], tolerance),
        !stream_kept(profile, source[i], output[i], tolerance),
    ensures
        streams_check(profile, source, output, tolerance, from) == stream_check(
            profile,
            source[i],
            output[i],
            tolerance,
        ),
    decreases i - from,
{
    lemma_stream_kept(profile, source[from], output[from], tolerance);
    if from < i {
        assert(stream_kept(profile, source[from], output[from], tolerance));
        lemma_first_stream(profile, source, output, tolerance, from + 1, i);
    }
}

proof fn lemma_first_chapter(
    source: Seq<ChapterView>,
    output: Seq<ChapterView>,
    tolerance: SecondsView,
    from: int,
    i: int,
)
    requires
        0 <= from <= i < source.len(),
        forall|j: int| from <= j < i ==> chapter_kept(#[trigger] source[j], output[j], tolerance),
        !chapter_kept(source[i], output[i], tolerance),
    ensures
        chapters_check(source, output, tolerance, from) == Err::<(), Seq<char>>(
            "chapter "@ + decimal_text(i as nat) + " timing changed"@,
        ),
    decreases i - from,
{
    if from < i {
        assert(chapter_kept(source[from], output[from], tolerance));
        lemma_first_chapter(source, output, tolerance, from + 1, i);
    }
}

/// An output that is of another kind than its profile asks, or has another number of
/// streams, is refused for that.
pub proof fn law_wrong_kinds_are_named(
    profile: Profile,
    source: EvidenceView,
    output: EvidenceView,
    tolerance: SecondsView,
)
    ensures
        output.size == 0 ==> output_check(profile, source, output, tolerance) == Err::<
            (),
            Seq<char>,
        >("output is empty"@),
        output.size > 0 && profile == Profile::Copy && output.sha256 != source.sha256
            ==> output_check(profile, source, output, tolerance) == Err::<(), Seq<char>>(
            "copy profile output hash differs from source hash"@,
        ),
        output.size > 0 && profile == Profile::Av1 && !(output.format.format_name is Some
            && among(output.format.format_name->0, "matroska"@)) ==> output_check(
            profile,
            source,
            output,
            tolerance,
        ) == Err::<(), Seq<char>>("AV1 output is not Matroska"@),
        kind_kept(profile, source, output) && output.streams.len() != source.streams.len()
            ==> output_check(profile, source, output, tolerance) == Err::<(), Seq<char>>(
            "stream count changed"@,
        ),
{
    reveal_strlit("matroska");
    if output.format.format_name is Some {
        lemma_among(output.format.format_name->0, "matroska"@);
    }
}

/// The first stream that was not kept is named, with what has changed of it.
pub proof fn law_first_changed_stream_is_named(
    profile: Profile,
    source: EvidenceView,
    output: EvidenceView,
    tolerance: SecondsView,
    i: int,
)
    requires
        kind_kept(profile, source, output),
        output.streams.len() == source.streams.len(),
        0 <= i < source.streams.len(),
        forall|j: int|
            0 <= j < i ==> stream_kept(
                profile,
                #[trigger] source.streams[j],
                output.streams[j],
                tolerance,
            ),
        !stream_kept(profile, source.streams[i], output.streams[i], tolerance),
    ensures
        output_check(profile, source, output, tolerance) matches Err(message) && stream_complaint(
            profile,
            source.streams[i],
            output.streams[i],
            tolerance,
            message,
        ),
{
    reveal_strlit("matroska");
    if output.format.format_name is Some {
        lemma_among(output.format.format_name->0, "matroska"@);
    }
    lemma_first_stream(profile, source.streams, output.streams, tolerance, 0, i);
    lemma_stream_complaint(profile, source.streams[i], output.streams[i], tolerance);
}

/// Where every stream was kept, a changed duration of the whole is named, then a
/// changed number of chapters, then the first chapter whose times have changed.
pub proof fn law_first_changed_chapter_is_named(
    profile: Profile,
    source: EvidenceView,
    output: EvidenceView,
    tolerance: SecondsView,
    i: int,
)
    requires
        kind_kept(profile, source, output),
        output.streams.len() == source.streams.len(),
        forall|j: int|
            0 <= j < source.streams.len() ==> stream_kept(
                profile,
                #[trigger] source.streams[j],
                output.streams[j],
                tolerance,
            ),
    ensures
        ({
            let timed = duration_kept(
                source.format.duration_seconds,
                output.format.duration_seconds,
                tolerance,
            );
            let counted = output.chapters.len() == source.chapters.len();
            let result = output_check(profile, source, output, tolerance);
            &&& !timed ==> result == Err::<(), Seq<char>>(
                "container duration changed beyond tolerance"@,
            )
            &&& timed && !counted ==> result == Err::<(), Seq<char>>("chapter count changed"@)
            &&& timed && counted && 0 <= i < source.chapters.len() && (forall|j: int|
                0 <= j < i ==> chapter_kept(
                    #[trigger] source.chapters[j],
                    output.chapters[j],
                    tolerance,
                )) && !chapter_kept(source.chapters[i], output.chapters[i], tolerance)
                ==> result == Err::<(), Seq<char>>(
                "chapter "@ + decimal_text(i as nat) + " timing changed"@,
            )
        }),
{
    reveal_strlit("matroska");
    if output.format.format_name is Some {
        lemma_among(output.format.format_name->0, "matroska"@);
    }
    reveal_strlit("container");
    reveal_strlit(" duration changed beyond tolerance");
    reveal_strlit("container duration changed beyond tolerance");
    assert("container"@ + " duration changed beyond tolerance"@
        =~= "container duration changed beyond tolerance"@);
    lemma_streams_kept(profile, source.streams, output.streams, tolerance, 0);
    if 0 <= i < source.chapters.len() && (forall|j: int|
        0 <= j < i ==> chapter_kept(#[trigger] source.chapters[j], output.chapters[j], tolerance))
        && !chapter_kept(source.chapters[i], output.chapters[i], tolerance) {
        lemma_first_chapter(source.chapters, output.chapters, tolerance, 0, i);
    }
}

} // verus!
