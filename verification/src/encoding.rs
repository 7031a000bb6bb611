//! What the outside programs are told, argument by argument.
use vstd::prelude::*;
use vstd::string::*;

use crate::model::{Av1View, PlanView, StreamView};
use crate::os_text::raw;
use crate::text::{decimal_text, law_decimals_read_back};
use crate::tool::{
    av1_arguments, decode_arguments, encoder_arguments, option_arguments, probe_arguments,
    stream_arguments, stream_option, video, video_count,
};

verus! {

/// Whether a list of arguments gives an option a value. From the start of the list
/// an option and its value take turns.
pub open spec fn gives(arguments: Seq<Seq<char>>, option: Seq<char>, value: Seq<char>) -> bool {
    exists|k: int|
        0 <= k && 2 * k + 1 < arguments.len() && #[trigger] arguments[2 * k] == option
            && arguments[2 * k + 1] == value
}

/// The number of a stream among the video streams: how many come before it.
pub open spec fn ordinal(streams: Seq<StreamView>, i: int) -> nat {
    streams.take(i).filter(|stream: StreamView| stream.codec_type == Some("video"@)).len()
}

/// Whether a stream is video that is no attached picture.
pub open spec fn to_encode(stream: StreamView) -> bool {
    stream.codec_type == Some("video"@) && !stream.attached_picture
}

proof fn lemma_gives_concat(
    a: Seq<Seq<char>>,
    b: Seq<Seq<char>>,
    option: Seq<char>,
    value: Seq<char>,
)
    requires
        a.len() % 2 == 0,
    ensures
        gives(a + b, option, value) == (gives(a, option, value) || gives(b, option, value)),
{
    let whole = a + b;
    let n = a.len() as int / 2;
    if gives(whole, option, value) {
        let k = choose|k: int|
            0 <= k && 2 * k + 1 < whole.len() && #[trigger] whole[2 * k] == option && whole[2 * k
                + 1] == value;
        if k < n {
            assert(a[2 * k] == option);
        } else {
            assert(whole[2 * k] == b[2 * (k - n)]);
            assert(b[2 * (k - n) + 1] == value);
            assert(b[2 * (k - n)] == option);
        }
    }
    if gives(a, option, value) {
        let k = choose|k: int|
            0 <= k && 2 * k + 1 < a.len() && #[trigger] a[2 * k] == option && a[2 * k + 1]
                == value;
        assert(whole[2 * k] == option);
    }
    if gives(b, option, value) {
        let k = choose|k: int|
            0 <= k && 2 * k + 1 < b.len() && #[trigger] b[2 * k] == option && b[2 * k + 1]
                == value;
        assert(whole[2 * (k + n)] == b[2 * k]);
        assert(whole[2 * (k + n) + 1] == value);
    }
}

/// A pair gives its option its value and nothing else.
proof fn lemma_gives_pair(
    name: Seq<char>,
    given: Seq<char>,
    option: Seq<char>,
    value: Seq<char>,
)
    ensures
        gives(seq![name, given], option, value) == (name == option && given == value),
{
    let pair = seq![name, given];
    if gives(pair, option, value) {
        let k = choose|k: int|
            0 <= k && 2 * k + 1 < pair.len() && #[trigger] pair[2 * k] == option && pair[2 * k
                + 1] == value;
        assert(k == 0);
    }
    if name == option && given == value {
        let k: int = 0;
        assert(pair[2 * k] == option);
        assert(pair[2 * k + 1] == value);
    }
}

proof fn lemma_gives_nothing(option: Seq<char>, value: Seq<char>)
    ensures
        !gives(Seq::empty(), option, value),
{
}

/// An option for one stream is told apart by its name and the stream's number.
proof fn lemma_options_differ(a: Seq<char>, m: nat, b: Seq<char>, n: nat)
    requires
        stream_option(a, m) == stream_option(b, n),
        forall|i: int| 0 <= i < a.len() ==> a[i] != ':',
        forall|i: int| 0 <= i < b.len() ==> b[i] != ':',
    ensures
        a == b,
        m == n,
{
    reveal_strlit("-");
    reveal_strlit(":v:");
    let left = stream_option(a, m);
    let right = stream_option(b, n);
    assert(left[1 + a.len() as int] == ':');
    assert(right[1 + b.len() as int] == ':');
    if a.len() < b.len() {
        assert(right[1 + a.len() as int] == b[a.len() as int]);
    } else if b.len() < a.len() {
        assert(left[1 + b.len() as int] == a[b.len() as int]);
    }
    assert(a =~= left.subrange(1, 1 + a.len() as int));
    assert(b =~= right.subrange(1, 1 + b.len() as int));
    assert(decimal_text(m) =~= left.skip(4 + a.len() as int));
    assert(decimal_text(n) =~= right.skip(4 + b.len() as int));
    law_decimals_read_back(m);
    law_decimals_read_back(n);
}

/// What an option of a stream is to be, by the option's name.
spec fn wanted(stream: StreamView, av1: Av1View, name: Seq<char>) -> Option<Seq<char>> {
    if name == "c"@ {
        Some("libsvtav1"@)
    } else if name == "crf"@ {
        Some(decimal_text(av1.crf as nat))
    } else if name == "preset"@ {
        Some(decimal_text(av1.preset as nat))
    } else if name == "pix_fmt"@ {
        stream.pixel_format
    } else if name == "color_primaries"@ {
        stream.color_primaries
    } else if name == "color_trc"@ {
        stream.color_transfer
    } else if name == "colorspace"@ {
        stream.color_space
    } else {
        None
    }
}

proof fn lemma_names()
    ensures
        ({
            let names = seq![
                "c"@,
                "crf"@,
                "preset"@,
                "pix_fmt"@,
                "color_primaries"@,
                "color_trc"@,
                "colorspace"@,
            ];
            &&& forall|i: int, j: int|
                0 <= i < 7 && 0 <= j < 7 && #[trigger] names[i] == #[trigger] names[j] ==> i == j
            &&& forall|i: int, k: int|
                0 <= i < 7 && 0 <= k < names[i].len() ==> #[trigger] names[i][k] != ':'
        }),
{
    reveal_strlit("c");
    reveal_strlit("crf");
    reveal_strlit("preset");
    reveal_strlit("pix_fmt");
    reveal_strlit("color_primaries");
    reveal_strlit("color_trc");
    reveal_strlit("colorspace");
    let names = seq![
        "c"@,
        "crf"@,
        "preset"@,
        "pix_fmt"@,
        "color_primaries"@,
        "color_trc"@,
        "colorspace"@,
    ];
    assert forall|i: int, j: int|
        0 <= i < 7 && 0 <= j < 7 && #[trigger] names[i] == #[trigger] names[j] implies i == j by {
        assert(names[0].len() == 1 && names[1].len() == 3 && names[2].len() == 6 && names[3].len()
            == 7 && names[4].len() == 15 && names[5].len() == 9 && names[6].len() == 10);
    }
    assert forall|i: int, k: int| 0 <= i < 7 && 0 <= k < names[i].len() implies #[trigger]
        names[i][k] != ':' by {
        if i == 0 {
            assert("c"@[k] != ':');
        } else if i == 1 {
            assert("crf"@[k] != ':');
        } else if i == 2 {
            assert("preset"@[k] != ':');
        } else if i == 3 {
            assert("pix_fmt"@[k] != ':');
        } else if i == 4 {
            assert("color_primaries"@[k] != ':');
        } else if i == 5 {
            assert("color_trc"@[k] != ':');
        } else {
            assert("colorspace"@[k] != ':');
        }
    }
}

proof fn lemma_option_gives(
    given: Seq<char>,
    n: nat,
    property: Option<Seq<char>>,
    name: Seq<char>,
    m: nat,
    value: Seq<char>,
)
    requires
        forall|i: int| 0 <= i < given.len() ==> given[i] != ':',
        forall|i: int| 0 <= i < name.len() ==> name[i] != ':',
    ensures
        gives(option_arguments(given, n, property), stream_option(name, m), value) == (given
            == name && n == m && property == Some(value)),
        option_arguments(given, n, property).len() % 2 == 0,
{
    if let Some(text) = property {
        lemma_gives_pair(stream_option(given, n), text, stream_option(name, m), value);
        if stream_option(given, n) == stream_option(name, m) {
            lemma_options_differ(given, n, name, m);
        }
    } else {
        lemma_gives_nothing(stream_option(name, m), value);
    }
}

/// The options of one stream give each of its properties, under its number.
#[verifier::spinoff_prover]
proof fn lemma_stream_gives(
    stream: StreamView,
    n: nat,
    av1: Av1View,
    name: Seq<char>,
    m: nat,
    value: Seq<char>,
)
    requires
        forall|i: int| 0 <= i < name.len() ==> name[i] != ':',
    ensures
        gives(stream_arguments(stream, n, av1), stream_option(name, m), value) == (n == m
            && wanted(stream, av1, name) == Some(value)),
        stream_arguments(stream, n, av1).len() % 2 == 0,
{
    lemma_names();
    let names = seq![
        "c"@,
        "crf"@,
        "preset"@,
        "pix_fmt"@,
        "color_primaries"@,
        "color_trc"@,
        "colorspace"@,
    ];
    let option = stream_option(name, m);
    let a0 = option_arguments(names[0], n, Some("libsvtav1"@));
    let a1 = option_arguments(names[1], n, Some(decimal_text(av1.crf as nat)));
    let a2 = option_arguments(names[2], n, Some(decimal_text(av1.preset as nat)));
    let a3 = option_arguments(names[3], n, stream.pixel_format);
    let a4 = option_arguments(names[4], n, stream.color_primaries);
    let a5 = option_arguments(names[5], n, stream.color_transfer);
    let a6 = option_arguments(names[6], n, stream.color_space);
    assert forall|i: int, k: int| 0 <= i < 7 && 0 <= k < names[i].len() implies names[i][k]
        != ':' by {}
    lemma_option_gives(names[0], n, Some("libsvtav1"@), name, m, value);
    lemma_option_gives(names[1], n, Some(decimal_text(av1.crf as nat)), name, m, value);
    lemma_option_gives(names[2], n, Some(decimal_text(av1.preset as nat)), name, m, value);
    lemma_option_gives(names[3], n, stream.pixel_format, name, m, value);
    lemma_option_gives(names[4], n, stream.color_primaries, name, m, value);
    lemma_option_gives(names[5], n, stream.color_transfer, name, m, value);
    lemma_option_gives(names[6], n, stream.color_space, name, m, value);
    assert(stream_arguments(stream, n, av1) =~= a0 + a1 + a2 + a3 + a4 + a5 + a6);
    lemma_gives_concat(a0, a1, option, value);
    lemma_gives_concat(a0 + a1, a2, option, value);
    lemma_gives_concat(a0 + a1 + a2, a3, option, value);
    lemma_gives_concat(a0 + a1 + a2 + a3, a4, option, value);
    lemma_gives_concat(a0 + a1 + a2 + a3 + a4, a5, option, value);
    lemma_gives_concat(a0 + a1 + a2 + a3 + a4 + a5, a6, option, value);
}

/// The number of a stream is counted as the encoder counts it.
proof fn lemma_ordinal(streams: Seq<StreamView>)
    ensures
        video_count(streams) == streams.filter(
            |stream: StreamView| stream.codec_type == Some("video"@),
        ).len(),
    decreases streams.len(),
{
    reveal(Seq::filter);
    if streams.len() > 0 {
        lemma_ordinal(streams.drop_last());
    }
}

/// Whether a list of options gives an option of a name and number to a stream that
/// is to be encoded.
spec fn asked_for(
    streams: Seq<StreamView>,
    av1: Av1View,
    name: Seq<char>,
    m: nat,
    value: Seq<char>,
) -> bool {
    exists|i: int|
        0 <= i < streams.len() && to_encode(#[trigger] streams[i]) && ordinal(streams, i) == m
            && wanted(streams[i], av1, name) == Some(value)
}

#[verifier::spinoff_prover]
proof fn lemma_encoder_gives(
    streams: Seq<StreamView>,
    av1: Av1View,
    name: Seq<char>,
    m: nat,
    value: Seq<char>,
)
    requires
        forall|i: int| 0 <= i < name.len() ==> name[i] != ':',
    ensures
        gives(encoder_arguments(streams, av1), stream_option(name, m), value) == asked_for(
            streams,
            av1,
            name,
            m,
            value,
        ),
        encoder_arguments(streams, av1).len() % 2 == 0,
    decreases streams.len(),
{
    let option = stream_option(name, m);
    if streams.len() == 0 {
        lemma_gives_nothing(option, value);
    } else {
        let rest = streams.drop_last();
        let last = streams.last();
        let k = streams.len() - 1;
        lemma_encoder_gives(rest, av1, name, m, value);
        assert(streams.take(k) =~= rest);
        lemma_ordinal(rest);
        assert forall|i: int| 0 <= i < rest.len() implies ordinal(rest, i) == #[trigger] ordinal(
            streams,
            i,
        ) by {
            assert(rest.take(i) =~= streams.take(i));
        }
        let before = asked_for(rest, av1, name, m, value);
        let here = to_encode(last) && ordinal(streams, k) == m && wanted(last, av1, name) == Some(
            value,
        );
        if before {
            let i = choose|i: int|
                0 <= i < rest.len() && to_encode(#[trigger] rest[i]) && ordinal(rest, i) == m
                    && wanted(rest[i], av1, name) == Some(value);
            assert(ordinal(rest, i) == ordinal(streams, i));
            assert(to_encode(streams[i]));
        }
        if here {
            assert(to_encode(streams[k]));
        }
        if asked_for(streams, av1, name, m, value) {
            let i = choose|i: int|
                0 <= i < streams.len() && to_encode(#[trigger] streams[i]) && ordinal(streams, i)
                    == m && wanted(streams[i], av1, name) == Some(value);
            if i < k {
                assert(ordinal(rest, i) == ordinal(streams, i));
                assert(to_encode(rest[i]));
            }
        }
        assert(asked_for(streams, av1, name, m, value) == (before || here));
        if to_encode(last) {
            let options = stream_arguments(last, video_count(rest), av1);
            lemma_stream_gives(last, video_count(rest), av1, name, m, value);
            lemma_gives_concat(encoder_arguments(rest, av1), options, option, value);
        }
    }
}

/// Video streams that are to be encoded have numbers of their own.
proof fn lemma_numbers_differ(streams: Seq<StreamView>, i: int, j: int)
    requires
        0 <= i < j <= streams.len(),
        to_encode(streams[i]),
    ensures
        ordinal(streams, i) < ordinal(streams, j),
    decreases j,
{
    lemma_ordinal(streams.take(i));
    lemma_ordinal(streams.take(j));
    assert(streams.take(j).drop_last() =~= streams.take(j - 1));
    lemma_ordinal(streams.take(j - 1));
    if i < j - 1 {
        lemma_numbers_differ(streams, i, j - 1);
    }
}

/// The first and last arguments of an encoding give no option for one stream.
proof fn lemma_frame_gives(
    path: Seq<char>,
    staging: Seq<char>,
    name: Seq<char>,
    m: nat,
    value: Seq<char>,
)
    requires
        name.len() > 0,
    ensures
        !gives(frame(path), stream_option(name, m), value),
        !gives(seq!["-f"@, "matroska"@, staging], stream_option(name, m), value),
        frame(path).len() == 14,
{
    reveal_strlit("-v");
    reveal_strlit("-nostdin");
    reveal_strlit("-i");
    reveal_strlit("-map");
    reveal_strlit("-map_metadata");
    reveal_strlit("-map_chapters");
    reveal_strlit("-c");
    reveal_strlit("-f");
    reveal_strlit("-");
    reveal_strlit(":v:");
    let option = stream_option(name, m);
    law_decimals_read_back(m);
    assert(option[option.len() - 1] == decimal_text(m).last());
    assert('0' <= option[option.len() - 1] <= '9');
    let start = frame(path);
    assert forall|k: int| 0 <= k && 2 * k + 1 < start.len() implies #[trigger] start[2 * k]
        != option by {
        let text = start[2 * k];
        assert(k == 0 || k == 1 || k == 2 || k == 3 || k == 4 || k == 5 || k == 6);
        assert(text.len() > 0 && !('0' <= text[text.len() - 1] <= '9'));
    }
    let end = seq!["-f"@, "matroska"@, staging];
    assert forall|k: int| 0 <= k && 2 * k + 1 < end.len() implies #[trigger] end[2 * k]
        != option by {
        assert(k == 0);
        assert("-f"@[1] == 'f');
    }
}

spec fn frame(path: Seq<char>) -> Seq<Seq<char>> {
    seq![
        "-v"@,
        "error"@,
        "-nostdin"@,
        "-n"@,
        "-i"@,
        path,
        "-map"@,
        "0"@,
        "-map_metadata"@,
        "0"@,
        "-map_chapters"@,
        "0"@,
        "-c"@,
        "copy"@,
    ]
}

proof fn lemma_av1_gives(
    plan: PlanView,
    staging: Seq<char>,
    name: Seq<char>,
    m: nat,
    value: Seq<char>,
)
    requires
        name.len() > 0,
        forall|i: int| 0 <= i < name.len() ==> name[i] != ':',
    ensures
        gives(av1_arguments(plan, staging), stream_option(name, m), value) == asked_for(
            plan.source.streams,
            plan.av1,
            name,
            m,
            value,
        ),
{
    let option = stream_option(name, m);
    let middle = encoder_arguments(plan.source.streams, plan.av1);
    let end = seq!["-f"@, "matroska"@, staging];
    lemma_frame_gives(plan.source.path, staging, name, m, value);
    lemma_encoder_gives(plan.source.streams, plan.av1, name, m, value);
    assert(av1_arguments(plan, staging) =~= frame(plan.source.path) + middle + end);
    lemma_gives_concat(frame(plan.source.path), middle, option, value);
    lemma_gives_concat(frame(plan.source.path) + middle, end, option, value);
}

/// The encoder of a stream gives an option where the stream wants it.
proof fn lemma_av1_gives_stream(
    plan: PlanView,
    staging: Seq<char>,
    i: int,
    name: Seq<char>,
    value: Seq<char>,
)
    requires
        0 <= i < plan.source.streams.len(),
        to_encode(plan.source.streams[i]),
        name.len() > 0,
        forall|k: int| 0 <= k < name.len() ==> name[k] != ':',
    ensures
        gives(
            av1_arguments(plan, staging),
            stream_option(name, ordinal(plan.source.streams, i)),
            value,
        ) == (wanted(plan.source.streams[i], plan.av1, name) == Some(value)),
{
    let streams = plan.source.streams;
    let m = ordinal(streams, i);
    lemma_av1_gives(plan, staging, name, m, value);
    if asked_for(streams, plan.av1, name, m, value) {
        let j = choose|j: int|
            0 <= j < streams.len() && to_encode(#[trigger] streams[j]) && ordinal(streams, j) == m
                && wanted(streams[j], plan.av1, name) == Some(value);
        if i < j {
            lemma_numbers_differ(streams, i, j);
        } else if j < i {
            lemma_numbers_differ(streams, j, i);
        }
    }
    if wanted(streams[i], plan.av1, name) == Some(value) {
        assert(to_encode(streams[i]));
    }
}

/// The encoder is told of every stream that is to be encoded what the plan and the
/// stream say, under the stream's number among the video streams: the codec, the
/// quality and the speed, and the pixel format, primaries, transfer and colour space
/// that the stream reports. Where the stream reports none, none is told.
pub proof fn law_encoder_is_told_what_streams_report(
    plan: PlanView,
    staging: Seq<char>,
    i: int,
    value: Seq<char>,
)
    requires
        0 <= i < plan.source.streams.len(),
        plan.source.streams[i].codec_type == Some("video"@),
        !plan.source.streams[i].attached_picture,
    ensures
        ({
            let told = av1_arguments(plan, staging);
            let stream = plan.source.streams[i];
            let n = decimal_text(ordinal(plan.source.streams, i));
            &&& gives(told, "-c:v:"@ + n, value) <==> value == "libsvtav1"@
            &&& gives(told, "-crf:v:"@ + n, value) <==> value == decimal_text(plan.av1.crf as nat)
            &&& gives(told, "-preset:v:"@ + n, value) <==> value == decimal_text(
                plan.av1.preset as nat,
            )
            &&& gives(told, "-pix_fmt:v:"@ + n, value) <==> stream.pixel_format == Some(value)
            &&& gives(told, "-color_primaries:v:"@ + n, value) <==> stream.color_primaries == Some(
                value,
            )
            &&& gives(told, "-color_trc:v:"@ + n, value) <==> stream.color_transfer == Some(value)
            &&& gives(told, "-colorspace:v:"@ + n, value) <==> stream.color_space == Some(value)
        }),
{
    let m = ordinal(plan.source.streams, i);
    let n = decimal_text(m);
    lemma_names();
    lemma_spelled_options(m);
    let names = seq![
        "c"@,
        "crf"@,
        "preset"@,
        "pix_fmt"@,
        "color_primaries"@,
        "color_trc"@,
        "colorspace"@,
    ];
    assert forall|k: int| 0 <= k < 7 implies gives(
        av1_arguments(plan, staging),
        stream_option(#[trigger] names[k], m),
        value,
    ) == (wanted(plan.source.streams[i], plan.av1, names[k]) == Some(value)) by {
        assert forall|j: int| 0 <= j < names[k].len() implies names[k][j] != ':' by {}
        lemma_av1_gives_stream(plan, staging, i, names[k], value);
    }
    assert(names[0] == "c"@ && names[1] == "crf"@ && names[2] == "preset"@ && names[3]
        == "pix_fmt"@ && names[4] == "color_primaries"@ && names[5] == "color_trc"@ && names[6]
        == "colorspace"@);
}

proof fn lemma_spelled_options(m: nat)
    ensures
        ({
            let n = decimal_text(m);
            &&& stream_option("c"@, m) == "-c:v:"@ + n
            &&& stream_option("crf"@, m) == "-crf:v:"@ + n
            &&& stream_option("preset"@, m) == "-preset:v:"@ + n
            &&& stream_option("pix_fmt"@, m) == "-pix_fmt:v:"@ + n
            &&& stream_option("color_primaries"@, m) == "-color_primaries:v:"@ + n
            &&& stream_option("color_trc"@, m) == "-color_trc:v:"@ + n
            &&& stream_option("colorspace"@, m) == "-colorspace:v:"@ + n
            &&& "c"@.len() > 0 && "crf"@.len() > 0 && "preset"@.len() > 0 && "pix_fmt"@.len() > 0
            &&& "color_primaries"@.len() > 0 && "color_trc"@.len() > 0 && "colorspace"@.len() > 0
        }),
{
    let n = decimal_text(m);
    reveal_strlit("-");
    reveal_strlit(":v:");
    reveal_strlit("c");
    reveal_strlit("crf");
    reveal_strlit("preset");
    reveal_strlit("pix_fmt");
    reveal_strlit("color_primaries");
    reveal_strlit("color_trc");
    reveal_strlit("colorspace");
    reveal_strlit("-c:v:");
    reveal_strlit("-crf:v:");
    reveal_strlit("-preset:v:");
    reveal_strlit("-pix_fmt:v:");
    reveal_strlit("-color_primaries:v:");
    reveal_strlit("-color_trc:v:");
    reveal_strlit("-colorspace:v:");
    assert(stream_option("c"@, m) =~= "-c:v:"@ + n);
    assert(stream_option("crf"@, m) =~= "-crf:v:"@ + n);
    assert(stream_option("preset"@, m) =~= "-preset:v:"@ + n);
    assert(stream_option("pix_fmt"@, m) =~= "-pix_fmt:v:"@ + n);
    assert(stream_option("color_primaries"@, m) =~= "-color_primaries:v:"@ + n);
    assert(stream_option("color_trc"@, m) =~= "-color_trc:v:"@ + n);
    assert(stream_option("colorspace"@, m) =~= "-colorspace:v:"@ + n);
}

/// The encoder is told nothing of streams that are not to be encoded: neither of
/// attached pictures nor under numbers that no video stream has.
pub proof fn law_encoder_is_told_of_no_other_streams(
    plan: PlanView,
    staging: Seq<char>,
    n: nat,
    value: Seq<char>,
)
    requires
        forall|i: int|
            0 <= i < plan.source.streams.len() && (
            #[trigger] plan.source.streams[i]).codec_type == Some("video"@)
                && !plan.source.streams[i].attached_picture ==> ordinal(plan.source.streams, i)
                != n,
    ensures
        ({
            let told = av1_arguments(plan, staging);
            let n = decimal_text(n);
            &&& !gives(told, "-c:v:"@ + n, value)
            &&& !gives(told, "-crf:v:"@ + n, value)
            &&& !gives(told, "-preset:v:"@ + n, value)
            &&& !gives(told, "-pix_fmt:v:"@ + n, value)
            &&& !gives(told, "-color_primaries:v:"@ + n, value)
            &&& !gives(told, "-color_trc:v:"@ + n, value)
            &&& !gives(told, "-colorspace:v:"@ + n, value)
        }),
{
    lemma_names();
    lemma_spelled_options(n);
    let names = seq![
        "c"@,
        "crf"@,
        "preset"@,
        "pix_fmt"@,
        "color_primaries"@,
        "color_trc"@,
        "colorspace"@,
    ];
    assert forall|k: int| 0 <= k < 7 implies !gives(
        av1_arguments(plan, staging),
        stream_option(#[trigger] names[k], n),
        value,
    ) by {
        assert forall|j: int| 0 <= j < names[k].len() implies names[k][j] != ':' by {}
        lemma_av1_gives(plan, staging, names[k], n, value);
    }
    assert(names[0] == "c"@ && names[1] == "crf"@ && names[2] == "preset"@ && names[3]
        == "pix_fmt"@ && names[4] == "color_primaries"@ && names[5] == "color_trc"@ && names[6]
        == "colorspace"@);
}

/// Whether an argument is an option for one stream.
pub open spec fn for_one_stream(argument: Seq<char>) -> bool {
    exists|n: nat|
        #![trigger decimal_text(n)]
        {
            ||| argument == "-c:v:"@ + decimal_text(n)
            ||| argument == "-crf:v:"@ + decimal_text(n)
            ||| argument == "-preset:v:"@ + decimal_text(n)
            ||| argument == "-pix_fmt:v:"@ + decimal_text(n)
            ||| argument == "-color_primaries:v:"@ + decimal_text(n)
            ||| argument == "-color_trc:v:"@ + decimal_text(n)
            ||| argument == "-colorspace:v:"@ + decimal_text(n)
        }
}

proof fn lemma_stream_options_only(stream: StreamView, n: nat, av1: Av1View, k: int)
    requires
        0 <= k,
        2 * k < stream_arguments(stream, n, av1).len(),
    ensures
        for_one_stream(stream_arguments(stream, n, av1)[2 * k]),
{
    lemma_spelled_options(n);
    let text = decimal_text(n);
    let all = stream_arguments(stream, n, av1);
    let a3 = option_arguments("pix_fmt"@, n, stream.pixel_format);
    let a4 = option_arguments("color_primaries"@, n, stream.color_primaries);
    let a5 = option_arguments("color_trc"@, n, stream.color_transfer);
    let a6 = option_arguments("colorspace"@, n, stream.color_space);
    let p = 2 * k;
    let argument = all[p];
    if p < 6 {
        assert(k == 0 || k == 1 || k == 2);
    } else if p < 6 + a3.len() {
        assert(argument == a3[p - 6]);
    } else if p < 6 + a3.len() + a4.len() {
        assert(argument == a4[p - 6 - a3.len()]);
    } else if p < 6 + a3.len() + a4.len() + a5.len() {
        assert(argument == a5[p - 6 - a3.len() - a4.len()]);
    } else {
        assert(argument == a6[p - 6 - a3.len() - a4.len() - a5.len()]);
    }
    assert(text == decimal_text(n));
}

proof fn lemma_encoder_options_only(streams: Seq<StreamView>, av1: Av1View, k: int)
    requires
        0 <= k,
        2 * k < encoder_arguments(streams, av1).len(),
    ensures
        for_one_stream(encoder_arguments(streams, av1)[2 * k]),
    decreases streams.len(),
{
    let rest = streams.drop_last();
    let before = encoder_arguments(rest, av1);
    reveal_strlit("c");
    lemma_encoder_gives(rest, av1, "c"@, 0, Seq::empty());
    if 2 * k < before.len() {
        lemma_encoder_options_only(rest, av1, k);
        assert(encoder_arguments(streams, av1)[2 * k] == before[2 * k]);
    } else {
        let n = video_count(rest);
        let j = k - before.len() as int / 2;
        lemma_stream_options_only(streams.last(), n, av1, j);
        assert(encoder_arguments(streams, av1)[2 * k] == stream_arguments(
            streams.last(),
            n,
            av1,
        )[2 * j]);
    }
}

/// An encoding reads the source, asks nothing and replaces nothing, keeps every
/// stream, the metadata and the chapters, copies each stream of which it is told
/// nothing else, and writes Matroska to the staging file. What it is told besides
/// is told of single streams.
pub proof fn law_encoding_keeps_everything(plan: PlanView, staging: Seq<char>, value: Seq<char>)
    ensures
        ({
            let told = av1_arguments(plan, staging);
            let count = told.len() as int;
            &&& count >= 17 && count % 2 == 1
            &&& told[2] == "-nostdin"@ && told[3] == "-n"@
            &&& gives(told, "-v"@, value) <==> value == "error"@
            &&& gives(told, "-i"@, value) <==> value == plan.source.path
            &&& gives(told, "-map"@, value) <==> value == "0"@
            &&& gives(told, "-map_metadata"@, value) <==> value == "0"@
            &&& gives(told, "-map_chapters"@, value) <==> value == "0"@
            &&& gives(told, "-c"@, value) <==> value == "copy"@
            &&& gives(told, "-f"@, value) <==> value == "matroska"@
            &&& told[count - 1] == staging
            &&& forall|k: int|
                7 <= k && 2 * k < count - 3 ==> for_one_stream(#[trigger] told[2 * k])
        }),
{
    let told = av1_arguments(plan, staging);
    let count = told.len() as int;
    let start = frame(plan.source.path);
    let middle = encoder_arguments(plan.source.streams, plan.av1);
    let end = seq!["-f"@, "matroska"@, staging];
    reveal_strlit("c");
    lemma_encoder_gives(plan.source.streams, plan.av1, "c"@, 0, Seq::empty());
    assert(told =~= start + middle + end);
    assert forall|k: int| 7 <= k && 2 * k < count - 3 implies for_one_stream(
        #[trigger] told[2 * k],
    ) by {
        lemma_encoder_options_only(plan.source.streams, plan.av1, k - 7);
        assert(told[2 * k] == middle[2 * (k - 7)]);
    }
    let options = seq![
        "-v"@,
        "-i"@,
        "-map"@,
        "-map_metadata"@,
        "-map_chapters"@,
        "-c"@,
        "-f"@,
        "-nostdin"@,
    ];
    lemma_plain_options();
    assert forall|o: int| 0 <= o < 7 implies !gives(middle, #[trigger] options[o], value) by {
        if gives(middle, options[o], value) {
            let k = choose|k: int|
                0 <= k && 2 * k + 1 < middle.len() && #[trigger] middle[2 * k] == options[o]
                    && middle[2 * k + 1] == value;
            lemma_encoder_options_only(plan.source.streams, plan.av1, k);
            lemma_for_one_stream_ends_with_a_digit(options[o]);
        }
    }
    assert(start.len() == 14);
    assert forall|o: int| 0 <= o < 7 implies gives(told, #[trigger] options[o], value) == (gives(
        start,
        options[o],
        value,
    ) || gives(end, options[o], value)) by {
        lemma_gives_concat(start, middle, options[o], value);
        lemma_gives_concat(start + middle, end, options[o], value);
    }
    lemma_frame_values(plan.source.path, staging, value);
    assert(options[0] == "-v"@ && options[1] == "-i"@ && options[2] == "-map"@ && options[3]
        == "-map_metadata"@ && options[4] == "-map_chapters"@ && options[5] == "-c"@ && options[6]
        == "-f"@);
}

proof fn lemma_plain_options()
    ensures
        ({
            let options = seq![
                "-v"@,
                "-i"@,
                "-map"@,
                "-map_metadata"@,
                "-map_chapters"@,
                "-c"@,
                "-f"@,
                "-nostdin"@,
            ];
            &&& forall|i: int, j: int|
                0 <= i < 8 && 0 <= j < 8 && #[trigger] options[i] == #[trigger] options[j] ==> i
                    == j
            &&& forall|i: int|
                0 <= i < 8 ==> (#[trigger] options[i]).len() > 1 && !('0' <= options[i].last()
                    <= '9')
        }),
{
    reveal_strlit("-v");
    reveal_strlit("-i");
    reveal_strlit("-map");
    reveal_strlit("-map_metadata");
    reveal_strlit("-map_chapters");
    reveal_strlit("-c");
    reveal_strlit("-f");
    reveal_strlit("-nostdin");
    let options = seq![
        "-v"@,
        "-i"@,
        "-map"@,
        "-map_metadata"@,
        "-map_chapters"@,
        "-c"@,
        "-f"@,
        "-nostdin"@,
    ];
    assert forall|i: int, j: int|
        0 <= i < 8 && 0 <= j < 8 && #[trigger] options[i] == #[trigger] options[j] implies i
        == j by {
        assert(options[i][1] == options[j][1]);
        assert(options[i].len() == options[j].len());
        assert(options[2].len() == 4 && options[3].len() == 13 && options[4].len() == 13);
        assert(options[3][5] == 'm' && options[4][5] == 'c');
        if options[i].len() == 13 {
            assert(options[i][5] == options[j][5]);
        }
    }
}

proof fn lemma_for_one_stream_ends_with_a_digit(argument: Seq<char>)
    requires
        for_one_stream(argument),
    ensures
        argument.len() > 0,
        '0' <= argument.last() <= '9',
{
    let n = choose|n: nat|
        #![trigger decimal_text(n)]
        {
            ||| argument == "-c:v:"@ + decimal_text(n)
            ||| argument == "-crf:v:"@ + decimal_text(n)
            ||| argument == "-preset:v:"@ + decimal_text(n)
            ||| argument == "-pix_fmt:v:"@ + decimal_text(n)
            ||| argument == "-color_primaries:v:"@ + decimal_text(n)
            ||| argument == "-color_trc:v:"@ + decimal_text(n)
            ||| argument == "-colorspace:v:"@ + decimal_text(n)
        };
    law_decimals_read_back(n);
    assert(argument.last() == decimal_text(n).last());
}

/// What the first and last arguments of an encoding give the options they hold.
#[verifier::spinoff_prover]
proof fn lemma_frame_values(path: Seq<char>, staging: Seq<char>, value: Seq<char>)
    ensures
        ({
            let start = frame(path);
            let end = seq!["-f"@, "matroska"@, staging];
            &&& gives(start, "-v"@, value) == (value == "error"@) && !gives(end, "-v"@, value)
            &&& gives(start, "-i"@, value) == (value == path) && !gives(end, "-i"@, value)
            &&& gives(start, "-map"@, value) == (value == "0"@) && !gives(end, "-map"@, value)
            &&& gives(start, "-map_metadata"@, value) == (value == "0"@) && !gives(
                end,
                "-map_metadata"@,
                value,
            )
            &&& gives(start, "-map_chapters"@, value) == (value == "0"@) && !gives(
                end,
                "-map_chapters"@,
                value,
            )
            &&& gives(start, "-c"@, value) == (value == "copy"@) && !gives(end, "-c"@, value)
            &&& gives(end, "-f"@, value) == (value == "matroska"@) && !gives(start, "-f"@, value)
        }),
{
    let start = frame(path);
    let end = seq!["-f"@, "matroska"@, staging];
    lemma_plain_options();
    let options = seq![
        "-v"@,
        "-i"@,
        "-map"@,
        "-map_metadata"@,
        "-map_chapters"@,
        "-c"@,
        "-f"@,
        "-nostdin"@,
    ];
    let values = seq!["error"@, path, "0"@, "0"@, "0"@, "copy"@];
    let places = seq![0int, 2, 3, 4, 5, 6];
    assert forall|o: int| 0 <= o < 7 implies gives(start, #[trigger] options[o], value) == (o < 6
        && value == values[o]) by {
        if o < 6 && value == values[o] {
            let k = places[o];
            assert(start[2 * k] == options[o]);
            assert(start[2 * k + 1] == value);
        }
        if gives(start, options[o], value) {
            let k = choose|k: int|
                0 <= k && 2 * k + 1 < start.len() && #[trigger] start[2 * k] == options[o]
                    && start[2 * k + 1] == value;
            assert(k == 0 || k == 1 || k == 2 || k == 3 || k == 4 || k == 5 || k == 6);
            let same = if k == 0 {
                0int
            } else if k == 1 {
                7
            } else {
                k - 1
            };
            assert(start[2 * k] == options[same]);
            assert(same == o);
        }
    }
    assert forall|o: int| 0 <= o < 7 implies gives(end, #[trigger] options[o], value) == (o == 6
        && value == "matroska"@) by {
        if o == 6 && value == "matroska"@ {
            let k: int = 0;
            assert(end[2 * k] == options[o]);
            assert(end[2 * k + 1] == value);
        }
        if gives(end, options[o], value) {
            let k = choose|k: int|
                0 <= k && 2 * k + 1 < end.len() && #[trigger] end[2 * k] == options[o] && end[2
                    * k + 1] == value;
            assert(k == 0);
            assert(end[2 * k] == options[6]);
        }
    }
    assert(options[0] == "-v"@ && options[1] == "-i"@ && options[2] == "-map"@ && options[3]
        == "-map_metadata"@ && options[4] == "-map_chapters"@ && options[5] == "-c"@ && options[6]
        == "-f"@);
    assert(values[0] == "error"@ && values[1] == path && values[2] == "0"@ && values[3] == "0"@
        && values[4] == "0"@ && values[5] == "copy"@);
}

/// A full decode reads the file it is for, takes every stream of it, reports errors,
/// and writes nothing.
pub proof fn law_decode_takes_every_stream(path: Seq<char>)
    ensures
        ({
            let told = decode_arguments(path);
            &&& gives(told, "-v"@, "error"@)
            &&& gives(told, "-i"@, path)
            &&& gives(told, "-map"@, "0"@)
            &&& gives(told, "-f"@, "null"@)
            &&& told.last() == "-"@
            &&& told.len() == 9
        }),
{
    let told = decode_arguments(path);
    let (a, b, c, d) = (0int, 1int, 2int, 3int);
    assert(told[2 * a] == "-v"@ && told[2 * a + 1] == "error"@);
    assert(told[2 * b] == "-i"@ && told[2 * b + 1] == path);
    assert(told[2 * c] == "-map"@ && told[2 * c + 1] == "0"@);
    assert(told[2 * d] == "-f"@ && told[2 * d + 1] == "null"@);
}

/// A probe is asked for the format, the streams and the chapters of the file it is
/// for, as JSON; the file is what it is told last.
pub proof fn law_probe_asks_for_all(path: Seq<u8>)
    ensures
        ({
            let told = probe_arguments(path);
            &&& told.contains(raw("-show_format"@))
            &&& told.contains(raw("-show_streams"@))
            &&& told.contains(raw("-show_chapters"@))
            &&& exists|k: int|
                0 <= k < told.len() - 2 && #[trigger] told[k] == raw("-of"@) && told[k + 1] == raw(
                    "json"@,
                )
            &&& exists|k: int|
                0 <= k < told.len() - 2 && #[trigger] told[k] == raw("-v"@) && told[k + 1] == raw(
                    "error"@,
                )
            &&& told.last() == path
            &&& told.len() == 8
        }),
{
    let told = probe_arguments(path);
    assert(told[0] == raw("-v"@) && told[1] == raw("error"@));
    assert(told[2] == raw("-show_format"@));
    assert(told[3] == raw("-show_streams"@));
    assert(told[4] == raw("-show_chapters"@));
    assert(told[5] == raw("-of"@) && told[6] == raw("json"@));
}

} // verus!
