use marchiver::compare::{compare_duration, compare_reported, has_item, verify_output};
use marchiver::model::{ChapterSummary, FormatSummary, MediaEvidence, Profile, StreamSummary};
use marchiver::seconds::Seconds;

fn seconds(value: f64) -> Seconds {
    Seconds {
        bits: value.to_bits(),
        text: format!("{value:?}"),
    }
}

fn some(text: &str) -> Option<String> {
    Some(text.to_owned())
}

fn stream(index: u32, codec_type: &str, codec_name: &str) -> StreamSummary {
    StreamSummary {
        index,
        codec_name: some(codec_name),
        codec_type: some(codec_type),
        width: Some(64),
        height: Some(48),
        duration_seconds: Some(seconds(10.0)),
        bits_per_raw_sample: some("8"),
        pixel_format: some("yuv420p"),
        color_space: some("bt709"),
        color_transfer: some("bt709"),
        color_primaries: some("bt709"),
        attached_picture: false,
    }
}

fn source() -> MediaEvidence {
    let mut cover = stream(2, "video", "mjpeg");
    cover.attached_picture = true;
    MediaEvidence {
        path: "/media/movie.mkv".to_owned(),
        sha256: "a".repeat(64),
        size: 1000,
        modified_ns: 5,
        format: FormatSummary {
            format_name: some("matroska,webm"),
            duration_seconds: Some(seconds(10.0)),
        },
        streams: vec![stream(0, "video", "h264"), stream(1, "audio", "aac"), cover],
        chapters: vec![ChapterSummary {
            start_seconds: seconds(0.0),
            end_seconds: seconds(10.0),
        }],
        raw_probe_json: "{}".to_owned(),
    }
}

fn encoded() -> MediaEvidence {
    let mut output = source();
    output.sha256 = "b".repeat(64);
    output.streams[0].codec_name = some("av1");
    output
}

fn check(profile: Profile, output: &MediaEvidence) -> Result<(), String> {
    verify_output(profile, &source(), output, &seconds(0.5))
}

fn encoding_refused(change: fn(&mut MediaEvidence)) -> String {
    let mut output = encoded();
    change(&mut output);
    check(Profile::Av1, &output).unwrap_err()
}

#[test]
fn exact_copies_pass() {
    assert_eq!(check(Profile::Copy, &source()), Ok(()));
    assert_eq!(
        check(Profile::Copy, &encoded()),
        Err("copy profile output hash differs from source hash".to_owned())
    );
    let mut empty = source();
    empty.size = 0;
    assert_eq!(
        check(Profile::Copy, &empty),
        Err("output is empty".to_owned())
    );
    let mut renamed = source();
    renamed.streams[0].codec_name = some("hevc");
    assert_eq!(
        check(Profile::Copy, &renamed),
        Err("preserved stream 0 codec changed".to_owned())
    );
}

#[test]
fn encodings_keep_what_they_must() {
    assert_eq!(check(Profile::Av1, &encoded()), Ok(()));
    let cases: [(fn(&mut MediaEvidence), &str); 16] = [
        (|output| output.format.format_name = None, "AV1 output is not Matroska"),
        (
            |output| output.format.format_name = Some("xmatroska,webm".to_owned()),
            "AV1 output is not Matroska",
        ),
        (
            |output| {
                output.streams.pop();
            },
            "stream count changed",
        ),
        (
            |output| output.streams[1].codec_type = Some("subtitle".to_owned()),
            "stream 1 type changed",
        ),
        (|output| output.streams[0].width = None, "stream 0 dimensions changed"),
        (|output| output.streams[2].height = Some(47), "stream 2 dimensions changed"),
        (
            |output| output.streams[1].duration_seconds = None,
            "stream 1 duration changed beyond tolerance",
        ),
        (
            |output| output.streams[0].codec_name = Some("h264".to_owned()),
            "stream 0 is not AV1",
        ),
        (
            |output| output.streams[0].pixel_format = Some("yuv444p".to_owned()),
            "stream 0 pixel format changed",
        ),
        (
            |output| output.streams[0].color_space = None,
            "stream 0 color space changed",
        ),
        (
            |output| output.streams[0].color_transfer = None,
            "stream 0 color transfer changed",
        ),
        (
            |output| output.streams[0].color_primaries = None,
            "stream 0 color primaries changed",
        ),
        (
            |output| output.streams[2].codec_name = Some("av1".to_owned()),
            "preserved stream 2 codec changed",
        ),
        (
            |output| output.format.duration_seconds = None,
            "container duration changed beyond tolerance",
        ),
        (|output| output.chapters.clear(), "chapter count changed"),
        (
            |output| output.chapters[0].end_seconds.bits = 10.75_f64.to_bits(),
            "chapter 0 timing changed",
        ),
    ];
    for (change, message) in cases {
        assert_eq!(encoding_refused(change), message);
    }
}

#[test]
fn bit_depth_stands_in_for_an_unreported_pixel_format() {
    let mut before = source();
    before.streams[0].pixel_format = None;
    let mut output = encoded();
    output.streams[0].bits_per_raw_sample = some("10");
    assert_eq!(
        verify_output(Profile::Av1, &before, &output, &seconds(0.5)),
        Err("stream 0 bit depth changed".to_owned())
    );
    assert_eq!(check(Profile::Av1, &output), Ok(()));
}

#[test]
fn durations_may_differ_by_the_tolerance() {
    let tolerance = seconds(0.5);
    let compare = |a: Option<f64>, b: Option<f64>| {
        compare_duration(&a.map(seconds), &b.map(seconds), &tolerance, "container")
    };
    assert_eq!(compare(None, None), Ok(()));
    assert_eq!(compare(Some(1.0), Some(1.5)), Ok(()));
    assert_eq!(compare(Some(1.5), Some(1.0)), Ok(()));
    let refused = Err("container duration changed beyond tolerance".to_owned());
    assert_eq!(compare(Some(1.0), Some(1.5000000000000002)), refused);
    assert_eq!(compare(Some(1.0), None), refused);
    assert_eq!(compare(None, Some(0.0)), refused);
    assert_eq!(compare(Some(f64::NAN), Some(1.0)), refused);
}

#[test]
fn chapter_times_that_are_no_numbers_are_not_beyond_the_tolerance() {
    let mut before = source();
    before.chapters[0].start_seconds = seconds(f64::NAN);
    assert_eq!(
        verify_output(Profile::Copy, &before, &source(), &seconds(0.5)),
        Ok(())
    );
    before.chapters[0].start_seconds = seconds(f64::INFINITY);
    assert_eq!(
        verify_output(Profile::Copy, &before, &source(), &seconds(0.5)),
        Err("chapter 0 timing changed".to_owned())
    );
}

#[test]
fn reported_properties_must_stay() {
    assert_eq!(compare_reported(&None, &some("x"), "color space", 3), Ok(()));
    assert_eq!(
        compare_reported(&some("x"), &some("x"), "color space", 3),
        Ok(())
    );
    assert_eq!(
        compare_reported(&some("x"), &None, "color space", 3),
        Err("stream 3 color space changed".to_owned())
    );
}

#[test]
fn lists_are_separated_by_commas() {
    for list in ["matroska", "matroska,webm", "mov,matroska", "a,matroska,b"] {
        assert!(has_item(list, "matroska"), "{list}");
    }
    for list in ["", "matroskas", "amatroska", "matroska webm", "mat,roska", ",", "Matroska"] {
        assert!(!has_item(list, "matroska"), "{list}");
    }
    for list in ["", ",", "a,", ",a", "a,,b"] {
        assert_eq!(has_item(list, ""), list.split(',').any(|item| item.is_empty()));
    }
}

#[test]
fn larger_tolerances_accept_more_outputs() {
    let before = source();
    let mut after = source();
    after.format.duration_seconds = before
        .format
        .duration_seconds
        .as_ref()
        .map(|value| seconds(f64::from_bits(value.bits) + 0.5));
    after.chapters[0].start_seconds = seconds(f64::from_bits(before.chapters[0].start_seconds.bits) + 0.25);
    let check = |tolerance: f64| verify_output(Profile::Copy, &before, &after, &seconds(tolerance));
    assert_eq!(
        check(0.125),
        Err("container duration changed beyond tolerance".to_owned())
    );
    for tolerance in [0.5, 0.75, 1e9, f64::INFINITY] {
        assert_eq!(check(tolerance), Ok(()));
    }
}
