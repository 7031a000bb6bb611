use marchiver::flow::ToolOutput;
use marchiver::model::{
    ArchivePlan, Av1Config, FormatSummary, MediaEvidence, Profile, SourceDisposition, StreamSummary,
};
use marchiver::seconds::Seconds;
use marchiver::tool::{
    add_stream_option, av1_command, command_failure, report_failure, strip, take_probe_output,
    take_probe_text,
};

fn some(text: &str) -> Option<String> {
    Some(text.to_owned())
}

fn stream(codec_type: Option<&str>, attached_picture: bool, pixel_format: Option<&str>) -> StreamSummary {
    StreamSummary {
        index: 0,
        codec_name: None,
        codec_type: codec_type.map(str::to_owned),
        width: None,
        height: None,
        duration_seconds: None,
        bits_per_raw_sample: None,
        pixel_format: pixel_format.map(str::to_owned),
        color_space: None,
        color_transfer: None,
        color_primaries: None,
        attached_picture,
    }
}

fn plan(streams: Vec<StreamSummary>) -> ArchivePlan {
    ArchivePlan {
        schema_version: 1,
        kind: "ArchivePlan".to_owned(),
        producer_version: "0.1.0".to_owned(),
        transaction_id: String::new(),
        profile: Profile::Av1,
        source_disposition: SourceDisposition::Preserve,
        duration_tolerance_seconds: Seconds {
            bits: 0,
            text: "0.0".to_owned(),
        },
        av1: Av1Config {
            crf: 33,
            preset: 4,
            container: "mkv".to_owned(),
        },
        source: MediaEvidence {
            path: "/in put.mkv".to_owned(),
            sha256: String::new(),
            size: 1,
            modified_ns: 0,
            format: FormatSummary {
                format_name: None,
                duration_seconds: None,
            },
            streams,
            chapters: Vec::new(),
            raw_probe_json: String::new(),
        },
        destination_path: "/out.mkv".to_owned(),
        manifest_path: "/out.mkv.marchiver.pkl".to_owned(),
    }
}

#[test]
fn encoder_numbers_video_streams_and_copies_the_rest() {
    let arguments = av1_command(
        &plan(vec![
            stream(Some("audio"), false, Some("ignored")),
            stream(Some("video"), true, Some("cover")),
            stream(Some("video"), false, Some("yuv420p10le")),
            stream(None, false, None),
            stream(Some("video"), false, None),
        ]),
        "/staging file",
    );
    let expected = [
        "-v", "error", "-nostdin", "-n", "-i", "/in put.mkv", "-map", "0", "-map_metadata", "0",
        "-map_chapters", "0", "-c", "copy", "-c:v:1", "libsvtav1", "-crf:v:1", "33",
        "-preset:v:1", "4", "-pix_fmt:v:1", "yuv420p10le", "-c:v:2", "libsvtav1", "-crf:v:2", "33",
        "-preset:v:2", "4", "-f", "matroska", "/staging file",
    ];
    assert_eq!(arguments, expected);
}

#[test]
fn encoder_copies_everything_without_video() {
    let arguments = av1_command(&plan(vec![stream(Some("audio"), false, None)]), "/s");
    assert_eq!(arguments.len(), 17);
    assert_eq!(&arguments[12..], ["-c", "copy", "-f", "matroska", "/s"]);
}

#[test]
fn options_need_a_value() {
    let mut arguments = Vec::new();
    add_stream_option(&mut arguments, "pix_fmt", 12, &None);
    assert!(arguments.is_empty());
    add_stream_option(&mut arguments, "pix_fmt", 12, &some("gray"));
    assert_eq!(arguments, ["-pix_fmt:v:12", "gray"]);
}

#[test]
fn failures_carry_diagnostics() {
    assert_eq!(
        command_failure("ffprobe", b"  broken file \n"),
        "ffprobe failed: broken file"
    );
    assert_eq!(
        command_failure("ffmpeg transcode", b" \n\t"),
        "ffmpeg transcode failed without diagnostics"
    );
    assert_eq!(
        command_failure("ffmpeg", b""),
        "ffmpeg failed without diagnostics"
    );
    assert_eq!(
        command_failure("ffmpeg", b"bad \xff byte"),
        "ffmpeg failed: bad \u{fffd} byte"
    );
    assert_eq!(report_failure("x", "a\nb\n"), "x failed: a\nb");
}

#[test]
fn white_space_is_stripped_as_the_system_does() {
    let mut spaces = String::new();
    for code in 0..0x3100_u32 {
        if let Some(c) = char::from_u32(code) {
            let text = format!("{c}x{c}");
            assert_eq!(strip(&text), text.trim(), "{code:x}");
            if c.is_whitespace() {
                spaces.push(c);
            }
        }
    }
    assert_eq!(strip(&spaces), "");
    assert_eq!(strip(&format!("{spaces}in side{spaces}")), "in side");
    assert_eq!(strip(""), "");
    assert_eq!(strip("\u{1f600} "), "\u{1f600}");
}

#[test]
fn probe_output_must_be_text_of_a_run_that_succeeded() {
    let output = |success: bool, stdout: &[u8], stderr: &[u8]| ToolOutput {
        success,
        stdout: stdout.to_vec(),
        stderr: stderr.to_vec(),
    };
    assert_eq!(
        take_probe_output(&output(true, "{\"\u{e9}\": 1}".as_bytes(), b"warning")),
        Ok("{\"\u{e9}\": 1}".to_owned())
    );
    assert_eq!(
        take_probe_output(&output(false, b"{}", b"no such file\n")),
        Err("ffprobe failed: no such file".to_owned())
    );
    assert_eq!(
        take_probe_output(&output(true, b"{\xff}", b"")),
        Err(
            "ffprobe output is not UTF-8: invalid utf-8 sequence of 1 bytes from index 1"
                .to_owned()
        )
    );
    assert_eq!(take_probe_text(Ok("{}".to_owned())), Ok("{}".to_owned()));
}
