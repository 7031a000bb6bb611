use marchiver::flow::{FileStat, ModifiedTime};
use marchiver::inspect::{
    gather_evidence, is_same_evidence, modified_ns, parse_optional_time, parse_time, path_string,
    same_metadata,
};
use marchiver::model::{
    MediaEvidence, Probe, ProbeChapter, ProbeDisposition, ProbeFormat, ProbeStream, ProbeTime,
};
use marchiver::os_text::OsText;
use marchiver::seconds::Seconds;

fn time(text: &str) -> ProbeTime {
    ProbeTime {
        text: text.to_owned(),
        number: text
            .parse::<f64>()
            .map(|value| Seconds {
                bits: value.to_bits(),
                text: format!("{value:?}"),
            })
            .map_err(|error| error.to_string()),
    }
}

fn stat(size: u64, modified: ModifiedTime) -> FileStat {
    FileStat {
        device: 1,
        inode: 2,
        size,
        modified,
    }
}

fn stream(duration: Option<&str>, attached_pic: i32) -> ProbeStream {
    ProbeStream {
        index: 4,
        codec_name: Some("h264".to_owned()),
        codec_type: Some("video".to_owned()),
        width: Some(10),
        height: None,
        duration: duration.map(time),
        bits_per_raw_sample: None,
        pix_fmt: Some("gray".to_owned()),
        color_space: None,
        color_transfer: Some("bt709".to_owned()),
        color_primaries: None,
        disposition: ProbeDisposition { attached_pic },
    }
}

fn probe(format: &str, streams: Vec<ProbeStream>, chapters: &[(&str, &str)]) -> Probe {
    Probe {
        streams,
        chapters: chapters
            .iter()
            .map(|(start, end)| ProbeChapter {
                start_time: time(start),
                end_time: time(end),
            })
            .collect(),
        format: ProbeFormat {
            format_name: Some("matroska".to_owned()),
            duration: Some(time(format)),
        },
    }
}

fn gather(probe: &Probe, after: &FileStat) -> Result<MediaEvidence, String> {
    gather_evidence(
        &OsText::of("/movie.mkv"),
        &stat(9, ModifiedTime::After(77)),
        "digest".to_owned(),
        "json".to_owned(),
        probe,
        after,
    )
}

fn refusal(probe: &Probe, after: FileStat) -> String {
    gather(probe, &after).err().unwrap()
}

#[test]
fn evidence_is_gathered_from_looks_digest_and_probe() {
    let probe = probe(
        "12.5",
        vec![stream(Some("12.25"), 0), stream(None, 1)],
        &[("0.000000", "3.5"), ("3.5", "12.5")],
    );
    let evidence = gather(&probe, &stat(9, ModifiedTime::After(77))).unwrap();
    assert_eq!(evidence.path, "/movie.mkv");
    assert_eq!(evidence.sha256, "digest");
    assert_eq!(evidence.size, 9);
    assert_eq!(evidence.modified_ns, 77);
    assert_eq!(evidence.raw_probe_json, "json");
    assert_eq!(evidence.format.format_name.as_deref(), Some("matroska"));
    assert_eq!(evidence.format.duration_seconds.as_ref().unwrap().text, "12.5");
    assert_eq!(evidence.streams.len(), 2);
    assert_eq!(evidence.streams[0].index, 4);
    assert_eq!(evidence.streams[0].pixel_format.as_deref(), Some("gray"));
    assert_eq!(
        evidence.streams[0].duration_seconds.as_ref().unwrap().bits,
        12.25_f64.to_bits()
    );
    assert!(!evidence.streams[0].attached_picture);
    assert!(evidence.streams[1].attached_picture);
    assert!(evidence.streams[1].duration_seconds.is_none());
    assert_eq!(evidence.chapters.len(), 2);
    assert_eq!(evidence.chapters[1].start_seconds.text, "3.5");
    assert!(is_same_evidence(&evidence, &evidence));
    let mut other = evidence.copy();
    other.path = "/elsewhere".to_owned();
    other.raw_probe_json = "other".to_owned();
    assert!(is_same_evidence(&evidence, &other));
    other.streams[1].width = None;
    assert!(!is_same_evidence(&evidence, &other));
    let mut other = evidence.copy();
    other.chapters.pop();
    assert!(!is_same_evidence(&evidence, &other));
    let mut other = evidence.copy();
    other.modified_ns = 78;
    assert!(!is_same_evidence(&evidence, &other));
    let mut other = evidence.copy();
    other.format.duration_seconds = None;
    assert!(!is_same_evidence(&evidence, &other));
}

#[test]
fn files_must_not_change_while_they_are_inspected() {
    let probe = probe("1", vec![], &[]);
    let changed = "source changed while inspecting: /movie.mkv";
    assert_eq!(refusal(&probe, stat(8, ModifiedTime::After(77))), changed);
    assert_eq!(refusal(&probe, stat(9, ModifiedTime::After(78))), changed);
    assert_eq!(
        refusal(&probe, stat(9, ModifiedTime::BeforeEpoch)),
        "file modification time predates Unix epoch"
    );
    assert_eq!(
        refusal(&probe, stat(8, ModifiedTime::BeforeEpoch)),
        changed
    );
    let mut moved = stat(9, ModifiedTime::After(77));
    moved.inode = 3;
    assert_eq!(refusal(&probe, moved), changed);
    let same = same_metadata(
        &stat(9, ModifiedTime::After(1)),
        &stat(9, ModifiedTime::After(1)),
    );
    assert_eq!(same, Ok(true));
}

#[test]
fn modification_times_fit_sixty_four_bits() {
    let read = |modified: ModifiedTime| modified_ns(&stat(0, modified));
    assert_eq!(read(ModifiedTime::After(0)), Ok(0));
    assert_eq!(read(ModifiedTime::After(i64::MAX as u128)), Ok(i64::MAX));
    assert_eq!(
        read(ModifiedTime::After(i64::MAX as u128 + 1)),
        Err("file modification time is out of range".to_owned())
    );
    assert_eq!(
        read(ModifiedTime::BeforeEpoch),
        Err("file modification time predates Unix epoch".to_owned())
    );
    assert_eq!(
        read(ModifiedTime::Unavailable("unsupported".to_owned())),
        Err("cannot read modification time: unsupported".to_owned())
    );
}

#[test]
fn probed_times_are_finite_and_not_negative() {
    assert_eq!(parse_time(&time("1.25"), "x").ok().unwrap().text, "1.25");
    assert_eq!(parse_time(&time("-0"), "x").ok().unwrap().text, "-0.0");
    for text in ["-1", "inf", "NaN", "-inf"] {
        assert_eq!(
            parse_time(&time(text), "chapter start").err().unwrap(),
            "invalid chapter start: must be finite and non-negative"
        );
    }
    assert_eq!(
        parse_time(&time("soon"), "chapter end").err().unwrap(),
        "invalid chapter end 'soon': invalid float literal"
    );
    assert!(parse_optional_time(&None, "x").ok().unwrap().is_none());
    assert_eq!(
        parse_optional_time(&Some(time("")), "format duration")
            .err()
            .unwrap(),
        "invalid format duration '': cannot parse float from empty string"
    );
}

#[test]
fn first_bad_time_of_a_probe_decides() {
    let look = || stat(9, ModifiedTime::After(77));
    assert_eq!(
        refusal(&probe("x", vec![stream(Some("y"), 0)], &[("z", "1")]), look()),
        "invalid format duration 'x': invalid float literal"
    );
    assert_eq!(
        refusal(
            &probe("1", vec![stream(None, 0), stream(Some("y"), 0), stream(Some("w"), 0)], &[("z", "1")]),
            look()
        ),
        "invalid stream duration 'y': invalid float literal"
    );
    assert_eq!(
        refusal(&probe("1", vec![], &[("1", "2"), ("2", "z"), ("q", "1")]), look()),
        "invalid chapter end 'z': invalid float literal"
    );
}

#[test]
fn paths_must_be_text_where_they_are_written_down() {
    let odd = OsText {
        bytes: b"/a\xffb".to_vec(),
    };
    assert_eq!(path_string(&OsText::of("/\u{e9}")), Ok("/\u{e9}".to_owned()));
    assert_eq!(
        path_string(&odd),
        Err("path is not valid UTF-8: /a\u{fffd}b".to_owned())
    );
    let inspect = |probe: &Probe, size: u64| {
        gather_evidence(
            &odd,
            &stat(9, ModifiedTime::After(77)),
            "digest".to_owned(),
            "json".to_owned(),
            probe,
            &stat(size, ModifiedTime::After(77)),
        )
        .err()
        .unwrap()
    };
    // a change is said first, then the path, then a bad time
    assert_eq!(
        inspect(&probe("x", vec![], &[]), 8),
        "source changed while inspecting: /a\u{fffd}b"
    );
    assert_eq!(
        inspect(&probe("x", vec![], &[]), 9),
        "path is not valid UTF-8: /a\u{fffd}b"
    );
}
