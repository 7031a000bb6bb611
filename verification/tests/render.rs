use marchiver::model::{
    ArchiveInspection, ArchiveManifest, ArchivePlan, Av1Config, ChapterSummary, FormatSummary,
    Journal, MediaEvidence, Phase, Profile, SourceDisposition, StreamSummary,
};
use marchiver::render::{
    document_header, render_evidence, render_indented_optional_float,
    render_indented_optional_string, render_indented_optional_u32, render_indented_string,
    render_inspection, render_journal, render_manifest, render_optional_string, render_plan,
    render_string,
};
use marchiver::seconds::Seconds;

fn seconds(value: f64) -> Seconds {
    Seconds {
        bits: value.to_bits(),
        text: format!("{value:?}"),
    }
}

fn some(text: &str) -> Option<String> {
    Some(text.to_owned())
}

fn bare() -> MediaEvidence {
    MediaEvidence {
        path: "/a\"b".to_owned(),
        sha256: "ff".to_owned(),
        size: 18_446_744_073_709_551_615,
        modified_ns: -5,
        format: FormatSummary {
            format_name: None,
            duration_seconds: None,
        },
        streams: Vec::new(),
        chapters: Vec::new(),
        raw_probe_json: "{\n}".to_owned(),
    }
}

fn full() -> MediaEvidence {
    let mut evidence = bare();
    evidence.format = FormatSummary {
        format_name: some("matroska,webm"),
        duration_seconds: Some(seconds(1e21)),
    };
    evidence.streams = vec![StreamSummary {
        index: 3,
        codec_name: some("h264"),
        codec_type: None,
        width: Some(1920),
        height: None,
        duration_seconds: Some(seconds(0.1)),
        bits_per_raw_sample: some("8"),
        pixel_format: None,
        color_space: some("bt709"),
        color_transfer: None,
        color_primaries: some("\u{7f}"),
        attached_picture: true,
    }];
    evidence.chapters = vec![
        ChapterSummary {
            start_seconds: seconds(0.0),
            end_seconds: seconds(1.5),
        },
        ChapterSummary {
            start_seconds: seconds(1.5),
            end_seconds: seconds(2.0),
        },
    ];
    evidence
}

const HEADER: &str = "// Trusted local Marchiver state. Do not evaluate untrusted Pkl.\n";

const BARE: &str = "new {\n  path = \"/a\\\"b\"\n  sha256 = \"ff\"\n  size = 18446744073709551615\n  modifiedNs = -5\n  format = new {\n    formatName = null\n    durationSeconds = null\n  }\n  streams = List(\n  )\n  chapters = List(\n  )\n  rawProbeJson = \"{\\n}\"\n}";

fn plan() -> ArchivePlan {
    ArchivePlan {
        schema_version: 1,
        kind: "ArchivePlan".to_owned(),
        producer_version: "0.1.0".to_owned(),
        transaction_id: "abc".to_owned(),
        profile: Profile::Av1,
        source_disposition: SourceDisposition::Delete,
        duration_tolerance_seconds: seconds(0.5),
        av1: Av1Config {
            crf: 20,
            preset: 6,
            container: "mkv".to_owned(),
        },
        source: bare(),
        destination_path: "/d".to_owned(),
        manifest_path: "/m".to_owned(),
    }
}

fn plan_lines() -> String {
    format!(
        "transactionId = \"abc\"\nprofile = \"av1\"\nsourceDisposition = \"delete\"\ndurationToleranceSeconds = 0.5\nav1 = new {{\n  crf = 20\n  preset = 6\n  container = \"mkv\"\n}}\nsource = {BARE}\ndestinationPath = \"/d\"\nmanifestPath = \"/m\"\n"
    )
}

#[test]
fn header_names_schema_kind_and_producer() {
    assert_eq!(
        document_header(-7, "K\\", "0.1.0"),
        format!("{HEADER}schemaVersion = -7\nkind = \"K\\\\\"\nproducerVersion = \"0.1.0\"\n")
    );
}

#[test]
fn evidence_is_written_in_full() {
    let mut out = "x = ".to_owned();
    render_evidence(&mut out, &bare(), 0);
    assert_eq!(out, format!("x = {BARE}"));

    let mut out = String::new();
    render_evidence(&mut out, &full(), 2);
    let expected = "new {\n    path = \"/a\\\"b\"\n    sha256 = \"ff\"\n    size = 18446744073709551615\n    modifiedNs = -5\n    format = new {\n      formatName = \"matroska,webm\"\n      durationSeconds = 1e21\n    }\n    streams = List(\n      new {\n        index = 3\n        codecName = \"h264\"\n        codecType = null\n        width = 1920\n        height = null\n        durationSeconds = 0.1\n        bitsPerRawSample = \"8\"\n        pixelFormat = null\n        colorSpace = \"bt709\"\n        colorTransfer = null\n        colorPrimaries = \"\\u007f\"\n        attachedPicture = true\n      },\n    )\n    chapters = List(\n      new { startSeconds = 0.0; endSeconds = 1.5 },\n      new { startSeconds = 1.5; endSeconds = 2.0 },\n    )\n    rawProbeJson = \"{\\n}\"\n  }";
    assert_eq!(out, expected);
}

#[test]
fn inspections_plans_and_manifests_are_written() {
    let inspection = ArchiveInspection {
        schema_version: 1,
        kind: "ArchiveInspection".to_owned(),
        producer_version: "0.1.0".to_owned(),
        evidence: bare(),
    };
    assert_eq!(
        render_inspection(&inspection),
        format!(
            "{HEADER}schemaVersion = 1\nkind = \"ArchiveInspection\"\nproducerVersion = \"0.1.0\"\nevidence = {BARE}\n"
        )
    );
    let plan = plan();
    assert_eq!(
        render_plan(&plan),
        format!(
            "{HEADER}schemaVersion = 1\nkind = \"ArchivePlan\"\nproducerVersion = \"0.1.0\"\n{}",
            plan_lines()
        )
    );
    let mut manifest = ArchiveManifest {
        schema_version: plan.schema_version,
        kind: "ArchiveManifest".to_owned(),
        producer_version: plan.producer_version,
        transaction_id: plan.transaction_id,
        profile: plan.profile,
        source_disposition: plan.source_disposition,
        duration_tolerance_seconds: plan.duration_tolerance_seconds,
        av1: plan.av1,
        source: plan.source,
        output: bare(),
        destination_path: plan.destination_path,
        manifest_path: plan.manifest_path,
        quarantine_path: None,
    };
    let start = format!(
        "{HEADER}schemaVersion = 1\nkind = \"ArchiveManifest\"\nproducerVersion = \"0.1.0\"\n{}outputEvidence = {BARE}\n",
        plan_lines()
    );
    assert_eq!(
        render_manifest(&manifest),
        format!("{start}quarantinePath = null\n")
    );
    manifest.quarantine_path = some("/q");
    assert_eq!(
        render_manifest(&manifest),
        format!("{start}quarantinePath = \"/q\"\n")
    );
}

#[test]
fn journals_are_written() {
    let mut journal = Journal {
        schema_version: 1,
        kind: "ArchiveJournal".to_owned(),
        producer_version: "0.1.0".to_owned(),
        transaction_id: "abc".to_owned(),
        source_path: "/s".to_owned(),
        destination_path: "/d".to_owned(),
        manifest_path: "/m".to_owned(),
        staging_path: "/p".to_owned(),
        phase: Phase::Prepared,
        output: None,
        quarantine_path: None,
        diagnostic: some("tab\there"),
    };
    let start = format!(
        "{HEADER}schemaVersion = 1\nkind = \"ArchiveJournal\"\nproducerVersion = \"0.1.0\"\ntransactionId = \"abc\"\nsourcePath = \"/s\"\ndestinationPath = \"/d\"\nmanifestPath = \"/m\"\nstagingPath = \"/p\"\n"
    );
    assert_eq!(
        render_journal(&journal),
        format!(
            "{start}phase = \"prepared\"\noutputEvidence = null\nquarantinePath = null\ndiagnostic = \"tab\\there\"\n"
        )
    );
    journal.phase = Phase::QuarantineLinked;
    journal.output = Some(bare());
    journal.quarantine_path = some("/q");
    journal.diagnostic = None;
    assert_eq!(
        render_journal(&journal),
        format!(
            "{start}phase = \"quarantineLinked\"\noutputEvidence = {BARE}\nquarantinePath = \"/q\"\ndiagnostic = null\n"
        )
    );
}

#[test]
fn lines_are_written_with_values_or_null() {
    let mut out = String::new();
    render_string(&mut out, "a", "x");
    render_optional_string(&mut out, "b", &some("y"));
    render_optional_string(&mut out, "c", &None);
    render_indented_string(&mut out, "  ", "d", "z");
    render_indented_optional_string(&mut out, " ", "e", &some(""));
    render_indented_optional_string(&mut out, " ", "f", &None);
    render_indented_optional_float(&mut out, " ", "g", &Some(seconds(-0.0)));
    render_indented_optional_float(&mut out, " ", "h", &None);
    render_indented_optional_u32(&mut out, " ", "i", Some(4_294_967_295));
    render_indented_optional_u32(&mut out, " ", "j", None);
    assert_eq!(
        out,
        "a = \"x\"\nb = \"y\"\nc = null\n  d = \"z\"\n e = \"\"\n f = null\n g = -0.0\n h = null\n i = 4294967295\n j = null\n"
    );
}

#[test]
fn changed_documents_are_written_differently() {
    let text = render_plan(&plan());
    let changes: [fn(&mut ArchivePlan); 9] = [
        |plan| plan.schema_version = 11,
        |plan| plan.kind.push('"'),
        |plan| plan.transaction_id.push('\n'),
        |plan| plan.profile = Profile::Copy,
        |plan| plan.av1.crf = 2,
        |plan| plan.source.path.push('\\'),
        |plan| plan.source.streams = full().streams,
        |plan| plan.source.chapters = full().chapters,
        |plan| plan.source.format.format_name = Some("null".to_owned()),
    ];
    for change in changes {
        let mut changed = plan();
        change(&mut changed);
        assert_ne!(render_plan(&changed), text);
    }
}
