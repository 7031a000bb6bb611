use marchiver::model::{
    ArchiveManifest, ArchivePlan, Av1Config, Config, FormatSummary, Journal, MediaEvidence, Phase,
    Profile, SourceDisposition,
};
use marchiver::plan::{
    are_adjacent, manifest_from_plan, new_journal, plan_for, quarantine_path, transaction_id,
    transaction_plan, validate_config, validate_journal, validate_manifest_contents,
    validate_plan, validate_settings,
};
use marchiver::seconds::Seconds;
use sha2::{Digest, Sha256};

fn seconds(value: f64) -> Seconds {
    Seconds {
        bits: value.to_bits(),
        text: format!("{value:?}"),
    }
}

fn evidence(path: &str) -> MediaEvidence {
    MediaEvidence {
        path: path.to_owned(),
        sha256: "0123456789abcdef".repeat(4),
        size: 15,
        modified_ns: 1_700_000_000_000_000_000,
        format: FormatSummary {
            format_name: Some("matroska,webm".to_owned()),
            duration_seconds: Some(seconds(1.0)),
        },
        streams: Vec::new(),
        chapters: Vec::new(),
        raw_probe_json: "{}".to_owned(),
    }
}

fn config(disposition: SourceDisposition) -> Config {
    Config {
        schema_version: 1,
        source_disposition: disposition,
        default_profile: Profile::Copy,
        av1: Av1Config {
            crf: 20,
            preset: 6,
            container: "mkv".to_owned(),
        },
        duration_tolerance_seconds: seconds(0.5),
    }
}

fn plan() -> ArchivePlan {
    match plan_for(
        evidence("/media/movie.mkv"),
        "/archive/movie.mkv",
        Profile::Av1,
        &config(SourceDisposition::Quarantine),
        "0.1.0",
    ) {
        Ok(plan) => plan,
        Err(error) => panic!("{error}"),
    }
}

fn manifest() -> ArchiveManifest {
    let plan = plan();
    let quarantine = quarantine_path(&plan).unwrap();
    manifest_from_plan(&plan, evidence("/archive/movie.mkv"), quarantine, "0.1.0")
}

#[test]
fn transactions_are_identified_by_their_contents() {
    let plan = plan();
    let mut hash = Sha256::new();
    for text in [
        plan.source.sha256.as_str(),
        "/media/movie.mkv",
        "/archive/movie.mkv",
        "av1",
        "quarantine",
        "mkv",
    ] {
        hash.update(text.as_bytes());
        hash.update([0]);
    }
    hash.update([20]);
    hash.update([6]);
    hash.update(0.5_f64.to_le_bytes());
    let digest: String = hash
        .finalize()
        .iter()
        .map(|byte| format!("{byte:02x}"))
        .collect();
    assert_eq!(transaction_id(&plan).unwrap(), digest[..24]);
    assert_eq!(plan.transaction_id, digest[..24]);

    let mut other = plan.copy();
    other.av1.crf = 21;
    assert_ne!(transaction_id(&other), transaction_id(&plan));
    let mut other = plan.copy();
    other.duration_tolerance_seconds = seconds(0.25);
    assert_ne!(transaction_id(&other), transaction_id(&plan));
    let mut other = plan.copy();
    other.producer_version = "9.9.9".to_owned();
    assert_eq!(transaction_id(&other), transaction_id(&plan));
}

#[test]
fn plans_that_are_made_are_valid() {
    let plan = plan();
    assert_eq!(validate_plan(&plan), Ok(()));
    assert_eq!(plan.schema_version, 1);
    assert_eq!(plan.kind, "ArchivePlan");
    assert_eq!(plan.producer_version, "0.1.0");
    assert_eq!(plan.manifest_path, "/archive/movie.mkv.marchiver.pkl");
    assert_eq!(plan.profile, Profile::Av1);
    assert_eq!(plan.source_disposition, SourceDisposition::Quarantine);
}

#[test]
fn plans_that_cannot_be_made_are_refused() {
    let refused = |source: &str, destination: &str, profile: Profile| {
        plan_for(
            evidence(source),
            destination,
            profile,
            &config(SourceDisposition::Preserve),
            "0.1.0",
        )
        .err()
        .unwrap()
    };
    assert_eq!(
        refused("/a.mkv", "/a.mkv", Profile::Copy),
        "source and destination must differ"
    );
    assert_eq!(
        refused("/a.mkv", "/b.mp4", Profile::Av1),
        "AV1 destination must use the .mkv extension"
    );
    assert_eq!(
        refused("/a.mkv", "/..", Profile::Copy),
        "destination file name must be UTF-8"
    );
    assert_eq!(
        refused("a.mkv", "/b.mkv", Profile::Copy),
        "plan paths must be distinct absolute paths"
    );
    assert_eq!(
        refused("/x//a.mkv", "/x/a.mkv", Profile::Copy),
        "plan paths must be distinct absolute paths"
    );
}

#[test]
fn configurations_have_bounds() {
    let refused = |change: fn(&mut Config)| {
        let mut config = config(SourceDisposition::Delete);
        change(&mut config);
        validate_config(&config).unwrap_err()
    };
    assert_eq!(validate_config(&config(SourceDisposition::Delete)), Ok(()));
    assert_eq!(
        refused(|config| config.schema_version = 2),
        "config schemaVersion changed after raw validation"
    );
    assert_eq!(
        refused(|config| config.av1.container = "mp4".to_owned()),
        "AV1 container must be mkv"
    );
    assert_eq!(
        refused(|config| config.av1.crf = 64),
        "AV1 crf must be 0..=63 and preset must be 0..=13"
    );
    assert_eq!(
        refused(|config| config.av1.preset = 14),
        "AV1 crf must be 0..=63 and preset must be 0..=13"
    );
    for value in [-0.1, f64::NAN, f64::INFINITY, f64::NEG_INFINITY] {
        let mut config = config(SourceDisposition::Delete);
        config.duration_tolerance_seconds = seconds(value);
        assert_eq!(
            validate_config(&config).unwrap_err(),
            "durationToleranceSeconds must be finite and non-negative"
        );
    }
    let mut edge = config(SourceDisposition::Delete);
    edge.av1.crf = 63;
    edge.av1.preset = 13;
    edge.duration_tolerance_seconds = seconds(-0.0);
    assert_eq!(validate_config(&edge), Ok(()));
}

#[test]
fn settings_have_bounds() {
    let av1 = |crf: u8, preset: u8, container: &str| Av1Config {
        crf,
        preset,
        container: container.to_owned(),
    };
    assert_eq!(validate_settings(&av1(63, 13, "mkv"), &seconds(0.0)), Ok(()));
    for bad in [av1(64, 6, "mkv"), av1(20, 14, "mkv"), av1(20, 6, "webm")] {
        assert_eq!(
            validate_settings(&bad, &seconds(0.0)).unwrap_err(),
            "invalid AV1 settings"
        );
    }
    assert_eq!(
        validate_settings(&av1(20, 6, "mkv"), &seconds(-1.0)).unwrap_err(),
        "duration tolerance must be finite and non-negative"
    );
}

#[test]
fn changed_plans_are_refused() {
    let refused = |change: fn(&mut ArchivePlan), identify: bool| {
        let mut plan = plan();
        change(&mut plan);
        if identify {
            plan.transaction_id = transaction_id(&plan).unwrap();
        }
        validate_plan(&plan).unwrap_err()
    };
    for change in [
        (|plan| plan.schema_version = 2) as fn(&mut ArchivePlan),
        |plan| plan.kind = "ArchiveManifest".to_owned(),
        |plan| plan.producer_version = String::new(),
    ] {
        assert_eq!(refused(change, true), "invalid archive plan identity");
    }
    assert_eq!(
        refused(|plan| plan.av1.crf = 99, true),
        "invalid AV1 settings"
    );
    assert_eq!(
        refused(|plan| plan.av1.crf = 21, false),
        "archive plan transactionId does not match its contents"
    );
    assert_eq!(
        refused(|plan| plan.destination_path = "movie.mkv".to_owned(), true),
        "plan paths must be distinct absolute paths"
    );
    assert_eq!(
        refused(|plan| plan.destination_path = "/media/./movie.mkv".to_owned(), true),
        "plan paths must be distinct absolute paths"
    );
    assert_eq!(
        refused(|plan| plan.manifest_path = "/elsewhere/movie.pkl".to_owned(), true),
        "manifest must be adjacent to destination"
    );
    assert_eq!(
        refused(
            |plan| {
                plan.destination_path = "/archive/movie.mp4".to_owned();
            },
            true
        ),
        "AV1 destination must use the .mkv extension"
    );
    assert_eq!(
        refused(|plan| plan.source.sha256 = "short".to_owned(), true),
        "SHA-256 value must contain 64 hexadecimal characters"
    );
}

#[test]
fn manifests_of_plans_are_valid() {
    let manifest = manifest();
    assert_eq!(validate_manifest_contents(&manifest), Ok(()));
    let plan = plan();
    assert_eq!(
        manifest.quarantine_path,
        Some(format!(
            "/media/.marchiver-quarantine/{}/movie.mkv",
            plan.transaction_id
        ))
    );
    let again = transaction_plan(&manifest);
    assert_eq!(again.transaction_id, plan.transaction_id);
    assert_eq!(transaction_id(&again), transaction_id(&plan));
}

#[test]
fn changed_manifests_are_refused() {
    let refused = |change: fn(&mut ArchiveManifest)| {
        let mut manifest = manifest();
        change(&mut manifest);
        validate_manifest_contents(&manifest).unwrap_err()
    };
    assert_eq!(
        refused(|manifest| manifest.schema_version = 3),
        "invalid archive manifest identity"
    );
    assert_eq!(
        refused(|manifest| manifest.kind = "ArchivePlan".to_owned()),
        "invalid archive manifest identity"
    );
    assert_eq!(
        refused(|manifest| manifest.av1.preset = 200),
        "invalid AV1 settings"
    );
    assert_eq!(
        refused(|manifest| manifest.source.sha256 = String::new()),
        "SHA-256 value must contain 64 hexadecimal characters"
    );
    assert_eq!(
        refused(|manifest| manifest.output.sha256 = "x".repeat(64)),
        "SHA-256 value must contain 64 hexadecimal characters"
    );
    assert_eq!(
        refused(|manifest| manifest.output.path = "/archive/other.mkv".to_owned()),
        "manifest output path does not match destinationPath"
    );
    assert_eq!(
        refused(|manifest| manifest.source_disposition = SourceDisposition::Delete),
        "archive plan transactionId does not match its contents"
    );
    assert_eq!(
        refused(|manifest| manifest.quarantine_path = None),
        "manifest quarantinePath does not match its transaction"
    );
}

#[test]
fn quarantine_is_for_quarantined_sources_only() {
    let mut plan = plan();
    plan.source_disposition = SourceDisposition::Preserve;
    assert_eq!(quarantine_path(&plan), Ok(None));
    plan.source_disposition = SourceDisposition::Quarantine;
    plan.source.path = "/".to_owned();
    assert_eq!(
        quarantine_path(&plan),
        Err("source has no file name".to_owned())
    );
    plan.source.path = "/..".to_owned();
    assert_eq!(
        quarantine_path(&plan),
        Err("source has no file name".to_owned())
    );
}

#[test]
fn neighbours_share_a_directory() {
    assert!(are_adjacent("/a/b", "/a/c"));
    assert!(are_adjacent("/a//b", "/a/./c/"));
    assert!(are_adjacent("/", ""));
    assert!(!are_adjacent("/a/b", "/a"));
    assert!(!are_adjacent("/a", "/"));
}

#[test]
fn journals_are_bound_to_their_plan() {
    let plan = plan();
    let staging = "/archive/.marchiver-transactions/x/output.partial";
    let fresh = || new_journal(&plan, staging, "0.1.0");
    assert_eq!(validate_journal(&fresh(), &plan, staging), Ok(()));
    let changes: [fn(&mut Journal); 8] = [
        |journal| journal.schema_version = 0,
        |journal| journal.kind = "Journal".to_owned(),
        |journal| journal.producer_version = String::new(),
        |journal| journal.transaction_id = "0".repeat(24),
        |journal| journal.source_path = "/other".to_owned(),
        |journal| journal.destination_path = "/other".to_owned(),
        |journal| journal.manifest_path = "/other".to_owned(),
        |journal| journal.staging_path = "/other".to_owned(),
    ];
    for change in changes {
        let mut journal = fresh();
        change(&mut journal);
        assert_eq!(
            validate_journal(&journal, &plan, staging),
            Err("journal does not match archive plan".to_owned())
        );
    }
    for phase in [
        Phase::Staged,
        Phase::Published,
        Phase::Verified,
        Phase::Manifested,
        Phase::QuarantineLinked,
        Phase::Complete,
    ] {
        let mut journal = fresh();
        journal.phase = phase;
        assert_eq!(
            validate_journal(&journal, &plan, staging),
            Err("journal phase requires output evidence".to_owned())
        );
        journal.output = Some(evidence("/archive/movie.mkv"));
        let late = phase == Phase::QuarantineLinked || phase == Phase::Complete;
        assert_eq!(
            validate_journal(&journal, &plan, staging),
            if late {
                Err("journal phase requires quarantinePath".to_owned())
            } else {
                Ok(())
            }
        );
        journal.quarantine_path = Some("/q".to_owned());
        assert_eq!(validate_journal(&journal, &plan, staging), Ok(()));
    }
}

#[test]
fn names_are_those_of_the_documents() {
    assert_eq!(Profile::Copy.as_str(), "copy");
    assert_eq!(Profile::Av1.as_str(), "av1");
    assert_eq!(SourceDisposition::Quarantine.as_str(), "quarantine");
    assert_eq!(SourceDisposition::Preserve.as_str(), "preserve");
    assert_eq!(SourceDisposition::Delete.as_str(), "delete");
    assert_eq!(Phase::Prepared.as_str(), "prepared");
    assert_eq!(Phase::QuarantineLinked.as_str(), "quarantineLinked");
    assert_eq!(Phase::Complete.as_str(), "complete");
    assert!(Phase::Complete.at_least(Phase::Staged));
    assert!(!Phase::Prepared.at_least(Phase::Staged));
}
