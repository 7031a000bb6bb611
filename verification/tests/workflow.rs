//! Whole commands over an in-memory disk, with documents evaluated for real.
use std::collections::{BTreeMap, BTreeSet};

use marchiver::command::{proceed, Command, Progress, Session, EMBEDDED_CONFIG};
use marchiver::digest::hex_sha256;
use marchiver::flow::{
    Evaluated, FileKind, FileStat, ModifiedTime, Point, Reply, Request, Tool, ToolOutput,
};
use marchiver::model::{
    ArchiveManifest, ArchivePlan, Av1Config, ChapterSummary, Config, FormatSummary, Journal,
    MediaEvidence, Phase, Probe, ProbeChapter, ProbeDisposition, ProbeFormat, ProbeStream,
    ProbeTime, Profile, SourceDisposition, StreamSummary,
};
use marchiver::os_text::OsText;
use marchiver::pkl::{Document, Field, FieldValue};
use marchiver::seconds::Seconds;
use pklx::pklr::{EvalOptions, Value};
use serde::de::DeserializeOwned;

const ROOT: &str = "/media/archive paths with spaces";
/// Where the root is, once it was moved and a link left in its place.
const ELSEWHERE: &[u8] = b"/media/caf\xe9 archive";
const CONTENTS: &[u8] = b"one media file\n";
const PROBE: &str = r#"{
  "streams": [{
    "index": 0,
    "codec_name": "h264",
    "codec_type": "video",
    "width": 1920,
    "height": 1080,
    "duration": "1.000000",
    "bits_per_raw_sample": "8",
    "pix_fmt": "yuv420p",
    "color_space": "bt709",
    "color_transfer": "bt709",
    "color_primaries": "bt709",
    "disposition": {"attached_pic": 0}
  }],
  "chapters": [{"start_time": "0.000000", "end_time": "1.000000"}],
  "format": {"format_name": "matroska", "duration": "1.000000"}
}"#;

fn seconds(value: f64) -> Seconds {
    Seconds {
        bits: value.to_bits(),
        text: format!("{value:?}"),
    }
}

fn evaluate(source: &str) -> Result<Value, String> {
    tokio::runtime::Builder::new_current_thread()
        .build()
        .unwrap()
        .block_on(pklx::eval_source_to_value(
            source,
            EvalOptions::default(),
        ))
        .map_err(|error| error.to_string())
}

fn get<'v>(value: &'v Value, name: &str) -> Result<&'v Value, String> {
    match value {
        Value::Object(fields, _) => fields.get(name).ok_or(format!("missing {name}")),
        _ => Err(format!("no object around {name}")),
    }
}

fn read<T: DeserializeOwned>(value: &Value, name: &str) -> Result<T, String> {
    pklx::from_pkl_value(get(value, name)?).map_err(|error| error.to_string())
}

fn read_seconds(value: &Value, name: &str) -> Result<Option<Seconds>, String> {
    Ok(read::<Option<f64>>(value, name)?.map(seconds))
}

fn read_items<T>(
    value: &Value,
    name: &str,
    item: fn(&Value) -> Result<T, String>,
) -> Result<Vec<T>, String> {
    match get(value, name)? {
        Value::List(items) => items.iter().map(item).collect(),
        _ => Err(format!("{name} is no list")),
    }
}

fn profile(value: &Value, name: &str) -> Result<Profile, String> {
    match read::<String>(value, name)?.as_str() {
        "copy" => Ok(Profile::Copy),
        "av1" => Ok(Profile::Av1),
        other => Err(format!("unknown profile {other}")),
    }
}

fn disposition(value: &Value) -> Result<SourceDisposition, String> {
    match read::<String>(value, "sourceDisposition")?.as_str() {
        "quarantine" => Ok(SourceDisposition::Quarantine),
        "preserve" => Ok(SourceDisposition::Preserve),
        "delete" => Ok(SourceDisposition::Delete),
        other => Err(format!("unknown disposition {other}")),
    }
}

fn phase(value: &Value) -> Result<Phase, String> {
    match read::<String>(value, "phase")?.as_str() {
        "prepared" => Ok(Phase::Prepared),
        "staged" => Ok(Phase::Staged),
        "published" => Ok(Phase::Published),
        "verified" => Ok(Phase::Verified),
        "manifested" => Ok(Phase::Manifested),
        "quarantineLinked" => Ok(Phase::QuarantineLinked),
        "complete" => Ok(Phase::Complete),
        other => Err(format!("unknown phase {other}")),
    }
}

fn av1(value: &Value) -> Result<Av1Config, String> {
    let value = get(value, "av1")?;
    Ok(Av1Config {
        crf: read(value, "crf")?,
        preset: read(value, "preset")?,
        container: read(value, "container")?,
    })
}

fn tolerance(value: &Value) -> Result<Seconds, String> {
    Ok(seconds(read(value, "durationToleranceSeconds")?))
}

fn stream(value: &Value) -> Result<StreamSummary, String> {
    Ok(StreamSummary {
        index: read(value, "index")?,
        codec_name: read(value, "codecName")?,
        codec_type: read(value, "codecType")?,
        width: read(value, "width")?,
        height: read(value, "height")?,
        duration_seconds: read_seconds(value, "durationSeconds")?,
        bits_per_raw_sample: read(value, "bitsPerRawSample")?,
        pixel_format: read(value, "pixelFormat")?,
        color_space: read(value, "colorSpace")?,
        color_transfer: read(value, "colorTransfer")?,
        color_primaries: read(value, "colorPrimaries")?,
        attached_picture: read(value, "attachedPicture")?,
    })
}

fn chapter(value: &Value) -> Result<ChapterSummary, String> {
    Ok(ChapterSummary {
        start_seconds: seconds(read(value, "startSeconds")?),
        end_seconds: seconds(read(value, "endSeconds")?),
    })
}

fn evidence(value: &Value) -> Result<MediaEvidence, String> {
    let format = get(value, "format")?;
    Ok(MediaEvidence {
        path: read(value, "path")?,
        sha256: read(value, "sha256")?,
        size: read(value, "size")?,
        modified_ns: read(value, "modifiedNs")?,
        format: FormatSummary {
            format_name: read(format, "formatName")?,
            duration_seconds: read_seconds(format, "durationSeconds")?,
        },
        streams: read_items(value, "streams", stream)?,
        chapters: read_items(value, "chapters", chapter)?,
        raw_probe_json: read(value, "rawProbeJson")?,
    })
}

fn config(value: &Value) -> Result<Config, String> {
    Ok(Config {
        schema_version: read(value, "schemaVersion")?,
        source_disposition: disposition(value)?,
        default_profile: profile(value, "defaultProfile")?,
        av1: av1(value)?,
        duration_tolerance_seconds: tolerance(value)?,
    })
}

fn plan(value: &Value) -> Result<ArchivePlan, String> {
    Ok(ArchivePlan {
        schema_version: read(value, "schemaVersion")?,
        kind: read(value, "kind")?,
        producer_version: read(value, "producerVersion")?,
        transaction_id: read(value, "transactionId")?,
        profile: profile(value, "profile")?,
        source_disposition: disposition(value)?,
        duration_tolerance_seconds: tolerance(value)?,
        av1: av1(value)?,
        source: evidence(get(value, "source")?)?,
        destination_path: read(value, "destinationPath")?,
        manifest_path: read(value, "manifestPath")?,
    })
}

fn manifest(value: &Value) -> Result<ArchiveManifest, String> {
    let plan = plan(value)?;
    Ok(ArchiveManifest {
        schema_version: plan.schema_version,
        kind: plan.kind,
        producer_version: plan.producer_version,
        transaction_id: plan.transaction_id,
        profile: plan.profile,
        source_disposition: plan.source_disposition,
        duration_tolerance_seconds: plan.duration_tolerance_seconds,
        av1: plan.av1,
        source: plan.source,
        output: evidence(get(value, "outputEvidence")?)?,
        destination_path: plan.destination_path,
        manifest_path: plan.manifest_path,
        quarantine_path: read(value, "quarantinePath")?,
    })
}

fn journal(value: &Value) -> Result<Journal, String> {
    let output = get(value, "outputEvidence")?;
    Ok(Journal {
        schema_version: read(value, "schemaVersion")?,
        kind: read(value, "kind")?,
        producer_version: read(value, "producerVersion")?,
        transaction_id: read(value, "transactionId")?,
        source_path: read(value, "sourcePath")?,
        destination_path: read(value, "destinationPath")?,
        manifest_path: read(value, "manifestPath")?,
        staging_path: read(value, "stagingPath")?,
        phase: phase(value)?,
        output: match output {
            Value::Null => None,
            output => Some(evidence(output)?),
        },
        quarantine_path: read(value, "quarantinePath")?,
        diagnostic: read(value, "diagnostic")?,
    })
}

fn document(value: &Value) -> Document {
    match value {
        Value::Object(fields, _) => Document::Object(
            fields
                .iter()
                .map(|(name, value)| Field {
                    name: name.to_string(),
                    value: match value {
                        Value::Int(value) => FieldValue::Int(*value),
                        Value::String(value) => FieldValue::Text(value.to_string()),
                        _ => FieldValue::Other,
                    },
                })
                .collect(),
        ),
        _ => Document::Other,
    }
}

fn probe_time(text: &str) -> ProbeTime {
    ProbeTime {
        text: text.to_owned(),
        number: text
            .parse::<f64>()
            .map(seconds)
            .map_err(|error| error.to_string()),
    }
}

fn probe(json: &str) -> Result<Probe, String> {
    let json: serde_json::Value =
        serde_json::from_str(json).map_err(|error| error.to_string())?;
    let text = |value: &serde_json::Value, name: &str| value[name].as_str().map(str::to_owned);
    let time = |value: &serde_json::Value, name: &str| value[name].as_str().map(probe_time);
    let number = |value: &serde_json::Value, name: &str| value[name].as_u64().map(|n| n as u32);
    let none = Vec::new();
    let streams = json["streams"].as_array().unwrap_or(&none);
    let chapters = json["chapters"].as_array().unwrap_or(&none);
    Ok(Probe {
        streams: streams
            .iter()
            .map(|stream| ProbeStream {
                index: number(stream, "index").unwrap(),
                codec_name: text(stream, "codec_name"),
                codec_type: text(stream, "codec_type"),
                width: number(stream, "width"),
                height: number(stream, "height"),
                duration: time(stream, "duration"),
                bits_per_raw_sample: text(stream, "bits_per_raw_sample"),
                pix_fmt: text(stream, "pix_fmt"),
                color_space: text(stream, "color_space"),
                color_transfer: text(stream, "color_transfer"),
                color_primaries: text(stream, "color_primaries"),
                disposition: ProbeDisposition {
                    attached_pic: stream["disposition"]["attached_pic"].as_i64().unwrap_or(0)
                        as i32,
                },
            })
            .collect(),
        chapters: chapters
            .iter()
            .map(|chapter| ProbeChapter {
                start_time: time(chapter, "start_time").unwrap(),
                end_time: time(chapter, "end_time").unwrap(),
            })
            .collect(),
        format: ProbeFormat {
            format_name: text(&json["format"], "format_name"),
            duration: time(&json["format"], "duration"),
        },
    })
}

/// A disk with hard links, and the programs that stand on it.
struct Disk {
    names: BTreeMap<String, u64>,
    files: BTreeMap<u64, (Vec<u8>, u128)>,
    directories: BTreeSet<String>,
    next: u64,
    performed: usize,
    log: Vec<Vec<String>>,
    printed: String,
    probe_fails: bool,
    encoder_fails: bool,
    av1_source: Option<String>,
    moved: bool,
}

fn raw(text: &str) -> OsText {
    OsText::of(text)
}

fn path(name: &str) -> String {
    format!("{ROOT}/{name}")
}

fn parent(path: &str) -> String {
    match path.rsplit_once('/') {
        Some(("", _)) => "/".to_owned(),
        Some((parent, _)) => parent.to_owned(),
        None => ".".to_owned(),
    }
}

fn failed(point: Point, error: &str) -> Reply {
    Reply::Failed {
        point,
        error: error.to_owned(),
    }
}

impl Disk {
    fn new() -> Disk {
        let mut disk = Disk {
            names: BTreeMap::new(),
            files: BTreeMap::new(),
            directories: BTreeSet::new(),
            next: 1,
            performed: 0,
            log: Vec::new(),
            printed: String::new(),
            probe_fails: false,
            encoder_fails: false,
            av1_source: None,
            moved: false,
        };
        disk.directories.insert(ROOT.to_owned());
        disk
    }

    fn holds(&self, path: &str) -> bool {
        self.names.contains_key(path) || self.directories.contains(path)
    }

    fn bytes(&self, path: &str) -> &[u8] {
        &self.files[&self.names[path]].0
    }

    fn text(&self, path: &str) -> String {
        String::from_utf8(self.bytes(path).to_vec()).unwrap()
    }

    fn put(&mut self, path: &str, bytes: &[u8]) {
        let node = self.next;
        self.next += 1;
        self.names.insert(path.to_owned(), node);
        self.files
            .insert(node, (bytes.to_vec(), 1_000_000_000 + node as u128));
    }

    fn source(&mut self, name: &str) -> String {
        let path = path(name);
        self.put(&path, CONTENTS);
        path
    }

    fn write_new(&mut self, path: &str, bytes: &[u8]) -> Reply {
        if self.holds(path) {
            failed(Point::Create, "File exists")
        } else if !self.directories.contains(&parent(path)) {
            failed(Point::Create, "No such file or directory")
        } else {
            self.put(path, bytes);
            Reply::Finished
        }
    }

    fn run(&mut self, tool: Tool, arguments: Vec<String>) -> Reply {
        let mut entry = vec![tool.as_str().to_owned()];
        entry.extend(arguments.iter().cloned());
        self.log.push(entry);
        let failing = match tool {
            Tool::Ffprobe => self.probe_fails,
            Tool::Ffmpeg => self.encoder_fails,
        };
        if failing {
            let message = match tool {
                Tool::Ffprobe => "probe exploded safely\n",
                Tool::Ffmpeg => "encode exploded safely\n",
            };
            return Reply::Ran(ToolOutput {
                success: false,
                stdout: Vec::new(),
                stderr: message.as_bytes().to_vec(),
            });
        }
        let mut stdout = Vec::new();
        if tool == Tool::Ffprobe {
            assert_eq!(arguments.len(), 8);
            let encoded = match &self.av1_source {
                Some(source) => *source != arguments[7],
                None => false,
            };
            let json = if encoded {
                PROBE.replace("\"h264\"", "\"av1\"")
            } else {
                PROBE.to_owned()
            };
            stdout = json.into_bytes();
        } else if arguments[2] == "-nostdin" {
            let bytes = self.bytes(&arguments[5]).to_vec();
            let target = arguments.last().unwrap().clone();
            self.write_new(&target, &bytes);
        } else {
            assert_eq!(arguments.len(), 9);
        }
        Reply::Ran(ToolOutput {
            success: true,
            stdout,
            stderr: Vec::new(),
        })
    }

    fn evaluated<T>(
        &self,
        path: &str,
        decode: fn(&Value) -> Result<T, String>,
        reply: fn(Evaluated<T>) -> Reply,
    ) -> Reply {
        if !self.names.contains_key(path) {
            return failed(Point::Open, "File not found");
        }
        self.evaluated_text(&self.text(path), decode, reply)
    }

    fn evaluated_text<T>(
        &self,
        text: &str,
        decode: fn(&Value) -> Result<T, String>,
        reply: fn(Evaluated<T>) -> Reply,
    ) -> Reply {
        match evaluate(text) {
            Ok(value) => reply(Evaluated {
                document: document(&value),
                decoded: decode(&value),
            }),
            Err(error) => failed(Point::Open, &error),
        }
    }

    /// The path on this disk that bytes stand for.
    fn name(&self, text: &OsText) -> String {
        match text.bytes.strip_prefix(ELSEWHERE) {
            Some(rest) => format!("{ROOT}{}", String::from_utf8_lossy(rest)),
            None => String::from_utf8(text.bytes.clone()).unwrap(),
        }
    }

    /// The canonical path of what stands on this disk.
    fn canonical(&self, path: &str) -> OsText {
        match path.strip_prefix(ROOT) {
            Some(rest) if self.moved => OsText {
                bytes: [ELSEWHERE, rest.as_bytes()].concat(),
            },
            _ => raw(path),
        }
    }

    /// The one path that a request is about.
    fn subject(&self, request: &Request) -> String {
        match request {
            Request::Exists { path }
            | Request::IsDirectory { path }
            | Request::Kind { path }
            | Request::Resolve { path }
            | Request::Stat { path }
            | Request::Hash { path }
            | Request::CreateDirectory { path }
            | Request::WriteNew { path, .. }
            | Request::Remove { path }
            | Request::SyncFile { path }
            | Request::SyncDirectory { path }
            | Request::EvaluatePlan { path }
            | Request::EvaluateManifest { path }
            | Request::EvaluateJournal { path } => self.name(path),
            _ => String::new(),
        }
    }

    fn perform(&mut self, request: Request) -> Reply {
        self.performed += 1;
        let missing = "No such file or directory";
        let path = self.subject(&request);
        match request {
            Request::Exists { .. } => Reply::Flag(self.holds(&path)),
            Request::IsDirectory { .. } => Reply::Flag(self.directories.contains(&path)),
            Request::Kind { .. } => {
                if self.names.contains_key(&path) {
                    Reply::Kind(FileKind::Regular)
                } else if self.directories.contains(&path) {
                    Reply::Kind(FileKind::Directory)
                } else {
                    failed(Point::Open, missing)
                }
            }
            Request::Resolve { .. } => {
                if self.holds(&path) {
                    Reply::Resolved(self.canonical(&path))
                } else {
                    failed(Point::Open, missing)
                }
            }
            Request::Stat { .. } => match self.names.get(&path) {
                Some(node) => {
                    let (bytes, modified) = &self.files[node];
                    Reply::Stat(FileStat {
                        device: 7,
                        inode: *node,
                        size: bytes.len() as u64,
                        modified: ModifiedTime::After(*modified),
                    })
                }
                None => failed(Point::Open, missing),
            },
            Request::Hash { .. } => {
                if self.names.contains_key(&path) {
                    Reply::Digest(hex_sha256(&self.bytes(&path).to_vec()))
                } else {
                    failed(Point::Open, missing)
                }
            }
            Request::CreateDirectory { .. } => {
                if self.holds(&path) {
                    Reply::AlreadyExists
                } else {
                    self.directories.insert(path);
                    Reply::Finished
                }
            }
            Request::WriteNew { contents, .. } => self.write_new(&path, contents.as_bytes()),
            Request::Copy { from, to } => {
                let (from, to) = (self.name(&from), self.name(&to));
                if self.names.contains_key(&from) {
                    let bytes = self.bytes(&from).to_vec();
                    self.write_new(&to, &bytes)
                } else {
                    failed(Point::Open, missing)
                }
            }
            Request::HardLink { from, to } => {
                let (from, to) = (self.name(&from), self.name(&to));
                if self.holds(&to) {
                    failed(Point::Create, "File exists")
                } else {
                    match self.names.get(&from).copied() {
                        Some(node) => {
                            self.names.insert(to, node);
                            Reply::Finished
                        }
                        None => failed(Point::Create, missing),
                    }
                }
            }
            Request::Rename { from, to } => match self.names.remove(&self.name(&from)) {
                Some(node) => {
                    self.names.insert(self.name(&to), node);
                    Reply::Finished
                }
                None => failed(Point::Create, missing),
            },
            Request::Remove { .. } => match self.names.remove(&path) {
                Some(_) => Reply::Finished,
                None => failed(Point::Open, missing),
            },
            Request::SyncFile { .. } => {
                if self.names.contains_key(&path) {
                    Reply::Finished
                } else {
                    failed(Point::Open, missing)
                }
            }
            Request::SyncDirectory { .. } => {
                if self.directories.contains(&path) {
                    Reply::Finished
                } else {
                    failed(Point::Open, missing)
                }
            }
            Request::Run { tool, arguments } => {
                let arguments = arguments.iter().map(|argument| self.name(argument)).collect();
                self.run(tool, arguments)
            }
            Request::ParseProbe { json } => match probe(&json) {
                Ok(probe) => Reply::Probe(probe),
                Err(error) => failed(Point::Open, &error),
            },
            Request::EvaluateConfig { file } => match file {
                Some(file) => self.evaluated(&self.name(&file), config, Reply::Config),
                None => self.evaluated_text(EMBEDDED_CONFIG, config, Reply::Config),
            },
            Request::EvaluatePlan { .. } => self.evaluated(&path, plan, Reply::Plan),
            Request::EvaluateManifest { .. } => {
                self.evaluated(&path, manifest, Reply::Manifest)
            }
            Request::EvaluateJournal { .. } => self.evaluated(&path, journal, Reply::Journal),
            Request::Print { text } => {
                self.printed.push_str(&text);
                Reply::Finished
            }
        }
    }

    fn session() -> Session {
        Session {
            version: "0.1.0".to_owned(),
            process: 4242,
        }
    }

    fn execute(&mut self, command: &Command) -> Result<Option<String>, String> {
        let session = Disk::session();
        let mut replies = Vec::new();
        loop {
            match proceed(command, &session, &replies) {
                Progress::Ask(request) => replies.push(self.perform(request)),
                Progress::Finished(result) => return result,
            }
        }
    }

    /// Performs at most so many requests of a command and then stops.
    fn interrupt(&mut self, command: &Command, count: usize) -> bool {
        let session = Disk::session();
        let mut replies = Vec::new();
        while replies.len() < count {
            match proceed(command, &session, &replies) {
                Progress::Ask(request) => replies.push(self.perform(request)),
                Progress::Finished(_) => return false,
            }
        }
        true
    }

    fn configure(&mut self, disposition: &str) -> String {
        let path = path(&format!("{disposition} config.pkl"));
        let text = format!(
            "schemaVersion = 1\nsourceDisposition = \"{disposition}\"\ndefaultProfile = \"copy\"\nav1 = new {{ crf = 20; preset = 6; container = \"mkv\" }}\ndurationToleranceSeconds = 0.5\n"
        );
        self.put(&path, text.as_bytes());
        path
    }

    fn plan(
        &mut self,
        source: &str,
        destination: &str,
        disposition: Option<&str>,
        profile: Option<Profile>,
    ) -> String {
        let plan = format!("{destination} plan.pkl");
        let config = disposition.map(|disposition| self.configure(disposition));
        let result = self.execute(&Command::Plan {
            source: raw(&source),
            destination: raw(&destination),
            profile,
            config: config.as_deref().map(raw),
            output: raw(&plan),
        });
        assert_eq!(result, Ok(Some(plan.clone())));
        plan
    }

    fn apply(&mut self, plan: &str) -> Result<Option<String>, String> {
        self.execute(&Command::Apply {
            plan: raw(&plan),
        })
    }

    fn verify(&mut self, manifest: &str) -> Result<Option<String>, String> {
        self.execute(&Command::Verify {
            manifest: raw(&manifest),
        })
    }

    fn restore(&mut self, manifest: &str) -> Result<Option<String>, String> {
        self.execute(&Command::Restore {
            manifest: raw(&manifest),
        })
    }

    /// The one entry of a directory.
    fn only_entry(&self, directory: &str) -> String {
        let prefix = format!("{directory}/");
        let entries: Vec<&String> = self
            .directories
            .iter()
            .filter(|path| path.starts_with(&prefix))
            .collect();
        assert_eq!(entries.len(), 1);
        entries[0].clone()
    }

    fn transaction(&self) -> String {
        self.only_entry(&path(".marchiver-transactions"))
    }
}

fn error(result: Result<Option<String>, String>) -> String {
    result.unwrap_err()
}

#[test]
fn inspect_uses_exact_argv_without_shell_and_renders_roundtrip_pkl() {
    let mut disk = Disk::new();
    let source = disk.source("source ; touch SHELL_WAS_USED.media");
    let inspection = path("inspection evidence.pkl");
    let result = disk.execute(&Command::Inspect {
        source: raw(&source),
        report: Some(raw(&inspection)),
    });
    assert_eq!(result, Ok(Some(inspection.clone())));
    assert!(!disk.holds(&path("SHELL_WAS_USED.media")));
    assert_eq!(
        disk.log,
        vec![vec![
            "ffprobe".to_owned(),
            "-v".to_owned(),
            "error".to_owned(),
            "-show_format".to_owned(),
            "-show_streams".to_owned(),
            "-show_chapters".to_owned(),
            "-of".to_owned(),
            "json".to_owned(),
            source.clone(),
        ]]
    );
    let value = evaluate(&disk.text(&inspection)).unwrap();
    let rendered = format!("{value:?}");
    assert!(rendered.contains("ArchiveInspection"));
    assert!(rendered.contains("rawProbeJson"));
    let found = evidence(get(&value, "evidence").unwrap()).unwrap();
    assert_eq!(found.path, source);
    assert_eq!(found.sha256, hex_sha256(&CONTENTS.to_vec()));
    assert_eq!(found.size, 15);
    assert_eq!(found.raw_probe_json, PROBE);
    assert_eq!(found.streams.len(), 1);
    assert_eq!(found.streams[0].width, Some(1920));
    assert_eq!(found.chapters[0].end_seconds.bits, 1.0_f64.to_bits());
    assert_eq!(disk.names.len(), 2);
}

#[test]
fn inspection_is_printed_without_an_output() {
    let mut disk = Disk::new();
    let source = disk.source("movie.media");
    let result = disk.execute(&Command::Inspect {
        source: raw(&source),
        report: None,
    });
    assert_eq!(result, Ok(None));
    assert!(disk.printed.starts_with(
        "// Trusted local Marchiver state. Do not evaluate untrusted Pkl.\nschemaVersion = 1\nkind = \"ArchiveInspection\"\nproducerVersion = \"0.1.0\"\nevidence = new {\n  path = \"/media/"
    ));
    assert!(disk.printed.ends_with("\n}\n"));
    assert_eq!(disk.names.len(), 1);
}

#[test]
fn tool_stderr_is_reported_and_no_output_is_published() {
    let mut disk = Disk::new();
    let source = disk.source("bad source.media");
    let inspection = path("should not exist.pkl");
    disk.probe_fails = true;
    let result = disk.execute(&Command::Inspect {
        source: raw(&source),
        report: Some(raw(&inspection)),
    });
    assert_eq!(error(result), "ffprobe failed: probe exploded safely");
    assert!(!disk.holds(&inspection));
}

#[test]
fn inspect_and_plan_refuse_to_replace_existing_files() {
    let mut disk = Disk::new();
    let source = disk.source("source.media");
    let result = disk.execute(&Command::Inspect {
        source: raw(&source),
        report: Some(raw(&source)),
    });
    assert_eq!(
        error(result),
        format!("refusing to replace output '{source}': File exists")
    );
    assert_eq!(disk.bytes(&source), CONTENTS);
    assert_eq!(disk.names.len(), 1);

    let occupied = path("occupied plan.pkl");
    disk.put(&occupied, b"keep this plan\n");
    let result = disk.execute(&Command::Plan {
        source: raw(&source),
        destination: raw(&path("destination.media")),
        profile: None,
        config: None,
        output: raw(&occupied),
    });
    assert!(result.is_err());
    assert_eq!(disk.bytes(&occupied), b"keep this plan\n");
    assert_eq!(disk.bytes(&source), CONTENTS);
    assert_eq!(disk.names.len(), 2);
}

#[test]
fn copy_quarantine_verify_restore_and_complete_resume() {
    let mut disk = Disk::new();
    let source = disk.source("source movie.media");
    let node = disk.names[&source];
    let destination = path("archived movie.media");
    let plan = disk.plan(&source, &destination, None, None);
    let manifest = path("archived movie.media.marchiver.pkl");

    assert_eq!(disk.apply(&plan), Ok(Some(manifest.clone())));
    assert!(!disk.holds(&source));
    assert_eq!(disk.bytes(&destination), CONTENTS);
    assert!(disk.holds(&manifest));
    let transaction = disk.only_entry(&path(".marchiver-quarantine"));
    let quarantine = format!("{transaction}/source movie.media");
    assert_eq!(disk.names[&quarantine], node);

    assert_eq!(
        disk.verify(&manifest),
        Ok(Some(format!("verified {destination}")))
    );
    assert_eq!(
        disk.apply(&plan),
        Ok(Some(format!("already complete {manifest}")))
    );

    disk.put(&source, b"foreign existing source");
    assert_eq!(
        error(disk.restore(&manifest)),
        "existing files are not links to the same inode"
    );
    assert_eq!(disk.bytes(&source), b"foreign existing source");
    disk.names.remove(&source);
    assert_eq!(
        disk.restore(&manifest),
        Ok(Some(format!("restored {source}")))
    );
    assert_eq!(disk.names[&source], node);
    assert!(!disk.holds(&quarantine));
    assert!(disk.restore(&manifest).is_ok());
    disk.put(&source, b"foreign existing source");
    assert_eq!(
        error(disk.restore(&manifest)),
        "existing source does not match manifest; refusing overwrite"
    );
    disk.names.remove(&source);
    assert_eq!(
        error(disk.restore(&manifest)),
        "both source and quarantine are missing"
    );
}

#[test]
fn preserve_and_delete_dispositions_are_applied_after_manifest() {
    for disposition in ["preserve", "delete"] {
        let mut disk = Disk::new();
        let source = disk.source(&format!("{disposition} source.media"));
        let destination = path(&format!("{disposition} output.media"));
        let plan = disk.plan(&source, &destination, Some(disposition), None);
        assert!(disk.apply(&plan).is_ok());
        assert!(disk.holds(&destination));
        let manifest = path(&format!("{disposition} output.media.marchiver.pkl"));
        assert!(disk.holds(&manifest));
        assert_eq!(disk.holds(&source), disposition == "preserve");
        assert!(!disk.holds(&path(".marchiver-quarantine")));
        assert_eq!(
            error(disk.restore(&manifest)),
            "restore is only valid for quarantined sources"
        );
    }
}

#[test]
fn existing_destination_and_changed_source_are_refused() {
    let mut disk = Disk::new();
    let source = disk.source("source.media");
    let occupied = path("occupied.media");
    let occupied_plan = disk.plan(&source, &occupied, Some("preserve"), None);
    disk.put(&occupied, b"do not overwrite");
    assert_eq!(
        error(disk.apply(&occupied_plan)),
        "destination or manifest already exists; refusing overwrite"
    );
    assert_eq!(disk.bytes(&occupied), b"do not overwrite");

    let changed = path("changed output.media");
    let changed_plan = disk.plan(&source, &changed, Some("preserve"), None);
    disk.put(&source, b"mutated content\n");
    assert_eq!(
        error(disk.apply(&changed_plan)),
        format!("source changed since planning: {source}")
    );
    assert!(!disk.holds(&changed));
}

#[test]
fn duplicate_quarantine_link_phase_resumes_without_losing_either_copy() {
    let mut disk = Disk::new();
    let source = disk.source("resume source.media");
    let destination = path("resume output.media");
    let plan = disk.plan(&source, &destination, None, None);
    assert!(disk.apply(&plan).is_ok());

    let quarantine = format!(
        "{}/resume source.media",
        disk.only_entry(&path(".marchiver-quarantine"))
    );
    let node = disk.names[&quarantine];
    disk.names.insert(source.clone(), node);
    let journal = format!("{}/journal.pkl", disk.transaction());
    let contents = disk.text(&journal);
    assert!(contents.contains("phase = \"complete\""));
    disk.put(
        &journal,
        contents
            .replace("phase = \"complete\"", "phase = \"quarantineLinked\"")
            .as_bytes(),
    );

    assert!(disk.apply(&plan).is_ok());
    assert!(!disk.holds(&source));
    assert_eq!(disk.names[&quarantine], node);
}

#[test]
fn schema_versions_are_rejected_before_typed_deserialization() {
    let mut disk = Disk::new();
    let source = disk.source("schema source.media");
    let destination = path("schema output.media");
    let bad = path("bad config.pkl");
    disk.put(
        &bad,
        b"schemaVersion = 2\nsourceDisposition = \"preserve\"\ndefaultProfile = \"copy\"\nav1 = new { crf = 20; preset = 6; container = \"mkv\" }\ndurationToleranceSeconds = 0.5\n",
    );
    let plan = path("bad plan.pkl");
    let result = disk.execute(&Command::Plan {
        source: raw(&source),
        destination: raw(&destination),
        profile: None,
        config: Some(raw(&bad)),
        output: raw(&plan),
    });
    assert_eq!(
        error(result),
        "unsupported Config schemaVersion 2; expected 1"
    );
    assert!(!disk.holds(&plan));

    disk.put(&bad, b"schemaVersion = 2\n");
    let result = disk.execute(&Command::Plan {
        source: raw(&path("schema source.media")),
        destination: raw(&path("schema output.media")),
        profile: None,
        config: Some(raw(&bad)),
        output: raw(&plan),
    });
    assert_eq!(
        error(result),
        "unsupported Config schemaVersion 2; expected 1"
    );
}

#[test]
fn av1_argv_is_explicit_and_failure_is_journaled_safely() {
    let mut disk = Disk::new();
    let source = disk.source("AV1 source with spaces.media");
    let destination = path("AV1 destination with spaces.mkv");
    let plan = disk.plan(&source, &destination, Some("preserve"), Some(Profile::Av1));
    disk.encoder_fails = true;
    assert_eq!(
        error(disk.apply(&plan)),
        "ffmpeg transcode failed: encode exploded safely"
    );
    assert!(disk.holds(&source));
    assert!(!disk.holds(&destination));

    let staging = format!("{}/output.partial", disk.transaction());
    let expected = [
        "ffmpeg",
        "-v",
        "error",
        "-nostdin",
        "-n",
        "-i",
        source.as_str(),
        "-map",
        "0",
        "-map_metadata",
        "0",
        "-map_chapters",
        "0",
        "-c",
        "copy",
        "-c:v:0",
        "libsvtav1",
        "-crf:v:0",
        "20",
        "-preset:v:0",
        "6",
        "-pix_fmt:v:0",
        "yuv420p",
        "-color_primaries:v:0",
        "bt709",
        "-color_trc:v:0",
        "bt709",
        "-colorspace:v:0",
        "bt709",
        "-f",
        "matroska",
        staging.as_str(),
    ];
    assert_eq!(disk.log.last().unwrap().as_slice(), expected.as_slice());
    let journal = disk.text(&format!("{}/journal.pkl", disk.transaction()));
    assert!(journal.contains("phase = \"prepared\""));
    assert!(journal.contains("encode exploded safely"));

    disk.encoder_fails = false;
    disk.av1_source = Some(source);
    assert!(disk.apply(&plan).is_ok());
    assert!(disk.holds(&destination));
}

#[test]
fn av1_apply_and_verify_enforce_transcoded_stream_semantics() {
    let mut disk = Disk::new();
    let source = disk.source("semantic AV1 source.media");
    let destination = path("semantic AV1 output.mkv");
    let plan = disk.plan(&source, &destination, Some("preserve"), Some(Profile::Av1));
    disk.av1_source = Some(source.clone());
    assert!(disk.apply(&plan).is_ok());
    assert!(disk.holds(&source));
    assert!(disk.holds(&destination));
    let manifest = path("semantic AV1 output.mkv.marchiver.pkl");
    assert!(disk.verify(&manifest).is_ok());
    disk.av1_source = None;
    assert_eq!(error(disk.verify(&manifest)), "stream 0 is not AV1");
}

#[test]
fn av1_destination_needs_its_extension() {
    let mut disk = Disk::new();
    let source = disk.source("movie.media");
    let result = disk.execute(&Command::Plan {
        source: raw(&source),
        destination: raw(&path("movie.mp4")),
        profile: Some(Profile::Av1),
        config: None,
        output: raw(&path("plan.pkl")),
    });
    assert_eq!(error(result), "AV1 destination must use the .mkv extension");
}

#[test]
fn built_in_configuration_is_the_documented_one() {
    let value = evaluate(EMBEDDED_CONFIG).unwrap();
    let config = config(&value).unwrap();
    assert!(marchiver::plan::validate_config(&config).is_ok());
    assert_eq!(config.source_disposition, SourceDisposition::Quarantine);
    assert_eq!(config.default_profile, Profile::Copy);
    assert_eq!(config.av1.crf, 20);
    assert_eq!(config.av1.preset, 6);
    assert_eq!(config.av1.container, "mkv");
}

#[test]
fn plans_of_taken_or_unsuitable_places_are_refused() {
    let mut disk = Disk::new();
    let source = disk.source("movie.media");
    let attempt = |disk: &mut Disk, source: &str, destination: &str| {
        error(disk.execute(&Command::Plan {
            source: raw(&source),
            destination: raw(&destination),
            profile: None,
            config: None,
            output: raw(&path("plan.pkl")),
        }))
    };
    assert_eq!(
        attempt(&mut disk, &source, &source),
        format!("destination already exists: {source}")
    );
    assert_eq!(
        attempt(&mut disk, &source, "/"),
        "destination must be a final file path"
    );
    assert_eq!(
        attempt(&mut disk, &source, "/nowhere/movie.media"),
        "invalid destination parent '/nowhere': No such file or directory"
    );
    assert_eq!(
        attempt(&mut disk, &source, &format!("{source}/movie.media")),
        "destination parent is not a directory"
    );
    assert_eq!(
        attempt(&mut disk, ROOT, &path("new.media")),
        format!("not a regular file: {ROOT}")
    );
    assert_eq!(
        attempt(&mut disk, "/missing", &path("new.media")),
        "cannot inspect '/missing': No such file or directory"
    );
    assert!(!disk.holds(&path("plan.pkl")));
}

#[test]
fn manifests_are_bound_to_their_place() {
    let mut disk = Disk::new();
    let source = disk.source("movie.media");
    let destination = path("archived.media");
    let plan = disk.plan(&source, &destination, None, None);
    let manifest = disk.apply(&plan).unwrap().unwrap();
    let moved = path("elsewhere.pkl");
    let text = disk.text(&manifest);
    disk.put(&moved, text.as_bytes());
    assert_eq!(
        error(disk.verify(&moved)),
        "manifestPath does not identify the loaded manifest"
    );
    disk.put(
        &manifest,
        text.replace("crf = 20", "crf = 21").as_bytes(),
    );
    assert_eq!(
        error(disk.verify(&manifest)),
        "archive plan transactionId does not match its contents"
    );
    assert_eq!(
        error(disk.apply(&manifest)),
        "expected ArchivePlan Pkl document"
    );
}

#[test]
fn replaced_output_is_not_verified() {
    let mut disk = Disk::new();
    let source = disk.source("movie.media");
    let destination = path("archived.media");
    let plan = disk.plan(&source, &destination, Some("preserve"), None);
    let manifest = disk.apply(&plan).unwrap().unwrap();
    disk.put(&destination, b"something else");
    assert_eq!(
        error(disk.verify(&manifest)),
        "output SHA-256 differs from manifest"
    );
}

#[test]
fn interrupted_transactions_resume_and_never_lose_the_source() {
    let mut count = 0;
    loop {
        let mut disk = Disk::new();
        let source = disk.source("movie.media");
        let node = disk.names[&source];
        let destination = path("archived.media");
        let plan = disk.plan(&source, &destination, None, None);
        let apply = Command::Apply { plan: raw(&plan) };
        let stopped = disk.interrupt(&apply, count);
        assert!(disk.names.values().any(|other| *other == node));
        if !disk.holds(&source) {
            assert_eq!(disk.bytes(&destination), CONTENTS);
            assert!(disk.holds(&path("archived.media.marchiver.pkl")));
        }
        assert!(disk.apply(&plan).is_ok(), "stopped after {count}");
        assert_eq!(disk.bytes(&destination), CONTENTS);
        assert!(!disk.holds(&source));
        assert!(disk
            .verify(&path("archived.media.marchiver.pkl"))
            .is_ok());
        if !stopped {
            break;
        }
        count += 1;
    }
    assert!(count > 60);
}

#[test]
fn resumed_transactions_rest_and_are_restored() {
    let mut count = 0;
    loop {
        let mut disk = Disk::new();
        let source = disk.source("movie.media");
        let node = disk.names[&source];
        let destination = path("archived.media");
        let plan = disk.plan(&source, &destination, None, None);
        let manifest = path("archived.media.marchiver.pkl");
        let stopped = disk.interrupt(&Command::Apply { plan: raw(&plan) }, count);
        assert!(disk.apply(&plan).is_ok(), "stopped after {count}");

        let names = disk.names.clone();
        let files = disk.files.clone();
        let directories = disk.directories.clone();
        let runs = disk.log.len();
        assert_eq!(
            disk.apply(&plan),
            Ok(Some(format!("already complete {manifest}")))
        );
        assert_eq!(disk.names, names);
        assert_eq!(disk.files, files);
        assert_eq!(disk.directories, directories);
        assert_eq!(disk.log.len(), runs);

        assert_eq!(
            disk.restore(&manifest),
            Ok(Some(format!("restored {source}")))
        );
        assert_eq!(disk.names[&source], node);
        assert_eq!(disk.bytes(&source), CONTENTS);
        assert_eq!(disk.names.values().filter(|other| **other == node).count(), 1);
        assert_eq!(disk.bytes(&destination), CONTENTS);
        assert!(disk.holds(&manifest));
        if !stopped {
            break;
        }
        count += 7;
    }
    assert!(count > 60);
}

#[test]
fn interrupted_restorations_resume_and_never_lose_the_source() {
    let mut count = 0;
    loop {
        let mut disk = Disk::new();
        let source = disk.source("movie.media");
        let node = disk.names[&source];
        let destination = path("archived.media");
        let plan = disk.plan(&source, &destination, None, None);
        let manifest = disk.apply(&plan).unwrap().unwrap();
        let restore = Command::Restore {
            manifest: raw(&manifest),
        };
        let stopped = disk.interrupt(&restore, count);
        assert!(disk.names.values().any(|other| *other == node));
        assert!(disk.restore(&manifest).is_ok());
        assert_eq!(disk.names[&source], node);
        assert_eq!(
            disk.names.values().filter(|other| **other == node).count(),
            1
        );
        if !stopped {
            break;
        }
        count += 1;
    }
    assert!(count > 10);
}

#[test]
fn replays_ask_for_what_was_asked_before() {
    let mut disk = Disk::new();
    let source = disk.source("movie.media");
    let plan = disk.plan(&source, &path("archived.media"), None, None);
    let command = Command::Apply { plan: raw(&plan) };
    let session = Disk::session();
    let mut asked = Vec::new();
    let mut replies = Vec::new();
    while let Progress::Ask(request) = proceed(&command, &session, &replies) {
        let again = match proceed(&command, &session, &replies) {
            Progress::Ask(request) => request,
            Progress::Finished(_) => unreachable!(),
        };
        assert_eq!(request, again);
        asked.push(again);
        replies.push(disk.perform(request));
    }
    while let Some(request) = asked.pop() {
        replies.pop();
        assert_eq!(
            proceed(&command, &session, &replies),
            Progress::Ask(request)
        );
    }
}

#[test]
fn moved_archives_are_verified_and_restored() {
    let mut disk = Disk::new();
    let source = disk.source("movie.media");
    let destination = path("archived.media");
    let plan = disk.plan(&source, &destination, None, None);
    let manifest = disk.apply(&plan).unwrap().unwrap();
    assert!(!disk.holds(&source));
    disk.moved = true;
    assert_eq!(
        disk.restore(&manifest),
        Ok(Some(format!("restored {source}")))
    );
    assert_eq!(disk.bytes(&source), CONTENTS);
    assert_eq!(
        disk.restore(&manifest),
        Ok(Some(format!("restored {source}")))
    );
    assert_eq!(
        error(disk.verify(&manifest)),
        "path is not valid UTF-8: /media/caf\u{fffd} archive/archived.media"
    );
    assert_eq!(disk.bytes(&destination), CONTENTS);
}

#[test]
fn paths_that_are_no_text_are_worked_with_until_they_are_written_down() {
    let inside = |name: &str| OsText {
        bytes: [ELSEWHERE, b"/", name.as_bytes()].concat(),
    };
    let mut disk = Disk::new();
    disk.source("movie.media");
    let inspect = Command::Inspect {
        source: inside("movie.media"),
        report: Some(inside("report.pkl")),
    };
    // the canonical path is a text
    assert_eq!(
        disk.execute(&inspect),
        Ok(Some("/media/caf\u{fffd} archive/report.pkl".to_owned()))
    );
    assert!(disk.text(&path("report.pkl")).contains(&path("movie.media")));
    // the canonical path is none
    disk.moved = true;
    assert_eq!(
        error(disk.execute(&inspect)),
        "path is not valid UTF-8: /media/caf\u{fffd} archive/movie.media"
    );
    disk.probe_fails = true;
    assert_eq!(
        error(disk.execute(&inspect)),
        "ffprobe failed: probe exploded safely"
    );
}
