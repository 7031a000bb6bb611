//! The documents of an archive transaction and the evidence they hold.
//!
//! Each type has a mathematical counterpart, given by its deep view, in which
//! texts are character sequences and vectors are sequences.
use vstd::prelude::*;
use vstd::string::*;

use crate::seconds::{Seconds, SecondsView};
use crate::text::copy_optional;

verus! {

/// The version of every document's schema.
pub const SCHEMA_VERSION: i64 = 1;

/// How a source becomes its archived output.
#[derive(Clone, Copy, Debug, PartialEq, Eq, Structural)]
pub enum Profile {
    /// Byte for byte.
    Copy,
    /// Video streams encoded anew.
    Av1,
}

impl DeepView for Profile {
    type V = Profile;

    open spec fn deep_view(&self) -> Profile {
        *self
    }
}

impl Profile {
    /// The profile's name in documents.
    pub open spec fn name(self) -> Seq<char> {
        match self {
            Profile::Copy => "copy"@,
            Profile::Av1 => "av1"@,
        }
    }

    /// The profile's name in documents.
    pub fn as_str(self) -> (name: &'static str)
        ensures
            name@ == self.name(),
    {
        match self {
            Profile::Copy => "copy",
            Profile::Av1 => "av1",
        }
    }
}

/// What becomes of a source once its output is archived.
#[derive(Clone, Copy, Debug, PartialEq, Eq, Structural)]
pub enum SourceDisposition {
    /// Moved beside itself, to be restored later.
    Quarantine,
    /// Left where it is.
    Preserve,
    /// Removed.
    Delete,
}

impl DeepView for SourceDisposition {
    type V = SourceDisposition;

    open spec fn deep_view(&self) -> SourceDisposition {
        *self
    }
}

impl SourceDisposition {
    /// The disposition's name in documents.
    pub open spec fn name(self) -> Seq<char> {
        match self {
            SourceDisposition::Quarantine => "quarantine"@,
            SourceDisposition::Preserve => "preserve"@,
            SourceDisposition::Delete => "delete"@,
        }
    }

    /// The disposition's name in documents.
    pub fn as_str(self) -> (name: &'static str)
        ensures
            name@ == self.name(),
    {
        match self {
            SourceDisposition::Quarantine => "quarantine",
            SourceDisposition::Preserve => "preserve",
            SourceDisposition::Delete => "delete",
        }
    }
}

/// How far a transaction has come. The phases are passed in this order.
#[derive(Clone, Copy, Debug, PartialEq, Eq, Structural)]
pub enum Phase {
    Prepared,
    Staged,
    Published,
    Verified,
    Manifested,
    QuarantineLinked,
    Complete,
}

impl DeepView for Phase {
    type V = Phase;

    open spec fn deep_view(&self) -> Phase {
        *self
    }
}

impl Phase {
    /// The phase's name in documents.
    pub open spec fn name(self) -> Seq<char> {
        match self {
            Phase::Prepared => "prepared"@,
            Phase::Staged => "staged"@,
            Phase::Published => "published"@,
            Phase::Verified => "verified"@,
            Phase::Manifested => "manifested"@,
            Phase::QuarantineLinked => "quarantineLinked"@,
            Phase::Complete => "complete"@,
        }
    }

    /// The phase's name in documents.
    pub fn as_str(self) -> (name: &'static str)
        ensures
            name@ == self.name(),
    {
        match self {
            Phase::Prepared => "prepared",
            Phase::Staged => "staged",
            Phase::Published => "published",
            Phase::Verified => "verified",
            Phase::Manifested => "manifested",
            Phase::QuarantineLinked => "quarantineLinked",
            Phase::Complete => "complete",
        }
    }

    /// The phase's place in the order.
    pub open spec fn rank(self) -> int {
        match self {
            Phase::Prepared => 0,
            Phase::Staged => 1,
            Phase::Published => 2,
            Phase::Verified => 3,
            Phase::Manifested => 4,
            Phase::QuarantineLinked => 5,
            Phase::Complete => 6,
        }
    }

    fn place(self) -> (place: u8)
        ensures
            place == self.rank(),
    {
        match self {
            Phase::Prepared => 0,
            Phase::Staged => 1,
            Phase::Published => 2,
            Phase::Verified => 3,
            Phase::Manifested => 4,
            Phase::QuarantineLinked => 5,
            Phase::Complete => 6,
        }
    }

    /// Whether this phase is the other one or a later one.
    pub fn at_least(self, other: Phase) -> (result: bool)
        ensures
            result == (self.rank() >= other.rank()),
    {
        self.place() >= other.place()
    }
}

/// The settings of the AV1 encoder.
#[derive(Debug)]
pub struct Av1Config {
    pub crf: u8,
    pub preset: u8,
    pub container: String,
}

pub struct Av1View {
    pub crf: u8,
    pub preset: u8,
    pub container: Seq<char>,
}

impl DeepView for Av1Config {
    type V = Av1View;

    open spec fn deep_view(&self) -> Av1View {
        Av1View { crf: self.crf, preset: self.preset, container: self.container@ }
    }
}

impl Av1Config {
    /// A copy of these settings.
    pub fn copy(&self) -> (copy: Av1Config)
        ensures
            copy.deep_view() == self.deep_view(),
    {
        Av1Config { crf: self.crf, preset: self.preset, container: self.container.clone() }
    }
}

/// The settings that a plan is made with.
pub struct Config {
    pub schema_version: i64,
    pub source_disposition: SourceDisposition,
    pub default_profile: Profile,
    pub av1: Av1Config,
    pub duration_tolerance_seconds: Seconds,
}

pub struct ConfigView {
    pub schema_version: i64,
    pub source_disposition: SourceDisposition,
    pub default_profile: Profile,
    pub av1: Av1View,
    pub duration_tolerance_seconds: SecondsView,
}

impl DeepView for Config {
    type V = ConfigView;

    open spec fn deep_view(&self) -> ConfigView {
        ConfigView {
            schema_version: self.schema_version,
            source_disposition: self.source_disposition,
            default_profile: self.default_profile,
            av1: self.av1.deep_view(),
            duration_tolerance_seconds: self.duration_tolerance_seconds.deep_view(),
        }
    }
}

/// A media file's container, in short.
pub struct FormatSummary {
    pub format_name: Option<String>,
    pub duration_seconds: Option<Seconds>,
}

pub struct FormatView {
    pub format_name: Option<Seq<char>>,
    pub duration_seconds: Option<SecondsView>,
}

impl DeepView for FormatSummary {
    type V = FormatView;

    open spec fn deep_view(&self) -> FormatView {
        FormatView {
            format_name: self.format_name.deep_view(),
            duration_seconds: self.duration_seconds.deep_view(),
        }
    }
}

/// One stream of a media file, in short.
pub struct StreamSummary {
    pub index: u32,
    pub codec_name: Option<String>,
    pub codec_type: Option<String>,
    pub width: Option<u32>,
    pub height: Option<u32>,
    pub duration_seconds: Option<Seconds>,
    pub bits_per_raw_sample: Option<String>,
    pub pixel_format: Option<String>,
    pub color_space: Option<String>,
    pub color_transfer: Option<String>,
    pub color_primaries: Option<String>,
    pub attached_picture: bool,
}

pub struct StreamView {
    pub index: u32,
    pub codec_name: Option<Seq<char>>,
    pub codec_type: Option<Seq<char>>,
    pub width: Option<u32>,
    pub height: Option<u32>,
    pub duration_seconds: Option<SecondsView>,
    pub bits_per_raw_sample: Option<Seq<char>>,
    pub pixel_format: Option<Seq<char>>,
    pub color_space: Option<Seq<char>>,
    pub color_transfer: Option<Seq<char>>,
    pub color_primaries: Option<Seq<char>>,
    pub attached_picture: bool,
}

impl DeepView for StreamSummary {
    type V = StreamView;

    open spec fn deep_view(&self) -> StreamView {
        StreamView {
            index: self.index,
            codec_name: self.codec_name.deep_view(),
            codec_type: self.codec_type.deep_view(),
            width: self.width,
            height: self.height,
            duration_seconds: self.duration_seconds.deep_view(),
            bits_per_raw_sample: self.bits_per_raw_sample.deep_view(),
            pixel_format: self.pixel_format.deep_view(),
            color_space: self.color_space.deep_view(),
            color_transfer: self.color_transfer.deep_view(),
            color_primaries: self.color_primaries.deep_view(),
            attached_picture: self.attached_picture,
        }
    }
}

/// One chapter of a media file.
pub struct ChapterSummary {
    pub start_seconds: Seconds,
    pub end_seconds: Seconds,
}

pub struct ChapterView {
    pub start_seconds: SecondsView,
    pub end_seconds: SecondsView,
}

impl DeepView for ChapterSummary {
    type V = ChapterView;

    open spec fn deep_view(&self) -> ChapterView {
        ChapterView {
            start_seconds: self.start_seconds.deep_view(),
            end_seconds: self.end_seconds.deep_view(),
        }
    }
}

/// What was seen of one media file at one time.
pub struct MediaEvidence {
    pub path: String,
    pub sha256: String,
    pub size: u64,
    pub modified_ns: i64,
    pub format: FormatSummary,
    pub streams: Vec<StreamSummary>,
    pub chapters: Vec<ChapterSummary>,
    pub raw_probe_json: String,
}

#[verifier::ext_equal]
pub struct EvidenceView {
    pub path: Seq<char>,
    pub sha256: Seq<char>,
    pub size: u64,
    pub modified_ns: i64,
    pub format: FormatView,
    pub streams: Seq<StreamView>,
    pub chapters: Seq<ChapterView>,
    pub raw_probe_json: Seq<char>,
}

impl DeepView for MediaEvidence {
    type V = EvidenceView;

    open spec fn deep_view(&self) -> EvidenceView {
        EvidenceView {
            path: self.path@,
            sha256: self.sha256@,
            size: self.size,
            modified_ns: self.modified_ns,
            format: self.format.deep_view(),
            streams: self.streams.deep_view(),
            chapters: self.chapters.deep_view(),
            raw_probe_json: self.raw_probe_json@,
        }
    }
}

fn copy_seconds(value: &Option<Seconds>) -> (copy: Option<Seconds>)
    ensures
        copy.deep_view() == value.deep_view(),
{
    match value {
        Some(value) => Some(value.copy()),
        None => None,
    }
}

impl StreamSummary {
    /// A copy of this summary.
    pub fn copy(&self) -> (copy: StreamSummary)
        ensures
            copy.deep_view() == self.deep_view(),
    {
        StreamSummary {
            index: self.index,
            codec_name: copy_optional(&self.codec_name),
            codec_type: copy_optional(&self.codec_type),
            width: self.width,
            height: self.height,
            duration_seconds: copy_seconds(&self.duration_seconds),
            bits_per_raw_sample: copy_optional(&self.bits_per_raw_sample),
            pixel_format: copy_optional(&self.pixel_format),
            color_space: copy_optional(&self.color_space),
            color_transfer: copy_optional(&self.color_transfer),
            color_primaries: copy_optional(&self.color_primaries),
            attached_picture: self.attached_picture,
        }
    }
}

impl ChapterSummary {
    /// A copy of this summary.
    pub fn copy(&self) -> (copy: ChapterSummary)
        ensures
            copy.deep_view() == self.deep_view(),
    {
        ChapterSummary {
            start_seconds: self.start_seconds.copy(),
            end_seconds: self.end_seconds.copy(),
        }
    }
}

fn copy_streams(streams: &Vec<StreamSummary>) -> (copy: Vec<StreamSummary>)
    ensures
        copy.deep_view() == streams.deep_view(),
{
    let mut copy: Vec<StreamSummary> = Vec::new();
    let mut i: usize = 0;
    while i < streams.len()
        invariant
            i <= streams.len(),
            copy.len() == i,
            forall|k: int| 0 <= k < i ==> copy[k].deep_view() == streams[k].deep_view(),
        decreases streams.len() - i,
    {
        copy.push(streams[i].copy());
        i = i + 1;
    }
    assert(copy.deep_view() =~= streams.deep_view());
    copy
}

fn copy_chapters(chapters: &Vec<ChapterSummary>) -> (copy: Vec<ChapterSummary>)
    ensures
        copy.deep_view() == chapters.deep_view(),
{
    let mut copy: Vec<ChapterSummary> = Vec::new();
    let mut i: usize = 0;
    while i < chapters.len()
        invariant
            i <= chapters.len(),
            copy.len() == i,
            forall|k: int| 0 <= k < i ==> copy[k].deep_view() == chapters[k].deep_view(),
        decreases chapters.len() - i,
    {
        copy.push(chapters[i].copy());
        i = i + 1;
    }
    assert(copy.deep_view() =~= chapters.deep_view());
    copy
}

impl MediaEvidence {
    /// A copy of this evidence.
    pub fn copy(&self) -> (copy: MediaEvidence)
        ensures
            copy.deep_view() == self.deep_view(),
    {
        MediaEvidence {
            path: self.path.clone(),
            sha256: self.sha256.clone(),
            size: self.size,
            modified_ns: self.modified_ns,
            format: FormatSummary {
                format_name: copy_optional(&self.format.format_name),
                duration_seconds: copy_seconds(&self.format.duration_seconds),
            },
            streams: copy_streams(&self.streams),
            chapters: copy_chapters(&self.chapters),
            raw_probe_json: self.raw_probe_json.clone(),
        }
    }
}

/// The document that an inspection writes.
pub struct ArchiveInspection {
    pub schema_version: i64,
    pub kind: String,
    pub producer_version: String,
    pub evidence: MediaEvidence,
}

pub struct InspectionView {
    pub schema_version: i64,
    pub kind: Seq<char>,
    pub producer_version: Seq<char>,
    pub evidence: EvidenceView,
}

impl DeepView for ArchiveInspection {
    type V = InspectionView;

    open spec fn deep_view(&self) -> InspectionView {
        InspectionView {
            schema_version: self.schema_version,
            kind: self.kind@,
            producer_version: self.producer_version@,
            evidence: self.evidence.deep_view(),
        }
    }
}

/// The document that says what a transaction is to do.
pub struct ArchivePlan {
    pub schema_version: i64,
    pub kind: String,
    pub producer_version: String,
    pub transaction_id: String,
    pub profile: Profile,
    pub source_disposition: SourceDisposition,
    pub duration_tolerance_seconds: Seconds,
    pub av1: Av1Config,
    pub source: MediaEvidence,
    pub destination_path: String,
    pub manifest_path: String,
}

pub struct PlanView {
    pub schema_version: i64,
    pub kind: Seq<char>,
    pub producer_version: Seq<char>,
    pub transaction_id: Seq<char>,
    pub profile: Profile,
    pub source_disposition: SourceDisposition,
    pub duration_tolerance_seconds: SecondsView,
    pub av1: Av1View,
    pub source: EvidenceView,
    pub destination_path: Seq<char>,
    pub manifest_path: Seq<char>,
}

impl DeepView for ArchivePlan {
    type V = PlanView;

    open spec fn deep_view(&self) -> PlanView {
        PlanView {
            schema_version: self.schema_version,
            kind: self.kind@,
            producer_version: self.producer_version@,
            transaction_id: self.transaction_id@,
            profile: self.profile,
            source_disposition: self.source_disposition,
            duration_tolerance_seconds: self.duration_tolerance_seconds.deep_view(),
            av1: self.av1.deep_view(),
            source: self.source.deep_view(),
            destination_path: self.destination_path@,
            manifest_path: self.manifest_path@,
        }
    }
}

impl ArchivePlan {
    /// A copy of this plan.
    pub fn copy(&self) -> (copy: ArchivePlan)
        ensures
            copy.deep_view() == self.deep_view(),
    {
        ArchivePlan {
            schema_version: self.schema_version,
            kind: self.kind.clone(),
            producer_version: self.producer_version.clone(),
            transaction_id: self.transaction_id.clone(),
            profile: self.profile,
            source_disposition: self.source_disposition,
            duration_tolerance_seconds: self.duration_tolerance_seconds.copy(),
            av1: self.av1.copy(),
            source: self.source.copy(),
            destination_path: self.destination_path.clone(),
            manifest_path: self.manifest_path.clone(),
        }
    }
}

/// The document that says what a transaction has archived.
pub struct ArchiveManifest {
    pub schema_version: i64,
    pub kind: String,
    pub producer_version: String,
    pub transaction_id: String,
    pub profile: Profile,
    pub source_disposition: SourceDisposition,
    pub duration_tolerance_seconds: Seconds,
    pub av1: Av1Config,
    pub source: MediaEvidence,
    pub output: MediaEvidence,
    pub destination_path: String,
    pub manifest_path: String,
    pub quarantine_path: Option<String>,
}

pub struct ManifestView {
    pub schema_version: i64,
    pub kind: Seq<char>,
    pub producer_version: Seq<char>,
    pub transaction_id: Seq<char>,
    pub profile: Profile,
    pub source_disposition: SourceDisposition,
    pub duration_tolerance_seconds: SecondsView,
    pub av1: Av1View,
    pub source: EvidenceView,
    pub output: EvidenceView,
    pub destination_path: Seq<char>,
    pub manifest_path: Seq<char>,
    pub quarantine_path: Option<Seq<char>>,
}

impl DeepView for ArchiveManifest {
    type V = ManifestView;

    open spec fn deep_view(&self) -> ManifestView {
        ManifestView {
            schema_version: self.schema_version,
            kind: self.kind@,
            producer_version: self.producer_version@,
            transaction_id: self.transaction_id@,
            profile: self.profile,
            source_disposition: self.source_disposition,
            duration_tolerance_seconds: self.duration_tolerance_seconds.deep_view(),
            av1: self.av1.deep_view(),
            source: self.source.deep_view(),
            output: self.output.deep_view(),
            destination_path: self.destination_path@,
            manifest_path: self.manifest_path@,
            quarantine_path: self.quarantine_path.deep_view(),
        }
    }
}

impl ArchiveManifest {
    /// A copy of this manifest.
    pub fn copy(&self) -> (copy: ArchiveManifest)
        ensures
            copy.deep_view() == self.deep_view(),
    {
        ArchiveManifest {
            schema_version: self.schema_version,
            kind: self.kind.clone(),
            producer_version: self.producer_version.clone(),
            transaction_id: self.transaction_id.clone(),
            profile: self.profile,
            source_disposition: self.source_disposition,
            duration_tolerance_seconds: self.duration_tolerance_seconds.copy(),
            av1: self.av1.copy(),
            source: self.source.copy(),
            output: self.output.copy(),
            destination_path: self.destination_path.clone(),
            manifest_path: self.manifest_path.clone(),
            quarantine_path: copy_optional(&self.quarantine_path),
        }
    }
}

/// The document that says how far a transaction has come.
pub struct Journal {
    pub schema_version: i64,
    pub kind: String,
    pub producer_version: String,
    pub transaction_id: String,
    pub source_path: String,
    pub destination_path: String,
    pub manifest_path: String,
    pub staging_path: String,
    pub phase: Phase,
    pub output: Option<MediaEvidence>,
    pub quarantine_path: Option<String>,
    pub diagnostic: Option<String>,
}

pub struct JournalView {
    pub schema_version: i64,
    pub kind: Seq<char>,
    pub producer_version: Seq<char>,
    pub transaction_id: Seq<char>,
    pub source_path: Seq<char>,
    pub destination_path: Seq<char>,
    pub manifest_path: Seq<char>,
    pub staging_path: Seq<char>,
    pub phase: Phase,
    pub output: Option<EvidenceView>,
    pub quarantine_path: Option<Seq<char>>,
    pub diagnostic: Option<Seq<char>>,
}

impl DeepView for Journal {
    type V = JournalView;

    open spec fn deep_view(&self) -> JournalView {
        JournalView {
            schema_version: self.schema_version,
            kind: self.kind@,
            producer_version: self.producer_version@,
            transaction_id: self.transaction_id@,
            source_path: self.source_path@,
            destination_path: self.destination_path@,
            manifest_path: self.manifest_path@,
            staging_path: self.staging_path@,
            phase: self.phase,
            output: self.output.deep_view(),
            quarantine_path: self.quarantine_path.deep_view(),
            diagnostic: self.diagnostic.deep_view(),
        }
    }
}

impl Journal {
    /// A copy of this journal.
    pub fn copy(&self) -> (copy: Journal)
        ensures
            copy.deep_view() == self.deep_view(),
    {
        Journal {
            schema_version: self.schema_version,
            kind: self.kind.clone(),
            producer_version: self.producer_version.clone(),
            transaction_id: self.transaction_id.clone(),
            source_path: self.source_path.clone(),
            destination_path: self.destination_path.clone(),
            manifest_path: self.manifest_path.clone(),
            staging_path: self.staging_path.clone(),
            phase: self.phase,
            output: match &self.output {
                Some(output) => Some(output.copy()),
                None => None,
            },
            quarantine_path: copy_optional(&self.quarantine_path),
            diagnostic: copy_optional(&self.diagnostic),
        }
    }
}

/// A time as a probe wrote it: the text, and the number it reads as, or why it
/// reads as none.
pub struct ProbeTime {
    pub text: String,
    pub number: Result<Seconds, String>,
}

/// What a probe says of a container.
pub struct ProbeFormat {
    pub format_name: Option<String>,
    pub duration: Option<ProbeTime>,
}

/// The flags that a probe reports of a stream.
pub struct ProbeDisposition {
    pub attached_pic: i32,
}

/// What a probe says of one stream.
pub struct ProbeStream {
    pub index: u32,
    pub codec_name: Option<String>,
    pub codec_type: Option<String>,
    pub width: Option<u32>,
    pub height: Option<u32>,
    pub duration: Option<ProbeTime>,
    pub bits_per_raw_sample: Option<String>,
    pub pix_fmt: Option<String>,
    pub color_space: Option<String>,
    pub color_transfer: Option<String>,
    pub color_primaries: Option<String>,
    pub disposition: ProbeDisposition,
}

/// What a probe says of one chapter.
pub struct ProbeChapter {
    pub start_time: ProbeTime,
    pub end_time: ProbeTime,
}

/// What a probe says of a file.
pub struct Probe {
    pub streams: Vec<ProbeStream>,
    pub chapters: Vec<ProbeChapter>,
    pub format: ProbeFormat,
}

/// Each profile has a name of its own in documents.
pub proof fn law_profiles_have_names_of_their_own(a: Profile, b: Profile)
    requires
        a.name() == b.name(),
    ensures
        a == b,
{
    reveal_strlit("copy");
    reveal_strlit("av1");
    assert("copy"@.len() == 4 && "av1"@.len() == 3);
}

/// Each disposition has a name of its own in documents.
pub proof fn law_dispositions_have_names_of_their_own(a: SourceDisposition, b: SourceDisposition)
    requires
        a.name() == b.name(),
    ensures
        a == b,
{
    reveal_strlit("quarantine");
    reveal_strlit("preserve");
    reveal_strlit("delete");
    assert("quarantine"@.len() == 10 && "preserve"@.len() == 8 && "delete"@.len() == 6);
}

/// Each phase has a name of its own in documents.
pub proof fn law_phases_have_names_of_their_own(a: Phase, b: Phase)
    requires
        a.name() == b.name(),
    ensures
        a == b,
{
    reveal_strlit("prepared");
    reveal_strlit("staged");
    reveal_strlit("published");
    reveal_strlit("verified");
    reveal_strlit("manifested");
    reveal_strlit("quarantineLinked");
    reveal_strlit("complete");
    assert("prepared"@.len() == 8 && "staged"@.len() == 6 && "published"@.len() == 9);
    assert("verified"@.len() == 8 && "manifested"@.len() == 10);
    assert("quarantineLinked"@.len() == 16 && "complete"@.len() == 8);
    assert("prepared"@[0] == 'p' && "verified"@[0] == 'v' && "complete"@[0] == 'c');
}

} // verus!
