//! The writing of documents as Pkl text.
use vstd::prelude::*;
use vstd::string::*;

use crate::model::{
    ArchiveInspection, ArchiveManifest, ArchivePlan, Av1Config, Av1View, ChapterSummary,
    ChapterView, EvidenceView, InspectionView, Journal, JournalView, ManifestView, MediaEvidence,
    PlanView, Profile, SourceDisposition, StreamSummary, StreamView,
};
use crate::pkl::{pkl_string_literal, string_literal};
use crate::seconds::{Seconds, SecondsView};
use crate::text::{cat2, cat3, cat4, cat5, decimal, decimal_text, signed_decimal, signed_text};

verus! {

/// One line that gives a name a value.
pub open spec fn value_line(indent: Seq<char>, name: Seq<char>, value: Seq<char>) -> Seq<char> {
    indent + name + " = "@ + value + "\n"@
}

/// One line that gives a name a text.
pub open spec fn string_line(name: Seq<char>, value: Seq<char>) -> Seq<char> {
    name + " = "@ + string_literal(value) + "\n"@
}

/// One line that gives a name a text or nothing.
pub open spec fn optional_string_line(name: Seq<char>, value: Option<Seq<char>>) -> Seq<char> {
    match value {
        Some(value) => string_line(name, value),
        None => name + " = null\n"@,
    }
}

/// One indented line that gives a name a text or nothing.
pub open spec fn indented_optional_string_line(
    indent: Seq<char>,
    name: Seq<char>,
    value: Option<Seq<char>>,
) -> Seq<char> {
    match value {
        Some(value) => value_line(indent, name, string_literal(value)),
        None => indent + name + " = null\n"@,
    }
}

/// One indented line that gives a name a number of seconds or nothing.
pub open spec fn indented_optional_float_line(
    indent: Seq<char>,
    name: Seq<char>,
    value: Option<SecondsView>,
) -> Seq<char> {
    match value {
        Some(value) => value_line(indent, name, value.text),
        None => indent + name + " = null\n"@,
    }
}

/// One indented line that gives a name a whole number or nothing.
pub open spec fn indented_optional_u32_line(
    indent: Seq<char>,
    name: Seq<char>,
    value: Option<u32>,
) -> Seq<char> {
    match value {
        Some(value) => value_line(indent, name, decimal_text(value as nat)),
        None => indent + name + " = null\n"@,
    }
}

/// Adds a line that gives a name a text.
pub fn render_string(out: &mut String, name: &str, value: &str)
    ensures
        final(out)@ == old(out)@ + string_line(name@, value@),
{
    out.append(&cat4(name, " = ", &pkl_string_literal(value), "\n"));
}

/// Adds a line that gives a name a text or nothing.
pub fn render_optional_string(out: &mut String, name: &str, value: &Option<String>)
    ensures
        final(out)@ == old(out)@ + optional_string_line(name@, value.deep_view()),
{
    match value {
        Some(value) => render_string(out, name, value),
        None => out.append(&cat2(name, " = null\n")),
    }
}

/// Adds an indented line that gives a name a text.
pub fn render_indented_string(out: &mut String, indent: &str, name: &str, value: &str)
    ensures
        final(out)@ == old(out)@ + value_line(indent@, name@, string_literal(value@)),
{
    out.append(&cat5(indent, name, " = ", &pkl_string_literal(value), "\n"));
}

/// Adds an indented line that gives a name a text or nothing.
pub fn render_indented_optional_string(
    out: &mut String,
    indent: &str,
    name: &str,
    value: &Option<String>,
)
    ensures
        final(out)@ == old(out)@ + indented_optional_string_line(indent@, name@, value.deep_view()),
{
    match value {
        Some(value) => render_indented_string(out, indent, name, value),
        None => out.append(&cat3(indent, name, " = null\n")),
    }
}

/// Adds an indented line that gives a name a number of seconds or nothing.
pub fn render_indented_optional_float(
    out: &mut String,
    indent: &str,
    name: &str,
    value: &Option<Seconds>,
)
    ensures
        final(out)@ == old(out)@ + indented_optional_float_line(indent@, name@, value.deep_view()),
{
    match value {
        Some(value) => out.append(&cat5(indent, name, " = ", &value.text, "\n")),
        None => out.append(&cat3(indent, name, " = null\n")),
    }
}

/// Adds an indented line that gives a name a whole number or nothing.
pub fn render_indented_optional_u32(out: &mut String, indent: &str, name: &str, value: Option<u32>)
    ensures
        final(out)@ == old(out)@ + indented_optional_u32_line(indent@, name@, value),
{
    match value {
        Some(value) => out.append(&cat5(indent, name, " = ", &decimal(value as u64), "\n")),
        None => out.append(&cat3(indent, name, " = null\n")),
    }
}

/// The first lines of every document.
pub open spec fn header_text(schema: int, kind: Seq<char>, producer: Seq<char>) -> Seq<char> {
    "// Trusted local Marchiver state. Do not evaluate untrusted Pkl.\n"@ + ("schemaVersion = "@
        + signed_text(schema) + "\n"@) + string_line("kind"@, kind) + string_line(
        "producerVersion"@,
        producer,
    )
}

/// Writes the first lines of a document.
pub fn document_header(schema: i64, kind: &str, producer: &str) -> (text: String)
    ensures
        text@ == header_text(schema as int, kind@, producer@),
{
    let mut text =
        "// Trusted local Marchiver state. Do not evaluate untrusted Pkl.\n".to_owned();
    text.append(&cat3("schemaVersion = ", &signed_decimal(schema), "\n"));
    render_string(&mut text, "kind", kind);
    render_string(&mut text, "producerVersion", producer);
    text
}

/// So many spaces.
pub open spec fn spaces(count: nat) -> Seq<char> {
    Seq::new(count, |i: int| ' ')
}

/// Writes so many spaces.
fn padding(count: usize) -> (text: String)
    ensures
        text@ == spaces(count as nat),
{
    let mut text = String::new();
    let mut i: usize = 0;
    proof {
        reveal_strlit(" ");
        assert(text@ =~= spaces(0));
    }
    while i < count
        invariant
            i <= count,
            text@ == spaces(i as nat),
            " "@ == seq![' '],
        decreases count - i,
    {
        text.append(" ");
        i = i + 1;
        assert(text@ =~= spaces(i as nat));
    }
    text
}

/// The text of `true` and `false`.
pub open spec fn bool_text(value: bool) -> Seq<char> {
    if value {
        "true"@
    } else {
        "false"@
    }
}

/// One stream in a list of streams.
pub open spec fn stream_text(field: Seq<char>, stream: StreamView) -> Seq<char> {
    let item = field + "    "@;
    field + "  new {\n"@ + value_line(item, "index"@, decimal_text(stream.index as nat))
        + indented_optional_string_line(item, "codecName"@, stream.codec_name)
        + indented_optional_string_line(item, "codecType"@, stream.codec_type)
        + indented_optional_u32_line(item, "width"@, stream.width)
        + indented_optional_u32_line(item, "height"@, stream.height)
        + indented_optional_float_line(item, "durationSeconds"@, stream.duration_seconds)
        + indented_optional_string_line(item, "bitsPerRawSample"@, stream.bits_per_raw_sample)
        + indented_optional_string_line(item, "pixelFormat"@, stream.pixel_format)
        + indented_optional_string_line(item, "colorSpace"@, stream.color_space)
        + indented_optional_string_line(item, "colorTransfer"@, stream.color_transfer)
        + indented_optional_string_line(item, "colorPrimaries"@, stream.color_primaries)
        + value_line(item, "attachedPicture"@, bool_text(stream.attached_picture)) + (field
        + "  },\n"@)
}

/// The streams of a list, one after the other.
pub open spec fn streams_text(field: Seq<char>, streams: Seq<StreamView>) -> Seq<char>
    decreases streams.len(),
{
    if streams.len() == 0 {
        Seq::empty()
    } else {
        streams_text(field, streams.drop_last()) + stream_text(field, streams.last())
    }
}

/// One chapter in a list of chapters.
pub open spec fn chapter_text(field: Seq<char>, chapter: ChapterView) -> Seq<char> {
    field + "  new { startSeconds = "@ + chapter.start_seconds.text + "; endSeconds = "@
        + chapter.end_seconds.text + " },\n"@
}

/// The chapters of a list, one after the other.
pub open spec fn chapters_text(field: Seq<char>, chapters: Seq<ChapterView>) -> Seq<char>
    decreases chapters.len(),
{
    if chapters.len() == 0 {
        Seq::empty()
    } else {
        chapters_text(field, chapters.drop_last()) + chapter_text(field, chapters.last())
    }
}

/// The writing of evidence as a Pkl object.
#[verifier::opaque]
pub open spec fn evidence_text(evidence: EvidenceView, indent: nat) -> Seq<char> {
    let field = spaces(indent + 2);
    let inner = field + "  "@;
    "new {\n"@ + value_line(field, "path"@, string_literal(evidence.path)) + value_line(
        field,
        "sha256"@,
        string_literal(evidence.sha256),
    ) + value_line(field, "size"@, decimal_text(evidence.size as nat)) + value_line(
        field,
        "modifiedNs"@,
        signed_text(evidence.modified_ns as int),
    ) + (field + "format = new {\n"@) + indented_optional_string_line(
        inner,
        "formatName"@,
        evidence.format.format_name,
    ) + indented_optional_float_line(
        inner,
        "durationSeconds"@,
        evidence.format.duration_seconds,
    ) + (field + "}\n"@) + (field + "streams = List(\n"@) + streams_text(field, evidence.streams)
        + (field + ")\n"@) + (field + "chapters = List(\n"@) + chapters_text(
        field,
        evidence.chapters,
    ) + (field + ")\n"@) + value_line(
        field,
        "rawProbeJson"@,
        string_literal(evidence.raw_probe_json),
    ) + (spaces(indent) + "}"@)
}

fn write_stream(field: &str, stream: &StreamSummary) -> (text: String)
    ensures
        text@ == stream_text(field@, stream.deep_view()),
{
    let item = cat2(field, "    ");
    let mut text = cat2(field, "  new {\n");
    text.append(&cat5(&item, "index", " = ", &decimal(stream.index as u64), "\n"));
    render_indented_optional_string(&mut text, &item, "codecName", &stream.codec_name);
    render_indented_optional_string(&mut text, &item, "codecType", &stream.codec_type);
    render_indented_optional_u32(&mut text, &item, "width", stream.width);
    render_indented_optional_u32(&mut text, &item, "height", stream.height);
    render_indented_optional_float(&mut text, &item, "durationSeconds", &stream.duration_seconds);
    render_indented_optional_string(
        &mut text,
        &item,
        "bitsPerRawSample",
        &stream.bits_per_raw_sample,
    );
    render_indented_optional_string(&mut text, &item, "pixelFormat", &stream.pixel_format);
    render_indented_optional_string(&mut text, &item, "colorSpace", &stream.color_space);
    render_indented_optional_string(&mut text, &item, "colorTransfer", &stream.color_transfer);
    render_indented_optional_string(&mut text, &item, "colorPrimaries", &stream.color_primaries);
    let attached = if stream.attached_picture {
        "true"
    } else {
        "false"
    };
    text.append(&cat5(&item, "attachedPicture", " = ", attached, "\n"));
    text.append(&cat2(field, "  },\n"));
    text
}

fn write_streams(field: &str, streams: &Vec<StreamSummary>) -> (text: String)
    ensures
        text@ == streams_text(field@, streams.deep_view()),
{
    let mut text = String::new();
    let mut i: usize = 0;
    let ghost all = streams.deep_view();
    while i < streams.len()
        invariant
            all == streams.deep_view(),
            i <= streams.len(),
            text@ == streams_text(field@, all.subrange(0, i as int)),
        decreases streams.len() - i,
    {
        text.append(&write_stream(field, &streams[i]));
        proof {
            let next = all.subrange(0, i + 1);
            assert(next.drop_last() =~= all.subrange(0, i as int));
            assert(next.last() == streams[i as int].deep_view());
        }
        i = i + 1;
    }
    assert(all.subrange(0, all.len() as int) =~= all);
    text
}

fn write_chapters(field: &str, chapters: &Vec<ChapterSummary>) -> (text: String)
    ensures
        text@ == chapters_text(field@, chapters.deep_view()),
{
    let mut text = String::new();
    let mut i: usize = 0;
    let ghost all = chapters.deep_view();
    while i < chapters.len()
        invariant
            all == chapters.deep_view(),
            i <= chapters.len(),
            text@ == chapters_text(field@, all.subrange(0, i as int)),
        decreases chapters.len() - i,
    {
        let chapter = &chapters[i];
        let mut line = cat5(
            field,
            "  new { startSeconds = ",
            &chapter.start_seconds.text,
            "; endSeconds = ",
            &chapter.end_seconds.text,
        );
        line.append(" },\n");
        text.append(&line);
        proof {
            let next = all.subrange(0, i + 1);
            assert(next.drop_last() =~= all.subrange(0, i as int));
            assert(next.last() == chapters[i as int].deep_view());
        }
        i = i + 1;
    }
    assert(all.subrange(0, all.len() as int) =~= all);
    text
}

/// Adds evidence as a Pkl object.
pub fn render_evidence(out: &mut String, evidence: &MediaEvidence, indent: usize)
    requires
        indent <= usize::MAX - 2,
    ensures
        final(out)@ == old(out)@ + evidence_text(evidence.deep_view(), indent as nat),
{
    proof {
        reveal(evidence_text);
    }
    let field = padding(indent + 2);
    let inner = cat2(&field, "  ");
    let mut text = "new {\n".to_owned();
    render_indented_string(&mut text, &field, "path", &evidence.path);
    render_indented_string(&mut text, &field, "sha256", &evidence.sha256);
    text.append(&cat5(&field, "size", " = ", &decimal(evidence.size), "\n"));
    text.append(&cat5(&field, "modifiedNs", " = ", &signed_decimal(evidence.modified_ns), "\n"));
    text.append(&cat2(&field, "format = new {\n"));
    render_indented_optional_string(&mut text, &inner, "formatName", &evidence.format.format_name);
    render_indented_optional_float(
        &mut text,
        &inner,
        "durationSeconds",
        &evidence.format.duration_seconds,
    );
    text.append(&cat2(&field, "}\n"));
    text.append(&cat2(&field, "streams = List(\n"));
    text.append(&write_streams(&field, &evidence.streams));
    text.append(&cat2(&field, ")\n"));
    text.append(&cat2(&field, "chapters = List(\n"));
    text.append(&write_chapters(&field, &evidence.chapters));
    text.append(&cat2(&field, ")\n"));
    render_indented_string(&mut text, &field, "rawProbeJson", &evidence.raw_probe_json);
    text.append(&cat2(&padding(indent), "}"));
    out.append(&text);
}

/// The writing of an inspection.
#[verifier::opaque]
pub open spec fn inspection_text(inspection: InspectionView) -> Seq<char> {
    header_text(inspection.schema_version as int, inspection.kind, inspection.producer_version)
        + "evidence = "@ + evidence_text(inspection.evidence, 0) + "\n"@
}

/// Writes an inspection.
pub fn render_inspection(inspection: &ArchiveInspection) -> (text: String)
    ensures
        text@ == inspection_text(inspection.deep_view()),
{
    proof {
        reveal(inspection_text);
    }
    let mut out = document_header(
        inspection.schema_version,
        &inspection.kind,
        &inspection.producer_version,
    );
    out.append("evidence = ");
    render_evidence(&mut out, &inspection.evidence, 0);
    out.append("\n");
    out
}

/// The lines that plans and manifests have in common.
pub open spec fn common_text(
    transaction_id: Seq<char>,
    profile: Profile,
    disposition: SourceDisposition,
    tolerance: SecondsView,
    av1: Av1View,
    source: EvidenceView,
    destination: Seq<char>,
    manifest: Seq<char>,
) -> Seq<char> {
    string_line("transactionId"@, transaction_id) + string_line("profile"@, profile.name())
        + string_line("sourceDisposition"@, disposition.name()) + ("durationToleranceSeconds = "@
        + tolerance.text + "\n"@) + "av1 = new {\n"@ + value_line(
        "  "@,
        "crf"@,
        decimal_text(av1.crf as nat),
    ) + value_line("  "@, "preset"@, decimal_text(av1.preset as nat)) + value_line(
        "  "@,
        "container"@,
        string_literal(av1.container),
    ) + "}\n"@ + "source = "@ + evidence_text(source, 0) + "\n"@ + string_line(
        "destinationPath"@,
        destination,
    ) + string_line("manifestPath"@, manifest)
}

/// Adds the lines that plans and manifests have in common.
#[allow(clippy::too_many_arguments)]
pub fn render_common_plan_fields(
    out: &mut String,
    transaction_id: &str,
    profile: Profile,
    disposition: SourceDisposition,
    tolerance: &Seconds,
    av1: &Av1Config,
    source: &MediaEvidence,
    destination: &str,
    manifest: &str,
)
    ensures
        final(out)@ == old(out)@ + common_text(
            transaction_id@,
            profile,
            disposition,
            tolerance.deep_view(),
            av1.deep_view(),
            source.deep_view(),
            destination@,
            manifest@,
        ),
{
    let mut text = cat4("transactionId", " = ", &pkl_string_literal(transaction_id), "\n");
    render_string(&mut text, "profile", profile.as_str());
    render_string(&mut text, "sourceDisposition", disposition.as_str());
    text.append(&cat3("durationToleranceSeconds = ", &tolerance.text, "\n"));
    text.append("av1 = new {\n");
    text.append(&cat5("  ", "crf", " = ", &decimal(av1.crf as u64), "\n"));
    text.append(&cat5("  ", "preset", " = ", &decimal(av1.preset as u64), "\n"));
    render_indented_string(&mut text, "  ", "container", &av1.container);
    text.append("}\n");
    text.append("source = ");
    render_evidence(&mut text, source, 0);
    text.append("\n");
    render_string(&mut text, "destinationPath", destination);
    render_string(&mut text, "manifestPath", manifest);
    out.append(&text);
}

/// The writing of a plan.
#[verifier::opaque]
pub open spec fn plan_text(plan: PlanView) -> Seq<char> {
    header_text(plan.schema_version as int, plan.kind, plan.producer_version) + common_text(
        plan.transaction_id,
        plan.profile,
        plan.source_disposition,
        plan.duration_tolerance_seconds,
        plan.av1,
        plan.source,
        plan.destination_path,
        plan.manifest_path,
    )
}

/// Writes a plan.
pub fn render_plan(plan: &ArchivePlan) -> (text: String)
    ensures
        text@ == plan_text(plan.deep_view()),
{
    proof {
        reveal(plan_text);
    }
    let mut out = document_header(plan.schema_version, &plan.kind, &plan.producer_version);
    render_common_plan_fields(
        &mut out,
        &plan.transaction_id,
        plan.profile,
        plan.source_disposition,
        &plan.duration_tolerance_seconds,
        &plan.av1,
        &plan.source,
        &plan.destination_path,
        &plan.manifest_path,
    );
    out
}

/// The writing of a manifest.
#[verifier::opaque]
pub open spec fn manifest_text(manifest: ManifestView) -> Seq<char> {
    header_text(manifest.schema_version as int, manifest.kind, manifest.producer_version)
        + common_text(
        manifest.transaction_id,
        manifest.profile,
        manifest.source_disposition,
        manifest.duration_tolerance_seconds,
        manifest.av1,
        manifest.source,
        manifest.destination_path,
        manifest.manifest_path,
    ) + "outputEvidence = "@ + evidence_text(manifest.output, 0) + "\n"@ + optional_string_line(
        "quarantinePath"@,
        manifest.quarantine_path,
    )
}

/// Writes a manifest.
pub fn render_manifest(manifest: &ArchiveManifest) -> (text: String)
    ensures
        text@ == manifest_text(manifest.deep_view()),
{
    proof {
        reveal(manifest_text);
    }
    let mut out = document_header(
        manifest.schema_version,
        &manifest.kind,
        &manifest.producer_version,
    );
    render_common_plan_fields(
        &mut out,
        &manifest.transaction_id,
        manifest.profile,
        manifest.source_disposition,
        &manifest.duration_tolerance_seconds,
        &manifest.av1,
        &manifest.source,
        &manifest.destination_path,
        &manifest.manifest_path,
    );
    out.append("outputEvidence = ");
    render_evidence(&mut out, &manifest.output, 0);
    out.append("\n");
    render_optional_string(&mut out, "quarantinePath", &manifest.quarantine_path);
    out
}

/// The writing of a journal's output evidence.
pub open spec fn journal_output_text(output: Option<EvidenceView>) -> Seq<char> {
    match output {
        Some(output) => "outputEvidence = "@ + evidence_text(output, 0) + "\n"@,
        None => "outputEvidence = null\n"@,
    }
}

/// The writing of a journal.
#[verifier::opaque]
pub open spec fn journal_text(journal: JournalView) -> Seq<char> {
    header_text(journal.schema_version as int, journal.kind, journal.producer_version)
        + string_line("transactionId"@, journal.transaction_id) + string_line(
        "sourcePath"@,
        journal.source_path,
    ) + string_line("destinationPath"@, journal.destination_path) + string_line(
        "manifestPath"@,
        journal.manifest_path,
    ) + string_line("stagingPath"@, journal.staging_path) + string_line(
        "phase"@,
        journal.phase.name(),
    ) + journal_output_text(journal.output) + optional_string_line(
        "quarantinePath"@,
        journal.quarantine_path,
    ) + optional_string_line("diagnostic"@, journal.diagnostic)
}

/// Writes a journal.
pub fn render_journal(journal: &Journal) -> (text: String)
    ensures
        text@ == journal_text(journal.deep_view()),
{
    proof {
        reveal(journal_text);
    }
    let mut out = document_header(
        journal.schema_version,
        &journal.kind,
        &journal.producer_version,
    );
    render_string(&mut out, "transactionId", &journal.transaction_id);
    render_string(&mut out, "sourcePath", &journal.source_path);
    render_string(&mut out, "destinationPath", &journal.destination_path);
    render_string(&mut out, "manifestPath", &journal.manifest_path);
    render_string(&mut out, "stagingPath", &journal.staging_path);
    render_string(&mut out, "phase", journal.phase.as_str());
    if let Some(output) = &journal.output {
        let mut part = "outputEvidence = ".to_owned();
        render_evidence(&mut part, output, 0);
        part.append("\n");
        out.append(&part);
    } else {
        out.append("outputEvidence = null\n");
    }
    render_optional_string(&mut out, "quarantinePath", &journal.quarantine_path);
    render_optional_string(&mut out, "diagnostic", &journal.diagnostic);
    out
}

} // verus!
