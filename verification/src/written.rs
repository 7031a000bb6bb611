//! What documents say: each value stands under its own name.
use vstd::prelude::*;
use vstd::string::*;

use crate::command::root_help_text;
use crate::model::{
    Av1View, ChapterView, EvidenceView, InspectionView, JournalView, ManifestView, Phase, PlanView,
    Profile, SourceDisposition, StreamView,
};
use crate::pkl::string_literal;
use crate::render::{
    chapter_text, chapters_text, common_text, evidence_text, header_text,
    indented_optional_float_line, indented_optional_string_line, indented_optional_u32_line,
    inspection_text, journal_output_text, journal_text, manifest_text, optional_string_line,
    plan_text, spaces, stream_text, streams_text,
};
use crate::seconds::SecondsView;
use crate::text::{decimal_text, signed_text};

verus! {

/// Whether a stretch of text stands somewhere in a text.
#[verifier::opaque]
pub open spec fn stands_in(part: Seq<char>, text: Seq<char>) -> bool {
    exists|before: Seq<char>, after: Seq<char>| text == #[trigger] (before + part + after)
}

/// Several texts, one behind the other.
#[verifier::opaque]
spec fn together(parts: Seq<Seq<char>>) -> Seq<char>
    decreases parts.len(),
{
    if parts.len() == 0 {
        Seq::empty()
    } else {
        together(parts.drop_last()) + parts.last()
    }
}

proof fn lemma_together_push(parts: Seq<Seq<char>>, part: Seq<char>)
    ensures
        together(parts.push(part)) == together(parts) + part,
{
    reveal(together);
    assert(parts.push(part).drop_last() =~= parts);
}

proof fn lemma_together_none()
    ensures
        together(Seq::empty()) == Seq::<char>::empty(),
{
    reveal(together);
}

proof fn lemma_stands_as(before: Seq<char>, part: Seq<char>, after: Seq<char>)
    ensures
        stands_in(part, before + part + after),
{
    reveal(stands_in);
}

proof fn lemma_stands_on(part: Seq<char>, whole: Seq<char>, text: Seq<char>)
    requires
        stands_in(part, whole),
        stands_in(whole, text),
    ensures
        stands_in(part, text),
{
    reveal(stands_in);
    let (a, b) = choose|before: Seq<char>, after: Seq<char>|
        whole == #[trigger] (before + part + after);
    let (c, d) = choose|before: Seq<char>, after: Seq<char>|
        text == #[trigger] (before + whole + after);
    assert(text =~= (c + a) + part + (b + d));
}

/// Some of several texts in a row stand in all of them together.
proof fn lemma_run_stands(parts: Seq<Seq<char>>, i: int, j: int)
    requires
        0 <= i <= j <= parts.len(),
    ensures
        stands_in(together(parts.subrange(i, j)), together(parts)),
    decreases parts.len(),
{
    let n = parts.len() as int;
    let none = Seq::<char>::empty();
    if j < n {
        let rest = parts.drop_last();
        lemma_run_stands(rest, i, j);
        assert(rest.subrange(i, j) =~= parts.subrange(i, j));
        assert(parts =~= rest.push(parts.last()));
        lemma_together_push(rest, parts.last());
        lemma_stands_as(none, together(rest), parts.last());
        assert(none + together(rest) + parts.last() =~= together(parts));
        lemma_stands_on(together(parts.subrange(i, j)), together(rest), together(parts));
    } else {
        lemma_together_splits(parts, i);
        let run = together(parts.subrange(i, j));
        assert(parts.subrange(i, n) =~= parts.skip(i));
        lemma_stands_as(together(parts.take(i)), run, none);
        assert(together(parts.take(i)) + run + none =~= together(parts));
    }
}

proof fn lemma_together_splits(parts: Seq<Seq<char>>, i: int)
    requires
        0 <= i <= parts.len(),
    ensures
        together(parts) == together(parts.take(i)) + together(parts.skip(i)),
    decreases parts.len(),
{
    let n = parts.len() as int;
    if i == n {
        assert(parts.take(i) =~= parts);
        assert(parts.skip(i) =~= Seq::empty());
        lemma_together_none();
        assert(together(parts) =~= together(parts) + Seq::<char>::empty());
    } else {
        let rest = parts.drop_last();
        lemma_together_splits(rest, i);
        assert(parts =~= rest.push(parts.last()));
        assert(rest.take(i) =~= parts.take(i));
        assert(parts.skip(i) =~= rest.skip(i).push(parts.last()));
        lemma_together_push(rest, parts.last());
        lemma_together_push(rest.skip(i), parts.last());
        assert(together(parts) =~= together(parts.take(i)) + together(parts.skip(i)));
    }
}

/// One of several texts stands in all of them together.
proof fn lemma_one_stands(parts: Seq<Seq<char>>, i: int)
    requires
        0 <= i < parts.len(),
    ensures
        stands_in(parts[i], together(parts)),
{
    lemma_run_stands(parts, i, i + 1);
    let one = parts.subrange(i, i + 1);
    let none = Seq::<Seq<char>>::empty();
    assert(one =~= none.push(parts[i]));
    lemma_together_push(none, parts[i]);
    lemma_together_none();
    assert(together(one) =~= parts[i]);
}

/// Two texts in a row stand in all of them together, one behind the other.
proof fn lemma_two_stand(parts: Seq<Seq<char>>, i: int)
    requires
        0 <= i,
        i + 1 < parts.len(),
    ensures
        stands_in(parts[i] + parts[i + 1], together(parts)),
{
    lemma_run_stands(parts, i, i + 2);
    let two = parts.subrange(i, i + 2);
    let none = Seq::<Seq<char>>::empty();
    let one = none.push(parts[i]);
    assert(two =~= one.push(parts[i + 1]));
    lemma_together_push(none, parts[i]);
    lemma_together_push(one, parts[i + 1]);
    lemma_together_none();
    assert(together(two) =~= parts[i] + parts[i + 1]);
}

/// A line that gives a name a value.
pub open spec fn line(indent: Seq<char>, name: Seq<char>, value: Seq<char>) -> Seq<char> {
    indent + name + " = "@ + value + "\n"@
}

/// A text as a value, or that there is none.
pub open spec fn text_value(value: Option<Seq<char>>) -> Seq<char> {
    if value is Some {
        string_literal(value->0)
    } else {
        "null"@
    }
}

/// A number of seconds as a value, or that there is none.
pub open spec fn seconds_value(value: Option<SecondsView>) -> Seq<char> {
    if value is Some {
        value->0.text
    } else {
        "null"@
    }
}

/// A whole number as a value, or that there is none.
pub open spec fn number_value(value: Option<u32>) -> Seq<char> {
    if value is Some {
        decimal_text(value->0 as nat)
    } else {
        "null"@
    }
}

/// So many spaces.
pub open spec fn blank(count: nat) -> Seq<char> {
    Seq::new(count, |i: int| ' ')
}

proof fn lemma_null_line(indent: Seq<char>, name: Seq<char>)
    ensures
        line(indent, name, "null"@) == indent + name + " = null\n"@,
{
    reveal_strlit(" = null\n");
    reveal_strlit(" = ");
    reveal_strlit("null");
    reveal_strlit("\n");
    assert(line(indent, name, "null"@) =~= indent + name + " = null\n"@);
}

proof fn lemma_optional_lines(
    indent: Seq<char>,
    name: Seq<char>,
    text: Option<Seq<char>>,
    seconds: Option<SecondsView>,
    number: Option<u32>,
)
    ensures
        indented_optional_string_line(indent, name, text) == line(indent, name, text_value(text)),
        indented_optional_float_line(indent, name, seconds) == line(
            indent,
            name,
            seconds_value(seconds),
        ),
        indented_optional_u32_line(indent, name, number) == line(
            indent,
            name,
            number_value(number),
        ),
{
    lemma_null_line(indent, name);
}

/// One stream as an item of a list: a line for each of its properties.
pub open spec fn stream_item(indent: Seq<char>, stream: StreamView) -> Seq<char> {
    let inner = indent + "  "@;
    indent + "new {\n"@ + line(inner, "index"@, decimal_text(stream.index as nat)) + line(
        inner,
        "codecName"@,
        text_value(stream.codec_name),
    ) + line(inner, "codecType"@, text_value(stream.codec_type)) + line(
        inner,
        "width"@,
        number_value(stream.width),
    ) + line(inner, "height"@, number_value(stream.height)) + line(
        inner,
        "durationSeconds"@,
        seconds_value(stream.duration_seconds),
    ) + line(inner, "bitsPerRawSample"@, text_value(stream.bits_per_raw_sample)) + line(
        inner,
        "pixelFormat"@,
        text_value(stream.pixel_format),
    ) + line(inner, "colorSpace"@, text_value(stream.color_space)) + line(
        inner,
        "colorTransfer"@,
        text_value(stream.color_transfer),
    ) + line(inner, "colorPrimaries"@, text_value(stream.color_primaries)) + line(
        inner,
        "attachedPicture"@,
        if stream.attached_picture {
            "true"@
        } else {
            "false"@
        },
    ) + (indent + "},\n"@)
}

/// One chapter as an item of a list.
pub open spec fn chapter_item(indent: Seq<char>, chapter: ChapterView) -> Seq<char> {
    indent + "new { startSeconds = "@ + chapter.start_seconds.text + "; endSeconds = "@
        + chapter.end_seconds.text + " },\n"@
}

#[verifier::spinoff_prover]
proof fn lemma_stream_item(field: Seq<char>, stream: StreamView)
    ensures
        stream_text(field, stream) == stream_item(field + "  "@, stream),
{
    let item = field + "    "@;
    let indent = field + "  "@;
    assert(item == indent + "  "@ && field + "  new {\n"@ == indent + "new {\n"@ && field
        + "  },\n"@ == indent + "},\n"@) by {
        reveal_strlit("  new {\n");
        reveal_strlit("new {\n");
        reveal_strlit("    ");
        reveal_strlit("  ");
        reveal_strlit("  },\n");
        reveal_strlit("},\n");
        assert(item =~= indent + "  "@);
        assert(field + "  new {\n"@ =~= indent + "new {\n"@);
        assert(field + "  },\n"@ =~= indent + "},\n"@);
    }
    lemma_optional_lines(item, "codecName"@, stream.codec_name, None, None);
    lemma_optional_lines(item, "codecType"@, stream.codec_type, None, None);
    lemma_optional_lines(item, "width"@, None, None, stream.width);
    lemma_optional_lines(item, "height"@, None, None, stream.height);
    lemma_optional_lines(item, "durationSeconds"@, None, stream.duration_seconds, None);
    lemma_optional_lines(item, "bitsPerRawSample"@, stream.bits_per_raw_sample, None, None);
    lemma_optional_lines(item, "pixelFormat"@, stream.pixel_format, None, None);
    lemma_optional_lines(item, "colorSpace"@, stream.color_space, None, None);
    lemma_optional_lines(item, "colorTransfer"@, stream.color_transfer, None, None);
    lemma_optional_lines(item, "colorPrimaries"@, stream.color_primaries, None, None);
}

proof fn lemma_chapter_item(field: Seq<char>, chapter: ChapterView)
    ensures
        chapter_text(field, chapter) == chapter_item(field + "  "@, chapter),
{
    reveal_strlit("  new { startSeconds = ");
    reveal_strlit("new { startSeconds = ");
    reveal_strlit("  ");
    assert(field + "  new { startSeconds = "@ =~= field + "  "@ + "new { startSeconds = "@);
}

spec fn stream_items(indent: Seq<char>, streams: Seq<StreamView>) -> Seq<Seq<char>> {
    Seq::new(streams.len(), |i: int| stream_item(indent, streams[i]))
}

spec fn chapter_items(indent: Seq<char>, chapters: Seq<ChapterView>) -> Seq<Seq<char>> {
    Seq::new(chapters.len(), |i: int| chapter_item(indent, chapters[i]))
}

proof fn lemma_stream_items(field: Seq<char>, streams: Seq<StreamView>)
    ensures
        streams_text(field, streams) == together(stream_items(field + "  "@, streams)),
    decreases streams.len(),
{
    let indent = field + "  "@;
    if streams.len() == 0 {
        assert(stream_items(indent, streams) =~= Seq::empty());
        lemma_together_none();
    } else {
        let rest = streams.drop_last();
        lemma_stream_items(field, rest);
        lemma_stream_item(field, streams.last());
        assert(stream_items(indent, streams) =~= stream_items(indent, rest).push(
            stream_item(indent, streams.last()),
        ));
        lemma_together_push(stream_items(indent, rest), stream_item(indent, streams.last()));
    }
}

proof fn lemma_chapter_items(field: Seq<char>, chapters: Seq<ChapterView>)
    ensures
        chapters_text(field, chapters) == together(chapter_items(field + "  "@, chapters)),
    decreases chapters.len(),
{
    let indent = field + "  "@;
    if chapters.len() == 0 {
        assert(chapter_items(indent, chapters) =~= Seq::empty());
        lemma_together_none();
    } else {
        let rest = chapters.drop_last();
        lemma_chapter_items(field, rest);
        lemma_chapter_item(field, chapters.last());
        assert(chapter_items(indent, chapters) =~= chapter_items(indent, rest).push(
            chapter_item(indent, chapters.last()),
        ));
        lemma_together_push(chapter_items(indent, rest), chapter_item(indent, chapters.last()));
    }
}

/// The stretches of which written evidence is made.
spec fn evidence_parts(evidence: EvidenceView, indent: nat) -> Seq<Seq<char>> {
    let field = blank(indent + 2);
    let inner = blank(indent + 4);
    seq![
        "new {\n"@,
        line(field, "path"@, string_literal(evidence.path)),
        line(field, "sha256"@, string_literal(evidence.sha256)),
        line(field, "size"@, decimal_text(evidence.size as nat)),
        line(field, "modifiedNs"@, signed_text(evidence.modified_ns as int)),
        field + "format = new {\n"@,
        line(inner, "formatName"@, text_value(evidence.format.format_name)),
        line(inner, "durationSeconds"@, seconds_value(evidence.format.duration_seconds)),
        field + "}\n"@,
        field + "streams = List(\n"@,
        together(stream_items(inner, evidence.streams)),
        field + ")\n"@,
        field + "chapters = List(\n"@,
        together(chapter_items(inner, evidence.chapters)),
        field + ")\n"@,
        line(field, "rawProbeJson"@, string_literal(evidence.raw_probe_json)),
        blank(indent) + "}"@,
    ]
}

/// Up to eight texts together are one behind the other.
proof fn lemma_together_eight(
    start: Seq<Seq<char>>,
    a: Seq<char>,
    b: Seq<char>,
    c: Seq<char>,
    d: Seq<char>,
    e: Seq<char>,
    f: Seq<char>,
    g: Seq<char>,
    h: Seq<char>,
)
    ensures
        together(start.push(a).push(b).push(c).push(d).push(e).push(f).push(g).push(h))
            == together(start) + a + b + c + d + e + f + g + h,
{
    lemma_together_push(start, a);
    lemma_together_push(start.push(a), b);
    lemma_together_push(start.push(a).push(b), c);
    lemma_together_push(start.push(a).push(b).push(c), d);
    lemma_together_push(start.push(a).push(b).push(c).push(d), e);
    lemma_together_push(start.push(a).push(b).push(c).push(d).push(e), f);
    lemma_together_push(start.push(a).push(b).push(c).push(d).push(e).push(f), g);
    lemma_together_push(start.push(a).push(b).push(c).push(d).push(e).push(f).push(g), h);
}

#[verifier::spinoff_prover]
proof fn lemma_evidence_parts(evidence: EvidenceView, indent: nat)
    ensures
        evidence_text(evidence, indent) == together(evidence_parts(evidence, indent)),
{
    reveal(evidence_text);
    let field = blank(indent + 2);
    let inner = blank(indent + 4);
    assert(spaces(indent + 2) == field && field + "  "@ == inner && spaces(indent) == blank(
        indent,
    )) by {
        reveal_strlit("  ");
        assert(spaces(indent + 2) =~= field);
        assert(field + "  "@ =~= inner);
        assert(spaces(indent) =~= blank(indent));
    }
    lemma_stream_items(field, evidence.streams);
    lemma_chapter_items(field, evidence.chapters);
    lemma_optional_lines(inner, "formatName"@, evidence.format.format_name, None, None);
    lemma_optional_lines(
        inner,
        "durationSeconds"@,
        None,
        evidence.format.duration_seconds,
        None,
    );
    let parts = evidence_parts(evidence, indent);
    let none = Seq::<Seq<char>>::empty();
    let p = parts;
    let start = none.push(p[0]);
    let middle = start.push(p[1]).push(p[2]).push(p[3]).push(p[4]).push(p[5]).push(p[6]).push(
        p[7],
    ).push(p[8]);
    let all = middle.push(p[9]).push(p[10]).push(p[11]).push(p[12]).push(p[13]).push(p[14]).push(
        p[15],
    ).push(p[16]);
    assert(parts =~= all);
    lemma_together_none();
    lemma_together_push(none, p[0]);
    assert(together(start) =~= p[0]);
    lemma_together_eight(start, p[1], p[2], p[3], p[4], p[5], p[6], p[7], p[8]);
    lemma_together_eight(middle, p[9], p[10], p[11], p[12], p[13], p[14], p[15], p[16]);
}

/// Written evidence gives the path, the digest, the size, the modification time, the
/// properties of the container and the probe's own words, each under its own name.
pub proof fn law_evidence_is_written_under_its_names(evidence: EvidenceView, indent: nat)
    ensures
        ({
            let text = evidence_text(evidence, indent);
            let field = blank(indent + 2);
            let inner = blank(indent + 4);
            &&& stands_in(line(field, "path"@, string_literal(evidence.path)), text)
            &&& stands_in(line(field, "sha256"@, string_literal(evidence.sha256)), text)
            &&& stands_in(line(field, "size"@, decimal_text(evidence.size as nat)), text)
            &&& stands_in(
                line(field, "modifiedNs"@, signed_text(evidence.modified_ns as int)),
                text,
            )
            &&& stands_in(
                (field + "format = new {\n"@) + line(
                    inner,
                    "formatName"@,
                    text_value(evidence.format.format_name),
                ),
                text,
            )
            &&& stands_in(
                line(inner, "durationSeconds"@, seconds_value(evidence.format.duration_seconds))
                    + (field + "}\n"@),
                text,
            )
            &&& stands_in(
                line(field, "rawProbeJson"@, string_literal(evidence.raw_probe_json)),
                text,
            )
        }),
{
    let parts = evidence_parts(evidence, indent);
    lemma_evidence_parts(evidence, indent);
    lemma_one_stands(parts, 1);
    lemma_one_stands(parts, 2);
    lemma_one_stands(parts, 3);
    lemma_one_stands(parts, 4);
    lemma_two_stand(parts, 5);
    lemma_two_stand(parts, 7);
    lemma_one_stands(parts, 15);
}

/// Written evidence gives each stream under the name of each of its properties, in the
/// list of streams, one behind the other as they were found.
pub proof fn law_streams_are_written_under_their_names(
    evidence: EvidenceView,
    indent: nat,
    i: int,
)
    requires
        0 <= i < evidence.streams.len(),
    ensures
        ({
            let text = evidence_text(evidence, indent);
            let item = blank(indent + 4);
            &&& stands_in(stream_item(item, evidence.streams[i]), text)
            &&& i + 1 < evidence.streams.len() ==> stands_in(
                stream_item(item, evidence.streams[i]) + stream_item(
                    item,
                    evidence.streams[i + 1],
                ),
                text,
            )
            &&& i == 0 ==> stands_in(
                (blank(indent + 2) + "streams = List(\n"@) + stream_item(
                    item,
                    evidence.streams[0],
                ),
                text,
            )
        }),
{
    let item = blank(indent + 4);
    let parts = evidence_parts(evidence, indent);
    let text = evidence_text(evidence, indent);
    let items = stream_items(item, evidence.streams);
    lemma_evidence_parts(evidence, indent);
    lemma_one_stands(parts, 10);
    lemma_one_stands(items, i);
    lemma_stands_on(items[i], together(items), text);
    if i + 1 < items.len() {
        lemma_two_stand(items, i);
        lemma_stands_on(items[i] + items[i + 1], together(items), text);
    }
    if i == 0 {
        let opening = parts[9];
        lemma_two_stand(parts, 9);
        lemma_together_splits(items, 1);
        let none = Seq::<Seq<char>>::empty();
        assert(items.take(1) =~= none.push(items[0]));
        lemma_together_push(none, items[0]);
        lemma_together_none();
        let more = together(items.skip(1));
        assert(opening + together(items) =~= Seq::<char>::empty() + (opening + items[0]) + more);
        lemma_stands_as(Seq::empty(), opening + items[0], more);
        lemma_stands_on(opening + items[0], opening + together(items), text);
    }
}

/// Written evidence gives each chapter with its start and its end, in the list of
/// chapters, one behind the other as they were found.
pub proof fn law_chapters_are_written_under_their_names(
    evidence: EvidenceView,
    indent: nat,
    i: int,
)
    requires
        0 <= i < evidence.chapters.len(),
    ensures
        ({
            let text = evidence_text(evidence, indent);
            let item = blank(indent + 4);
            &&& stands_in(chapter_item(item, evidence.chapters[i]), text)
            &&& i + 1 < evidence.chapters.len() ==> stands_in(
                chapter_item(item, evidence.chapters[i]) + chapter_item(
                    item,
                    evidence.chapters[i + 1],
                ),
                text,
            )
            &&& i == 0 ==> stands_in(
                (blank(indent + 2) + "chapters = List(\n"@) + chapter_item(
                    item,
                    evidence.chapters[0],
                ),
                text,
            )
        }),
{
    let item = blank(indent + 4);
    let parts = evidence_parts(evidence, indent);
    let text = evidence_text(evidence, indent);
    let items = chapter_items(item, evidence.chapters);
    lemma_evidence_parts(evidence, indent);
    lemma_one_stands(parts, 13);
    lemma_one_stands(items, i);
    lemma_stands_on(items[i], together(items), text);
    if i + 1 < items.len() {
        lemma_two_stand(items, i);
        lemma_stands_on(items[i] + items[i + 1], together(items), text);
    }
    if i == 0 {
        let opening = parts[12];
        lemma_two_stand(parts, 12);
        lemma_together_splits(items, 1);
        let none = Seq::<Seq<char>>::empty();
        assert(items.take(1) =~= none.push(items[0]));
        lemma_together_push(none, items[0]);
        lemma_together_none();
        let more = together(items.skip(1));
        assert(opening + together(items) =~= Seq::<char>::empty() + (opening + items[0]) + more);
        lemma_stands_as(Seq::empty(), opening + items[0], more);
        lemma_stands_on(opening + items[0], opening + together(items), text);
    }
}

/// Three texts in a row stand in all of them together, one behind the other.
proof fn lemma_three_stand(parts: Seq<Seq<char>>, i: int)
    requires
        0 <= i,
        i + 2 < parts.len(),
    ensures
        stands_in(parts[i] + parts[i + 1] + parts[i + 2], together(parts)),
{
    lemma_run_stands(parts, i, i + 3);
    let three = parts.subrange(i, i + 3);
    let none = Seq::<Seq<char>>::empty();
    let one = none.push(parts[i]);
    let two = one.push(parts[i + 1]);
    assert(three =~= two.push(parts[i + 2]));
    lemma_together_push(none, parts[i]);
    lemma_together_push(one, parts[i + 1]);
    lemma_together_push(two, parts[i + 2]);
    lemma_together_none();
    assert(together(three) =~= parts[i] + parts[i + 1] + parts[i + 2]);
}

/// A line at the left margin that gives a name a value.
pub open spec fn top_line(name: Seq<char>, value: Seq<char>) -> Seq<char> {
    name + " = "@ + value + "\n"@
}

/// A section at the left margin that gives a name evidence.
pub open spec fn evidence_section(name: Seq<char>, evidence: EvidenceView) -> Seq<char> {
    name + " = "@ + evidence_text(evidence, 0) + "\n"@
}

/// Whether a document says of what schema it is, of what kind, and who made it.
pub open spec fn headed(
    text: Seq<char>,
    schema: int,
    kind: Seq<char>,
    producer: Seq<char>,
) -> bool {
    &&& stands_in(top_line("schemaVersion"@, signed_text(schema)), text)
    &&& stands_in(top_line("kind"@, string_literal(kind)), text)
    &&& stands_in(top_line("producerVersion"@, string_literal(producer)), text)
}

proof fn lemma_headed(schema: int, kind: Seq<char>, producer: Seq<char>, text: Seq<char>)
    requires
        stands_in(header_text(schema, kind, producer), text),
    ensures
        headed(text, schema, kind, producer),
{
    let comment = "// Trusted local Marchiver state. Do not evaluate untrusted Pkl.\n"@;
    let parts = seq![
        comment,
        top_line("schemaVersion"@, signed_text(schema)),
        top_line("kind"@, string_literal(kind)),
        top_line("producerVersion"@, string_literal(producer)),
    ];
    let none = Seq::<Seq<char>>::empty();
    let p = parts;
    lemma_together_none();
    lemma_together_push(none, p[0]);
    lemma_together_push(none.push(p[0]), p[1]);
    lemma_together_push(none.push(p[0]).push(p[1]), p[2]);
    lemma_together_push(none.push(p[0]).push(p[1]).push(p[2]), p[3]);
    assert(parts =~= none.push(p[0]).push(p[1]).push(p[2]).push(p[3]));
    assert("schemaVersion = "@ =~= "schemaVersion"@ + " = "@) by {
        reveal_strlit("schemaVersion = ");
        reveal_strlit("schemaVersion");
        reveal_strlit(" = ");
    }
    let header = header_text(schema, kind, producer);
    assert(Seq::<char>::empty() + p[0] =~= p[0]);
    assert(header == together(parts));
    lemma_one_stands(parts, 1);
    lemma_one_stands(parts, 2);
    lemma_one_stands(parts, 3);
    lemma_stands_on(p[1], header, text);
    lemma_stands_on(p[2], header, text);
    lemma_stands_on(p[3], header, text);
}

/// The word for a profile.
pub open spec fn profile_word(profile: Profile) -> Seq<char> {
    match profile {
        Profile::Copy => "copy"@,
        Profile::Av1 => "av1"@,
    }
}

/// The word for a disposition.
pub open spec fn disposition_word(disposition: SourceDisposition) -> Seq<char> {
    match disposition {
        SourceDisposition::Quarantine => "quarantine"@,
        SourceDisposition::Preserve => "preserve"@,
        SourceDisposition::Delete => "delete"@,
    }
}

/// The word for a phase.
pub open spec fn phase_word(phase: Phase) -> Seq<char> {
    match phase {
        Phase::Prepared => "prepared"@,
        Phase::Staged => "staged"@,
        Phase::Published => "published"@,
        Phase::Verified => "verified"@,
        Phase::Manifested => "manifested"@,
        Phase::QuarantineLinked => "quarantineLinked"@,
        Phase::Complete => "complete"@,
    }
}

/// Whether a document gives what a plan is about, each under its own name.
pub open spec fn tells_plan(
    text: Seq<char>,
    transaction_id: Seq<char>,
    profile: Profile,
    disposition: SourceDisposition,
    tolerance: SecondsView,
    av1: Av1View,
    source: EvidenceView,
    destination: Seq<char>,
    manifest: Seq<char>,
) -> bool {
    &&& stands_in(top_line("transactionId"@, string_literal(transaction_id)), text)
    &&& stands_in(top_line("profile"@, string_literal(profile_word(profile))), text)
    &&& stands_in(
        top_line("sourceDisposition"@, string_literal(disposition_word(disposition))),
        text,
    )
    &&& stands_in(top_line("durationToleranceSeconds"@, tolerance.text), text)
    &&& stands_in("av1 = new {\n"@ + line("  "@, "crf"@, decimal_text(av1.crf as nat)), text)
    &&& stands_in(line("  "@, "preset"@, decimal_text(av1.preset as nat)), text)
    &&& stands_in(line("  "@, "container"@, string_literal(av1.container)) + "}\n"@, text)
    &&& stands_in(evidence_section("source"@, source), text)
    &&& stands_in(top_line("destinationPath"@, string_literal(destination)), text)
    &&& stands_in(top_line("manifestPath"@, string_literal(manifest)), text)
}

#[verifier::spinoff_prover]
proof fn lemma_tells_plan(
    transaction_id: Seq<char>,
    profile: Profile,
    disposition: SourceDisposition,
    tolerance: SecondsView,
    av1: Av1View,
    source: EvidenceView,
    destination: Seq<char>,
    manifest: Seq<char>,
    text: Seq<char>,
)
    requires
        stands_in(
            common_text(
                transaction_id,
                profile,
                disposition,
                tolerance,
                av1,
                source,
                destination,
                manifest,
            ),
            text,
        ),
    ensures
        tells_plan(
            text,
            transaction_id,
            profile,
            disposition,
            tolerance,
            av1,
            source,
            destination,
            manifest,
        ),
{
    let common = common_text(
        transaction_id,
        profile,
        disposition,
        tolerance,
        av1,
        source,
        destination,
        manifest,
    );
    let parts = seq![
        top_line("transactionId"@, string_literal(transaction_id)),
        top_line("profile"@, string_literal(profile_word(profile))),
        top_line("sourceDisposition"@, string_literal(disposition_word(disposition))),
        top_line("durationToleranceSeconds"@, tolerance.text),
        "av1 = new {\n"@,
        line("  "@, "crf"@, decimal_text(av1.crf as nat)),
        line("  "@, "preset"@, decimal_text(av1.preset as nat)),
        line("  "@, "container"@, string_literal(av1.container)),
        "}\n"@,
        "source = "@,
        evidence_text(source, 0),
        "\n"@,
        top_line("destinationPath"@, string_literal(destination)),
        top_line("manifestPath"@, string_literal(manifest)),
    ];
    let p = parts;
    let none = Seq::<Seq<char>>::empty();
    let start = none.push(p[0]);
    let middle = start.push(p[1]).push(p[2]).push(p[3]).push(p[4]).push(p[5]).push(p[6]).push(
        p[7],
    ).push(p[8]);
    let all = middle.push(p[9]).push(p[10]).push(p[11]).push(p[12]).push(p[13]);
    assert(parts =~= all);
    assert("durationToleranceSeconds = "@ == "durationToleranceSeconds"@ + " = "@ && "source = "@
        == "source"@ + " = "@) by {
        reveal_strlit("durationToleranceSeconds = ");
        reveal_strlit("durationToleranceSeconds");
        reveal_strlit("source = ");
        reveal_strlit("source");
        reveal_strlit(" = ");
        assert("durationToleranceSeconds = "@ =~= "durationToleranceSeconds"@ + " = "@);
        assert("source = "@ =~= "source"@ + " = "@);
    }
    lemma_together_none();
    lemma_together_push(none, p[0]);
    assert(together(start) =~= p[0]);
    lemma_together_eight(start, p[1], p[2], p[3], p[4], p[5], p[6], p[7], p[8]);
    lemma_together_push(middle, p[9]);
    lemma_together_push(middle.push(p[9]), p[10]);
    lemma_together_push(middle.push(p[9]).push(p[10]), p[11]);
    lemma_together_push(middle.push(p[9]).push(p[10]).push(p[11]), p[12]);
    lemma_together_push(middle.push(p[9]).push(p[10]).push(p[11]).push(p[12]), p[13]);
    assert(common == together(parts));
    lemma_one_stands(parts, 0);
    lemma_one_stands(parts, 1);
    lemma_one_stands(parts, 2);
    lemma_one_stands(parts, 3);
    lemma_two_stand(parts, 4);
    lemma_one_stands(parts, 6);
    lemma_two_stand(parts, 7);
    lemma_three_stand(parts, 9);
    lemma_one_stands(parts, 12);
    lemma_one_stands(parts, 13);
    lemma_stands_on(p[0], common, text);
    lemma_stands_on(p[1], common, text);
    lemma_stands_on(p[2], common, text);
    lemma_stands_on(p[3], common, text);
    lemma_stands_on(p[4] + p[5], common, text);
    lemma_stands_on(p[6], common, text);
    lemma_stands_on(p[7] + p[8], common, text);
    lemma_stands_on(p[9] + p[10] + p[11], common, text);
    lemma_stands_on(p[12], common, text);
    lemma_stands_on(p[13], common, text);
}

/// A written plan says what it is, and gives all that it is about under its own name.
pub proof fn law_plans_are_written_under_their_names(plan: PlanView)
    ensures
        headed(plan_text(plan), plan.schema_version as int, plan.kind, plan.producer_version),
        tells_plan(
            plan_text(plan),
            plan.transaction_id,
            plan.profile,
            plan.source_disposition,
            plan.duration_tolerance_seconds,
            plan.av1,
            plan.source,
            plan.destination_path,
            plan.manifest_path,
        ),
{
    reveal(plan_text);
    let header = header_text(plan.schema_version as int, plan.kind, plan.producer_version);
    let common = common_text(
        plan.transaction_id,
        plan.profile,
        plan.source_disposition,
        plan.duration_tolerance_seconds,
        plan.av1,
        plan.source,
        plan.destination_path,
        plan.manifest_path,
    );
    let none = Seq::<char>::empty();
    lemma_stands_as(none, header, common);
    lemma_stands_as(header, common, none);
    assert(none + header + common =~= plan_text(plan));
    assert(header + common + none =~= plan_text(plan));
    lemma_headed(
        plan.schema_version as int,
        plan.kind,
        plan.producer_version,
        plan_text(plan),
    );
    lemma_tells_plan(
        plan.transaction_id,
        plan.profile,
        plan.source_disposition,
        plan.duration_tolerance_seconds,
        plan.av1,
        plan.source,
        plan.destination_path,
        plan.manifest_path,
        plan_text(plan),
    );
}

/// A written inspection says what it is, and gives the evidence.
pub proof fn law_inspections_are_written_under_their_names(inspection: InspectionView)
    ensures
        headed(
            inspection_text(inspection),
            inspection.schema_version as int,
            inspection.kind,
            inspection.producer_version,
        ),
        stands_in(
            evidence_section("evidence"@, inspection.evidence),
            inspection_text(inspection),
        ),
{
    reveal(inspection_text);
    let text = inspection_text(inspection);
    let header = header_text(
        inspection.schema_version as int,
        inspection.kind,
        inspection.producer_version,
    );
    let section = evidence_section("evidence"@, inspection.evidence);
    let none = Seq::<char>::empty();
    assert("evidence = "@ =~= "evidence"@ + " = "@) by {
        reveal_strlit("evidence = ");
        reveal_strlit("evidence");
        reveal_strlit(" = ");
    }
    assert(text =~= none + header + section);
    assert(text =~= header + section + none);
    lemma_stands_as(none, header, section);
    lemma_stands_as(header, section, none);
    lemma_headed(
        inspection.schema_version as int,
        inspection.kind,
        inspection.producer_version,
        text,
    );
}

proof fn lemma_top_line(name: Seq<char>, value: Option<Seq<char>>)
    ensures
        optional_string_line(name, value) == top_line(name, text_value(value)),
{
    reveal_strlit(" = null\n");
    reveal_strlit(" = ");
    reveal_strlit("null");
    reveal_strlit("\n");
    assert(top_line(name, "null"@) =~= name + " = null\n"@);
}

/// A written manifest says what it is, and gives all that its plan is about, the
/// output and the quarantine under their own names.
#[verifier::spinoff_prover]
pub proof fn law_manifests_are_written_under_their_names(manifest: ManifestView)
    ensures
        headed(
            manifest_text(manifest),
            manifest.schema_version as int,
            manifest.kind,
            manifest.producer_version,
        ),
        tells_plan(
            manifest_text(manifest),
            manifest.transaction_id,
            manifest.profile,
            manifest.source_disposition,
            manifest.duration_tolerance_seconds,
            manifest.av1,
            manifest.source,
            manifest.destination_path,
            manifest.manifest_path,
        ),
        stands_in(
            evidence_section("outputEvidence"@, manifest.output),
            manifest_text(manifest),
        ),
        stands_in(
            top_line("quarantinePath"@, text_value(manifest.quarantine_path)),
            manifest_text(manifest),
        ),
{
    reveal(manifest_text);
    let text = manifest_text(manifest);
    let header = header_text(
        manifest.schema_version as int,
        manifest.kind,
        manifest.producer_version,
    );
    let common = common_text(
        manifest.transaction_id,
        manifest.profile,
        manifest.source_disposition,
        manifest.duration_tolerance_seconds,
        manifest.av1,
        manifest.source,
        manifest.destination_path,
        manifest.manifest_path,
    );
    let last = top_line("quarantinePath"@, text_value(manifest.quarantine_path));
    lemma_top_line("quarantinePath"@, manifest.quarantine_path);
    assert("outputEvidence = "@ =~= "outputEvidence"@ + " = "@) by {
        reveal_strlit("outputEvidence = ");
        reveal_strlit("outputEvidence");
        reveal_strlit(" = ");
    }
    let p = seq![
        header,
        common,
        "outputEvidence = "@,
        evidence_text(manifest.output, 0),
        "\n"@,
        last,
    ];
    let none = Seq::<Seq<char>>::empty();
    let one = none.push(p[0]);
    let three = one.push(p[1]).push(p[2]);
    lemma_together_none();
    lemma_together_push(none, p[0]);
    assert(together(one) =~= p[0]);
    lemma_together_push(one, p[1]);
    lemma_together_push(one.push(p[1]), p[2]);
    lemma_together_push(three, p[3]);
    lemma_together_push(three.push(p[3]), p[4]);
    lemma_together_push(three.push(p[3]).push(p[4]), p[5]);
    assert(p =~= three.push(p[3]).push(p[4]).push(p[5]));
    assert(text == together(p));
    lemma_one_stands(p, 0);
    lemma_one_stands(p, 1);
    lemma_three_stand(p, 2);
    lemma_one_stands(p, 5);
    lemma_headed(
        manifest.schema_version as int,
        manifest.kind,
        manifest.producer_version,
        text,
    );
    lemma_tells_plan(
        manifest.transaction_id,
        manifest.profile,
        manifest.source_disposition,
        manifest.duration_tolerance_seconds,
        manifest.av1,
        manifest.source,
        manifest.destination_path,
        manifest.manifest_path,
        text,
    );
}

/// A written journal says what it is, and gives the transaction, its paths, its phase,
/// the output, the quarantine and the diagnostic under their own names.
#[verifier::spinoff_prover]
pub proof fn law_journals_are_written_under_their_names(journal: JournalView)
    ensures
        ({
            let text = journal_text(journal);
            &&& headed(
                text,
                journal.schema_version as int,
                journal.kind,
                journal.producer_version,
            )
            &&& stands_in(top_line("transactionId"@, string_literal(journal.transaction_id)), text)
            &&& stands_in(top_line("sourcePath"@, string_literal(journal.source_path)), text)
            &&& stands_in(
                top_line("destinationPath"@, string_literal(journal.destination_path)),
                text,
            )
            &&& stands_in(top_line("manifestPath"@, string_literal(journal.manifest_path)), text)
            &&& stands_in(top_line("stagingPath"@, string_literal(journal.staging_path)), text)
            &&& stands_in(top_line("phase"@, string_literal(phase_word(journal.phase))), text)
            &&& journal.output is Some ==> stands_in(
                evidence_section("outputEvidence"@, journal.output->0),
                text,
            )
            &&& journal.output is None ==> stands_in(top_line("outputEvidence"@, "null"@), text)
            &&& stands_in(
                top_line("quarantinePath"@, text_value(journal.quarantine_path)),
                text,
            )
            &&& stands_in(top_line("diagnostic"@, text_value(journal.diagnostic)), text)
        }),
{
    reveal(journal_text);
    let text = journal_text(journal);
    let header = header_text(
        journal.schema_version as int,
        journal.kind,
        journal.producer_version,
    );
    let output = if journal.output is Some {
        evidence_section("outputEvidence"@, journal.output->0)
    } else {
        top_line("outputEvidence"@, "null"@)
    };
    assert(journal_output_text(journal.output) == output) by {
        reveal_strlit("outputEvidence = ");
        reveal_strlit("outputEvidence = null\n");
        reveal_strlit("outputEvidence");
        reveal_strlit(" = ");
        reveal_strlit("null");
        reveal_strlit("\n");
        assert("outputEvidence = "@ =~= "outputEvidence"@ + " = "@);
        assert("outputEvidence = null\n"@ =~= top_line("outputEvidence"@, "null"@));
    }
    lemma_top_line("quarantinePath"@, journal.quarantine_path);
    lemma_top_line("diagnostic"@, journal.diagnostic);
    let parts = seq![
        header,
        top_line("transactionId"@, string_literal(journal.transaction_id)),
        top_line("sourcePath"@, string_literal(journal.source_path)),
        top_line("destinationPath"@, string_literal(journal.destination_path)),
        top_line("manifestPath"@, string_literal(journal.manifest_path)),
        top_line("stagingPath"@, string_literal(journal.staging_path)),
        top_line("phase"@, string_literal(phase_word(journal.phase))),
        output,
        top_line("quarantinePath"@, text_value(journal.quarantine_path)),
        top_line("diagnostic"@, text_value(journal.diagnostic)),
    ];
    let p = parts;
    let none = Seq::<Seq<char>>::empty();
    let start = none.push(p[0]);
    let middle = start.push(p[1]).push(p[2]).push(p[3]).push(p[4]).push(p[5]).push(p[6]).push(
        p[7],
    ).push(p[8]);
    assert(parts =~= middle.push(p[9]));
    lemma_together_none();
    lemma_together_push(none, p[0]);
    assert(together(start) =~= p[0]);
    lemma_together_eight(start, p[1], p[2], p[3], p[4], p[5], p[6], p[7], p[8]);
    lemma_together_push(middle, p[9]);
    assert(text == together(parts));
    lemma_one_stands(parts, 0);
    lemma_one_stands(parts, 1);
    lemma_one_stands(parts, 2);
    lemma_one_stands(parts, 3);
    lemma_one_stands(parts, 4);
    lemma_one_stands(parts, 5);
    lemma_one_stands(parts, 6);
    lemma_one_stands(parts, 7);
    lemma_one_stands(parts, 8);
    lemma_one_stands(parts, 9);
    lemma_headed(journal.schema_version as int, journal.kind, journal.producer_version, text);
}

proof fn lemma_stands_at(version: Seq<char>, from: int, to: int)
    requires
        0 <= from <= to <= help_body().len(),
    ensures
        stands_in(help_body().subrange(from, to), root_help_text(version)),
{
    let text = help_body();
    let before = "marchiver "@ + version + text.take(from);
    lemma_stands_as(before, text.subrange(from, to), text.skip(to));
    assert(before + text.subrange(from, to) + text.skip(to) =~= root_help_text(version));
}

spec fn help_body() -> Seq<char> {
    "\n\nPortable CLI for quality-conscious media archiving and migration.\n\nUsage:\n  marchiver [OPTIONS]\n  marchiver <COMMAND>\n\nCommands:\n  inspect  Inspect and hash one regular media file\n  plan     Produce a trusted, self-contained Pkl archive plan\n  apply    Execute or resume one trusted Pkl archive plan\n  verify   Verify an archived output from its trusted Pkl manifest\n  restore  Restore a quarantined source from its trusted Pkl manifest\n\nOptions:\n  -h, --help       Print help\n  -V, --version    Print version"@
}

/// The help begins with the program's name and version, and says how it is started,
/// what each command is for and what the options do, each on a line of its own.
#[verifier::spinoff_prover]
pub proof fn law_help_says_what_each_command_is_for(version: Seq<char>)
    ensures
        root_help_text(version).take(("marchiver "@ + version).len() as int) == "marchiver "@
            + version,
        stands_in("\n  marchiver [OPTIONS]"@, root_help_text(version)),
        stands_in("\n  marchiver <COMMAND>"@, root_help_text(version)),
        stands_in("\n  inspect  Inspect and hash one regular media file"@, root_help_text(version)),
        stands_in(
            "\n  plan     Produce a trusted, self-contained Pkl archive plan"@,
            root_help_text(version),
        ),
        stands_in(
            "\n  apply    Execute or resume one trusted Pkl archive plan"@,
            root_help_text(version),
        ),
        stands_in(
            "\n  verify   Verify an archived output from its trusted Pkl manifest"@,
            root_help_text(version),
        ),
        stands_in(
            "\n  restore  Restore a quarantined source from its trusted Pkl manifest"@,
            root_help_text(version),
        ),
        stands_in("\n  -h, --help       Print help"@, root_help_text(version)),
        stands_in("\n  -V, --version    Print version"@, root_help_text(version)),
{
    assert(root_help_text(version).take(("marchiver "@ + version).len() as int) =~= "marchiver "@
        + version);
    let text = help_body();
    reveal_strlit(
        "\n\nPortable CLI for quality-conscious media archiving and migration.\n\nUsage:\n  marchiver [OPTIONS]\n  marchiver <COMMAND>\n\nCommands:\n  inspect  Inspect and hash one regular media file\n  plan     Produce a trusted, self-contained Pkl archive plan\n  apply    Execute or resume one trusted Pkl archive plan\n  verify   Verify an archived output from its trusted Pkl manifest\n  restore  Restore a quarantined source from its trusted Pkl manifest\n\nOptions:\n  -h, --help       Print help\n  -V, --version    Print version",
    );
    reveal_strlit("\n  marchiver [OPTIONS]");
    reveal_strlit("\n  marchiver <COMMAND>");
    reveal_strlit("\n  inspect  Inspect and hash one regular media file");
    reveal_strlit("\n  plan     Produce a trusted, self-contained Pkl archive plan");
    reveal_strlit("\n  apply    Execute or resume one trusted Pkl archive plan");
    reveal_strlit("\n  verify   Verify an archived output from its trusted Pkl manifest");
    reveal_strlit("\n  restore  Restore a quarantined source from its trusted Pkl manifest");
    reveal_strlit("\n  -h, --help       Print help");
    reveal_strlit("\n  -V, --version    Print version");
    assert(text.subrange(75, 97) =~= "\n  marchiver [OPTIONS]"@);
    lemma_stands_at(version, 75, 97);
    assert(text.subrange(97, 119) =~= "\n  marchiver <COMMAND>"@);
    lemma_stands_at(version, 97, 119);
    assert(text.subrange(130, 181) =~= "\n  inspect  Inspect and hash one regular media file"@);
    lemma_stands_at(version, 130, 181);
    assert(text.subrange(181, 243)
        =~= "\n  plan     Produce a trusted, self-contained Pkl archive plan"@);
    lemma_stands_at(version, 181, 243);
    assert(text.subrange(243, 301)
        =~= "\n  apply    Execute or resume one trusted Pkl archive plan"@);
    lemma_stands_at(version, 243, 301);
    assert(text.subrange(301, 368)
        =~= "\n  verify   Verify an archived output from its trusted Pkl manifest"@);
    lemma_stands_at(version, 301, 368);
    assert(text.subrange(368, 438)
        =~= "\n  restore  Restore a quarantined source from its trusted Pkl manifest"@);
    lemma_stands_at(version, 368, 438);
    assert(text.subrange(448, 478) =~= "\n  -h, --help       Print help"@);
    lemma_stands_at(version, 448, 478);
    assert(text.subrange(478, 511) =~= "\n  -V, --version    Print version"@);
    lemma_stands_at(version, 478, 511);
}

} // verus!
