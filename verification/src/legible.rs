//! What a written document gives away: two documents that are written alike are
//! alike.
use vstd::prelude::*;

use crate::model::{
    law_dispositions_have_names_of_their_own, law_phases_have_names_of_their_own,
    law_profiles_have_names_of_their_own, ChapterView, EvidenceView, InspectionView, JournalView,
    ManifestView, PlanView, StreamView,
};
use crate::pkl::{escaped, escaped_text, law_string_literals_tell_texts_apart, string_literal};
use crate::render::{
    bool_text, chapter_text, chapters_text, common_text, evidence_text, header_text,
    indented_optional_float_line, indented_optional_string_line, indented_optional_u32_line,
    inspection_text, journal_output_text, journal_text, manifest_text, optional_string_line,
    plan_text, spaces, stream_text, streams_text, string_line, value_line,
};
use crate::seconds::SecondsView;
use crate::text::{
    decimal_text, digit, lemma_decimal_is_digits, lemma_digit_is_injective, signed_text,
};

verus! {

/// Whether a text has no line end in it.
pub open spec fn one_line(text: Seq<char>) -> bool {
    forall|i: int| 0 <= i < text.len() ==> #[trigger] text[i] != '\n'
}

/// Whether a number of seconds can be read off its text: the text stands on one
/// line, is no other word or list, and `read` gives the number.
pub open spec fn legible_seconds(seconds: SecondsView, read: spec_fn(Seq<char>) -> u64) -> bool {
    &&& seconds.bits == read(seconds.text)
    &&& seconds.text != "null"@
    &&& forall|i: int|
        0 <= i < seconds.text.len() ==> #[trigger] seconds.text[i] != '\n' && seconds.text[i] != ';'
}

/// Whether a number of seconds that may be missing can be read off its text.
pub open spec fn legible_optional(
    seconds: Option<SecondsView>,
    read: spec_fn(Seq<char>) -> u64,
) -> bool {
    match seconds {
        Some(seconds) => legible_seconds(seconds, read),
        None => true,
    }
}

/// Whether every number of seconds in some evidence can be read off its text.
pub open spec fn legible_evidence(
    evidence: EvidenceView,
    read: spec_fn(Seq<char>) -> u64,
) -> bool {
    &&& legible_optional(evidence.format.duration_seconds, read)
    &&& forall|i: int|
        0 <= i < evidence.streams.len() ==> legible_optional(
            #[trigger] evidence.streams[i].duration_seconds,
            read,
        )
    &&& forall|i: int|
        0 <= i < evidence.chapters.len() ==> legible_seconds(
            #[trigger] evidence.chapters[i].start_seconds,
            read,
        ) && legible_seconds(evidence.chapters[i].end_seconds, read)
}

/// Whether every number of seconds in a plan can be read off its text.
pub open spec fn legible_plan(plan: PlanView, read: spec_fn(Seq<char>) -> u64) -> bool {
    &&& legible_seconds(plan.duration_tolerance_seconds, read)
    &&& legible_evidence(plan.source, read)
}

/// Whether every number of seconds in a manifest can be read off its text.
pub open spec fn legible_manifest(
    manifest: ManifestView,
    read: spec_fn(Seq<char>) -> u64,
) -> bool {
    &&& legible_seconds(manifest.duration_tolerance_seconds, read)
    &&& legible_evidence(manifest.source, read)
    &&& legible_evidence(manifest.output, read)
}

/// Whether every number of seconds in a journal can be read off its text.
pub open spec fn legible_journal(journal: JournalView, read: spec_fn(Seq<char>) -> u64) -> bool {
    match journal.output {
        Some(output) => legible_evidence(output, read),
        None => true,
    }
}

/// Whether a text ends with a line end.
spec fn ends(text: Seq<char>) -> bool {
    text.len() > 0 && text[text.len() - 1] == '\n'
}

/// Whether a text is one line and its end.
spec fn is_line(text: Seq<char>) -> bool {
    ends(text) && one_line(text.drop_last())
}

/// Two texts that end with the same differ in nothing but what comes before.
proof fn lemma_same_end(a: Seq<char>, b: Seq<char>, end: Seq<char>)
    requires
        a + end == b + end,
    ensures
        a == b,
{
    let n = (a + end).len() - end.len();
    assert(a =~= (a + end).subrange(0, n));
    assert(b =~= (b + end).subrange(0, n));
}

/// Two texts that start with the same differ in nothing but what comes behind.
proof fn lemma_same_start(start: Seq<char>, a: Seq<char>, b: Seq<char>)
    requires
        start + a == start + b,
    ensures
        a == b,
{
    assert(a =~= (start + a).skip(start.len() as int));
    assert(b =~= (start + b).skip(start.len() as int));
}

/// Texts can be put together in either order.
proof fn lemma_together(a: Seq<char>, b: Seq<char>, c: Seq<char>)
    ensures
        a + (b + c) == (a + b) + c,
{
    assert(a + (b + c) =~= (a + b) + c);
}

/// The last line of a text is where its last line end but one says.
proof fn lemma_last_line(xa: Seq<char>, la: Seq<char>, xb: Seq<char>, lb: Seq<char>)
    requires
        xa + la == xb + lb,
        ends(xa),
        ends(xb),
        is_line(la),
        is_line(lb),
    ensures
        la == lb,
        xa == xb,
{
    let text = xa + la;
    assert(text.len() == xa.len() + la.len());
    assert(text.len() == (xb + lb).len() && (xb + lb).len() == xb.len() + lb.len());
    assert(text[xa.len() - 1] == xa[xa.len() - 1]);
    assert((xb + lb)[xb.len() - 1] == xb[xb.len() - 1]);
    if xa.len() < xb.len() {
        assert(text[xb.len() - 1] == la.drop_last()[xb.len() - 1 - xa.len()]);
    } else if xb.len() < xa.len() {
        assert((xb + lb)[xa.len() - 1] == lb.drop_last()[xa.len() - 1 - xb.len()]);
    }
    assert(la =~= text.skip(xa.len() as int));
    assert(lb =~= (xb + lb).skip(xb.len() as int));
    assert(xa =~= text.subrange(0, xa.len() as int));
    assert(xb =~= (xb + lb).subrange(0, xb.len() as int));
}

/// The last line of a text, with something before both.
proof fn lemma_peel(
    ha: Seq<char>,
    xa: Seq<char>,
    la: Seq<char>,
    hb: Seq<char>,
    xb: Seq<char>,
    lb: Seq<char>,
)
    requires
        ha + (xa + la) == hb + (xb + lb),
        ends(xa),
        ends(xb),
        is_line(la),
        is_line(lb),
    ensures
        la == lb,
        ha + xa == hb + xb,
{
    lemma_together(ha, xa, la);
    lemma_together(hb, xb, lb);
    lemma_last_line(ha + xa, la, hb + xb, lb);
}

/// A value's line ends, and is one line where the value is.
proof fn lemma_value_line(indent: Seq<char>, name: Seq<char>, value: Seq<char>)
    requires
        one_line(indent),
        one_line(name),
        one_line(value),
    ensures
        is_line(value_line(indent, name, value)),
{
    reveal_strlit(" = ");
    reveal_strlit("\n");
    let line = value_line(indent, name, value);
    let a = indent + name;
    let b = a + " = "@;
    let c = b + value;
    assert(line.drop_last() =~= c);
    assert forall|i: int| 0 <= i < c.len() implies #[trigger] c[i] != '\n' by {
        if i < indent.len() {
            assert(c[i] == indent[i]);
        } else if i < a.len() {
            assert(c[i] == name[i - indent.len()]);
        } else if i < b.len() {
            assert(c[i] == " = "@[i - a.len()]);
        } else {
            assert(c[i] == value[i - b.len()]);
        }
    }
}

/// The last line of two texts gives a name the same value.
proof fn lemma_peel_value(
    ha: Seq<char>,
    xa: Seq<char>,
    va: Seq<char>,
    hb: Seq<char>,
    xb: Seq<char>,
    vb: Seq<char>,
    indent: Seq<char>,
    name: Seq<char>,
)
    requires
        ha + (xa + value_line(indent, name, va)) == hb + (xb + value_line(indent, name, vb)),
        ends(xa),
        ends(xb),
        one_line(indent),
        one_line(name),
        one_line(va),
        one_line(vb),
    ensures
        va == vb,
        ha + xa == hb + xb,
        ends(xa + value_line(indent, name, va)),
{
    lemma_value_line(indent, name, va);
    lemma_value_line(indent, name, vb);
    lemma_peel(ha, xa, value_line(indent, name, va), hb, xb, value_line(indent, name, vb));
    let start = indent + name + " = "@;
    lemma_same_end(start + va, start + vb, "\n"@);
    lemma_same_start(start, va, vb);
}

/// A string literal stands on one line.
proof fn lemma_literal_is_one_line(text: Seq<char>)
    ensures
        one_line(string_literal(text)),
{
    lemma_escaped_is_one_line(text);
    let literal = string_literal(text);
    assert forall|i: int| 0 <= i < literal.len() implies #[trigger] literal[i] != '\n' by {
        if 0 < i < literal.len() - 1 {
            assert(literal[i] == escaped_text(text)[i - 1]);
        }
    }
}

proof fn lemma_escaped_is_one_line(text: Seq<char>)
    ensures
        one_line(escaped_text(text)),
    decreases text.len(),
{
    if text.len() > 0 {
        lemma_escaped_is_one_line(text.drop_last());
        let before = escaped_text(text.drop_last());
        let last = escaped(text.last());
        assert forall|i: int| 0 <= i < escaped_text(text).len() implies #[trigger] escaped_text(
            text,
        )[i] != '\n' by {
            if i < before.len() {
                assert(escaped_text(text)[i] == before[i]);
            } else {
                assert(escaped_text(text)[i] == last[i - before.len()]);
            }
        }
    }
}

/// Different numbers are written differently.
proof fn lemma_decimal_tells_apart(a: nat, b: nat)
    requires
        decimal_text(a) == decimal_text(b),
    ensures
        a == b,
    decreases a,
{
    let text = decimal_text(a);
    if a >= 10 {
        lemma_decimal_is_digits(a / 10);
        assert(text.last() == digit((a % 10) as int));
        assert(text.drop_last() =~= decimal_text(a / 10));
    } else {
        assert(text.last() == digit(a as int));
    }
    if b >= 10 {
        lemma_decimal_is_digits(b / 10);
        assert(text.last() == digit((b % 10) as int));
        assert(text.drop_last() =~= decimal_text(b / 10));
    } else {
        assert(text.last() == digit(b as int));
    }
    if a >= 10 && b >= 10 {
        lemma_decimal_tells_apart(a / 10, b / 10);
        lemma_digit_is_injective((a % 10) as int, (b % 10) as int);
    } else if a < 10 && b < 10 {
        lemma_digit_is_injective(a as int, b as int);
    }
}

proof fn lemma_signed_tells_apart(a: int, b: int)
    requires
        signed_text(a) == signed_text(b),
    ensures
        a == b,
{
    reveal_strlit("-");
    if a >= 0 {
        lemma_decimal_is_digits(a as nat);
        assert('0' <= signed_text(a)[0]);
    } else {
        assert(signed_text(a)[0] == '-');
    }
    if b >= 0 {
        lemma_decimal_is_digits(b as nat);
        assert('0' <= signed_text(b)[0]);
    } else {
        assert(signed_text(b)[0] == '-');
    }
    if a >= 0 {
        lemma_decimal_tells_apart(a as nat, b as nat);
    } else {
        lemma_same_start("-"@, decimal_text((-a) as nat), decimal_text((-b) as nat));
        lemma_decimal_tells_apart((-a) as nat, (-b) as nat);
    }
}

proof fn lemma_decimal_is_one_line(value: nat)
    ensures
        one_line(decimal_text(value)),
{
    lemma_decimal_is_digits(value);
}

proof fn lemma_signed_is_one_line(value: int)
    ensures
        one_line(signed_text(value)),
{
    reveal_strlit("-");
    if value < 0 {
        let digits = decimal_text((-value) as nat);
        lemma_decimal_is_digits((-value) as nat);
        assert forall|i: int| 0 <= i < signed_text(value).len() implies #[trigger] signed_text(
            value,
        )[i] != '\n' by {
            if i > 0 {
                assert(signed_text(value)[i] == digits[i - 1]);
            }
        }
    } else {
        lemma_decimal_is_digits(value as nat);
    }
}

/// A text that may be missing, as a value.
spec fn optional_value(value: Option<Seq<char>>) -> Seq<char> {
    match value {
        Some(value) => string_literal(value),
        None => "null"@,
    }
}

proof fn lemma_null_line(indent: Seq<char>, name: Seq<char>)
    ensures
        indent + name + " = null\n"@ == value_line(indent, name, "null"@),
        one_line("null"@),
{
    reveal_strlit(" = null\n");
    reveal_strlit(" = ");
    reveal_strlit("null");
    reveal_strlit("\n");
    assert(" = null\n"@ =~= " = "@ + "null"@ + "\n"@);
    assert(indent + name + " = null\n"@ =~= value_line(indent, name, "null"@));
}

proof fn lemma_optional_string_line(indent: Seq<char>, name: Seq<char>, value: Option<Seq<char>>)
    ensures
        indented_optional_string_line(indent, name, value) == value_line(
            indent,
            name,
            optional_value(value),
        ),
        one_line(optional_value(value)),
{
    lemma_null_line(indent, name);
    match value {
        Some(value) => lemma_literal_is_one_line(value),
        None => {},
    }
}

proof fn lemma_optional_values_tell_apart(a: Option<Seq<char>>, b: Option<Seq<char>>)
    requires
        optional_value(a) == optional_value(b),
    ensures
        a == b,
{
    reveal_strlit("null");
    match (a, b) {
        (Some(x), Some(y)) => law_string_literals_tell_texts_apart(x, y),
        (Some(x), None) => {
            assert(string_literal(x)[0] == '"');
            assert("null"@[0] == 'n');
        },
        (None, Some(y)) => {
            assert(string_literal(y)[0] == '"');
            assert("null"@[0] == 'n');
        },
        (None, None) => {},
    }
}

/// The last line of two texts gives a name the same text, or none.
proof fn lemma_peel_optional_string(
    ha: Seq<char>,
    xa: Seq<char>,
    va: Option<Seq<char>>,
    hb: Seq<char>,
    xb: Seq<char>,
    vb: Option<Seq<char>>,
    indent: Seq<char>,
    name: Seq<char>,
)
    requires
        ha + (xa + indented_optional_string_line(indent, name, va)) == hb + (xb
            + indented_optional_string_line(indent, name, vb)),
        ends(xa),
        ends(xb),
        one_line(indent),
        one_line(name),
    ensures
        va == vb,
        ha + xa == hb + xb,
{
    lemma_optional_string_line(indent, name, va);
    lemma_optional_string_line(indent, name, vb);
    lemma_peel_value(ha, xa, optional_value(va), hb, xb, optional_value(vb), indent, name);
    lemma_optional_values_tell_apart(va, vb);
}

/// The last line of two texts gives a name the same number of seconds, or none.
proof fn lemma_peel_optional_float(
    ha: Seq<char>,
    xa: Seq<char>,
    va: Option<SecondsView>,
    hb: Seq<char>,
    xb: Seq<char>,
    vb: Option<SecondsView>,
    indent: Seq<char>,
    name: Seq<char>,
    read: spec_fn(Seq<char>) -> u64,
)
    requires
        ha + (xa + indented_optional_float_line(indent, name, va)) == hb + (xb
            + indented_optional_float_line(indent, name, vb)),
        ends(xa),
        ends(xb),
        one_line(indent),
        one_line(name),
        legible_optional(va, read),
        legible_optional(vb, read),
    ensures
        va == vb,
        ha + xa == hb + xb,
{
    lemma_null_line(indent, name);
    let ta = match va {
        Some(value) => value.text,
        None => "null"@,
    };
    let tb = match vb {
        Some(value) => value.text,
        None => "null"@,
    };
    lemma_peel_value(ha, xa, ta, hb, xb, tb, indent, name);
}

/// The last line of two texts gives a name the same whole number, or none.
proof fn lemma_peel_optional_u32(
    ha: Seq<char>,
    xa: Seq<char>,
    va: Option<u32>,
    hb: Seq<char>,
    xb: Seq<char>,
    vb: Option<u32>,
    indent: Seq<char>,
    name: Seq<char>,
)
    requires
        ha + (xa + indented_optional_u32_line(indent, name, va)) == hb + (xb
            + indented_optional_u32_line(indent, name, vb)),
        ends(xa),
        ends(xb),
        one_line(indent),
        one_line(name),
    ensures
        va == vb,
        ha + xa == hb + xb,
{
    reveal_strlit("null");
    lemma_null_line(indent, name);
    let ta = match va {
        Some(value) => decimal_text(value as nat),
        None => "null"@,
    };
    let tb = match vb {
        Some(value) => decimal_text(value as nat),
        None => "null"@,
    };
    match va {
        Some(value) => {
            lemma_decimal_is_digits(value as nat);
            assert(ta[0] <= '9');
        },
        None => {},
    }
    match vb {
        Some(value) => {
            lemma_decimal_is_digits(value as nat);
            assert(tb[0] <= '9');
        },
        None => {},
    }
    lemma_peel_value(ha, xa, ta, hb, xb, tb, indent, name);
    match (va, vb) {
        (Some(x), Some(y)) => lemma_decimal_tells_apart(x as nat, y as nat),
        _ => {},
    }
}

/// The last line of two texts gives a name the same text.
proof fn lemma_peel_string(
    ha: Seq<char>,
    xa: Seq<char>,
    va: Seq<char>,
    hb: Seq<char>,
    xb: Seq<char>,
    vb: Seq<char>,
    indent: Seq<char>,
    name: Seq<char>,
)
    requires
        ha + (xa + value_line(indent, name, string_literal(va))) == hb + (xb + value_line(
            indent,
            name,
            string_literal(vb),
        )),
        ends(xa),
        ends(xb),
        one_line(indent),
        one_line(name),
    ensures
        va == vb,
        ha + xa == hb + xb,
{
    lemma_literal_is_one_line(va);
    lemma_literal_is_one_line(vb);
    lemma_peel_value(ha, xa, string_literal(va), hb, xb, string_literal(vb), indent, name);
    law_string_literals_tell_texts_apart(va, vb);
}

/// The last line of two texts gives a name the same number.
proof fn lemma_peel_decimal(
    ha: Seq<char>,
    xa: Seq<char>,
    va: nat,
    hb: Seq<char>,
    xb: Seq<char>,
    vb: nat,
    indent: Seq<char>,
    name: Seq<char>,
)
    requires
        ha + (xa + value_line(indent, name, decimal_text(va))) == hb + (xb + value_line(
            indent,
            name,
            decimal_text(vb),
        )),
        ends(xa),
        ends(xb),
        one_line(indent),
        one_line(name),
    ensures
        va == vb,
        ha + xa == hb + xb,
{
    lemma_decimal_is_one_line(va);
    lemma_decimal_is_one_line(vb);
    lemma_peel_value(ha, xa, decimal_text(va), hb, xb, decimal_text(vb), indent, name);
    lemma_decimal_tells_apart(va, vb);
}

/// The last line of two texts gives a name the same number, which may be negative.
proof fn lemma_peel_signed(
    ha: Seq<char>,
    xa: Seq<char>,
    va: int,
    hb: Seq<char>,
    xb: Seq<char>,
    vb: int,
    indent: Seq<char>,
    name: Seq<char>,
)
    requires
        ha + (xa + value_line(indent, name, signed_text(va))) == hb + (xb + value_line(
            indent,
            name,
            signed_text(vb),
        )),
        ends(xa),
        ends(xb),
        one_line(indent),
        one_line(name),
    ensures
        va == vb,
        ha + xa == hb + xb,
{
    lemma_signed_is_one_line(va);
    lemma_signed_is_one_line(vb);
    lemma_peel_value(ha, xa, signed_text(va), hb, xb, signed_text(vb), indent, name);
    lemma_signed_tells_apart(va, vb);
}

/// The names in documents stand on one line each.
proof fn lemma_names()
    ensures
        one_line("attachedPicture"@),
        one_line("bitsPerRawSample"@),
        one_line("codecName"@),
        one_line("codecType"@),
        one_line("colorPrimaries"@),
        one_line("colorSpace"@),
        one_line("colorTransfer"@),
        one_line("container"@),
        one_line("crf"@),
        one_line("destinationPath"@),
        one_line("diagnostic"@),
        one_line("durationSeconds"@),
        one_line("formatName"@),
        one_line("height"@),
        one_line("index"@),
        one_line("kind"@),
        one_line("manifestPath"@),
        one_line("modifiedNs"@),
        one_line("path"@),
        one_line("phase"@),
        one_line("pixelFormat"@),
        one_line("preset"@),
        one_line("producerVersion"@),
        one_line("profile"@),
        one_line("quarantinePath"@),
        one_line("rawProbeJson"@),
        one_line("sha256"@),
        one_line("size"@),
        one_line("sourceDisposition"@),
        one_line("sourcePath"@),
        one_line("stagingPath"@),
        one_line("transactionId"@),
        one_line("width"@),
{
    reveal_strlit("attachedPicture");
    reveal_strlit("bitsPerRawSample");
    reveal_strlit("codecName");
    reveal_strlit("codecType");
    reveal_strlit("colorPrimaries");
    reveal_strlit("colorSpace");
    reveal_strlit("colorTransfer");
    reveal_strlit("container");
    reveal_strlit("crf");
    reveal_strlit("destinationPath");
    reveal_strlit("diagnostic");
    reveal_strlit("durationSeconds");
    reveal_strlit("formatName");
    reveal_strlit("height");
    reveal_strlit("index");
    reveal_strlit("kind");
    reveal_strlit("manifestPath");
    reveal_strlit("modifiedNs");
    reveal_strlit("path");
    reveal_strlit("phase");
    reveal_strlit("pixelFormat");
    reveal_strlit("preset");
    reveal_strlit("producerVersion");
    reveal_strlit("profile");
    reveal_strlit("quarantinePath");
    reveal_strlit("rawProbeJson");
    reveal_strlit("sha256");
    reveal_strlit("size");
    reveal_strlit("sourceDisposition");
    reveal_strlit("sourcePath");
    reveal_strlit("stagingPath");
    reveal_strlit("transactionId");
    reveal_strlit("width");
}

broadcast proof fn lemma_value_ends(x: Seq<char>, indent: Seq<char>, name: Seq<char>, v: Seq<char>)
    ensures
        #[trigger] ends(x + value_line(indent, name, v)),
{
    reveal_strlit("\n");
}

broadcast proof fn lemma_optional_string_ends(
    x: Seq<char>,
    indent: Seq<char>,
    name: Seq<char>,
    v: Option<Seq<char>>,
)
    ensures
        #[trigger] ends(x + indented_optional_string_line(indent, name, v)),
{
    reveal_strlit("\n");
    reveal_strlit(" = null\n");
}

broadcast proof fn lemma_optional_float_ends(
    x: Seq<char>,
    indent: Seq<char>,
    name: Seq<char>,
    v: Option<SecondsView>,
)
    ensures
        #[trigger] ends(x + indented_optional_float_line(indent, name, v)),
{
    reveal_strlit("\n");
    reveal_strlit(" = null\n");
}

broadcast proof fn lemma_optional_u32_ends(
    x: Seq<char>,
    indent: Seq<char>,
    name: Seq<char>,
    v: Option<u32>,
)
    ensures
        #[trigger] ends(x + indented_optional_u32_line(indent, name, v)),
{
    reveal_strlit("\n");
    reveal_strlit(" = null\n");
}

broadcast group group_ends {
    lemma_value_ends,
    lemma_optional_string_ends,
    lemma_optional_float_ends,
    lemma_optional_u32_ends,
}

/// Two texts that end with a stream end with the same one.
proof fn lemma_stream(
    ha: Seq<char>,
    a: StreamView,
    hb: Seq<char>,
    b: StreamView,
    field: Seq<char>,
    read: spec_fn(Seq<char>) -> u64,
)
    requires
        ha + stream_text(field, a) == hb + stream_text(field, b),
        one_line(field),
        legible_optional(a.duration_seconds, read),
        legible_optional(b.duration_seconds, read),
    ensures
        a == b,
        ha == hb,
{
    broadcast use group_ends;

    lemma_names();
    reveal_strlit("    ");
    reveal_strlit("  new {\n");
    reveal_strlit("  },\n");
    reveal_strlit("true");
    reveal_strlit("false");
    let item = field + "    "@;
    let start = field + "  new {\n"@;
    let end = field + "  },\n"@;
    let a1 = start + value_line(item, "index"@, decimal_text(a.index as nat));
    let a2 = a1 + indented_optional_string_line(item, "codecName"@, a.codec_name);
    let a3 = a2 + indented_optional_string_line(item, "codecType"@, a.codec_type);
    let a4 = a3 + indented_optional_u32_line(item, "width"@, a.width);
    let a5 = a4 + indented_optional_u32_line(item, "height"@, a.height);
    let a6 = a5 + indented_optional_float_line(item, "durationSeconds"@, a.duration_seconds);
    let a7 = a6 + indented_optional_string_line(item, "bitsPerRawSample"@, a.bits_per_raw_sample);
    let a8 = a7 + indented_optional_string_line(item, "pixelFormat"@, a.pixel_format);
    let a9 = a8 + indented_optional_string_line(item, "colorSpace"@, a.color_space);
    let a10 = a9 + indented_optional_string_line(item, "colorTransfer"@, a.color_transfer);
    let a11 = a10 + indented_optional_string_line(item, "colorPrimaries"@, a.color_primaries);
    let a12 = a11 + value_line(item, "attachedPicture"@, bool_text(a.attached_picture));
    let b1 = start + value_line(item, "index"@, decimal_text(b.index as nat));
    let b2 = b1 + indented_optional_string_line(item, "codecName"@, b.codec_name);
    let b3 = b2 + indented_optional_string_line(item, "codecType"@, b.codec_type);
    let b4 = b3 + indented_optional_u32_line(item, "width"@, b.width);
    let b5 = b4 + indented_optional_u32_line(item, "height"@, b.height);
    let b6 = b5 + indented_optional_float_line(item, "durationSeconds"@, b.duration_seconds);
    let b7 = b6 + indented_optional_string_line(item, "bitsPerRawSample"@, b.bits_per_raw_sample);
    let b8 = b7 + indented_optional_string_line(item, "pixelFormat"@, b.pixel_format);
    let b9 = b8 + indented_optional_string_line(item, "colorSpace"@, b.color_space);
    let b10 = b9 + indented_optional_string_line(item, "colorTransfer"@, b.color_transfer);
    let b11 = b10 + indented_optional_string_line(item, "colorPrimaries"@, b.color_primaries);
    let b12 = b11 + value_line(item, "attachedPicture"@, bool_text(b.attached_picture));
    assert forall|i: int| 0 <= i < item.len() implies #[trigger] item[i] != '\n' by {
        if i < field.len() {
            assert(item[i] == field[i]);
        }
    }
    lemma_together(ha, a12, end);
    lemma_together(hb, b12, end);
    lemma_same_end(ha + a12, hb + b12, end);
    lemma_peel_value(
        ha,
        a11,
        bool_text(a.attached_picture),
        hb,
        b11,
        bool_text(b.attached_picture),
        item,
        "attachedPicture"@,
    );
    lemma_peel_optional_string(
        ha,
        a10,
        a.color_primaries,
        hb,
        b10,
        b.color_primaries,
        item,
        "colorPrimaries"@,
    );
    lemma_peel_optional_string(
        ha,
        a9,
        a.color_transfer,
        hb,
        b9,
        b.color_transfer,
        item,
        "colorTransfer"@,
    );
    lemma_peel_optional_string(ha, a8, a.color_space, hb, b8, b.color_space, item, "colorSpace"@);
    lemma_peel_optional_string(
        ha,
        a7,
        a.pixel_format,
        hb,
        b7,
        b.pixel_format,
        item,
        "pixelFormat"@,
    );
    lemma_peel_optional_string(
        ha,
        a6,
        a.bits_per_raw_sample,
        hb,
        b6,
        b.bits_per_raw_sample,
        item,
        "bitsPerRawSample"@,
    );
    lemma_peel_optional_float(
        ha,
        a5,
        a.duration_seconds,
        hb,
        b5,
        b.duration_seconds,
        item,
        "durationSeconds"@,
        read,
    );
    lemma_peel_optional_u32(ha, a4, a.height, hb, b4, b.height, item, "height"@);
    lemma_peel_optional_u32(ha, a3, a.width, hb, b3, b.width, item, "width"@);
    lemma_peel_optional_string(ha, a2, a.codec_type, hb, b2, b.codec_type, item, "codecType"@);
    lemma_peel_optional_string(ha, a1, a.codec_name, hb, b1, b.codec_name, item, "codecName"@);
    lemma_peel_decimal(ha, start, a.index as nat, hb, start, b.index as nat, item, "index"@);
    lemma_same_end(ha, hb, start);
}

/// What comes before a stream's last line.
proof fn lemma_stream_closes(field: Seq<char>, stream: StreamView) -> (before: Seq<char>)
    ensures
        stream_text(field, stream) == before + (field + "  },\n"@),
        ends(before),
{
    broadcast use lemma_value_ends;

    let end = field + "  },\n"@;
    let text = stream_text(field, stream);
    let before = text.subrange(0, text.len() - end.len());
    assert(text =~= before + end);
    let item = field + "    "@;
    let more = field + "  new {\n"@ + value_line(
        item,
        "index"@,
        decimal_text(stream.index as nat),
    ) + indented_optional_string_line(item, "codecName"@, stream.codec_name)
        + indented_optional_string_line(item, "codecType"@, stream.codec_type)
        + indented_optional_u32_line(item, "width"@, stream.width) + indented_optional_u32_line(
        item,
        "height"@,
        stream.height,
    ) + indented_optional_float_line(item, "durationSeconds"@, stream.duration_seconds)
        + indented_optional_string_line(item, "bitsPerRawSample"@, stream.bits_per_raw_sample)
        + indented_optional_string_line(item, "pixelFormat"@, stream.pixel_format)
        + indented_optional_string_line(item, "colorSpace"@, stream.color_space)
        + indented_optional_string_line(item, "colorTransfer"@, stream.color_transfer)
        + indented_optional_string_line(item, "colorPrimaries"@, stream.color_primaries);
    let last = value_line(item, "attachedPicture"@, bool_text(stream.attached_picture));
    assert(before =~= more + last);
    before
}

proof fn lemma_regrouped(a: Seq<char>, b: Seq<char>, c: Seq<char>, d: Seq<char>)
    ensures
        a + (b + (c + d)) == ((a + b) + c) + d,
{
    assert(a + (b + (c + d)) =~= ((a + b) + c) + d);
}

/// The first line of a list of streams is not the last line of a stream.
#[verifier::spinoff_prover]
proof fn lemma_no_stream_ends_here(
    p: Seq<char>,
    h: Seq<char>,
    streams: Seq<StreamView>,
    field: Seq<char>,
)
    requires
        p + (field + "streams = List(\n"@) == h + streams_text(field, streams),
        ends(p),
        one_line(field),
    ensures
        streams.len() == 0,
{
    reveal_strlit("streams = List(\n");
    reveal_strlit("  },\n");
    if streams.len() > 0 {
        let before = lemma_stream_closes(field, streams.last());
        let open = field + "streams = List(\n"@;
        let end = field + "  },\n"@;
        let rest = streams_text(field, streams.drop_last());
        let earlier = h + rest;
        lemma_regrouped(h, rest, before, end);
        assert(streams_text(field, streams) == rest + (before + end));
        lemma_indented_line(field, "streams = List(\n"@);
        lemma_indented_line(field, "  },\n"@);
        lemma_last_line(p, open, earlier + before, end);
        assert(open[field.len() as int] == 's');
        assert(end[field.len() as int] == ' ');
    }
}

/// An indented line is a line.
proof fn lemma_indented_line(field: Seq<char>, line: Seq<char>)
    requires
        one_line(field),
        is_line(line),
    ensures
        is_line(field + line),
{
    let whole = field + line;
    assert forall|i: int| 0 <= i < whole.drop_last().len() implies #[trigger] whole.drop_last()[i]
        != '\n' by {
        if i < field.len() {
            assert(whole[i] == field[i]);
        } else {
            assert(whole[i] == line.drop_last()[i - field.len()]);
        }
    }
}

/// Two texts that end with the streams of a list end with the same ones.
proof fn lemma_streams(
    pa: Seq<char>,
    a: Seq<StreamView>,
    pb: Seq<char>,
    b: Seq<StreamView>,
    field: Seq<char>,
    read: spec_fn(Seq<char>) -> u64,
)
    requires
        (pa + (field + "streams = List(\n"@)) + streams_text(field, a) == (pb + (field
            + "streams = List(\n"@)) + streams_text(field, b),
        ends(pa),
        ends(pb),
        one_line(field),
        forall|i: int|
            0 <= i < a.len() ==> legible_optional(#[trigger] a[i].duration_seconds, read),
        forall|i: int|
            0 <= i < b.len() ==> legible_optional(#[trigger] b[i].duration_seconds, read),
    ensures
        a == b,
        pa == pb,
    decreases a.len(),
{
    let open = field + "streams = List(\n"@;
    if a.len() == 0 && b.len() == 0 {
        assert((pa + open) + streams_text(field, a) =~= pa + open);
        assert((pb + open) + streams_text(field, b) =~= pb + open);
        lemma_same_end(pa, pb, open);
        assert(a =~= b);
    } else if a.len() == 0 {
        assert((pa + open) + streams_text(field, a) =~= pa + open);
        lemma_no_stream_ends_here(pa, pb + open, b, field);
    } else if b.len() == 0 {
        assert((pb + open) + streams_text(field, b) =~= pb + open);
        lemma_no_stream_ends_here(pb, pa + open, a, field);
    } else {
        let earlier_a = streams_text(field, a.drop_last());
        let earlier_b = streams_text(field, b.drop_last());
        let ha = (pa + open) + earlier_a;
        let hb = (pb + open) + earlier_b;
        lemma_together(pa + open, earlier_a, stream_text(field, a.last()));
        lemma_together(pb + open, earlier_b, stream_text(field, b.last()));
        assert(legible_optional(a[a.len() - 1].duration_seconds, read));
        assert(legible_optional(b[b.len() - 1].duration_seconds, read));
        lemma_stream(ha, a.last(), hb, b.last(), field, read);
        lemma_streams(pa, a.drop_last(), pb, b.drop_last(), field, read);
        assert(a =~= a.drop_last().push(a.last()));
        assert(b =~= b.drop_last().push(b.last()));
    }
}

/// A chapter's line is a line.
proof fn lemma_chapter_is_line(
    field: Seq<char>,
    chapter: ChapterView,
    read: spec_fn(Seq<char>) -> u64,
)
    requires
        one_line(field),
        legible_seconds(chapter.start_seconds, read),
        legible_seconds(chapter.end_seconds, read),
    ensures
        is_line(chapter_text(field, chapter)),
{
    reveal_strlit("  new { startSeconds = ");
    reveal_strlit("; endSeconds = ");
    reveal_strlit(" },\n");
    let one = field + "  new { startSeconds = "@;
    let two = one + chapter.start_seconds.text;
    let three = two + "; endSeconds = "@;
    let four = three + chapter.end_seconds.text;
    let text = chapter_text(field, chapter);
    assert(text == four + " },\n"@);
    assert forall|i: int| 0 <= i < text.drop_last().len() implies #[trigger] text.drop_last()[i]
        != '\n' by {
        if i < field.len() {
            assert(text[i] == field[i]);
        } else if i < one.len() {
            assert(text[i] == "  new { startSeconds = "@[i - field.len()]);
        } else if i < two.len() {
            assert(text[i] == chapter.start_seconds.text[i - one.len()]);
        } else if i < three.len() {
            assert(text[i] == "; endSeconds = "@[i - two.len()]);
        } else if i < four.len() {
            assert(text[i] == chapter.end_seconds.text[i - three.len()]);
        } else {
            assert(text[i] == " },\n"@[i - four.len()]);
        }
    }
}

/// Chapters that are written alike are alike.
proof fn lemma_chapter_tells_apart(
    field: Seq<char>,
    a: ChapterView,
    b: ChapterView,
    read: spec_fn(Seq<char>) -> u64,
)
    requires
        chapter_text(field, a) == chapter_text(field, b),
        legible_seconds(a.start_seconds, read),
        legible_seconds(a.end_seconds, read),
        legible_seconds(b.start_seconds, read),
        legible_seconds(b.end_seconds, read),
    ensures
        a == b,
{
    reveal_strlit("; endSeconds = ");
    let start = field + "  new { startSeconds = "@;
    let between = "; endSeconds = "@;
    let end = " },\n"@;
    let ta = a.start_seconds.text;
    let tb = b.start_seconds.text;
    lemma_same_end(
        start + ta + between + a.end_seconds.text,
        start + tb + between + b.end_seconds.text,
        end,
    );
    let ra = ta + (between + a.end_seconds.text);
    let rb = tb + (between + b.end_seconds.text);
    assert(start + ta + between + a.end_seconds.text =~= start + ra);
    assert(start + tb + between + b.end_seconds.text =~= start + rb);
    lemma_same_start(start, ra, rb);
    assert(ra[ta.len() as int] == between[0]);
    assert(rb[tb.len() as int] == between[0]);
    if ta.len() < tb.len() {
        assert(rb[ta.len() as int] == tb[ta.len() as int]);
    } else if tb.len() < ta.len() {
        assert(ra[tb.len() as int] == ta[tb.len() as int]);
    }
    assert(ta =~= ra.subrange(0, ta.len() as int));
    assert(tb =~= rb.subrange(0, tb.len() as int));
    lemma_same_start(ta, between + a.end_seconds.text, between + b.end_seconds.text);
    lemma_same_start(between, a.end_seconds.text, b.end_seconds.text);
}

/// Whether the numbers of seconds of some chapters can be read off their texts.
spec fn legible_chapters(chapters: Seq<ChapterView>, read: spec_fn(Seq<char>) -> u64) -> bool {
    forall|i: int|
        0 <= i < chapters.len() ==> legible_seconds(#[trigger] chapters[i].start_seconds, read)
            && legible_seconds(chapters[i].end_seconds, read)
}

/// A list of chapters, with its first line and what comes before, ends.
proof fn lemma_chapters_end(p: Seq<char>, chapters: Seq<ChapterView>, field: Seq<char>)
    ensures
        ends((p + (field + "chapters = List(\n"@)) + chapters_text(field, chapters)),
{
    reveal_strlit("chapters = List(\n");
    reveal_strlit(" },\n");
}

/// The first line of a list of chapters is no chapter.
proof fn lemma_no_chapter_ends_here(
    p: Seq<char>,
    q: Seq<char>,
    chapters: Seq<ChapterView>,
    field: Seq<char>,
    read: spec_fn(Seq<char>) -> u64,
)
    requires
        p + (field + "chapters = List(\n"@) == (q + (field + "chapters = List(\n"@))
            + chapters_text(field, chapters),
        ends(p),
        one_line(field),
        legible_chapters(chapters, read),
    ensures
        chapters.len() == 0,
{
    reveal_strlit("chapters = List(\n");
    reveal_strlit("  new { startSeconds = ");
    if chapters.len() > 0 {
        let open = field + "chapters = List(\n"@;
        let last = chapters.last();
        assert(legible_seconds(chapters[chapters.len() - 1].start_seconds, read));
        lemma_chapters_end(q, chapters.drop_last(), field);
        lemma_indented_line(field, "chapters = List(\n"@);
        lemma_chapter_is_line(field, last, read);
        let earlier = (q + open) + chapters_text(field, chapters.drop_last());
        assert((q + open) + chapters_text(field, chapters) =~= earlier + chapter_text(field, last));
        lemma_last_line(p, open, earlier, chapter_text(field, last));
        assert(open[field.len() as int] == 'c');
        assert(chapter_text(field, last)[field.len() as int] == ' ');
    }
}

/// Two texts that end with the chapters of a list end with the same ones.
proof fn lemma_chapters(
    pa: Seq<char>,
    a: Seq<ChapterView>,
    pb: Seq<char>,
    b: Seq<ChapterView>,
    field: Seq<char>,
    read: spec_fn(Seq<char>) -> u64,
)
    requires
        (pa + (field + "chapters = List(\n"@)) + chapters_text(field, a) == (pb + (field
            + "chapters = List(\n"@)) + chapters_text(field, b),
        ends(pa),
        ends(pb),
        one_line(field),
        legible_chapters(a, read),
        legible_chapters(b, read),
    ensures
        a == b,
        pa == pb,
    decreases a.len(),
{
    let open = field + "chapters = List(\n"@;
    if a.len() == 0 && b.len() == 0 {
        assert((pa + open) + chapters_text(field, a) =~= pa + open);
        assert((pb + open) + chapters_text(field, b) =~= pb + open);
        lemma_same_end(pa, pb, open);
        assert(a =~= b);
    } else if a.len() == 0 {
        assert((pa + open) + chapters_text(field, a) =~= pa + open);
        lemma_no_chapter_ends_here(pa, pb, b, field, read);
    } else if b.len() == 0 {
        assert((pb + open) + chapters_text(field, b) =~= pb + open);
        lemma_no_chapter_ends_here(pb, pa, a, field, read);
    } else {
        let earlier_a = chapters_text(field, a.drop_last());
        let earlier_b = chapters_text(field, b.drop_last());
        let ha = (pa + open) + earlier_a;
        let hb = (pb + open) + earlier_b;
        lemma_together(pa + open, earlier_a, chapter_text(field, a.last()));
        lemma_together(pb + open, earlier_b, chapter_text(field, b.last()));
        assert(legible_seconds(a[a.len() - 1].start_seconds, read));
        assert(legible_seconds(b[b.len() - 1].start_seconds, read));
        lemma_chapters_end(pa, a.drop_last(), field);
        lemma_chapters_end(pb, b.drop_last(), field);
        lemma_chapter_is_line(field, a.last(), read);
        lemma_chapter_is_line(field, b.last(), read);
        lemma_last_line(ha, chapter_text(field, a.last()), hb, chapter_text(field, b.last()));
        lemma_chapter_tells_apart(field, a.last(), b.last(), read);
        lemma_chapters(pa, a.drop_last(), pb, b.drop_last(), field, read);
        assert(a =~= a.drop_last().push(a.last()));
        assert(b =~= b.drop_last().push(b.last()));
    }
}

/// A text ends as its last part does.
proof fn lemma_ends_behind(x: Seq<char>, line: Seq<char>)
    requires
        ends(line),
    ensures
        ends(x + line),
{
}

/// Two texts with the same last part, with something before both.
proof fn lemma_peel_same(
    ha: Seq<char>,
    xa: Seq<char>,
    hb: Seq<char>,
    xb: Seq<char>,
    end: Seq<char>,
)
    requires
        ha + (xa + end) == hb + (xb + end),
    ensures
        ha + xa == hb + xb,
{
    lemma_together(ha, xa, end);
    lemma_together(hb, xb, end);
    lemma_same_end(ha + xa, hb + xb, end);
}

/// The last lines of two texts are those of a list of chapters, and what comes
/// before them.
proof fn lemma_peel_chapters(
    ha: Seq<char>,
    xa: Seq<char>,
    a: Seq<ChapterView>,
    hb: Seq<char>,
    xb: Seq<char>,
    b: Seq<ChapterView>,
    field: Seq<char>,
    read: spec_fn(Seq<char>) -> u64,
)
    requires
        ha + ((xa + (field + "chapters = List(\n"@)) + chapters_text(field, a)) == hb + ((xb + (
        field + "chapters = List(\n"@)) + chapters_text(field, b)),
        ends(xa),
        ends(xb),
        one_line(field),
        legible_chapters(a, read),
        legible_chapters(b, read),
    ensures
        a == b,
        ha + xa == hb + xb,
{
    let open = field + "chapters = List(\n"@;
    lemma_together(ha, xa + open, chapters_text(field, a));
    lemma_together(hb, xb + open, chapters_text(field, b));
    lemma_together(ha, xa, open);
    lemma_together(hb, xb, open);
    lemma_ends_behind(ha, xa);
    lemma_ends_behind(hb, xb);
    lemma_chapters(ha + xa, a, hb + xb, b, field, read);
}

/// The last lines of two texts are those of a list of streams, and what comes
/// before them.
proof fn lemma_peel_streams(
    ha: Seq<char>,
    xa: Seq<char>,
    a: Seq<StreamView>,
    hb: Seq<char>,
    xb: Seq<char>,
    b: Seq<StreamView>,
    field: Seq<char>,
    read: spec_fn(Seq<char>) -> u64,
)
    requires
        ha + ((xa + (field + "streams = List(\n"@)) + streams_text(field, a)) == hb + ((xb + (field
            + "streams = List(\n"@)) + streams_text(field, b)),
        ends(xa),
        ends(xb),
        one_line(field),
        forall|i: int|
            0 <= i < a.len() ==> legible_optional(#[trigger] a[i].duration_seconds, read),
        forall|i: int|
            0 <= i < b.len() ==> legible_optional(#[trigger] b[i].duration_seconds, read),
    ensures
        a == b,
        ha + xa == hb + xb,
{
    let open = field + "streams = List(\n"@;
    lemma_together(ha, xa + open, streams_text(field, a));
    lemma_together(hb, xb + open, streams_text(field, b));
    lemma_together(ha, xa, open);
    lemma_together(hb, xb, open);
    lemma_ends_behind(ha, xa);
    lemma_ends_behind(hb, xb);
    lemma_streams(ha + xa, a, hb + xb, b, field, read);
}

/// Two texts that end with evidence end with the same.
#[verifier::spinoff_prover]
proof fn lemma_evidence(
    ha: Seq<char>,
    a: EvidenceView,
    hb: Seq<char>,
    b: EvidenceView,
    indent: nat,
    read: spec_fn(Seq<char>) -> u64,
)
    requires
        ha + evidence_text(a, indent) == hb + evidence_text(b, indent),
        legible_evidence(a, read),
        legible_evidence(b, read),
    ensures
        a == b,
        ha == hb,
{
    broadcast use group_ends;

    reveal(evidence_text);
    lemma_names();
    reveal_strlit("new {\n");
    reveal_strlit("  ");
    reveal_strlit("}\n");
    reveal_strlit("format = new {\n");
    reveal_strlit(")\n");
    let field = spaces(indent + 2);
    let inner = field + "  "@;
    let start = "new {\n"@;
    let format_line = field + "format = new {\n"@;
    let close_line = field + "}\n"@;
    let streams_line = field + "streams = List(\n"@;
    let chapters_line = field + "chapters = List(\n"@;
    let end_line = field + ")\n"@;
    let a1 = start + value_line(field, "path"@, string_literal(a.path));
    let a2 = a1 + value_line(field, "sha256"@, string_literal(a.sha256));
    let a3 = a2 + value_line(field, "size"@, decimal_text(a.size as nat));
    let a4 = a3 + value_line(field, "modifiedNs"@, signed_text(a.modified_ns as int));
    let a5 = a4 + format_line;
    let a6 = a5 + indented_optional_string_line(inner, "formatName"@, a.format.format_name);
    let a7 = a6 + indented_optional_float_line(
        inner,
        "durationSeconds"@,
        a.format.duration_seconds,
    );
    let a8 = a7 + close_line;
    let a9 = a8 + streams_line;
    let a10 = a9 + streams_text(field, a.streams);
    let a11 = a10 + end_line;
    let a12 = a11 + chapters_line;
    let a13 = a12 + chapters_text(field, a.chapters);
    let a14 = a13 + end_line;
    let a15 = a14 + value_line(field, "rawProbeJson"@, string_literal(a.raw_probe_json));
    let b1 = start + value_line(field, "path"@, string_literal(b.path));
    let b2 = b1 + value_line(field, "sha256"@, string_literal(b.sha256));
    let b3 = b2 + value_line(field, "size"@, decimal_text(b.size as nat));
    let b4 = b3 + value_line(field, "modifiedNs"@, signed_text(b.modified_ns as int));
    let b5 = b4 + format_line;
    let b6 = b5 + indented_optional_string_line(inner, "formatName"@, b.format.format_name);
    let b7 = b6 + indented_optional_float_line(
        inner,
        "durationSeconds"@,
        b.format.duration_seconds,
    );
    let b8 = b7 + close_line;
    let b9 = b8 + streams_line;
    let b10 = b9 + streams_text(field, b.streams);
    let b11 = b10 + end_line;
    let b12 = b11 + chapters_line;
    let b13 = b12 + chapters_text(field, b.chapters);
    let b14 = b13 + end_line;
    let b15 = b14 + value_line(field, "rawProbeJson"@, string_literal(b.raw_probe_json));
    assert(one_line(inner));
    lemma_ends_behind(field, ")\n"@);
    lemma_ends_behind(field, "}\n"@);
    lemma_ends_behind(field, "format = new {\n"@);
    lemma_ends_behind(a13, end_line);
    lemma_ends_behind(b13, end_line);
    lemma_ends_behind(a10, end_line);
    lemma_ends_behind(b10, end_line);
    lemma_ends_behind(a7, close_line);
    lemma_ends_behind(b7, close_line);
    lemma_ends_behind(a4, format_line);
    lemma_ends_behind(b4, format_line);
    lemma_peel_same(ha, a15, hb, b15, spaces(indent) + "}"@);
    lemma_peel_string(
        ha,
        a14,
        a.raw_probe_json,
        hb,
        b14,
        b.raw_probe_json,
        field,
        "rawProbeJson"@,
    );
    lemma_peel_same(ha, a13, hb, b13, end_line);
    lemma_peel_chapters(ha, a11, a.chapters, hb, b11, b.chapters, field, read);
    lemma_peel_same(ha, a10, hb, b10, end_line);
    lemma_peel_streams(ha, a8, a.streams, hb, b8, b.streams, field, read);
    lemma_peel_same(ha, a7, hb, b7, close_line);
    lemma_peel_optional_float(
        ha,
        a6,
        a.format.duration_seconds,
        hb,
        b6,
        b.format.duration_seconds,
        inner,
        "durationSeconds"@,
        read,
    );
    lemma_peel_optional_string(
        ha,
        a5,
        a.format.format_name,
        hb,
        b5,
        b.format.format_name,
        inner,
        "formatName"@,
    );
    lemma_peel_same(ha, a4, hb, b4, format_line);
    lemma_peel_signed(
        ha,
        a3,
        a.modified_ns as int,
        hb,
        b3,
        b.modified_ns as int,
        field,
        "modifiedNs"@,
    );
    lemma_peel_decimal(ha, a2, a.size as nat, hb, b2, b.size as nat, field, "size"@);
    lemma_peel_string(ha, a1, a.sha256, hb, b1, b.sha256, field, "sha256"@);
    lemma_peel_string(ha, start, a.path, hb, start, b.path, field, "path"@);
    lemma_same_end(ha, hb, start);
}

/// A line without indentation is one with none.
proof fn lemma_string_line(name: Seq<char>, value: Seq<char>)
    ensures
        string_line(name, value) == value_line(Seq::empty(), name, string_literal(value)),
        ends(string_line(name, value)),
{
    reveal_strlit("\n");
    assert(Seq::<char>::empty() + name =~= name);
}

/// The last line of two texts gives a name the same text.
proof fn lemma_peel_string_line(
    ha: Seq<char>,
    xa: Seq<char>,
    va: Seq<char>,
    hb: Seq<char>,
    xb: Seq<char>,
    vb: Seq<char>,
    name: Seq<char>,
)
    requires
        ha + (xa + string_line(name, va)) == hb + (xb + string_line(name, vb)),
        ends(xa),
        ends(xb),
        one_line(name),
    ensures
        va == vb,
        ha + xa == hb + xb,
{
    lemma_string_line(name, va);
    lemma_string_line(name, vb);
    lemma_peel_string(ha, xa, va, hb, xb, vb, Seq::empty(), name);
}

/// The last line of a document gives a name the same text as that of another.
proof fn lemma_peel_field(
    xa: Seq<char>,
    va: Seq<char>,
    xb: Seq<char>,
    vb: Seq<char>,
    name: Seq<char>,
)
    requires
        xa + string_line(name, va) == xb + string_line(name, vb),
        ends(xa),
        ends(xb),
        one_line(name),
    ensures
        va == vb,
        xa == xb,
{
    let none = Seq::<char>::empty();
    assert(none + (xa + string_line(name, va)) =~= xa + string_line(name, va));
    assert(none + (xb + string_line(name, vb)) =~= xb + string_line(name, vb));
    lemma_peel_string_line(none, xa, va, none, xb, vb, name);
    assert(none + xa =~= xa);
    assert(none + xb =~= xb);
}

/// The last line of a document gives a name the same text as that of another, or
/// none.
proof fn lemma_peel_optional_field(
    xa: Seq<char>,
    va: Option<Seq<char>>,
    xb: Seq<char>,
    vb: Option<Seq<char>>,
    name: Seq<char>,
)
    requires
        xa + optional_string_line(name, va) == xb + optional_string_line(name, vb),
        ends(xa),
        ends(xb),
        one_line(name),
    ensures
        va == vb,
        xa == xb,
{
    let none = Seq::<char>::empty();
    lemma_optional_field(name, va);
    lemma_optional_field(name, vb);
    assert(none + (xa + optional_string_line(name, va)) =~= xa + optional_string_line(name, va));
    assert(none + (xb + optional_string_line(name, vb)) =~= xb + optional_string_line(name, vb));
    lemma_peel_optional_string(none, xa, va, none, xb, vb, none, name);
    assert(none + xa =~= xa);
    assert(none + xb =~= xb);
}

proof fn lemma_optional_field(name: Seq<char>, value: Option<Seq<char>>)
    ensures
        optional_string_line(name, value) == indented_optional_string_line(
            Seq::empty(),
            name,
            value,
        ),
        ends(optional_string_line(name, value)),
{
    reveal_strlit("\n");
    reveal_strlit(" = null\n");
    assert(Seq::<char>::empty() + name =~= name);
    match value {
        Some(value) => lemma_string_line(name, value),
        None => {},
    }
}

/// Headers that are written alike say the same.
proof fn lemma_header(
    schema_a: int,
    kind_a: Seq<char>,
    producer_a: Seq<char>,
    schema_b: int,
    kind_b: Seq<char>,
    producer_b: Seq<char>,
)
    requires
        header_text(schema_a, kind_a, producer_a) == header_text(schema_b, kind_b, producer_b),
    ensures
        schema_a == schema_b,
        kind_a == kind_b,
        producer_a == producer_b,
{
    lemma_names();
    reveal_strlit("\n");
    let start = "// Trusted local Marchiver state. Do not evaluate untrusted Pkl.\n"@;
    let schema = "schemaVersion = "@;
    let a1 = start + (schema + signed_text(schema_a) + "\n"@);
    let b1 = start + (schema + signed_text(schema_b) + "\n"@);
    let a2 = a1 + string_line("kind"@, kind_a);
    let b2 = b1 + string_line("kind"@, kind_b);
    lemma_string_line("kind"@, kind_a);
    lemma_string_line("kind"@, kind_b);
    lemma_ends_behind(a1, string_line("kind"@, kind_a));
    lemma_ends_behind(b1, string_line("kind"@, kind_b));
    lemma_peel_field(a2, producer_a, b2, producer_b, "producerVersion"@);
    lemma_peel_field(a1, kind_a, b1, kind_b, "kind"@);
    lemma_same_start(
        start,
        schema + signed_text(schema_a) + "\n"@,
        schema + signed_text(schema_b) + "\n"@,
    );
    lemma_same_end(schema + signed_text(schema_a), schema + signed_text(schema_b), "\n"@);
    lemma_same_start(schema, signed_text(schema_a), signed_text(schema_b));
    lemma_signed_tells_apart(schema_a, schema_b);
}

proof fn lemma_header_ends(schema: int, kind: Seq<char>, producer: Seq<char>)
    ensures
        ends(header_text(schema, kind, producer)),
{
    reveal_strlit("\n");
}

/// The lines that the plan has in common with its manifest.
spec fn common_of(plan: PlanView) -> Seq<char> {
    common_text(
        plan.transaction_id,
        plan.profile,
        plan.source_disposition,
        plan.duration_tolerance_seconds,
        plan.av1,
        plan.source,
        plan.destination_path,
        plan.manifest_path,
    )
}

/// The line of a tolerance is a line.
proof fn lemma_tolerance_line(text: Seq<char>)
    requires
        one_line(text),
    ensures
        is_line("durationToleranceSeconds = "@ + text + "\n"@),
{
    reveal_strlit("durationToleranceSeconds = ");
    reveal_strlit("\n");
    let start = "durationToleranceSeconds = "@;
    let line = start + text + "\n"@;
    assert forall|i: int| 0 <= i < line.drop_last().len() implies #[trigger] line.drop_last()[i]
        != '\n' by {
        if i < start.len() {
            assert(line[i] == start[i]);
        } else {
            assert(line[i] == text[i - start.len()]);
        }
    }
}

/// Two texts that end with the lines of a plan end with the same ones.
#[verifier::spinoff_prover]
proof fn lemma_common(
    ha: Seq<char>,
    a: PlanView,
    hb: Seq<char>,
    b: PlanView,
    read: spec_fn(Seq<char>) -> u64,
)
    requires
        ha + common_of(a) == hb + common_of(b),
        ends(ha),
        ends(hb),
        legible_plan(a, read),
        legible_plan(b, read),
    ensures
        ha == hb,
        a.transaction_id == b.transaction_id,
        a.profile == b.profile,
        a.source_disposition == b.source_disposition,
        a.duration_tolerance_seconds == b.duration_tolerance_seconds,
        a.av1 == b.av1,
        a.source == b.source,
        a.destination_path == b.destination_path,
        a.manifest_path == b.manifest_path,
{
    broadcast use lemma_value_ends;

    lemma_names();
    reveal_strlit("\n");
    reveal_strlit("  ");
    reveal_strlit("}\n");
    reveal_strlit("av1 = new {\n");
    reveal_strlit("durationToleranceSeconds = ");
    let a1 = string_line("transactionId"@, a.transaction_id);
    let a2 = a1 + string_line("profile"@, a.profile.name());
    let a3 = a2 + string_line("sourceDisposition"@, a.source_disposition.name());
    let a4 = a3 + ("durationToleranceSeconds = "@ + a.duration_tolerance_seconds.text + "\n"@);
    let a5 = a4 + "av1 = new {\n"@;
    let a6 = a5 + value_line("  "@, "crf"@, decimal_text(a.av1.crf as nat));
    let a7 = a6 + value_line("  "@, "preset"@, decimal_text(a.av1.preset as nat));
    let a8 = a7 + value_line("  "@, "container"@, string_literal(a.av1.container));
    let a9 = a8 + "}\n"@;
    let a10 = a9 + "source = "@;
    let a11 = a10 + evidence_text(a.source, 0);
    let a12 = a11 + "\n"@;
    let a13 = a12 + string_line("destinationPath"@, a.destination_path);
    let b1 = string_line("transactionId"@, b.transaction_id);
    let b2 = b1 + string_line("profile"@, b.profile.name());
    let b3 = b2 + string_line("sourceDisposition"@, b.source_disposition.name());
    let b4 = b3 + ("durationToleranceSeconds = "@ + b.duration_tolerance_seconds.text + "\n"@);
    let b5 = b4 + "av1 = new {\n"@;
    let b6 = b5 + value_line("  "@, "crf"@, decimal_text(b.av1.crf as nat));
    let b7 = b6 + value_line("  "@, "preset"@, decimal_text(b.av1.preset as nat));
    let b8 = b7 + value_line("  "@, "container"@, string_literal(b.av1.container));
    let b9 = b8 + "}\n"@;
    let b10 = b9 + "source = "@;
    let b11 = b10 + evidence_text(b.source, 0);
    let b12 = b11 + "\n"@;
    let b13 = b12 + string_line("destinationPath"@, b.destination_path);
    lemma_string_line("transactionId"@, a.transaction_id);
    lemma_string_line("transactionId"@, b.transaction_id);
    lemma_string_line("profile"@, a.profile.name());
    lemma_string_line("profile"@, b.profile.name());
    lemma_string_line("destinationPath"@, a.destination_path);
    lemma_string_line("destinationPath"@, b.destination_path);
    lemma_peel_string_line(ha, a13, a.manifest_path, hb, b13, b.manifest_path, "manifestPath"@);
    lemma_peel_string_line(
        ha,
        a12,
        a.destination_path,
        hb,
        b12,
        b.destination_path,
        "destinationPath"@,
    );
    lemma_peel_same(ha, a11, hb, b11, "\n"@);
    lemma_together(ha, a10, evidence_text(a.source, 0));
    lemma_together(hb, b10, evidence_text(b.source, 0));
    lemma_evidence(ha + a10, a.source, hb + b10, b.source, 0, read);
    lemma_peel_same(ha, a9, hb, b9, "source = "@);
    lemma_peel_same(ha, a8, hb, b8, "}\n"@);
    lemma_peel_string(ha, a7, a.av1.container, hb, b7, b.av1.container, "  "@, "container"@);
    lemma_peel_decimal(ha, a6, a.av1.preset as nat, hb, b6, b.av1.preset as nat, "  "@, "preset"@);
    lemma_peel_decimal(ha, a5, a.av1.crf as nat, hb, b5, b.av1.crf as nat, "  "@, "crf"@);
    lemma_peel_same(ha, a4, hb, b4, "av1 = new {\n"@);
    let tolerance = "durationToleranceSeconds = "@;
    let ta = a.duration_tolerance_seconds.text;
    let tb = b.duration_tolerance_seconds.text;
    lemma_tolerance_line(ta);
    lemma_tolerance_line(tb);
    lemma_string_line("sourceDisposition"@, a.source_disposition.name());
    lemma_string_line("sourceDisposition"@, b.source_disposition.name());
    lemma_peel(ha, a3, tolerance + ta + "\n"@, hb, b3, tolerance + tb + "\n"@);
    lemma_same_end(tolerance + ta, tolerance + tb, "\n"@);
    lemma_same_start(tolerance, ta, tb);
    lemma_peel_string_line(
        ha,
        a2,
        a.source_disposition.name(),
        hb,
        b2,
        b.source_disposition.name(),
        "sourceDisposition"@,
    );
    law_dispositions_have_names_of_their_own(a.source_disposition, b.source_disposition);
    lemma_peel_string_line(ha, a1, a.profile.name(), hb, b1, b.profile.name(), "profile"@);
    law_profiles_have_names_of_their_own(a.profile, b.profile);
    lemma_peel_field(ha, a.transaction_id, hb, b.transaction_id, "transactionId"@);
}

/// A plan says all that it was made of: plans that are written alike are alike.
pub proof fn law_written_plans_tell_all(
    a: PlanView,
    b: PlanView,
    read: spec_fn(Seq<char>) -> u64,
)
    requires
        plan_text(a) == plan_text(b),
        legible_plan(a, read),
        legible_plan(b, read),
    ensures
        a == b,
{
    reveal(plan_text);
    let ha = header_text(a.schema_version as int, a.kind, a.producer_version);
    let hb = header_text(b.schema_version as int, b.kind, b.producer_version);
    lemma_header_ends(a.schema_version as int, a.kind, a.producer_version);
    lemma_header_ends(b.schema_version as int, b.kind, b.producer_version);
    lemma_common(ha, a, hb, b, read);
    lemma_header(
        a.schema_version as int,
        a.kind,
        a.producer_version,
        b.schema_version as int,
        b.kind,
        b.producer_version,
    );
}

/// An inspection says all that was found: inspections that are written alike are
/// alike.
pub proof fn law_written_inspections_tell_all(
    a: InspectionView,
    b: InspectionView,
    read: spec_fn(Seq<char>) -> u64,
)
    requires
        inspection_text(a) == inspection_text(b),
        legible_evidence(a.evidence, read),
        legible_evidence(b.evidence, read),
    ensures
        a == b,
{
    reveal(inspection_text);
    let ha = header_text(a.schema_version as int, a.kind, a.producer_version);
    let hb = header_text(b.schema_version as int, b.kind, b.producer_version);
    let name = "evidence = "@;
    lemma_same_end(
        ha + name + evidence_text(a.evidence, 0),
        hb + name + evidence_text(b.evidence, 0),
        "\n"@,
    );
    lemma_evidence(ha + name, a.evidence, hb + name, b.evidence, 0, read);
    lemma_same_end(ha, hb, name);
    lemma_header(
        a.schema_version as int,
        a.kind,
        a.producer_version,
        b.schema_version as int,
        b.kind,
        b.producer_version,
    );
}

/// What a manifest has in common with its plan.
spec fn planned(manifest: ManifestView) -> PlanView {
    PlanView {
        schema_version: manifest.schema_version,
        kind: manifest.kind,
        producer_version: manifest.producer_version,
        transaction_id: manifest.transaction_id,
        profile: manifest.profile,
        source_disposition: manifest.source_disposition,
        duration_tolerance_seconds: manifest.duration_tolerance_seconds,
        av1: manifest.av1,
        source: manifest.source,
        destination_path: manifest.destination_path,
        manifest_path: manifest.manifest_path,
    }
}

/// A manifest says all that it was made of: manifests that are written alike are
/// alike.
pub proof fn law_written_manifests_tell_all(
    a: ManifestView,
    b: ManifestView,
    read: spec_fn(Seq<char>) -> u64,
)
    requires
        manifest_text(a) == manifest_text(b),
        legible_manifest(a, read),
        legible_manifest(b, read),
    ensures
        a == b,
{
    reveal(manifest_text);
    reveal_strlit("\n");
    lemma_names();
    let ha = header_text(a.schema_version as int, a.kind, a.producer_version);
    let hb = header_text(b.schema_version as int, b.kind, b.producer_version);
    let name = "outputEvidence = "@;
    let a1 = ha + common_of(planned(a));
    let b1 = hb + common_of(planned(b));
    let a2 = a1 + name + evidence_text(a.output, 0);
    let b2 = b1 + name + evidence_text(b.output, 0);
    lemma_peel_optional_field(
        a2 + "\n"@,
        a.quarantine_path,
        b2 + "\n"@,
        b.quarantine_path,
        "quarantinePath"@,
    );
    lemma_same_end(a2, b2, "\n"@);
    lemma_evidence(a1 + name, a.output, b1 + name, b.output, 0, read);
    lemma_same_end(a1, b1, name);
    lemma_header_ends(a.schema_version as int, a.kind, a.producer_version);
    lemma_header_ends(b.schema_version as int, b.kind, b.producer_version);
    lemma_common(ha, planned(a), hb, planned(b), read);
    lemma_header(
        a.schema_version as int,
        a.kind,
        a.producer_version,
        b.schema_version as int,
        b.kind,
        b.producer_version,
    );
}

/// What comes before the last line of written evidence.
proof fn lemma_evidence_closes(evidence: EvidenceView) -> (before: Seq<char>)
    ensures
        evidence_text(evidence, 0) == before + "}"@,
        ends(before),
{
    reveal(evidence_text);
    reveal_strlit("\n");
    assert(spaces(0) + "}"@ =~= "}"@);
    let text = evidence_text(evidence, 0);
    let before = text.subrange(0, text.len() - "}"@.len());
    assert(text =~= before + "}"@);
    let last = value_line(spaces(2), "rawProbeJson"@, string_literal(evidence.raw_probe_json));
    assert(before[before.len() - 1] == last[last.len() - 1]);
    before
}

proof fn lemma_output_ends(x: Seq<char>, output: Option<EvidenceView>)
    ensures
        ends(x + journal_output_text(output)),
{
    reveal_strlit("\n");
    reveal_strlit("outputEvidence = null\n");
}

/// The line that says that there is no output is not the last line of one.
proof fn lemma_no_output_ends_here(x: Seq<char>, y: Seq<char>, output: Option<EvidenceView>)
    requires
        x + journal_output_text(None) == y + journal_output_text(output),
        ends(x),
    ensures
        output is None,
{
    reveal_strlit("\n");
    reveal_strlit("}");
    reveal_strlit("outputEvidence = null\n");
    match output {
        Some(evidence) => {
            let before = lemma_evidence_closes(evidence);
            let start = y + ("outputEvidence = "@ + before);
            assert(y + journal_output_text(output) =~= start + ("}"@ + "\n"@));
            lemma_last_line(x, journal_output_text(None), start, "}"@ + "\n"@);
            assert(journal_output_text(None)[0] == 'o');
            assert(("}"@ + "\n"@)[0] == '}');
        },
        None => {},
    }
}

/// Two texts that end with the output of a journal end with the same one.
proof fn lemma_outputs(
    xa: Seq<char>,
    a: Option<EvidenceView>,
    xb: Seq<char>,
    b: Option<EvidenceView>,
    read: spec_fn(Seq<char>) -> u64,
)
    requires
        xa + journal_output_text(a) == xb + journal_output_text(b),
        ends(xa),
        ends(xb),
        a matches Some(output) ==> legible_evidence(output, read),
        b matches Some(output) ==> legible_evidence(output, read),
    ensures
        a == b,
        xa == xb,
{
    match (a, b) {
        (Some(x), Some(y)) => {
            let name = "outputEvidence = "@;
            lemma_peel_same(
                xa,
                name + evidence_text(x, 0),
                xb,
                name + evidence_text(y, 0),
                "\n"@,
            );
            lemma_together(xa, name, evidence_text(x, 0));
            lemma_together(xb, name, evidence_text(y, 0));
            lemma_evidence(xa + name, x, xb + name, y, 0, read);
            lemma_same_end(xa, xb, name);
        },
        (None, _) => {
            lemma_no_output_ends_here(xa, xb, b);
            lemma_same_end(xa, xb, journal_output_text(None));
        },
        (_, None) => {
            lemma_no_output_ends_here(xb, xa, a);
            lemma_same_end(xa, xb, journal_output_text(None));
        },
    }
}

/// A journal says all that a transaction goes on from: journals that are written
/// alike are alike.
pub proof fn law_written_journals_tell_all(
    a: JournalView,
    b: JournalView,
    read: spec_fn(Seq<char>) -> u64,
)
    requires
        journal_text(a) == journal_text(b),
        legible_journal(a, read),
        legible_journal(b, read),
    ensures
        a == b,
{
    reveal(journal_text);
    lemma_names();
    let a0 = header_text(a.schema_version as int, a.kind, a.producer_version);
    let a1 = a0 + string_line("transactionId"@, a.transaction_id);
    let a2 = a1 + string_line("sourcePath"@, a.source_path);
    let a3 = a2 + string_line("destinationPath"@, a.destination_path);
    let a4 = a3 + string_line("manifestPath"@, a.manifest_path);
    let a5 = a4 + string_line("stagingPath"@, a.staging_path);
    let a6 = a5 + string_line("phase"@, a.phase.name());
    let a7 = a6 + journal_output_text(a.output);
    let a8 = a7 + optional_string_line("quarantinePath"@, a.quarantine_path);
    lemma_header_ends(a.schema_version as int, a.kind, a.producer_version);
    lemma_string_line("transactionId"@, a.transaction_id);
    lemma_string_line("sourcePath"@, a.source_path);
    lemma_string_line("destinationPath"@, a.destination_path);
    lemma_string_line("manifestPath"@, a.manifest_path);
    lemma_string_line("stagingPath"@, a.staging_path);
    lemma_string_line("phase"@, a.phase.name());
    lemma_optional_field("quarantinePath"@, a.quarantine_path);
    lemma_output_ends(a6, a.output);
    lemma_ends_behind(a0, string_line("transactionId"@, a.transaction_id));
    lemma_ends_behind(a1, string_line("sourcePath"@, a.source_path));
    lemma_ends_behind(a2, string_line("destinationPath"@, a.destination_path));
    lemma_ends_behind(a3, string_line("manifestPath"@, a.manifest_path));
    lemma_ends_behind(a4, string_line("stagingPath"@, a.staging_path));
    lemma_ends_behind(a5, string_line("phase"@, a.phase.name()));
    lemma_ends_behind(a7, optional_string_line("quarantinePath"@, a.quarantine_path));
    let b0 = header_text(b.schema_version as int, b.kind, b.producer_version);
    let b1 = b0 + string_line("transactionId"@, b.transaction_id);
    let b2 = b1 + string_line("sourcePath"@, b.source_path);
    let b3 = b2 + string_line("destinationPath"@, b.destination_path);
    let b4 = b3 + string_line("manifestPath"@, b.manifest_path);
    let b5 = b4 + string_line("stagingPath"@, b.staging_path);
    let b6 = b5 + string_line("phase"@, b.phase.name());
    let b7 = b6 + journal_output_text(b.output);
    let b8 = b7 + optional_string_line("quarantinePath"@, b.quarantine_path);
    lemma_header_ends(b.schema_version as int, b.kind, b.producer_version);
    lemma_string_line("transactionId"@, b.transaction_id);
    lemma_string_line("sourcePath"@, b.source_path);
    lemma_string_line("destinationPath"@, b.destination_path);
    lemma_string_line("manifestPath"@, b.manifest_path);
    lemma_string_line("stagingPath"@, b.staging_path);
    lemma_string_line("phase"@, b.phase.name());
    lemma_optional_field("quarantinePath"@, b.quarantine_path);
    lemma_output_ends(b6, b.output);
    lemma_ends_behind(b0, string_line("transactionId"@, b.transaction_id));
    lemma_ends_behind(b1, string_line("sourcePath"@, b.source_path));
    lemma_ends_behind(b2, string_line("destinationPath"@, b.destination_path));
    lemma_ends_behind(b3, string_line("manifestPath"@, b.manifest_path));
    lemma_ends_behind(b4, string_line("stagingPath"@, b.staging_path));
    lemma_ends_behind(b5, string_line("phase"@, b.phase.name()));
    lemma_ends_behind(b7, optional_string_line("quarantinePath"@, b.quarantine_path));
    lemma_peel_optional_field(a8, a.diagnostic, b8, b.diagnostic, "diagnostic"@);
    lemma_peel_optional_field(a7, a.quarantine_path, b7, b.quarantine_path, "quarantinePath"@);
    lemma_outputs(a6, a.output, b6, b.output, read);
    lemma_peel_field(a5, a.phase.name(), b5, b.phase.name(), "phase"@);
    law_phases_have_names_of_their_own(a.phase, b.phase);
    lemma_peel_field(a4, a.staging_path, b4, b.staging_path, "stagingPath"@);
    lemma_peel_field(a3, a.manifest_path, b3, b.manifest_path, "manifestPath"@);
    lemma_peel_field(a2, a.destination_path, b2, b.destination_path, "destinationPath"@);
    lemma_peel_field(a1, a.source_path, b1, b.source_path, "sourcePath"@);
    lemma_peel_field(a0, a.transaction_id, b0, b.transaction_id, "transactionId"@);
    lemma_header(
        a.schema_version as int,
        a.kind,
        a.producer_version,
        b.schema_version as int,
        b.kind,
        b.producer_version,
    );
}

} // verus!
