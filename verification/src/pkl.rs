//! Pkl: string literals, and the checks that a document passes before it is
//! read as one of the archiver's own.
use vstd::prelude::*;
use vstd::string::*;

use crate::flow::agrees;
use crate::model::SCHEMA_VERSION;
use crate::text::{
    cat2, cat3, cat5, digit, lemma_digit_is_injective, same_text, signed_decimal, signed_text,
};

verus! {

/// Whether a character is a control character.
pub open spec fn control(c: char) -> bool {
    (c as u32) <= 0x1f || (0x7f <= (c as u32) && (c as u32) <= 0x9f)
}

/// How a character is written inside a string literal.
pub open spec fn escaped(c: char) -> Seq<char> {
    if c == '"' {
        seq!['\\', '"']
    } else if c == '\\' {
        seq!['\\', '\\']
    } else if c == '\n' {
        seq!['\\', 'n']
    } else if c == '\r' {
        seq!['\\', 'r']
    } else if c == '\t' {
        seq!['\\', 't']
    } else if control(c) {
        seq!['\\', 'u', '0', '0', digit(c as int / 16), digit(c as int % 16)]
    } else {
        seq![c]
    }
}

/// The inside of the string literal for a text.
pub open spec fn escaped_text(text: Seq<char>) -> Seq<char>
    decreases text.len(),
{
    if text.len() == 0 {
        Seq::empty()
    } else {
        escaped_text(text.drop_last()) + escaped(text.last())
    }
}

/// The string literal for a text.
pub open spec fn string_literal(text: Seq<char>) -> Seq<char> {
    seq!['"'] + escaped_text(text) + seq!['"']
}

/// `pklx::pkl_string_literal`: the text between double quotes, with quotes,
/// backslashes, line ends, tabs and other control characters escaped.
#[verifier::external_body]
pub(crate) fn pkl_string_literal(value: &str) -> (literal: String)
    ensures
        literal@ == string_literal(value@),
{
    pklx::pkl_string_literal(value)
}

/// The value of one field of an evaluated document, as far as it is looked at
/// before the document is read.
pub enum FieldValue {
    Int(i64),
    Text(String),
    Other,
}

/// One field of an evaluated document.
pub struct Field {
    pub name: String,
    pub value: FieldValue,
}

/// An evaluated document.
pub enum Document {
    Object(Vec<Field>),
    Other,
}

/// The value of the first field of the given name, from a position on.
pub open spec fn field_from(fields: Seq<Field>, name: Seq<char>, from: int) -> Option<FieldValue>
    decreases fields.len() - from,
{
    if from < 0 || from >= fields.len() {
        None
    } else if fields[from].name@ == name {
        Some(fields[from].value)
    } else {
        field_from(fields, name, from + 1)
    }
}

/// The field of a document, or why it cannot be had.
pub open spec fn field_of(document: Document, name: Seq<char>) -> Result<FieldValue, Seq<char>> {
    match document {
        Document::Object(fields) => match field_from(fields@, name, 0) {
            Some(value) => Ok(value),
            None => Err("Pkl document is missing "@ + name),
        },
        Document::Other => Err("Pkl document must evaluate to an object"@),
    }
}

/// Looks a field up in a document.
pub fn object_field<'a>(document: &'a Document, field: &str) -> (result: Result<
    &'a FieldValue,
    String,
>)
    ensures
        match (result, field_of(*document, field@)) {
            (Ok(value), Ok(wanted)) => *value == wanted,
            (Err(message), Err(wanted)) => message@ == wanted,
            _ => false,
        },
{
    match document {
        Document::Object(fields) => {
            let mut i: usize = 0;
            while i < fields.len()
                invariant
                    *document == Document::Object(*fields),
                    i <= fields.len(),
                    field_from(fields@, field@, i as int) == field_from(fields@, field@, 0),
                decreases fields.len() - i,
            {
                if same_text(&fields[i].name, field) {
                    return Ok(&fields[i].value);
                }
                i = i + 1;
            }
            Err(cat2("Pkl document is missing ", field))
        },
        Document::Other => Err("Pkl document must evaluate to an object".to_owned()),
    }
}

/// What the schema check of a document says.
pub open spec fn schema_check(document: Document, name: Seq<char>) -> Result<(), Seq<char>> {
    match field_of(document, "schemaVersion"@) {
        Err(message) => Err(message),
        Ok(FieldValue::Int(version)) => if version == SCHEMA_VERSION {
            Ok(())
        } else {
            Err(
                "unsupported "@ + name + " schemaVersion "@ + signed_text(version as int)
                    + "; expected 1"@,
            )
        },
        Ok(_) => Err(name + " schemaVersion must be an integer"@),
    }
}

/// Accepts a document of the known schema version.
pub fn require_schema(document: &Document, name: &str) -> (result: Result<(), String>)
    ensures
        agrees(result, schema_check(*document, name@)),
{
    match object_field(document, "schemaVersion") {
        Err(message) => Err(message),
        Ok(FieldValue::Int(version)) => if *version == SCHEMA_VERSION {
            Ok(())
        } else {
            Err(
                cat5(
                    "unsupported ",
                    name,
                    " schemaVersion ",
                    &signed_decimal(*version),
                    "; expected 1",
                ),
            )
        },
        Ok(_) => Err(cat2(name, " schemaVersion must be an integer")),
    }
}

/// What the schema and kind checks of a document say.
pub open spec fn document_check(document: Document, kind: Seq<char>) -> Result<(), Seq<char>> {
    match schema_check(document, kind) {
        Err(message) => Err(message),
        Ok(()) => match field_of(document, "kind"@) {
            Err(message) => Err(message),
            Ok(FieldValue::Text(text)) => if text@ == kind {
                Ok(())
            } else {
                Err("expected "@ + kind + " Pkl document"@)
            },
            Ok(_) => Err("expected "@ + kind + " Pkl document"@),
        },
    }
}

/// Accepts a document of the known schema version and of the expected kind.
pub fn require_document(document: &Document, expected_kind: &str) -> (result: Result<(), String>)
    ensures
        agrees(result, document_check(*document, expected_kind@)),
{
    match require_schema(document, expected_kind) {
        Err(message) => Err(message),
        Ok(()) => match object_field(document, "kind") {
            Err(message) => Err(message),
            Ok(FieldValue::Text(text)) => if same_text(text, expected_kind) {
                Ok(())
            } else {
                Err(cat3("expected ", expected_kind, " Pkl document"))
            },
            Ok(_) => Err(cat3("expected ", expected_kind, " Pkl document")),
        },
    }
}

/// A text's writing starts with that of its first character.
proof fn lemma_escaped_from_the_front(text: Seq<char>)
    requires
        text.len() > 0,
    ensures
        escaped_text(text) == escaped(text[0]) + escaped_text(text.skip(1)),
    decreases text.len(),
{
    if text.len() == 1 {
        assert(text.skip(1) =~= text.drop_last());
        assert(escaped_text(text.drop_last()) =~= Seq::empty());
        assert(escaped_text(text) =~= escaped(text[0]));
        assert(escaped(text[0]) + escaped_text(text.skip(1)) =~= escaped(text[0]));
    } else {
        lemma_escaped_from_the_front(text.drop_last());
        assert(text.drop_last().skip(1) =~= text.skip(1).drop_last());
        assert(escaped_text(text) =~= escaped(text[0]) + (escaped_text(text.skip(1).drop_last())
            + escaped(text.last())));
    }
}

/// Two writings with something behind them start with the same character.
proof fn lemma_escaped_splits(a: char, b: char, more_a: Seq<char>, more_b: Seq<char>)
    requires
        escaped(a) + more_a == escaped(b) + more_b,
    ensures
        a == b,
        more_a == more_b,
{
    let whole = escaped(a) + more_a;
    let again = escaped(b) + more_b;
    assert(whole[0] == escaped(a)[0]);
    assert(again[0] == escaped(b)[0]);
    if escaped(a).len() > 1 && escaped(b).len() > 1 {
        assert(whole[1] == escaped(a)[1]);
        assert(again[1] == escaped(b)[1]);
        if escaped(a).len() == 6 && escaped(b).len() == 6 {
            assert(whole[4] == digit(a as int / 16));
            assert(again[4] == digit(b as int / 16));
            assert(whole[5] == digit(a as int % 16));
            assert(again[5] == digit(b as int % 16));
            lemma_digit_is_injective(a as int / 16, b as int / 16);
            lemma_digit_is_injective(a as int % 16, b as int % 16);
        }
    }
    assert(a == b);
    let n = escaped(a).len() as int;
    assert(whole.skip(n) =~= more_a);
    assert(again.skip(n) =~= more_b);
}

proof fn lemma_escaped_tells_apart(a: Seq<char>, b: Seq<char>)
    requires
        escaped_text(a) == escaped_text(b),
    ensures
        a == b,
    decreases a.len(),
{
    if a.len() > 0 {
        lemma_escaped_from_the_front(a);
    }
    if b.len() > 0 {
        lemma_escaped_from_the_front(b);
    }
    if a.len() == 0 || b.len() == 0 {
        assert(a.len() == 0 && b.len() == 0) by {
            assert(escaped_text(Seq::<char>::empty()).len() == 0);
            assert(a.len() == 0 ==> a =~= Seq::empty());
            assert(b.len() == 0 ==> b =~= Seq::empty());
        }
        assert(a =~= b);
    } else {
        lemma_escaped_splits(a[0], b[0], escaped_text(a.skip(1)), escaped_text(b.skip(1)));
        lemma_escaped_tells_apart(a.skip(1), b.skip(1));
        assert(a =~= seq![a[0]] + a.skip(1));
        assert(b =~= seq![b[0]] + b.skip(1));
    }
}

/// Different texts are written as different string literals.
pub proof fn law_string_literals_tell_texts_apart(a: Seq<char>, b: Seq<char>)
    requires
        string_literal(a) == string_literal(b),
    ensures
        a == b,
{
    let n = string_literal(a).len();
    assert(string_literal(a).subrange(1, n - 1) =~= escaped_text(a));
    assert(string_literal(b).subrange(1, n - 1) =~= escaped_text(b));
    lemma_escaped_tells_apart(a, b);
}

} // verus!
