use marchiver::pkl::{object_field, require_document, require_schema, Document, Field, FieldValue};
use marchiver::render::{document_header, render_string};
use pklx::pklr::{EvalOptions, Value};

fn evaluate(source: &str) -> Value {
    tokio::runtime::Builder::new_current_thread()
        .build()
        .unwrap()
        .block_on(pklx::eval_source_to_value(
            source,
            EvalOptions::default(),
        ))
        .unwrap()
}

fn field(name: &str, value: FieldValue) -> Field {
    Field {
        name: name.to_owned(),
        value,
    }
}

fn text(value: &str) -> FieldValue {
    FieldValue::Text(value.to_owned())
}

#[test]
fn string_literals_escape_what_they_must() {
    let mut out = String::new();
    render_string(&mut out, "name", "a \"quoted\" \\ back\nline\rreturn\ttab\u{1}\u{7f}\u{9f}\u{e9}");
    assert_eq!(
        out,
        "name = \"a \\\"quoted\\\" \\\\ back\\nline\\rreturn\\ttab\\u0001\\u007f\\u009f\u{e9}\"\n"
    );
}

#[test]
fn string_literals_evaluate_to_their_text() {
    for value in [
        "",
        "plain",
        "with \"quotes\" and \\(interpolation)",
        "line\nand\ttab\r",
        "\u{e9}\u{4e16}\u{1f600}",
        "{\n  \"json\": [1, 2]\n}",
    ] {
        let mut out = String::new();
        render_string(&mut out, "name", value);
        match evaluate(&out) {
            Value::Object(fields, _) => match fields.get("name") {
                Some(Value::String(found)) => assert_eq!(found.to_string(), value),
                other => panic!("{other:?}"),
            },
            other => panic!("{other:?}"),
        }
    }
}

#[test]
fn headers_name_schema_kind_and_producer() {
    assert_eq!(
        document_header(1, "ArchivePlan", "0.1.0"),
        "// Trusted local Marchiver state. Do not evaluate untrusted Pkl.\nschemaVersion = 1\nkind = \"ArchivePlan\"\nproducerVersion = \"0.1.0\"\n"
    );
}

#[test]
fn documents_are_checked_before_they_are_read() {
    let refused = |document: &Document| require_document(document, "ArchivePlan").unwrap_err();
    assert_eq!(
        refused(&Document::Other),
        "Pkl document must evaluate to an object"
    );
    assert_eq!(
        refused(&Document::Object(vec![])),
        "Pkl document is missing schemaVersion"
    );
    assert_eq!(
        refused(&Document::Object(vec![field("schemaVersion", text("1"))])),
        "ArchivePlan schemaVersion must be an integer"
    );
    assert_eq!(
        refused(&Document::Object(vec![field("schemaVersion", FieldValue::Int(-7))])),
        "unsupported ArchivePlan schemaVersion -7; expected 1"
    );
    assert_eq!(
        refused(&Document::Object(vec![field("schemaVersion", FieldValue::Int(1))])),
        "Pkl document is missing kind"
    );
    for kind in [text("ArchiveManifest"), FieldValue::Int(1), FieldValue::Other] {
        assert_eq!(
            refused(&Document::Object(vec![
                field("schemaVersion", FieldValue::Int(1)),
                field("kind", kind),
            ])),
            "expected ArchivePlan Pkl document"
        );
    }
    let sound = Document::Object(vec![
        field("other", FieldValue::Other),
        field("kind", text("ArchivePlan")),
        field("schemaVersion", FieldValue::Int(1)),
    ]);
    assert_eq!(require_document(&sound, "ArchivePlan"), Ok(()));
    assert_eq!(require_schema(&sound, "Config"), Ok(()));
    assert!(matches!(
        object_field(&sound, "kind"),
        Ok(FieldValue::Text(kind)) if kind == "ArchivePlan"
    ));
    assert!(object_field(&sound, "absent").is_err());
}
