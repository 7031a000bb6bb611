//! The rules of documents, rule by rule: what is accepted, and what is said of the
//! first rule that is broken.
use vstd::bytes::spec_u64_to_le_bytes;
use vstd::prelude::*;
use vstd::string::*;
use vstd::utf8::encode_utf8;

use crate::digest::{hex_text, sha256};
use crate::flow::{Evaluated, Outcome, Reply, RequestView};
use crate::load::{
    config_in, journal_in, load_config_step, load_journal_step, load_manifest_step,
    load_plan_step, manifest_in, plan_in, validate_manifest_step,
};
use crate::model::{
    ArchiveManifest, ArchivePlan, Av1View, Config, ConfigView, EvidenceView, Journal, JournalView,
    ManifestView, Phase, PlanView, Profile, SourceDisposition,
};
use crate::os_text::{raw, shown};
use crate::path::{
    extension, file_name, joined, law_sibling_shares_directory, law_split_then_join, parent,
    same_path,
};
use crate::pkl::{document_check, field_from, schema_check, Document, Field, FieldValue};
use crate::plan::{
    config_check, fresh_journal, identity_bytes, journal_check, manifest_check, manifest_of,
    plan_check, plan_of, planned, quarantine_text, transaction_text,
};
use crate::seconds::non_negative;
use crate::text::signed_text;

verus! {

/// Whether encoder settings are ones that the encoder takes.
pub open spec fn settings_taken(av1: Av1View) -> bool {
    av1.container == "mkv"@ && av1.crf <= 63 && av1.preset <= 13
}

/// Whether a text is 64 hexadecimal digits.
pub open spec fn digest_written(text: Seq<char>) -> bool {
    &&& text.len() == 64
    &&& forall|i: int|
        0 <= i < text.len() ==> {
            let c = #[trigger] text[i];
            ('0' <= c && c <= '9') || ('a' <= c && c <= 'f') || ('A' <= c && c <= 'F')
        }
}

/// A configuration is accepted exactly where its schema version is known, its
/// container is Matroska, its encoder settings are in range and its tolerance is a
/// finite number that is not below zero. The first of these that fails is named.
pub proof fn law_configurations_follow_the_rules(config: ConfigView)
    ensures
        ({
            let result = config_check(config);
            let ranged = config.av1.crf <= 63 && config.av1.preset <= 13;
            let contained = config.av1.container == "mkv"@;
            let timed = non_negative(config.duration_tolerance_seconds.bits);
            &&& result is Ok <==> config.schema_version == 1 && contained && ranged && timed
            &&& config.schema_version != 1 ==> result == Err::<(), Seq<char>>(
                "config schemaVersion changed after raw validation"@,
            )
            &&& config.schema_version == 1 && !contained ==> result == Err::<(), Seq<char>>(
                "AV1 container must be mkv"@,
            )
            &&& config.schema_version == 1 && contained && !ranged ==> result == Err::<
                (),
                Seq<char>,
            >("AV1 crf must be 0..=63 and preset must be 0..=13"@)
            &&& config.schema_version == 1 && contained && ranged && !timed ==> result == Err::<
                (),
                Seq<char>,
            >("durationToleranceSeconds must be finite and non-negative"@)
        }),
{
}

/// Whether a plan names itself: its schema, its kind and its producer.
pub open spec fn plan_named(plan: PlanView) -> bool {
    plan.schema_version == 1 && plan.kind == "ArchivePlan"@ && plan.producer_version.len() > 0
}

/// Whether a plan's identifier is the one its contents give it.
pub open spec fn plan_identified(plan: PlanView) -> bool {
    transaction_text(plan) == Some(plan.transaction_id)
}

/// Whether a plan's source and destination are two absolute paths.
pub open spec fn plan_placed(plan: PlanView) -> bool {
    &&& plan.source.path.len() > 0 && plan.source.path[0] == '/'
    &&& plan.destination_path.len() > 0 && plan.destination_path[0] == '/'
    &&& !same_path(plan.source.path, plan.destination_path)
}

/// Whether two paths have one parent, or neither has one.
pub open spec fn one_parent(a: Seq<char>, b: Seq<char>) -> bool {
    &&& parent(a) is Some <==> parent(b) is Some
    &&& parent(a) is Some ==> same_path(parent(a)->0, parent(b)->0)
}

/// Whether an encoding goes to a Matroska file, by its name.
pub open spec fn plan_suited(profile: Profile, destination: Seq<char>) -> bool {
    profile == Profile::Av1 ==> extension(destination) == Some("mkv"@)
}

/// A plan is accepted exactly where it names itself, its settings are in range, its
/// identifier is its own, its two paths are absolute and differ, its manifest lies
/// beside its destination, an encoding goes to a Matroska file and its source has a
/// digest. The first of these that fails is named.
pub proof fn law_plans_follow_the_rules(plan: PlanView)
    ensures
        ({
            let result = plan_check(plan);
            let timed = non_negative(plan.duration_tolerance_seconds.bits);
            let beside = one_parent(plan.manifest_path, plan.destination_path);
            let suited = plan_suited(plan.profile, plan.destination_path);
            let a = plan_named(plan);
            let b = a && settings_taken(plan.av1);
            let c = b && timed;
            let d = c && plan_identified(plan);
            let e = d && plan_placed(plan);
            let f = e && beside;
            let g = f && suited;
            &&& result is Ok <==> g && digest_written(plan.source.sha256)
            &&& !a ==> result == Err::<(), Seq<char>>("invalid archive plan identity"@)
            &&& a && !b ==> result == Err::<(), Seq<char>>("invalid AV1 settings"@)
            &&& b && !c ==> result == Err::<(), Seq<char>>(
                "duration tolerance must be finite and non-negative"@,
            )
            &&& c && !d ==> result == Err::<(), Seq<char>>(
                "archive plan transactionId does not match its contents"@,
            )
            &&& d && !e ==> result == Err::<(), Seq<char>>(
                "plan paths must be distinct absolute paths"@,
            )
            &&& e && !f ==> result == Err::<(), Seq<char>>(
                "manifest must be adjacent to destination"@,
            )
            &&& f && !g ==> result == Err::<(), Seq<char>>(
                "AV1 destination must use the .mkv extension"@,
            )
            &&& g && !digest_written(plan.source.sha256) ==> result == Err::<(), Seq<char>>(
                "SHA-256 value must contain 64 hexadecimal characters"@,
            )
        }),
{
}

/// The plan that a manifest tells of.
pub open spec fn told_plan(manifest: ManifestView, plan: PlanView) -> bool {
    &&& plan.schema_version == 1
    &&& plan.kind == "ArchivePlan"@
    &&& plan.producer_version == manifest.producer_version
    &&& plan.transaction_id == manifest.transaction_id
    &&& plan.profile == manifest.profile
    &&& plan.source_disposition == manifest.source_disposition
    &&& plan.duration_tolerance_seconds == manifest.duration_tolerance_seconds
    &&& plan.av1 == manifest.av1
    &&& plan.source == manifest.source
    &&& plan.destination_path == manifest.destination_path
    &&& plan.manifest_path == manifest.manifest_path
}

/// A manifest is accepted exactly where it names itself, its output has a digest and
/// is the one at its destination, the plan it tells of is accepted, and its
/// quarantine is the one that plan has.
pub proof fn law_manifests_follow_the_rules(manifest: ManifestView, plan: PlanView)
    requires
        told_plan(manifest, plan),
    ensures
        manifest_check(manifest) is Ok <==> {
            &&& manifest.schema_version == 1
            &&& manifest.kind == "ArchiveManifest"@
            &&& digest_written(manifest.output.sha256)
            &&& manifest.output.path == manifest.destination_path
            &&& plan_check(plan) is Ok
            &&& quarantine_text(plan) == Ok::<Option<Seq<char>>, Seq<char>>(
                manifest.quarantine_path,
            )
        },
        manifest.schema_version != 1 || manifest.kind != "ArchiveManifest"@ ==> manifest_check(
            manifest,
        ) == Err::<(), Seq<char>>("invalid archive manifest identity"@),
        manifest.schema_version == 1 && manifest.kind == "ArchiveManifest"@ && plan_check(
            plan,
        ) is Ok && digest_written(manifest.output.sha256) && manifest.output.path
            != manifest.destination_path ==> manifest_check(manifest) == Err::<(), Seq<char>>(
            "manifest output path does not match destinationPath"@,
        ),
        manifest.schema_version == 1 && manifest.kind == "ArchiveManifest"@ && plan_check(
            plan,
        ) is Ok && digest_written(manifest.output.sha256) && manifest.output.path
            == manifest.destination_path && quarantine_text(plan) is Ok && quarantine_text(
            plan,
        )->Ok_0 != manifest.quarantine_path ==> manifest_check(manifest) == Err::<(), Seq<char>>(
            "manifest quarantinePath does not match its transaction"@,
        ),
{
    assert(plan == plan_of(manifest));
}

/// A journal is accepted for a transaction exactly where it names itself and the
/// transaction's own identifier and paths, has evidence of the output from the
/// staging on, and has the quarantine's path from its link on, where there is to be
/// one. The first of these that fails is named.
pub proof fn law_journals_follow_the_rules(
    journal: JournalView,
    plan: PlanView,
    staging: Seq<char>,
)
    ensures
        ({
            let result = journal_check(journal, plan, staging);
            let a = {
                &&& journal.schema_version == 1
                &&& journal.kind == "ArchiveJournal"@
                &&& journal.producer_version.len() > 0
                &&& journal.transaction_id == plan.transaction_id
                &&& journal.source_path == plan.source.path
                &&& journal.destination_path == plan.destination_path
                &&& journal.manifest_path == plan.manifest_path
                &&& journal.staging_path == staging
            };
            let evidenced = journal.phase == Phase::Prepared || journal.output is Some;
            let linked = journal.phase == Phase::QuarantineLinked || journal.phase
                == Phase::Complete;
            let placed = linked && plan.source_disposition == SourceDisposition::Quarantine
                ==> journal.quarantine_path is Some;
            &&& result is Ok <==> a && evidenced && placed
            &&& !a ==> result == Err::<(), Seq<char>>("journal does not match archive plan"@)
            &&& a && !evidenced ==> result == Err::<(), Seq<char>>(
                "journal phase requires output evidence"@,
            )
            &&& a && evidenced && !placed ==> result == Err::<(), Seq<char>>(
                "journal phase requires quarantinePath"@,
            )
        }),
{
}

/// What a transaction's identifier is made of: the digest of the source, the two
/// paths, the profile, the disposition and the container, each as a text with a zero
/// behind it, the two encoder settings as bytes, and the tolerance's bits with the
/// lowest first.
pub open spec fn made_of(plan: PlanView) -> Seq<u8> {
    encode_utf8(plan.source.sha256) + seq![0u8] + encode_utf8(plan.source.path) + seq![0u8]
        + encode_utf8(plan.destination_path) + seq![0u8] + encode_utf8(
        match plan.profile {
            Profile::Copy => "copy"@,
            Profile::Av1 => "av1"@,
        },
    ) + seq![0u8] + encode_utf8(
        match plan.source_disposition {
            SourceDisposition::Quarantine => "quarantine"@,
            SourceDisposition::Preserve => "preserve"@,
            SourceDisposition::Delete => "delete"@,
        },
    ) + seq![0u8] + encode_utf8(plan.av1.container) + seq![0u8, plan.av1.crf, plan.av1.preset]
        + spec_u64_to_le_bytes(plan.duration_tolerance_seconds.bits)
}

/// A transaction's identifier is the first 24 digits of the hexadecimal SHA-256
/// digest of what it is made of.
pub proof fn law_identifiers_are_digests(plan: PlanView)
    ensures
        transaction_text(plan) matches Some(id) ==> id == hex_text(sha256(made_of(plan))).take(24),
        made_of(plan).len() < 0x2000_0000_0000_0000 <==> transaction_text(plan) is Some,
{
    assert(identity_bytes(plan) =~= made_of(plan));
    let text = hex_text(sha256(made_of(plan)));
    assert(text.subrange(0, 24) =~= text.take(24));
}

/// A plan is made exactly where the source is not the destination itself, an encoding
/// goes to a Matroska file, the destination has a name and the plan is accepted. It
/// names what it was made from and with, and its manifest has the destination's name
/// with `.marchiver.pkl` behind it, in the destination's directory.
pub proof fn law_plans_say_what_was_asked(
    source: EvidenceView,
    destination: Seq<char>,
    profile: Profile,
    config: ConfigView,
    version: Seq<char>,
)
    ensures
        source.path == destination ==> planned(source, destination, profile, config, version)
            == Err::<PlanView, Seq<char>>("source and destination must differ"@),
        source.path != destination && !plan_suited(profile, destination) ==> planned(
            source,
            destination,
            profile,
            config,
            version,
        ) == Err::<PlanView, Seq<char>>("AV1 destination must use the .mkv extension"@),
        planned(source, destination, profile, config, version) matches Ok(plan) ==> {
            &&& plan.schema_version == 1
            &&& plan.kind == "ArchivePlan"@
            &&& plan.producer_version == version
            &&& plan.profile == profile
            &&& plan.source_disposition == config.source_disposition
            &&& plan.duration_tolerance_seconds == config.duration_tolerance_seconds
            &&& plan.av1 == config.av1
            &&& plan.source == source
            &&& plan.destination_path == destination
            &&& file_name(destination) is Some
            &&& file_name(plan.manifest_path) == Some(
                file_name(destination)->0 + ".marchiver.pkl"@,
            )
            &&& parent(destination) is Some && parent(plan.manifest_path) is Some
            &&& same_path(parent(plan.manifest_path)->0, parent(destination)->0)
            &&& plan.manifest_path == joined(
                parent(destination)->0,
                file_name(destination)->0 + ".marchiver.pkl"@,
            )
            &&& Some(plan.transaction_id) == transaction_text(plan)
            &&& plan_check(plan) is Ok
        },
{
    if let Ok(plan) = planned(source, destination, profile, config, version) {
        let name = file_name(destination)->0;
        let sibling = name + ".marchiver.pkl"@;
        law_split_then_join(destination);
        reveal_strlit(".marchiver.pkl");
        reveal_strlit(".");
        reveal_strlit("..");
        assert forall|i: int| 0 <= i < sibling.len() implies sibling[i] != '/' by {
            if i < name.len() {
                assert(sibling[i] == name[i]);
            } else {
                assert(sibling[i] == ".marchiver.pkl"@[i - name.len()]);
            }
        }
        law_sibling_shares_directory(destination, sibling);
    }
}

/// A manifest records the plan as it is, and the output as it was found.
pub proof fn law_manifests_record_plan_and_output(
    plan: PlanView,
    output: EvidenceView,
    quarantine: Option<Seq<char>>,
    version: Seq<char>,
)
    ensures
        ({
            let manifest = manifest_of(plan, output, quarantine, version);
            &&& manifest.schema_version == 1
            &&& manifest.kind == "ArchiveManifest"@
            &&& manifest.producer_version == version
            &&& manifest.transaction_id == plan.transaction_id
            &&& manifest.profile == plan.profile
            &&& manifest.source_disposition == plan.source_disposition
            &&& manifest.duration_tolerance_seconds == plan.duration_tolerance_seconds
            &&& manifest.av1 == plan.av1
            &&& manifest.source == plan.source
            &&& manifest.output == output
            &&& manifest.destination_path == plan.destination_path
            &&& manifest.manifest_path == plan.manifest_path
            &&& manifest.quarantine_path == quarantine
        }),
{
}

/// A transaction's first journal names the plan's own paths and identifier, says that
/// nothing is done yet, and can be resumed from.
pub proof fn law_first_journals_name_their_plan(
    plan: PlanView,
    staging: Seq<char>,
    version: Seq<char>,
)
    ensures
        ({
            let journal = fresh_journal(plan, staging, version);
            &&& journal.schema_version == 1
            &&& journal.kind == "ArchiveJournal"@
            &&& journal.producer_version == version
            &&& journal.transaction_id == plan.transaction_id
            &&& journal.source_path == plan.source.path
            &&& journal.destination_path == plan.destination_path
            &&& journal.manifest_path == plan.manifest_path
            &&& journal.staging_path == staging
            &&& journal.phase == Phase::Prepared
            &&& journal.output is None && journal.quarantine_path is None && journal.diagnostic
                is None
            &&& version.len() > 0 ==> journal_check(journal, plan, staging) is Ok
        }),
{
}

/// A source is quarantined only where that is planned, under its own name in a
/// directory of the transaction's below `.marchiver-quarantine` beside it.
pub proof fn law_quarantine_is_where_planned(plan: PlanView)
    ensures
        plan.source_disposition != SourceDisposition::Quarantine ==> quarantine_text(plan) == Ok::<
            Option<Seq<char>>,
            Seq<char>,
        >(None),
        plan.source_disposition == SourceDisposition::Quarantine && file_name(
            plan.source.path,
        ) is None ==> quarantine_text(plan) == Err::<Option<Seq<char>>, Seq<char>>(
            "source has no file name"@,
        ),
        plan.source_disposition == SourceDisposition::Quarantine && file_name(
            plan.source.path,
        ) is Some ==> parent(plan.source.path) is Some && quarantine_text(plan) == Ok::<
            Option<Seq<char>>,
            Seq<char>,
        >(
            Some(
                joined(
                    joined(
                        joined(parent(plan.source.path)->0, ".marchiver-quarantine"@),
                        plan.transaction_id,
                    ),
                    file_name(plan.source.path)->0,
                ),
            ),
        ),
{
    if file_name(plan.source.path) is Some {
        law_split_then_join(plan.source.path);
    }
}

/// Whether a document has a value under a name, and no other before it.
pub open spec fn says(document: Document, name: Seq<char>, value: FieldValue) -> bool {
    &&& document is Object
    &&& exists|i: int|
        {
            &&& 0 <= i < document->Object_0@.len()
            &&& (#[trigger] document->Object_0@[i]).name@ == name
            &&& document->Object_0@[i].value == value
            &&& forall|j: int| 0 <= j < i ==> (#[trigger] document->Object_0@[j]).name@ != name
        }
}

/// Whether a document says that it is of the known schema version.
pub open spec fn of_the_schema(document: Document) -> bool {
    says(document, "schemaVersion"@, FieldValue::Int(1))
}

/// Whether a document says that it is of a kind.
pub open spec fn of_the_kind(document: Document, kind: Seq<char>) -> bool {
    exists|text: String|
        text@ == kind && #[trigger] says(document, "kind"@, FieldValue::Text(text))
}

proof fn lemma_field_says(fields: Seq<Field>, name: Seq<char>, from: int)
    requires
        0 <= from <= fields.len(),
    ensures
        match field_from(fields, name, from) {
            Some(value) => exists|i: int|
                {
                    &&& from <= i < fields.len()
                    &&& (#[trigger] fields[i]).name@ == name
                    &&& fields[i].value == value
                    &&& forall|j: int| from <= j < i ==> (#[trigger] fields[j]).name@ != name
                },
            None => forall|i: int|
                from <= i < fields.len() ==> (#[trigger] fields[i]).name@ != name,
        },
    decreases fields.len() - from,
{
    if from < fields.len() {
        lemma_field_says(fields, name, from + 1);
        if fields[from].name@ == name {
            assert(fields[from].value == field_from(fields, name, from)->0);
        } else if let Some(value) = field_from(fields, name, from + 1) {
            let i = choose|i: int|
                {
                    &&& from + 1 <= i < fields.len()
                    &&& (#[trigger] fields[i]).name@ == name
                    &&& fields[i].value == value
                    &&& forall|j: int| from + 1 <= j < i ==> (#[trigger] fields[j]).name@ != name
                };
            assert(fields[i].name@ == name);
            assert forall|j: int| from <= j < i implies (#[trigger] fields[j]).name@ != name by {}
        }
    }
}

proof fn lemma_says(document: Document, name: Seq<char>, value: FieldValue)
    ensures
        says(document, name, value) == (document is Object && field_from(
            document->Object_0@,
            name,
            0,
        ) == Some(value)),
{
    if document is Object {
        let fields = document->Object_0@;
        lemma_field_says(fields, name, 0);
        if let Some(found) = field_from(fields, name, 0) {
            let k = choose|i: int|
                {
                    &&& 0 <= i < fields.len()
                    &&& (#[trigger] fields[i]).name@ == name
                    &&& fields[i].value == found
                    &&& forall|j: int| 0 <= j < i ==> (#[trigger] fields[j]).name@ != name
                };
            if found == value {
                assert(fields[k].name@ == name);
            }
            if says(document, name, value) {
                let i = choose|i: int|
                    {
                        &&& 0 <= i < fields.len()
                        &&& (#[trigger] fields[i]).name@ == name
                        &&& fields[i].value == value
                        &&& forall|j: int| 0 <= j < i ==> (#[trigger] fields[j]).name@ != name
                    };
                assert(i == k) by {
                    if i < k {
                        assert(fields[i].name@ != name);
                    } else if k < i {
                        assert(fields[k].name@ != name);
                    }
                }
            }
        }
    }
}

proof fn lemma_document_says(document: Document, kind: Seq<char>)
    ensures
        schema_check(document, kind) is Ok == of_the_schema(document),
        document_check(document, kind) is Ok == (of_the_schema(document)
            && of_the_kind(document, kind)),
{
    lemma_says(document, "schemaVersion"@, FieldValue::Int(1));
    if document is Object {
        let fields = document->Object_0@;
        match field_from(fields, "kind"@, 0) {
            Some(FieldValue::Text(text)) => {
                lemma_says(document, "kind"@, FieldValue::Text(text));
                if of_the_kind(document, kind) {
                    let other = choose|text: String|
                        text@ == kind && #[trigger] says(
                            document,
                            "kind"@,
                            FieldValue::Text(text),
                        );
                    lemma_says(document, "kind"@, FieldValue::Text(other));
                }
            },
            _ => {
                if of_the_kind(document, kind) {
                    let other = choose|text: String|
                        text@ == kind && #[trigger] says(
                            document,
                            "kind"@,
                            FieldValue::Text(text),
                        );
                    lemma_says(document, "kind"@, FieldValue::Text(other));
                }
            },
        }
    }
}

/// A document is read exactly where it says that it is of the known schema version
/// and, but for a configuration, of the kind that is expected, it decodes and what it
/// decodes to is accepted; what is read is what it decodes to.
pub proof fn law_documents_are_read_as_they_are(
    config: Evaluated<Config>,
    plan: Evaluated<ArchivePlan>,
    manifest: Evaluated<ArchiveManifest>,
    journal: Evaluated<Journal>,
)
    ensures
        config_in(config) is Ok <==> of_the_schema(config.document) && config.decoded is Ok
            && config_check(config.decoded->Ok_0.deep_view()) is Ok,
        config_in(config) matches Ok(view) ==> view == config.decoded->Ok_0.deep_view(),
        plan_in(plan) is Ok <==> of_the_schema(plan.document) && of_the_kind(
            plan.document,
            "ArchivePlan"@,
        ) && plan.decoded is Ok && plan_check(plan.decoded->Ok_0.deep_view()) is Ok,
        plan_in(plan) matches Ok(view) ==> view == plan.decoded->Ok_0.deep_view(),
        manifest_in(manifest) is Ok <==> of_the_schema(manifest.document) && of_the_kind(
            manifest.document,
            "ArchiveManifest"@,
        ) && manifest.decoded is Ok,
        manifest_in(manifest) matches Ok(view) ==> view == manifest.decoded->Ok_0.deep_view(),
        journal_in(journal) is Ok <==> of_the_schema(journal.document) && of_the_kind(
            journal.document,
            "ArchiveJournal"@,
        ) && journal.decoded is Ok && journal.decoded->Ok_0.schema_version == 1
            && journal.decoded->Ok_0.kind@ == "ArchiveJournal"@,
        journal_in(journal) matches Ok(view) ==> view == journal.decoded->Ok_0.deep_view(),
{
    lemma_document_says(config.document, "Config"@);
    lemma_document_says(plan.document, "ArchivePlan"@);
    lemma_document_says(manifest.document, "ArchiveManifest"@);
    lemma_document_says(journal.document, "ArchiveJournal"@);
}

/// A manifest that is loaded is the one in the file that was named: it was evaluated
/// from there, it is accepted, and the path that it declares leads to the same file.
pub proof fn law_manifests_are_loaded_from_their_own_place(
    path: Seq<u8>,
    r: Seq<Reply>,
    at: int,
)
    ensures
        load_manifest_step(path, r, at).outcome matches Outcome::Done(manifest) ==> {
            &&& 0 <= at && at + 3 <= r.len()
            &&& r[at] is Manifest
            &&& manifest_in(r[at]->Manifest_0) == Ok::<ManifestView, Seq<char>>(manifest)
            &&& manifest_check(manifest) is Ok
            &&& r[at + 1] is Resolved && r[at + 2] is Resolved
            &&& r[at + 1]->Resolved_0@ == r[at + 2]->Resolved_0@
            &&& load_manifest_step(path, r, at).asked == seq![
                RequestView::EvaluateManifest { path },
                RequestView::Resolve { path },
                RequestView::Resolve { path: raw(manifest.manifest_path) },
            ]
        },
        0 <= at && at + 3 <= r.len() && r[at] is Manifest && manifest_in(
            r[at]->Manifest_0,
        ) is Ok && manifest_check(manifest_in(r[at]->Manifest_0)->Ok_0) is Ok
            && r[at + 1] is Resolved && r[at + 2] is Resolved ==> load_manifest_step(
            path,
            r,
            at,
        ).outcome == if r[at + 1]->Resolved_0@ == r[at + 2]->Resolved_0@ {
            Outcome::Done(manifest_in(r[at]->Manifest_0)->Ok_0)
        } else {
            Outcome::Fail("manifestPath does not identify the loaded manifest"@)
        },
{
    reveal(load_manifest_step);
    reveal(validate_manifest_step);
    let step = load_manifest_step(path, r, at);
    if let Outcome::Done(manifest) = step.outcome {
        assert(step.asked =~= seq![
            RequestView::EvaluateManifest { path },
            RequestView::Resolve { path },
            RequestView::Resolve { path: raw(manifest.manifest_path) },
        ]);
    }
}

/// Configurations, plans and journals are read from the file that was named, a
/// configuration from the built-in one where none was.
pub proof fn law_documents_are_loaded_from_where_they_are_named(
    file: Option<Seq<u8>>,
    path: Seq<u8>,
    r: Seq<Reply>,
    at: int,
)
    ensures
        load_config_step(file, r, at).outcome matches Outcome::Done(config) ==> {
            &&& 0 <= at < r.len() && r[at] is Config
            &&& config_in(r[at]->Config_0) == Ok::<ConfigView, Seq<char>>(config)
            &&& load_config_step(file, r, at).asked == seq![RequestView::EvaluateConfig { file }]
            &&& load_config_step(file, r, at).at == at + 1
        },
        load_plan_step(path, r, at).outcome matches Outcome::Done(plan) ==> {
            &&& 0 <= at < r.len() && r[at] is Plan
            &&& plan_in(r[at]->Plan_0) == Ok::<PlanView, Seq<char>>(plan)
            &&& load_plan_step(path, r, at).asked == seq![RequestView::EvaluatePlan { path }]
            &&& load_plan_step(path, r, at).at == at + 1
        },
        load_journal_step(path, r, at).outcome matches Outcome::Done(journal) ==> {
            &&& 0 <= at < r.len() && r[at] is Journal
            &&& journal_in(r[at]->Journal_0) == Ok::<JournalView, Seq<char>>(journal)
            &&& load_journal_step(path, r, at).asked == seq![RequestView::EvaluateJournal { path }]
        },
{
    reveal(load_config_step);
    reveal(load_plan_step);
    reveal(load_journal_step);
    assert(seq![RequestView::EvaluateConfig { file }] + Seq::empty() =~= seq![
        RequestView::EvaluateConfig { file },
    ]);
    assert(seq![RequestView::EvaluatePlan { path }] + Seq::empty() =~= seq![
        RequestView::EvaluatePlan { path },
    ]);
    assert(seq![RequestView::EvaluateJournal { path }] + Seq::empty() =~= seq![
        RequestView::EvaluateJournal { path },
    ]);
}

/// A document of another schema version, of none, or of none that is a whole number,
/// is refused for that, as what it was to be.
pub proof fn law_other_schemas_are_named(document: Document, name: Seq<char>, value: FieldValue)
    ensures
        document is Other ==> schema_check(document, name) == Err::<(), Seq<char>>(
            "Pkl document must evaluate to an object"@,
        ),
        document is Object && (forall|i: int|
            0 <= i < document->Object_0@.len() ==> (#[trigger] document->Object_0@[i]).name@
                != "schemaVersion"@) ==> schema_check(document, name) == Err::<(), Seq<char>>(
            "Pkl document is missing "@ + "schemaVersion"@,
        ),
        says(document, "schemaVersion"@, value) ==> match value {
            FieldValue::Int(version) => version != 1 ==> schema_check(document, name) == Err::<
                (),
                Seq<char>,
            >(
                "unsupported "@ + name + " schemaVersion "@ + signed_text(version as int)
                    + "; expected 1"@,
            ),
            _ => schema_check(document, name) == Err::<(), Seq<char>>(
                name + " schemaVersion must be an integer"@,
            ),
        },
        of_the_schema(document) && says(document, "kind"@, value) && !(value is Text
            && value->Text_0@ == name) ==> document_check(document, name) == Err::<(), Seq<char>>(
            "expected "@ + name + " Pkl document"@,
        ),
{
    lemma_says(document, "schemaVersion"@, value);
    lemma_says(document, "schemaVersion"@, FieldValue::Int(1));
    lemma_says(document, "kind"@, value);
    if document is Object {
        lemma_field_says(document->Object_0@, "schemaVersion"@, 0);
    }
}

/// A document that does not evaluate, and one that does not decode, is refused with
/// what went wrong, under the name of the file or of what it was to be.
pub proof fn law_failed_readings_are_named(
    file: Option<Seq<u8>>,
    path: Seq<u8>,
    r: Seq<Reply>,
    at: int,
)
    requires
        0 <= at < r.len(),
    ensures
        r[at] matches Reply::Failed { point, error } ==> {
            let message = "failed to evaluate trusted Pkl '"@ + shown(path) + "'"@ + ": "@ + error@;
            &&& load_config_step(file, r, at).outcome == Outcome::<ConfigView>::Fail(
                (if file is Some {
                    "failed to evaluate trusted config '"@ + shown(file->0) + "'"@
                } else {
                    "failed to evaluate embedded config"@
                }) + ": "@ + error@,
            )
            &&& load_plan_step(path, r, at).outcome == Outcome::<PlanView>::Fail(message)
            &&& load_manifest_step(path, r, at).outcome == Outcome::<ManifestView>::Fail(message)
            &&& load_journal_step(path, r, at).outcome == Outcome::<JournalView>::Fail(message)
        },
        r[at] matches Reply::Config(evaluated) ==> (of_the_schema(evaluated.document) ==> (
        evaluated.decoded matches Err(error) ==> load_config_step(file, r, at).outcome
            == Outcome::<ConfigView>::Fail("invalid Config Pkl: "@ + error@))),
        r[at] matches Reply::Plan(evaluated) ==> (of_the_schema(evaluated.document)
            && of_the_kind(evaluated.document, "ArchivePlan"@) ==> (evaluated.decoded matches Err(
            error,
        ) ==> load_plan_step(path, r, at).outcome == Outcome::<PlanView>::Fail(
            "invalid ArchivePlan Pkl: "@ + error@,
        ))),
        r[at] matches Reply::Manifest(evaluated) ==> (of_the_schema(evaluated.document)
            && of_the_kind(evaluated.document, "ArchiveManifest"@) ==> (
        evaluated.decoded matches Err(error) ==> load_manifest_step(path, r, at).outcome
            == Outcome::<ManifestView>::Fail("invalid ArchiveManifest Pkl: "@ + error@))),
        r[at] matches Reply::Journal(evaluated) ==> (of_the_schema(evaluated.document)
            && of_the_kind(evaluated.document, "ArchiveJournal"@) ==> (
        evaluated.decoded matches Err(error) ==> load_journal_step(path, r, at).outcome
            == Outcome::<JournalView>::Fail("invalid ArchiveJournal Pkl: "@ + error@))),
{
    reveal(load_config_step);
    reveal(load_plan_step);
    reveal(load_manifest_step);
    reveal(load_journal_step);
    if let Reply::Config(evaluated) = r[at] {
        lemma_document_says(evaluated.document, "Config"@);
    }
    if let Reply::Plan(evaluated) = r[at] {
        lemma_document_says(evaluated.document, "ArchivePlan"@);
    }
    if let Reply::Manifest(evaluated) = r[at] {
        lemma_document_says(evaluated.document, "ArchiveManifest"@);
    }
    if let Reply::Journal(evaluated) = r[at] {
        lemma_document_says(evaluated.document, "ArchiveJournal"@);
    }
}

} // verus!
