//! The rules that plans, manifests and journals follow, and how one is made
//! from another.
use vstd::bytes::{spec_u64_to_le_bytes, u64_to_le_bytes};
use vstd::prelude::*;
use vstd::string::*;
use vstd::utf8::encode_utf8;

use crate::digest::{
    hash_text, hex_digit, hex_sha256, hex_text, sha256, validate_hash, LONGEST_MESSAGE,
};
use crate::flow::agrees;
use crate::model::{
    ArchiveManifest, ArchivePlan, Av1Config, Av1View, Config, ConfigView, EvidenceView, Journal,
    JournalView, ManifestView, MediaEvidence, Phase, PlanView, Profile, SourceDisposition,
    SCHEMA_VERSION,
};
use crate::path::{
    absolute, extension, extension_of, file_name, file_name_of, is_absolute, join_path, joined,
    law_join_then_split, law_sibling_shares_directory, law_split_then_join, names, parent,
    parent_of, paths_equal, plain_name, replace_file_name, same_path, with_file_name,
};
use crate::seconds::{is_non_negative, non_negative, Seconds, SecondsView};
use crate::text::{cat2, same_optional, same_text};

verus! {

/// Whether the encoder settings are within what the encoder takes.
pub open spec fn encoder_range(av1: Av1View) -> bool {
    av1.crf <= 63 && av1.preset <= 13
}

/// What the rules say of a configuration.
pub open spec fn config_check(config: ConfigView) -> Result<(), Seq<char>> {
    if config.schema_version != SCHEMA_VERSION {
        Err("config schemaVersion changed after raw validation"@)
    } else if config.av1.container != "mkv"@ {
        Err("AV1 container must be mkv"@)
    } else if !encoder_range(config.av1) {
        Err("AV1 crf must be 0..=63 and preset must be 0..=13"@)
    } else if !non_negative(config.duration_tolerance_seconds.bits) {
        Err("durationToleranceSeconds must be finite and non-negative"@)
    } else {
        Ok(())
    }
}

/// Accepts a configuration that follows the rules.
pub fn validate_config(config: &Config) -> (result: Result<(), String>)
    ensures
        agrees(result, config_check(config.deep_view())),
{
    if config.schema_version != SCHEMA_VERSION {
        return Err("config schemaVersion changed after raw validation".to_owned());
    }
    if !same_text(&config.av1.container, "mkv") {
        return Err("AV1 container must be mkv".to_owned());
    }
    if config.av1.crf > 63 || config.av1.preset > 13 {
        return Err("AV1 crf must be 0..=63 and preset must be 0..=13".to_owned());
    }
    if !is_non_negative(&config.duration_tolerance_seconds) {
        return Err("durationToleranceSeconds must be finite and non-negative".to_owned());
    }
    Ok(())
}

/// What the rules say of the settings in a plan or manifest.
pub open spec fn settings_check(av1: Av1View, tolerance: SecondsView) -> Result<(), Seq<char>> {
    if av1.container != "mkv"@ || !encoder_range(av1) {
        Err("invalid AV1 settings"@)
    } else if !non_negative(tolerance.bits) {
        Err("duration tolerance must be finite and non-negative"@)
    } else {
        Ok(())
    }
}

/// Accepts settings that follow the rules.
pub fn validate_settings(av1: &Av1Config, tolerance: &Seconds) -> (result: Result<(), String>)
    ensures
        agrees(result, settings_check(av1.deep_view(), tolerance.deep_view())),
{
    if !same_text(&av1.container, "mkv") || av1.crf > 63 || av1.preset > 13 {
        return Err("invalid AV1 settings".to_owned());
    }
    if !is_non_negative(tolerance) {
        return Err("duration tolerance must be finite and non-negative".to_owned());
    }
    Ok(())
}

/// A text's bytes with a zero byte behind them.
pub open spec fn terminated(text: Seq<char>) -> Seq<u8> {
    encode_utf8(text).push(0)
}

/// The bytes that identify a transaction: what is archived, to where, and with
/// which settings.
pub open spec fn identity_bytes(plan: PlanView) -> Seq<u8> {
    (terminated(plan.source.sha256) + terminated(plan.source.path) + terminated(
        plan.destination_path,
    ) + terminated(plan.profile.name()) + terminated(plan.source_disposition.name()) + terminated(
        plan.av1.container,
    )).push(plan.av1.crf).push(plan.av1.preset) + spec_u64_to_le_bytes(
        plan.duration_tolerance_seconds.bits,
    )
}

/// The transaction's identifier: the first twenty-four digits of the digest of
/// its identity. A plan too long to be digested has none.
pub open spec fn transaction_text(plan: PlanView) -> Option<Seq<char>> {
    if identity_bytes(plan).len() <= LONGEST_MESSAGE {
        Some(hex_text(sha256(identity_bytes(plan))).subrange(0, 24))
    } else {
        None
    }
}

fn push_terminated(bytes: &mut Vec<u8>, text: &str)
    ensures
        final(bytes)@ == old(bytes)@ + terminated(text@),
{
    let ghost before = bytes@;
    bytes.extend_from_slice(text.as_bytes());
    bytes.push(0);
    proof {
        assert(bytes@ =~= before + terminated(text@));
    }
}

/// Whether a text has the form of a transaction's identifier: twenty-four
/// hexadecimal digits.
pub open spec fn identifier(text: Seq<char>) -> bool {
    text.len() == 24 && forall|i: int| 0 <= i < text.len() ==> hex_digit(#[trigger] text[i])
}

/// The identifier that a plan's contents give its transaction.
pub fn transaction_id(plan: &ArchivePlan) -> (id: Option<String>)
    ensures
        id.deep_view() == transaction_text(plan.deep_view()),
        id matches Some(text) ==> identifier(text@),
{
    let mut bytes: Vec<u8> = Vec::new();
    push_terminated(&mut bytes, &plan.source.sha256);
    push_terminated(&mut bytes, &plan.source.path);
    push_terminated(&mut bytes, &plan.destination_path);
    push_terminated(&mut bytes, plan.profile.as_str());
    push_terminated(&mut bytes, plan.source_disposition.as_str());
    push_terminated(&mut bytes, &plan.av1.container);
    proof {
        let view = plan.deep_view();
        assert(bytes@ =~= terminated(view.source.sha256) + terminated(view.source.path)
            + terminated(view.destination_path) + terminated(view.profile.name()) + terminated(
            view.source_disposition.name(),
        ) + terminated(view.av1.container));
    }
    bytes.push(plan.av1.crf);
    bytes.push(plan.av1.preset);
    let tolerance = u64_to_le_bytes(plan.duration_tolerance_seconds.bits);
    bytes.extend_from_slice(tolerance.as_slice());
    assert(bytes@ == identity_bytes(plan.deep_view()));
    if bytes.len() as u64 > LONGEST_MESSAGE {
        return None;
    }
    let digest = hex_sha256(&bytes);
    proof {
        let text = digest@.subrange(0, 24);
        assert forall|i: int| 0 <= i < 24 implies hex_digit(#[trigger] text[i]) by {
            assert(text[i] == digest@[i]);
        }
    }
    Some(digest.as_str().substring_char(0, 24).to_owned())
}

/// Whether two paths lie in the same directory.
pub open spec fn adjacent(a: Seq<char>, b: Seq<char>) -> bool {
    match (parent(a), parent(b)) {
        (Some(a), Some(b)) => same_path(a, b),
        (None, None) => true,
        _ => false,
    }
}

/// Whether two paths lie in the same directory.
pub fn are_adjacent(a: &str, b: &str) -> (result: bool)
    ensures
        result == adjacent(a@, b@),
{
    match (parent_of(a), parent_of(b)) {
        (Some(a), Some(b)) => paths_equal(&a, &b),
        (None, None) => true,
        _ => false,
    }
}

/// Whether a plan's destination has the name that its profile asks for.
pub open spec fn suits_profile(profile: Profile, destination: Seq<char>) -> bool {
    profile == Profile::Av1 ==> extension(destination) == Some("mkv"@)
}

fn has_suitable_name(profile: Profile, destination: &str) -> (result: bool)
    ensures
        result == suits_profile(profile, destination@),
{
    if profile == Profile::Av1 {
        match extension_of(destination) {
            Some(extension) => same_text(&extension, "mkv"),
            None => false,
        }
    } else {
        true
    }
}

/// What the check of a digest's writing says.
pub open spec fn hash_check(hash: Seq<char>) -> Result<(), Seq<char>> {
    if hash_text(hash) {
        Ok(())
    } else {
        Err("SHA-256 value must contain 64 hexadecimal characters"@)
    }
}

/// What the rules say of a plan.
pub open spec fn plan_check(plan: PlanView) -> Result<(), Seq<char>> {
    if plan.schema_version != SCHEMA_VERSION || plan.kind != "ArchivePlan"@
        || plan.producer_version.len() == 0 {
        Err("invalid archive plan identity"@)
    } else if settings_check(plan.av1, plan.duration_tolerance_seconds) is Err {
        settings_check(plan.av1, plan.duration_tolerance_seconds)
    } else if transaction_text(plan) != Some(plan.transaction_id) {
        Err("archive plan transactionId does not match its contents"@)
    } else if !absolute(plan.source.path) || !absolute(plan.destination_path) || same_path(
        plan.source.path,
        plan.destination_path,
    ) {
        Err("plan paths must be distinct absolute paths"@)
    } else if !adjacent(plan.manifest_path, plan.destination_path) {
        Err("manifest must be adjacent to destination"@)
    } else if !suits_profile(plan.profile, plan.destination_path) {
        Err("AV1 destination must use the .mkv extension"@)
    } else {
        hash_check(plan.source.sha256)
    }
}

/// Accepts a plan that follows the rules.
pub fn validate_plan(plan: &ArchivePlan) -> (result: Result<(), String>)
    ensures
        agrees(result, plan_check(plan.deep_view())),
        result is Ok ==> identifier(plan.transaction_id@),
{
    if plan.schema_version != SCHEMA_VERSION || !same_text(&plan.kind, "ArchivePlan")
        || plan.producer_version.as_str().is_empty() {
        return Err("invalid archive plan identity".to_owned());
    }
    validate_settings(&plan.av1, &plan.duration_tolerance_seconds)?;
    let identified = match transaction_id(plan) {
        Some(id) => same_text(&id, &plan.transaction_id),
        None => false,
    };
    if !identified {
        return Err("archive plan transactionId does not match its contents".to_owned());
    }
    if !is_absolute(&plan.source.path) || !is_absolute(&plan.destination_path) || paths_equal(
        &plan.source.path,
        &plan.destination_path,
    ) {
        return Err("plan paths must be distinct absolute paths".to_owned());
    }
    if !are_adjacent(&plan.manifest_path, &plan.destination_path) {
        return Err("manifest must be adjacent to destination".to_owned());
    }
    if !has_suitable_name(plan.profile, &plan.destination_path) {
        return Err("AV1 destination must use the .mkv extension".to_owned());
    }
    validate_hash(&plan.source.sha256)
}

/// The plan that a manifest's transaction was made from.
pub open spec fn plan_of(manifest: ManifestView) -> PlanView {
    PlanView {
        schema_version: SCHEMA_VERSION,
        kind: "ArchivePlan"@,
        producer_version: manifest.producer_version,
        transaction_id: manifest.transaction_id,
        profile: manifest.profile,
        source_disposition: manifest.source_disposition,
        duration_tolerance_seconds: manifest.duration_tolerance_seconds,
        av1: manifest.av1,
        source: manifest.source,
        destination_path: manifest.destination_path,
        manifest_path: manifest.manifest_path,
    }
}

/// The plan that a manifest's transaction was made from.
pub fn transaction_plan(manifest: &ArchiveManifest) -> (plan: ArchivePlan)
    ensures
        plan.deep_view() == plan_of(manifest.deep_view()),
{
    ArchivePlan {
        schema_version: SCHEMA_VERSION,
        kind: "ArchivePlan".to_owned(),
        producer_version: manifest.producer_version.clone(),
        transaction_id: manifest.transaction_id.clone(),
        profile: manifest.profile,
        source_disposition: manifest.source_disposition,
        duration_tolerance_seconds: manifest.duration_tolerance_seconds.copy(),
        av1: manifest.av1.copy(),
        source: manifest.source.copy(),
        destination_path: manifest.destination_path.clone(),
        manifest_path: manifest.manifest_path.clone(),
    }
}

/// Where a transaction of the given identifier quarantines a source: in a
/// directory of its own beside the source.
pub open spec fn quarantine_place(
    directory: Seq<char>,
    transaction: Seq<char>,
    name: Seq<char>,
) -> Seq<char> {
    joined(joined(joined(directory, ".marchiver-quarantine"@), transaction), name)
}

/// Where a plan's source goes, if it is quarantined at all.
pub open spec fn quarantine_text(plan: PlanView) -> Result<Option<Seq<char>>, Seq<char>> {
    if plan.source_disposition != SourceDisposition::Quarantine {
        Ok(None)
    } else {
        match (file_name(plan.source.path), parent(plan.source.path)) {
            (None, _) => Err("source has no file name"@),
            (Some(_), None) => Err("source has no parent"@),
            (Some(name), Some(directory)) => Ok(
                Some(quarantine_place(directory, plan.transaction_id, name)),
            ),
        }
    }
}

/// Where a plan's source goes, if it is quarantined at all.
pub fn quarantine_path(plan: &ArchivePlan) -> (result: Result<Option<String>, String>)
    ensures
        agrees(result, quarantine_text(plan.deep_view())),
{
    if plan.source_disposition != SourceDisposition::Quarantine {
        return Ok(None);
    }
    let name = match file_name_of(&plan.source.path) {
        Some(name) => name,
        None => {
            return Err("source has no file name".to_owned());
        },
    };
    let directory = match parent_of(&plan.source.path) {
        Some(directory) => directory,
        None => {
            return Err("source has no parent".to_owned());
        },
    };
    let root = join_path(&directory, ".marchiver-quarantine");
    let transaction = join_path(&root, &plan.transaction_id);
    Ok(Some(join_path(&transaction, &name)))
}

/// What the rules say of a manifest's contents.
pub open spec fn manifest_check(manifest: ManifestView) -> Result<(), Seq<char>> {
    if manifest.schema_version != SCHEMA_VERSION || manifest.kind != "ArchiveManifest"@ {
        Err("invalid archive manifest identity"@)
    } else if settings_check(manifest.av1, manifest.duration_tolerance_seconds) is Err {
        settings_check(manifest.av1, manifest.duration_tolerance_seconds)
    } else if hash_check(manifest.source.sha256) is Err {
        hash_check(manifest.source.sha256)
    } else if hash_check(manifest.output.sha256) is Err {
        hash_check(manifest.output.sha256)
    } else if manifest.output.path != manifest.destination_path {
        Err("manifest output path does not match destinationPath"@)
    } else if plan_check(plan_of(manifest)) is Err {
        plan_check(plan_of(manifest))
    } else {
        match quarantine_text(plan_of(manifest)) {
            Err(message) => Err(message),
            Ok(path) => if manifest.quarantine_path != path {
                Err("manifest quarantinePath does not match its transaction"@)
            } else {
                Ok(())
            },
        }
    }
}

/// Accepts a manifest whose contents follow the rules.
pub fn validate_manifest_contents(manifest: &ArchiveManifest) -> (result: Result<(), String>)
    ensures
        agrees(result, manifest_check(manifest.deep_view())),
{
    if manifest.schema_version != SCHEMA_VERSION || !same_text(&manifest.kind, "ArchiveManifest") {
        return Err("invalid archive manifest identity".to_owned());
    }
    validate_settings(&manifest.av1, &manifest.duration_tolerance_seconds)?;
    validate_hash(&manifest.source.sha256)?;
    validate_hash(&manifest.output.sha256)?;
    if !same_text(&manifest.output.path, &manifest.destination_path) {
        return Err("manifest output path does not match destinationPath".to_owned());
    }
    let plan = transaction_plan(manifest);
    validate_plan(&plan)?;
    let path = quarantine_path(&plan)?;
    if !same_optional(&manifest.quarantine_path, &path) {
        return Err("manifest quarantinePath does not match its transaction".to_owned());
    }
    Ok(())
}

/// The manifest of a plan whose output has been archived.
pub open spec fn manifest_of(
    plan: PlanView,
    output: EvidenceView,
    quarantine_path: Option<Seq<char>>,
    version: Seq<char>,
) -> ManifestView {
    ManifestView {
        schema_version: SCHEMA_VERSION,
        kind: "ArchiveManifest"@,
        producer_version: version,
        transaction_id: plan.transaction_id,
        profile: plan.profile,
        source_disposition: plan.source_disposition,
        duration_tolerance_seconds: plan.duration_tolerance_seconds,
        av1: plan.av1,
        source: plan.source,
        output,
        destination_path: plan.destination_path,
        manifest_path: plan.manifest_path,
        quarantine_path,
    }
}

/// Makes the manifest of a plan whose output has been archived.
pub fn manifest_from_plan(
    plan: &ArchivePlan,
    output: MediaEvidence,
    quarantine_path: Option<String>,
    version: &str,
) -> (manifest: ArchiveManifest)
    ensures
        manifest.deep_view() == manifest_of(
            plan.deep_view(),
            output.deep_view(),
            quarantine_path.deep_view(),
            version@,
        ),
{
    ArchiveManifest {
        schema_version: SCHEMA_VERSION,
        kind: "ArchiveManifest".to_owned(),
        producer_version: version.to_owned(),
        transaction_id: plan.transaction_id.clone(),
        profile: plan.profile,
        source_disposition: plan.source_disposition,
        duration_tolerance_seconds: plan.duration_tolerance_seconds.copy(),
        av1: plan.av1.copy(),
        source: plan.source.copy(),
        output,
        destination_path: plan.destination_path.clone(),
        manifest_path: plan.manifest_path.clone(),
        quarantine_path,
    }
}

/// The journal of a transaction that has just begun.
pub open spec fn fresh_journal(
    plan: PlanView,
    staging: Seq<char>,
    version: Seq<char>,
) -> JournalView {
    JournalView {
        schema_version: SCHEMA_VERSION,
        kind: "ArchiveJournal"@,
        producer_version: version,
        transaction_id: plan.transaction_id,
        source_path: plan.source.path,
        destination_path: plan.destination_path,
        manifest_path: plan.manifest_path,
        staging_path: staging,
        phase: Phase::Prepared,
        output: None,
        quarantine_path: None,
        diagnostic: None,
    }
}

/// The journal of a transaction that has just begun.
pub fn new_journal(plan: &ArchivePlan, staging: &str, version: &str) -> (journal: Journal)
    ensures
        journal.deep_view() == fresh_journal(plan.deep_view(), staging@, version@),
{
    Journal {
        schema_version: SCHEMA_VERSION,
        kind: "ArchiveJournal".to_owned(),
        producer_version: version.to_owned(),
        transaction_id: plan.transaction_id.clone(),
        source_path: plan.source.path.clone(),
        destination_path: plan.destination_path.clone(),
        manifest_path: plan.manifest_path.clone(),
        staging_path: staging.to_owned(),
        phase: Phase::Prepared,
        output: None,
        quarantine_path: None,
        diagnostic: None,
    }
}

/// Whether a journal is that of a plan's transaction.
pub open spec fn journal_matches(
    journal: JournalView,
    plan: PlanView,
    staging: Seq<char>,
) -> bool {
    &&& journal.schema_version == SCHEMA_VERSION
    &&& journal.kind == "ArchiveJournal"@
    &&& journal.producer_version.len() > 0
    &&& journal.transaction_id == plan.transaction_id
    &&& journal.source_path == plan.source.path
    &&& journal.destination_path == plan.destination_path
    &&& journal.manifest_path == plan.manifest_path
    &&& journal.staging_path == staging
}

/// What the rules say of a journal from which a plan's transaction is resumed.
pub open spec fn journal_check(
    journal: JournalView,
    plan: PlanView,
    staging: Seq<char>,
) -> Result<(), Seq<char>> {
    if !journal_matches(journal, plan, staging) {
        Err("journal does not match archive plan"@)
    } else if journal.phase.rank() >= Phase::Staged.rank() && journal.output is None {
        Err("journal phase requires output evidence"@)
    } else if journal.phase.rank() >= Phase::QuarantineLinked.rank() && plan.source_disposition
        == SourceDisposition::Quarantine && journal.quarantine_path is None {
        Err("journal phase requires quarantinePath"@)
    } else {
        Ok(())
    }
}

/// Accepts a journal from which a plan's transaction can be resumed.
pub fn validate_journal(journal: &Journal, plan: &ArchivePlan, staging: &str) -> (result: Result<
    (),
    String,
>)
    ensures
        agrees(result, journal_check(journal.deep_view(), plan.deep_view(), staging@)),
{
    if journal.schema_version != SCHEMA_VERSION || !same_text(&journal.kind, "ArchiveJournal")
        || journal.producer_version.as_str().is_empty() || !same_text(
        &journal.transaction_id,
        &plan.transaction_id,
    ) || !same_text(&journal.source_path, &plan.source.path) || !same_text(
        &journal.destination_path,
        &plan.destination_path,
    ) || !same_text(&journal.manifest_path, &plan.manifest_path) || !same_text(
        &journal.staging_path,
        staging,
    ) {
        return Err("journal does not match archive plan".to_owned());
    }
    if journal.phase.at_least(Phase::Staged) && journal.output.is_none() {
        return Err("journal phase requires output evidence".to_owned());
    }
    if journal.phase.at_least(Phase::QuarantineLinked) && plan.source_disposition
        == SourceDisposition::Quarantine && journal.quarantine_path.is_none() {
        return Err("journal phase requires quarantinePath".to_owned());
    }
    Ok(())
}

/// The plan before its identifier is known.
pub open spec fn unidentified_plan(
    source: EvidenceView,
    destination: Seq<char>,
    manifest: Seq<char>,
    profile: Profile,
    config: ConfigView,
    version: Seq<char>,
) -> PlanView {
    PlanView {
        schema_version: SCHEMA_VERSION,
        kind: "ArchivePlan"@,
        producer_version: version,
        transaction_id: Seq::empty(),
        profile,
        source_disposition: config.source_disposition,
        duration_tolerance_seconds: config.duration_tolerance_seconds,
        av1: config.av1,
        source,
        destination_path: destination,
        manifest_path: manifest,
    }
}

/// A plan with its identifier.
pub open spec fn identified(plan: PlanView) -> PlanView {
    PlanView {
        transaction_id: match transaction_text(plan) {
            Some(id) => id,
            None => Seq::empty(),
        },
        ..plan
    }
}

/// Where the manifest of a destination stands: beside it, under its name with
/// `.marchiver.pkl` behind it.
pub open spec fn manifest_place(destination: Seq<char>) -> Option<Seq<char>> {
    match file_name(destination) {
        Some(name) => Some(with_file_name(destination, name + ".marchiver.pkl"@)),
        None => None,
    }
}

/// The plan for a source that was inspected and a destination that is free, or
/// why there is none.
pub open spec fn planned(
    source: EvidenceView,
    destination: Seq<char>,
    profile: Profile,
    config: ConfigView,
    version: Seq<char>,
) -> Result<PlanView, Seq<char>> {
    if source.path == destination {
        Err("source and destination must differ"@)
    } else if !suits_profile(profile, destination) {
        Err("AV1 destination must use the .mkv extension"@)
    } else {
        match manifest_place(destination) {
            None => Err("destination file name must be UTF-8"@),
            Some(manifest) => {
                let plan = identified(
                    unidentified_plan(source, destination, manifest, profile, config, version),
                );
                match plan_check(plan) {
                    Ok(()) => Ok(plan),
                    Err(message) => Err(message),
                }
            },
        }
    }
}

/// Makes the plan for a source that was inspected and a destination that is free.
pub fn plan_for(
    source: MediaEvidence,
    destination: &str,
    profile: Profile,
    config: &Config,
    version: &str,
) -> (result: Result<ArchivePlan, String>)
    ensures
        agrees(
            result,
            planned(source.deep_view(), destination@, profile, config.deep_view(), version@),
        ),
{
    if same_text(&source.path, destination) {
        return Err("source and destination must differ".to_owned());
    }
    if !has_suitable_name(profile, destination) {
        return Err("AV1 destination must use the .mkv extension".to_owned());
    }
    let name = match file_name_of(destination) {
        Some(name) => name,
        None => {
            return Err("destination file name must be UTF-8".to_owned());
        },
    };
    let manifest = replace_file_name(destination, &cat2(&name, ".marchiver.pkl"));
    let mut plan = ArchivePlan {
        schema_version: SCHEMA_VERSION,
        kind: "ArchivePlan".to_owned(),
        producer_version: version.to_owned(),
        transaction_id: String::new(),
        profile,
        source_disposition: config.source_disposition,
        duration_tolerance_seconds: config.duration_tolerance_seconds.copy(),
        av1: config.av1.copy(),
        source,
        destination_path: destination.to_owned(),
        manifest_path: manifest,
    };
    assert(plan.transaction_id@ =~= Seq::empty());
    plan.transaction_id = match transaction_id(&plan) {
        Some(id) => id,
        None => String::new(),
    };
    validate_plan(&plan)?;
    Ok(plan)
}

/// An identifier can stand as one name in a path.
proof fn lemma_identifier_is_plain(text: Seq<char>)
    requires
        identifier(text),
    ensures
        plain_name(text),
{
    reveal_strlit(".");
    reveal_strlit("..");
    assert forall|i: int| 0 <= i < text.len() implies text[i] != '/' by {
        assert(hex_digit(text[i]));
    }
}

/// A plan that is made follows the rules, and keeps what it was made from.
pub proof fn law_planned_is_valid(
    source: EvidenceView,
    destination: Seq<char>,
    profile: Profile,
    config: ConfigView,
    version: Seq<char>,
)
    ensures
        planned(source, destination, profile, config, version) matches Ok(plan) ==> {
            &&& plan_check(plan) is Ok
            &&& plan.source == source
            &&& plan.destination_path == destination
            &&& plan.profile == profile
            &&& plan.source_disposition == config.source_disposition
            &&& plan.av1 == config.av1
            &&& plan.duration_tolerance_seconds == config.duration_tolerance_seconds
            &&& transaction_text(plan) == Some(plan.transaction_id)
        },
{
}

/// A plan is made for every sound source and configuration and every free
/// destination that suits the profile.
pub proof fn law_sound_plans_are_made(
    source: EvidenceView,
    destination: Seq<char>,
    profile: Profile,
    config: ConfigView,
    version: Seq<char>,
)
    requires
        config_check(config) is Ok,
        version.len() > 0,
        absolute(source.path),
        hash_text(source.sha256),
        absolute(destination),
        file_name(destination) is Some,
        !same_path(source.path, destination),
        suits_profile(profile, destination),
        identity_bytes(
            unidentified_plan(
                source,
                destination,
                manifest_place(destination)->0,
                profile,
                config,
                version,
            ),
        ).len() <= LONGEST_MESSAGE,
    ensures
        planned(source, destination, profile, config, version) is Ok,
{
    let name = file_name(destination)->0;
    let sibling = name + ".marchiver.pkl"@;
    law_split_then_join(destination);
    reveal_strlit(".marchiver.pkl");
    reveal_strlit(".");
    reveal_strlit("..");
    assert forall|i: int| 0 <= i < sibling.len() implies sibling[i] != '/' by {
        if i < name.len() {
            assert(sibling[i] == name[i]);
        } else {
            assert(sibling[i] == ".marchiver.pkl"@[i - name.len()]);
        }
    }
    law_sibling_shares_directory(destination, sibling);
    let manifest = manifest_place(destination)->0;
    let bare = unidentified_plan(source, destination, manifest, profile, config, version);
    let plan = identified(bare);
    assert(identity_bytes(plan) == identity_bytes(bare));
}

/// The manifest of a valid plan follows the rules, given an output at the plan's
/// destination.
pub proof fn law_manifest_of_valid_plan_is_valid(
    plan: PlanView,
    output: EvidenceView,
    version: Seq<char>,
)
    requires
        plan_check(plan) is Ok,
        version.len() > 0,
        output.path == plan.destination_path,
        hash_text(output.sha256),
    ensures
        quarantine_text(plan) matches Ok(quarantine) ==> manifest_check(
            manifest_of(plan, output, quarantine, version),
        ) is Ok,
{
    if let Ok(quarantine) = quarantine_text(plan) {
        let manifest = manifest_of(plan, output, quarantine, version);
        let again = plan_of(manifest);
        assert(identity_bytes(again) == identity_bytes(plan));
        assert(plan_check(again) is Ok);
        assert(quarantine_text(again) == quarantine_text(plan));
    }
}

/// A quarantined source keeps its name, in a directory of its transaction's own
/// below the source's directory; so it is never where the source is.
pub proof fn law_quarantine_is_beside_the_source(plan: PlanView, quarantine: Seq<char>)
    requires
        identifier(plan.transaction_id),
        quarantine_text(plan) == Ok::<Option<Seq<char>>, Seq<char>>(Some(quarantine)),
    ensures
        parent(plan.source.path) is Some,
        file_name(quarantine) == file_name(plan.source.path),
        absolute(quarantine) == absolute(plan.source.path),
        names(quarantine, quarantine.len() as int) == names(
            parent(plan.source.path)->0,
            parent(plan.source.path)->0.len() as int,
        ).push(".marchiver-quarantine"@).push(plan.transaction_id).push(
            file_name(plan.source.path)->0,
        ),
        !same_path(quarantine, plan.source.path),
        quarantine != plan.source.path,
{
    let source = plan.source.path;
    let directory = parent(source)->0;
    let name = file_name(source)->0;
    law_split_then_join(source);
    lemma_identifier_is_plain(plan.transaction_id);
    reveal_strlit(".marchiver-quarantine");
    reveal_strlit(".");
    reveal_strlit("..");
    let root = joined(directory, ".marchiver-quarantine"@);
    let own = joined(root, plan.transaction_id);
    law_join_then_split(directory, ".marchiver-quarantine"@);
    law_join_then_split(root, plan.transaction_id);
    law_join_then_split(own, name);
    assert(names(quarantine, quarantine.len() as int).len() == names(
        source,
        source.len() as int,
    ).len() + 2);
}

} // verus!
