//! The reading of documents: each is checked as a bare document before it is
//! read, and by its own rules after.
use vstd::prelude::*;
use vstd::string::*;

use crate::flow::{
    agrees, chain, done, evaluate_config_step, evaluate_journal_step, evaluate_manifest_step,
    evaluate_plan_step, fail, failure, follows, resolve_step, settle, settled, Evaluated, Outcome,
    Reply, Step, Stop, Tape,
};
use crate::model::{
    ArchiveManifest, ArchivePlan, Config, ConfigView, Journal, JournalView, ManifestView, PlanView,
    SCHEMA_VERSION,
};
use crate::os_text::{raw, shown, OsText};
use crate::pkl::{document_check, require_document, require_schema, schema_check};
use crate::plan::{
    config_check, manifest_check, plan_check, validate_config, validate_manifest_contents,
    validate_plan,
};
use crate::text::{cat2, same_text};

verus! {

/// The configuration in an evaluated document, or why it is none.
pub open spec fn config_in(evaluated: Evaluated<Config>) -> Result<ConfigView, Seq<char>> {
    match schema_check(evaluated.document, "Config"@) {
        Err(message) => Err(message),
        Ok(()) => match evaluated.decoded {
            Err(error) => Err("invalid Config Pkl: "@ + error@),
            Ok(config) => match config_check(config.deep_view()) {
                Err(message) => Err(message),
                Ok(()) => Ok(config.deep_view()),
            },
        },
    }
}

/// Takes the configuration out of an evaluated document.
pub fn take_config<'a>(evaluated: &'a Evaluated<Config>) -> (result: Result<&'a Config, String>)
    ensures
        agrees(result, config_in(*evaluated)),
{
    require_schema(&evaluated.document, "Config")?;
    match &evaluated.decoded {
        Err(error) => Err(cat2("invalid Config Pkl: ", error)),
        Ok(config) => {
            validate_config(config)?;
            Ok(config)
        },
    }
}

/// A configuration loaded: a file's, or the built-in one.
#[verifier::opaque]
pub open spec fn load_config_step(path: Option<Seq<u8>>, r: Seq<Reply>, at: int) -> Step<
    ConfigView,
> {
    chain(
        evaluate_config_step(path, r, at),
        |evaluated: Evaluated<Config>, at: int| settled(config_in(evaluated), at),
    )
}

/// Loads a configuration: a file's, or the built-in one.
pub fn load_config<'a>(tape: &mut Tape<'a>, path: &Option<OsText>) -> (result: Result<
    &'a Config,
    Stop,
>)
    ensures
        follows(
            *old(tape),
            *final(tape),
            result,
            load_config_step(path.deep_view(), old(tape).replies@, old(tape).at as int),
        ),
{
    proof {
        reveal(load_config_step);
    }
    let evaluated = tape.evaluate_config(path)?;
    settle(take_config(evaluated))
}

/// The plan in an evaluated document, or why it is none.
pub open spec fn plan_in(evaluated: Evaluated<ArchivePlan>) -> Result<PlanView, Seq<char>> {
    match document_check(evaluated.document, "ArchivePlan"@) {
        Err(message) => Err(message),
        Ok(()) => match evaluated.decoded {
            Err(error) => Err("invalid ArchivePlan Pkl: "@ + error@),
            Ok(plan) => match plan_check(plan.deep_view()) {
                Err(message) => Err(message),
                Ok(()) => Ok(plan.deep_view()),
            },
        },
    }
}

/// Takes the plan out of an evaluated document.
pub fn take_plan<'a>(evaluated: &'a Evaluated<ArchivePlan>) -> (result: Result<
    &'a ArchivePlan,
    String,
>)
    ensures
        agrees(result, plan_in(*evaluated)),
{
    require_document(&evaluated.document, "ArchivePlan")?;
    match &evaluated.decoded {
        Err(error) => Err(cat2("invalid ArchivePlan Pkl: ", error)),
        Ok(plan) => {
            validate_plan(plan)?;
            Ok(plan)
        },
    }
}

/// A plan loaded.
#[verifier::opaque]
pub open spec fn load_plan_step(path: Seq<u8>, r: Seq<Reply>, at: int) -> Step<PlanView> {
    chain(
        evaluate_plan_step(path, r, at),
        |evaluated: Evaluated<ArchivePlan>, at: int| settled(plan_in(evaluated), at),
    )
}

/// Loads a plan.
pub fn load_plan<'a>(tape: &mut Tape<'a>, path: &OsText) -> (result: Result<&'a ArchivePlan, Stop>)
    ensures
        follows(
            *old(tape),
            *final(tape),
            result,
            load_plan_step(path@, old(tape).replies@, old(tape).at as int),
        ),
{
    proof {
        reveal(load_plan_step);
    }
    let evaluated = tape.evaluate_plan(path)?;
    settle(take_plan(evaluated))
}

/// The manifest in an evaluated document, or why it is none.
pub open spec fn manifest_in(evaluated: Evaluated<ArchiveManifest>) -> Result<
    ManifestView,
    Seq<char>,
> {
    match document_check(evaluated.document, "ArchiveManifest"@) {
        Err(message) => Err(message),
        Ok(()) => match evaluated.decoded {
            Err(error) => Err("invalid ArchiveManifest Pkl: "@ + error@),
            Ok(manifest) => Ok(manifest.deep_view()),
        },
    }
}

/// Takes the manifest out of an evaluated document.
pub fn take_manifest<'a>(evaluated: &'a Evaluated<ArchiveManifest>) -> (result: Result<
    &'a ArchiveManifest,
    String,
>)
    ensures
        agrees(result, manifest_in(*evaluated)),
{
    require_document(&evaluated.document, "ArchiveManifest")?;
    match &evaluated.decoded {
        Err(error) => Err(cat2("invalid ArchiveManifest Pkl: ", error)),
        Ok(manifest) => Ok(manifest),
    }
}

/// A manifest checked: its contents, and that it stands where it says.
#[verifier::opaque]
pub open spec fn validate_manifest_step(
    manifest: ManifestView,
    loaded_from: Option<Seq<u8>>,
    r: Seq<Reply>,
    at: int,
) -> Step<()> {
    chain(
        settled(manifest_check(manifest), at),
        |_sound: (), at: int|
            match loaded_from {
                None => done((), at),
                Some(path) => chain(
                    resolve_step(path, "cannot resolve manifest '"@ + shown(path) + "'"@, r, at),
                    |loaded: Seq<u8>, at: int|
                        chain(
                            resolve_step(
                                raw(manifest.manifest_path),
                                "cannot resolve declared manifest path"@,
                                r,
                                at,
                            ),
                            |declared: Seq<u8>, at: int|
                                if loaded == declared {
                                    done((), at)
                                } else {
                                    fail(
                                        "manifestPath does not identify the loaded manifest"@,
                                        at,
                                    )
                                },
                        ),
                ),
            },
    )
}

/// Accepts a manifest whose contents follow the rules and which stands where it
/// says.
pub fn validate_manifest(
    tape: &mut Tape,
    manifest: &ArchiveManifest,
    loaded_from: Option<&OsText>,
) -> (result: Result<(), Stop>)
    ensures
        follows(
            *old(tape),
            *final(tape),
            result,
            validate_manifest_step(
                manifest.deep_view(),
                match loaded_from {
                    Some(path) => Some(path@),
                    None => None,
                },
                old(tape).replies@,
                old(tape).at as int,
            ),
        ),
{
    proof {
        reveal(validate_manifest_step);
    }
    settle(validate_manifest_contents(manifest))?;
    if let Some(path) = loaded_from {
        let loaded = tape.resolve(path, &path.show_in("cannot resolve manifest '", "'"))?;
        let declared = tape.resolve(
            &OsText::of(&manifest.manifest_path),
            "cannot resolve declared manifest path",
        )?;
        if !loaded.same(declared) {
            return Err(failure("manifestPath does not identify the loaded manifest"));
        }
    }
    Ok(())
}

/// A manifest loaded.
#[verifier::opaque]
pub open spec fn load_manifest_step(path: Seq<u8>, r: Seq<Reply>, at: int) -> Step<
    ManifestView,
> {
    chain(
        evaluate_manifest_step(path, r, at),
        |evaluated: Evaluated<ArchiveManifest>, at: int|
            chain(
                settled(manifest_in(evaluated), at),
                |manifest: ManifestView, at: int|
                    chain(
                        validate_manifest_step(manifest, Some(path), r, at),
                        |_valid: (), at: int| done(manifest, at),
                    ),
            ),
    )
}

/// Loads a manifest.
pub fn load_manifest<'a>(tape: &mut Tape<'a>, path: &OsText) -> (result: Result<
    &'a ArchiveManifest,
    Stop,
>)
    ensures
        follows(
            *old(tape),
            *final(tape),
            result,
            load_manifest_step(path@, old(tape).replies@, old(tape).at as int),
        ),
{
    proof {
        reveal(load_manifest_step);
    }
    let evaluated = tape.evaluate_manifest(path)?;
    let manifest = settle(take_manifest(evaluated))?;
    validate_manifest(tape, manifest, Some(path))?;
    Ok(manifest)
}

/// The journal in an evaluated document, or why it is none.
pub open spec fn journal_in(evaluated: Evaluated<Journal>) -> Result<JournalView, Seq<char>> {
    match document_check(evaluated.document, "ArchiveJournal"@) {
        Err(message) => Err(message),
        Ok(()) => match evaluated.decoded {
            Err(error) => Err("invalid ArchiveJournal Pkl: "@ + error@),
            Ok(journal) => if journal.schema_version != SCHEMA_VERSION || journal.kind@
                != "ArchiveJournal"@ {
                Err("invalid archive journal identity"@)
            } else {
                Ok(journal.deep_view())
            },
        },
    }
}

/// Takes the journal out of an evaluated document.
pub fn take_journal<'a>(evaluated: &'a Evaluated<Journal>) -> (result: Result<&'a Journal, String>)
    ensures
        agrees(result, journal_in(*evaluated)),
{
    require_document(&evaluated.document, "ArchiveJournal")?;
    match &evaluated.decoded {
        Err(error) => Err(cat2("invalid ArchiveJournal Pkl: ", error)),
        Ok(journal) => if journal.schema_version != SCHEMA_VERSION || !same_text(
            &journal.kind,
            "ArchiveJournal",
        ) {
            Err("invalid archive journal identity".to_owned())
        } else {
            Ok(journal)
        },
    }
}

/// A journal loaded.
#[verifier::opaque]
pub open spec fn load_journal_step(path: Seq<u8>, r: Seq<Reply>, at: int) -> Step<JournalView> {
    chain(
        evaluate_journal_step(path, r, at),
        |evaluated: Evaluated<Journal>, at: int| settled(journal_in(evaluated), at),
    )
}

/// Loads a journal.
pub fn load_journal<'a>(tape: &mut Tape<'a>, path: &OsText) -> (result: Result<&'a Journal, Stop>)
    ensures
        follows(
            *old(tape),
            *final(tape),
            result,
            load_journal_step(path@, old(tape).replies@, old(tape).at as int),
        ),
{
    proof {
        reveal(load_journal_step);
    }
    let evaluated = tape.evaluate_journal(path)?;
    settle(take_journal(evaluated))
}

/// A document of another schema version is refused for that, whatever it would
/// have been read as.
pub proof fn law_schema_comes_first(
    config: Evaluated<Config>,
    plan: Evaluated<ArchivePlan>,
    manifest: Evaluated<ArchiveManifest>,
    journal: Evaluated<Journal>,
)
    ensures
        schema_check(config.document, "Config"@) matches Err(message) ==> config_in(config)
            == Err::<ConfigView, Seq<char>>(message),
        schema_check(plan.document, "ArchivePlan"@) matches Err(message) ==> plan_in(plan)
            == Err::<PlanView, Seq<char>>(message),
        schema_check(manifest.document, "ArchiveManifest"@) matches Err(message) ==> manifest_in(
            manifest,
        ) == Err::<ManifestView, Seq<char>>(message),
        schema_check(journal.document, "ArchiveJournal"@) matches Err(message) ==> journal_in(
            journal,
        ) == Err::<JournalView, Seq<char>>(message),
{
}

/// What is read from a document follows the rules of its kind.
pub proof fn law_read_documents_are_valid(
    config: Evaluated<Config>,
    plan: Evaluated<ArchivePlan>,
    path: Seq<u8>,
    r: Seq<Reply>,
    at: int,
)
    ensures
        config_in(config) matches Ok(view) ==> config_check(view) is Ok,
        plan_in(plan) matches Ok(view) ==> plan_check(view) is Ok,
        load_manifest_step(path, r, at).outcome matches Outcome::Done(view) ==> manifest_check(
            view,
        ) is Ok,
{
    reveal(load_manifest_step);
    reveal(validate_manifest_step);
}

} // verus!
