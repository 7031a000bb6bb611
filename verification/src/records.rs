//! What the commands write down, and where: plans, inspections, manifests and journals.
use vstd::prelude::*;
use vstd::string::*;
use vstd::utf8::{decode_utf8, valid_utf8};

use crate::apply::{apply_step, execute_step};
use crate::command::{
    final_destination_step, inspection_of, make_plan_step, run_inspect_step, run_plan_step,
    run_step, startup_of, CommandView, SessionView, Startup,
};
use crate::disposal::{restore_step, verify_manifest_step};
use crate::findings::law_inspection_records_what_was_found;
use crate::flow::{fail, Evaluated, Outcome, Reply, RequestView};
use crate::inspect::{inspect_step, path_text};
use crate::load::{config_in, load_config_step, load_manifest_step, load_plan_step};
use crate::model::{Config, ConfigView, EvidenceView, InspectionView, PlanView, Profile};
use crate::os_text::{law_read_texts_have_their_bytes, raw, shown};
use crate::path::{raw_file_name, raw_joined, raw_parent_directory};
use crate::plan::planned;
use crate::render::{inspection_text, plan_text};
use crate::replay::count_inspect;
use crate::rules::{
    law_documents_are_loaded_from_where_they_are_named, law_plans_say_what_was_asked,
};
use crate::storage::{
    drop_name_step, law_output_is_prepared_elsewhere, link_or_remove_step, output_place,
    publish_new_step, text_name, write_user_output_step,
};
use crate::trace::counted;

verus! {

/// The requests by which a new file comes to its place: it is written under a name of
/// its own, linked to its place, and its first name is taken away; each change of a
/// directory is made durable.
pub open spec fn new_file_requests(
    temporary: Seq<u8>,
    path: Seq<u8>,
    contents: Seq<char>,
) -> Seq<RequestView> {
    seq![
        RequestView::WriteNew { path: temporary, contents },
        RequestView::HardLink { from: temporary, to: path },
        RequestView::SyncDirectory { path: raw_parent_directory(path) },
        RequestView::Remove { path: temporary },
        RequestView::SyncDirectory { path: raw_parent_directory(temporary) },
    ]
}

/// A new file is in its place once it is written, linked and its first name gone, and
/// all of that is durable.
pub proof fn law_new_files_are_written_linked_and_synced(
    temporary: Seq<u8>,
    path: Seq<u8>,
    contents: Seq<char>,
    refusal: Seq<char>,
    leftover: Seq<char>,
    r: Seq<Reply>,
    at: int,
)
    ensures
        ({
            let step = publish_new_step(temporary, path, contents, refusal, leftover, r, at);
            &&& step.outcome is Done ==> {
                &&& step.asked == new_file_requests(temporary, path, contents)
                &&& step.at == at + 5
                &&& 0 <= at && at + 5 <= r.len()
                &&& forall|i: int| at <= i < at + 5 ==> #[trigger] r[i] is Finished
            }
            &&& 0 <= at && at + 5 <= r.len() && (forall|i: int|
                at <= i < at + 5 ==> #[trigger] r[i] is Finished) ==> step.outcome is Done
        }),
{
    reveal(publish_new_step);
    reveal(link_or_remove_step);
    reveal(drop_name_step);
    let step = publish_new_step(temporary, path, contents, refusal, leftover, r, at);
    if step.outcome is Done {
        assert(step.asked =~= new_file_requests(temporary, path, contents));
    }
    if 0 <= at && at + 5 <= r.len() && (forall|i: int|
        at <= i < at + 5 ==> #[trigger] r[i] is Finished) {
        assert(r[at] is Finished && r[at + 1] is Finished && r[at + 2] is Finished && r[at + 3]
            is Finished && r[at + 4] is Finished);
    }
}

/// Whether a workflow wrote a new file for the user, at a position among its requests.
pub open spec fn wrote_for_user(
    asked: Seq<RequestView>,
    from: int,
    path: Seq<u8>,
    contents: Seq<char>,
) -> bool {
    exists|temporary: Seq<u8>|
        temporary != path && asked.skip(from) == #[trigger] new_file_requests(
            temporary,
            path,
            contents,
        )
}

proof fn lemma_wrote_for_user(
    path: Seq<u8>,
    contents: Seq<char>,
    process: nat,
    r: Seq<Reply>,
    at: int,
)
    ensures
        write_user_output_step(path, contents, process, r, at).outcome is Done ==> {
            &&& exists|temporary: Seq<u8>|
                temporary != path && write_user_output_step(path, contents, process, r, at).asked
                    == #[trigger] new_file_requests(temporary, path, contents)
            &&& write_user_output_step(path, contents, process, r, at).at == at + 5
        },
{
    if let Some(name) = text_name(path) {
        let temporary = output_place(path, name, process);
        law_new_files_are_written_linked_and_synced(
            temporary,
            path,
            contents,
            "refusing to replace output '"@ + shown(path) + "'"@,
            "cannot remove output staging file"@,
            r,
            at,
        );
        law_output_is_prepared_elsewhere(path, process);
    }
}

/// Whether a document of an inspection says what was found, who found it, and what it
/// is.
pub open spec fn inspection_says(
    inspection: InspectionView,
    evidence: EvidenceView,
    version: Seq<char>,
) -> bool {
    &&& inspection.schema_version == 1
    &&& inspection.kind == "ArchiveInspection"@
    &&& inspection.producer_version == version
    &&& inspection.evidence == evidence
}

/// The inspection command reports the evidence that inspecting the named file gave:
/// it is printed, or written to the named file and to no file that was there.
pub proof fn law_inspections_report_what_was_found(
    source: Seq<u8>,
    report: Option<Seq<u8>>,
    session: SessionView,
    r: Seq<Reply>,
    at: int,
)
    ensures
        ({
            let command = CommandView::Inspect { source, report };
            let step = run_step(command, session, r, at);
            let inspection = inspect_step(source, r, at);
            &&& inspection.outcome matches Outcome::Fail(message) ==> step.outcome
                == Outcome::<Option<Seq<char>>>::Fail(message)
            &&& step.outcome matches Outcome::Done(message) ==> {
                &&& inspection.outcome is Done
                &&& step.asked.take(7) == inspection.asked
                &&& exists|document: InspectionView|
                    {
                        &&& inspection_says(
                            document,
                            inspection.outcome->Done_0,
                            session.version,
                        )
                        &&& match report {
                            Some(path) => wrote_for_user(
                                step.asked,
                                7,
                                path,
                                #[trigger] inspection_text(document),
                            ) && message == Some(shown(path)),
                            None => step.asked.skip(7) == seq![
                                RequestView::Print { text: inspection_text(document) },
                            ] && message is None,
                        }
                    }
            }
        }),
{
    reveal(run_inspect_step);
    let step = run_step(CommandView::Inspect { source, report }, session, r, at);
    let inspection = inspect_step(source, r, at);
    law_inspection_records_what_was_found(source, r, at);
    if let Outcome::Done(message) = step.outcome {
        let evidence = inspection.outcome->Done_0;
        let document = InspectionView {
            schema_version: 1,
            kind: "ArchiveInspection"@,
            producer_version: session.version,
            evidence,
        };
        let text = inspection_text(document);
        assert(step.asked.take(7) =~= inspection.asked);
        if let Some(path) = report {
            lemma_wrote_for_user(path, text, session.process, r, inspection.at);
            let write = write_user_output_step(path, text, session.process, r, inspection.at);
            assert(step.asked.skip(7) =~= write.asked);
            assert(wrote_for_user(step.asked, 7, path, text));
        } else {
            assert(step.asked.skip(7) =~= seq![RequestView::Print { text }]);
        }
    }
}

/// Whether a plan is the one that was asked for: made from the evidence and the
/// configuration that were had, with the profile that was named or else the
/// configuration's own.
pub open spec fn plan_asked_for(
    plan: PlanView,
    source: EvidenceView,
    profile: Option<Profile>,
    config: ConfigView,
    version: Seq<char>,
) -> bool {
    &&& plan.schema_version == 1
    &&& plan.kind == "ArchivePlan"@
    &&& plan.producer_version == version
    &&& profile is Some ==> plan.profile == profile->0
    &&& profile is None ==> plan.profile == config.default_profile
    &&& plan.source_disposition == config.source_disposition
    &&& plan.duration_tolerance_seconds == config.duration_tolerance_seconds
    &&& plan.av1 == config.av1
    &&& plan.source == source
}

/// The planning command reads the named configuration, or the built-in one; inspects
/// the named source; takes the destination's name in the canonical directory it leads
/// to, where nothing stands; and writes the plan that these give to the named file,
/// and to no file that was there.
pub proof fn law_plans_are_written_as_asked(
    source: Seq<u8>,
    destination: Seq<u8>,
    profile: Option<Profile>,
    config: Option<Seq<u8>>,
    output: Seq<u8>,
    session: SessionView,
    r: Seq<Reply>,
    at: int,
)
    ensures
        ({
            let command = CommandView::Plan { source, destination, profile, config, output };
            let step = run_step(command, session, r, at);
            let inspection = inspect_step(source, r, at + 1);
            step.outcome matches Outcome::Done(message) ==> {
                &&& message == Some(shown(output))
                &&& 0 <= at && at + 16 <= r.len()
                &&& r[at] is Config && r[at]->Config_0.decoded is Ok
                &&& inspection.outcome is Done
                &&& r[at + 8] == Reply::Flag(false)
                &&& r[at + 9] is Resolved
                &&& r[at + 10] == Reply::Flag(true)
                &&& raw_file_name(destination) is Some
                &&& step.asked[0] == (RequestView::EvaluateConfig { file: config })
                &&& step.asked.subrange(1, 8) == inspection.asked
                &&& step.asked[8] == (RequestView::Exists { path: destination })
                &&& step.asked[9] == (RequestView::Resolve {
                    path: raw_parent_directory(destination),
                })
                &&& step.asked[10] == (RequestView::IsDirectory {
                    path: r[at + 9]->Resolved_0@,
                })
                &&& exists|plan: PlanView|
                    {
                        &&& plan_asked_for(
                            plan,
                            inspection.outcome->Done_0,
                            profile,
                            r[at]->Config_0.decoded->Ok_0.deep_view(),
                            session.version,
                        )
                        &&& raw(plan.destination_path) == raw_joined(
                            r[at + 9]->Resolved_0@,
                            raw_file_name(destination)->0,
                        )
                        &&& wrote_for_user(step.asked, 11, output, #[trigger] plan_text(plan))
                    }
            }
        }),
{
    let command = CommandView::Plan { source, destination, profile, config, output };
    let step = run_step(command, session, r, at);
    let inspection = inspect_step(source, r, at + 1);
    law_documents_are_loaded_from_where_they_are_named(config, output, r, at);
    let load = load_config_step(config, r, at);
    if step.outcome is Done {
        assert(load.outcome is Done) by {
            reveal(run_plan_step);
        }
        let settings = load.outcome->Done_0;
        let wanted = match profile {
            Some(profile) => profile,
            None => settings.default_profile,
        };
        let make = make_plan_step(
            source,
            destination,
            wanted,
            settings,
            session.version,
            r,
            at + 1,
        );
        assert(make.outcome is Done) by {
            reveal(run_plan_step);
        }
        lemma_made(source, destination, wanted, settings, session.version, r, at + 1);
        let plan = make.outcome->Done_0;
        let text = plan_text(plan);
        let write = write_user_output_step(output, text, session.process, r, make.at);
        assert(write.outcome is Done && step.outcome == Outcome::Done(Some(shown(output)))) by {
            reveal(run_plan_step);
        }
        assert(step.asked =~= load.asked + (make.asked + write.asked)) by {
            reveal(run_plan_step);
        }
        lemma_read_config(r[at]->Config_0);
        lemma_wrote_for_user(output, text, session.process, r, at + 11);
        assert(step.asked.skip(11) =~= write.asked);
        assert(step.asked.subrange(1, 8) =~= make.asked.take(7));
        assert(step.asked[8] == make.asked[7] && step.asked[9] == make.asked[8] && step.asked[10]
            == make.asked[9]);
        assert(wrote_for_user(step.asked, 11, output, text));
        assert(at + 16 <= r.len()) by {
            let name = text_name(output)->0;
            law_new_files_are_written_linked_and_synced(
                output_place(output, name, session.process),
                output,
                text,
                "refusing to replace output '"@ + shown(output) + "'"@,
                "cannot remove output staging file"@,
                r,
                at + 11,
            );
        }
    }
}

/// A destination that is taken is free, and in the canonical directory it leads to.
proof fn lemma_placed(destination: Seq<u8>, r: Seq<Reply>, at: int)
    ensures
        final_destination_step(destination, r, at).outcome matches Outcome::Done(file) ==> {
            &&& 0 <= at && at + 3 <= r.len()
            &&& r[at] == Reply::Flag(false)
            &&& r[at + 1] is Resolved
            &&& r[at + 2] == Reply::Flag(true)
            &&& raw_file_name(destination) is Some
            &&& file == raw_joined(r[at + 1]->Resolved_0@, raw_file_name(destination)->0)
            &&& final_destination_step(destination, r, at).at == at + 3
            &&& final_destination_step(destination, r, at).asked == seq![
                RequestView::Exists { path: destination },
                RequestView::Resolve { path: raw_parent_directory(destination) },
                RequestView::IsDirectory { path: r[at + 1]->Resolved_0@ },
            ]
        },
{
    reveal(final_destination_step);
    let place = final_destination_step(destination, r, at);
    if place.outcome is Done {
        assert(place.asked =~= seq![
            RequestView::Exists { path: destination },
            RequestView::Resolve { path: raw_parent_directory(destination) },
            RequestView::IsDirectory { path: r[at + 1]->Resolved_0@ },
        ]);
    }
}

/// A plan that is made is made of the source's evidence and a free destination.
#[verifier::spinoff_prover]
proof fn lemma_made(
    source: Seq<u8>,
    destination: Seq<u8>,
    profile: Profile,
    config: ConfigView,
    version: Seq<char>,
    r: Seq<Reply>,
    at: int,
)
    ensures
        ({
            let make = make_plan_step(source, destination, profile, config, version, r, at);
            let inspection = inspect_step(source, r, at);
            make.outcome matches Outcome::Done(plan) ==> {
                &&& 0 <= at && at + 10 <= r.len()
                &&& inspection.outcome is Done
                &&& r[at + 7] == Reply::Flag(false)
                &&& r[at + 8] is Resolved
                &&& r[at + 9] == Reply::Flag(true)
                &&& raw_file_name(destination) is Some
                &&& plan_asked_for(
                    plan,
                    inspection.outcome->Done_0,
                    Some(profile),
                    config,
                    version,
                )
                &&& raw(plan.destination_path) == raw_joined(
                    r[at + 8]->Resolved_0@,
                    raw_file_name(destination)->0,
                )
                &&& make.at == at + 10
                &&& make.asked.len() == 10
                &&& make.asked.take(7) == inspection.asked
                &&& make.asked[7] == (RequestView::Exists { path: destination })
                &&& make.asked[8] == (RequestView::Resolve {
                    path: raw_parent_directory(destination),
                })
                &&& make.asked[9] == (RequestView::IsDirectory { path: r[at + 8]->Resolved_0@ })
            }
        }),
{
    reveal(make_plan_step);
    let make = make_plan_step(source, destination, profile, config, version, r, at);
    let inspection = inspect_step(source, r, at);
    if let Outcome::Done(plan) = make.outcome {
        law_inspection_records_what_was_found(source, r, at);
        count_inspect(source, r, at);
        reveal(counted);
        let evidence = inspection.outcome->Done_0;
        let place = final_destination_step(destination, r, at + 7);
        lemma_placed(destination, r, at + 7);
        let file = place.outcome->Done_0;
        law_read_texts_have_their_bytes(file);
        assert(make.asked =~= inspection.asked + place.asked);
        assert(make.asked.take(7) =~= inspection.asked);
        law_plans_say_what_was_asked(evidence, plan.destination_path, profile, config, version);
        let text = path_text(file)->Ok_0;
        law_plans_say_what_was_asked(evidence, text, profile, config, version);
    }
}

proof fn lemma_read_config(evaluated: Evaluated<Config>)
    ensures
        config_in(evaluated) matches Ok(view) ==> evaluated.decoded is Ok && view
            == evaluated.decoded->Ok_0.deep_view(),
{
}

/// A destination without a name, one at which something stands, and one whose
/// directory is none, are refused for that.
pub proof fn law_unfit_destinations_are_refused(destination: Seq<u8>, r: Seq<Reply>, at: int)
    requires
        0 <= at && at + 3 <= r.len(),
    ensures
        ({
            let outcome = final_destination_step(destination, r, at).outcome;
            let named = raw_file_name(destination) is Some;
            let free = named && r[at] == Reply::Flag(false);
            &&& !named ==> outcome == Outcome::<Seq<u8>>::Fail(
                "destination must be a final file path"@,
            )
            &&& named && r[at] == Reply::Flag(true) ==> outcome == Outcome::<Seq<u8>>::Fail(
                "destination already exists: "@ + shown(destination),
            )
            &&& free && r[at + 1] is Resolved && r[at + 2] == Reply::Flag(false) ==> outcome
                == Outcome::<Seq<u8>>::Fail("destination parent is not a directory"@)
            &&& free && r[at + 1] is Resolved && r[at + 2] == Reply::Flag(true) ==> outcome
                == Outcome::Done(
                raw_joined(r[at + 1]->Resolved_0@, raw_file_name(destination)->0),
            )
        }),
{
    reveal(final_destination_step);
}

/// Applying, verifying and restoring work on the file that was named: a plan is
/// carried out as read from there; an output is verified and a source restored by the
/// manifest that was loaded from there. At the end it is said what was verified or
/// restored, and a failure is passed on.
pub proof fn law_commands_work_on_what_was_named(
    path: Seq<u8>,
    session: SessionView,
    r: Seq<Reply>,
    at: int,
)
    ensures
        ({
            let apply = run_step(CommandView::Apply { plan: path }, session, r, at);
            let verify = run_step(CommandView::Verify { manifest: path }, session, r, at);
            let restore = run_step(CommandView::Restore { manifest: path }, session, r, at);
            let plan = load_plan_step(path, r, at);
            let manifest = load_manifest_step(path, r, at);
            &&& plan.outcome matches Outcome::Done(plan_read) ==> {
                let run = execute_step(plan_read, session.version, r, plan.at);
                &&& apply.asked == plan.asked + run.asked
                &&& match run.outcome {
                    Outcome::Done(message) => apply.outcome == Outcome::Done(Some(message)),
                    Outcome::Ask(request) => apply.outcome == Outcome::<Option<Seq<char>>>::Ask(
                        request,
                    ),
                    Outcome::Fail(message) => apply.outcome == Outcome::<Option<Seq<char>>>::Fail(
                        message,
                    ),
                }
            }
            &&& plan.outcome !is Done ==> apply.outcome !is Done && apply.asked == plan.asked
            &&& manifest.outcome matches Outcome::Done(read) ==> {
                let verification = verify_manifest_step(read, r, manifest.at);
                let restoration = restore_step(read, r, manifest.at);
                &&& verify.asked == manifest.asked + verification.asked
                &&& verification.outcome is Done <==> verify.outcome is Done
                &&& verify.outcome is Done ==> verify.outcome == Outcome::Done(
                    Some("verified "@ + read.destination_path),
                )
                &&& verification.outcome matches Outcome::Fail(message) ==> verify.outcome
                    == Outcome::<Option<Seq<char>>>::Fail(message)
                &&& restore.asked == manifest.asked + restoration.asked
                &&& restoration.outcome is Done <==> restore.outcome is Done
                &&& restore.outcome is Done ==> restore.outcome == Outcome::Done(
                    Some("restored "@ + read.source.path),
                )
                &&& restoration.outcome matches Outcome::Fail(message) ==> restore.outcome
                    == Outcome::<Option<Seq<char>>>::Fail(message)
            }
            &&& manifest.outcome !is Done ==> {
                &&& verify.outcome !is Done && verify.asked == manifest.asked
                &&& restore.outcome !is Done && restore.asked == manifest.asked
            }
        }),
{
    reveal(apply_step);
    let apply = run_step(CommandView::Apply { plan: path }, session, r, at);
    let verify = run_step(CommandView::Verify { manifest: path }, session, r, at);
    let restore = run_step(CommandView::Restore { manifest: path }, session, r, at);
    let plan = load_plan_step(path, r, at);
    let manifest = load_manifest_step(path, r, at);
    if let Outcome::Done(plan_read) = plan.outcome {
        let run = execute_step(plan_read, session.version, r, plan.at);
        assert(apply.asked =~= plan.asked + run.asked);
    } else {
        assert(apply.asked =~= plan.asked);
    }
    if let Outcome::Done(read) = manifest.outcome {
        let verification = verify_manifest_step(read, r, manifest.at);
        let restoration = restore_step(read, r, manifest.at);
        assert(verify.asked =~= manifest.asked + verification.asked);
        assert(restore.asked =~= manifest.asked + restoration.asked);
    } else {
        assert(verify.asked =~= manifest.asked);
        assert(restore.asked =~= manifest.asked);
    }
}

/// The program says how it is used where it is started with nothing, or with the help
/// flag alone; it says its version where it is started with that flag alone; where
/// more follows one of these flags that is unknown; and anything else is a command.
pub proof fn law_programs_start_as_asked(arguments: Seq<Option<Seq<char>>>)
    ensures
        ({
            let help = arguments.len() > 1 && (arguments[1] == Some("-h"@) || arguments[1] == Some(
                "--help"@,
            ));
            let version = arguments.len() > 1 && (arguments[1] == Some("-V"@) || arguments[1]
                == Some("--version"@));
            let alone = arguments.len() == 2;
            &&& startup_of(arguments) == Startup::Help <==> arguments.len() == 1 || (help && alone)
            &&& startup_of(arguments) == Startup::Version <==> version && alone
            &&& startup_of(arguments) == Startup::Unknown <==> (help || version) && !alone
        }),
{
    reveal_strlit("-h");
    reveal_strlit("--help");
    reveal_strlit("-V");
    reveal_strlit("--version");
    assert("-h"@[1] != "-V"@[1] && "--help"@[1] != "-V"@[1]);
    assert("--help"@.len() != "--version"@.len());
}

/// What a user asked for is written exactly where its name is a text and all that is
/// asked for is done.
pub proof fn law_outputs_are_written_where_all_is_done(
    path: Seq<u8>,
    contents: Seq<char>,
    process: nat,
    r: Seq<Reply>,
    at: int,
)
    ensures
        write_user_output_step(path, contents, process, r, at).outcome is Done <==> {
            &&& text_name(path) is Some
            &&& 0 <= at && at + 5 <= r.len()
            &&& r[at] is Finished && r[at + 1] is Finished && r[at + 2] is Finished
            &&& r[at + 3] is Finished && r[at + 4] is Finished
        },
        text_name(path) is None ==> write_user_output_step(path, contents, process, r, at)
            == fail::<()>("output file name must be UTF-8"@, at),
{
    if let Some(name) = text_name(path) {
        law_new_files_are_written_linked_and_synced(
            output_place(path, name, process),
            path,
            contents,
            "refusing to replace output '"@ + shown(path) + "'"@,
            "cannot remove output staging file"@,
            r,
            at,
        );
        if 0 <= at && at + 5 <= r.len() && r[at] is Finished && r[at + 1] is Finished && r[at + 2]
            is Finished && r[at + 3] is Finished && r[at + 4] is Finished {
            assert forall|i: int| at <= i < at + 5 implies #[trigger] r[i] is Finished by {
                assert(i == at || i == at + 1 || i == at + 2 || i == at + 3 || i == at + 4);
            }
        }
    }
}

/// A plan is made exactly where the configuration is read, the source inspected, the
/// destination free and its path a text, the plan that these give accepted, and the
/// file written. What stands in the way is said: what is wrong with the plan itself
/// where nothing else is.
pub proof fn law_plans_are_made_where_all_went_well(
    source: Seq<u8>,
    destination: Seq<u8>,
    profile: Option<Profile>,
    config: Option<Seq<u8>>,
    output: Seq<u8>,
    session: SessionView,
    r: Seq<Reply>,
    at: int,
)
    ensures
        ({
            let command = CommandView::Plan { source, destination, profile, config, output };
            let step = run_step(command, session, r, at);
            let load = load_config_step(config, r, at);
            let settings = load.outcome->Done_0;
            let inspection = inspect_step(source, r, load.at);
            let place = final_destination_step(destination, r, inspection.at);
            let file = place.outcome->Done_0;
            let wanted = if profile is Some {
                profile->0
            } else {
                settings.default_profile
            };
            let plan = planned(
                inspection.outcome->Done_0,
                decode_utf8(file),
                wanted,
                settings,
                session.version,
            );
            let found = load.outcome is Done && inspection.outcome is Done;
            let placed = found && place.outcome is Done;
            let written = text_name(output) is Some && 0 <= place.at && place.at + 5 <= r.len()
                && r[place.at] is Finished && r[place.at + 1] is Finished && r[place.at + 2]
                is Finished && r[place.at + 3] is Finished && r[place.at + 4] is Finished;
            &&& step.outcome is Done <==> placed && valid_utf8(file) && plan is Ok && written
            &&& placed && valid_utf8(file) ==> (plan matches Err(message) ==> step.outcome
                == Outcome::<Option<Seq<char>>>::Fail(message))
            &&& placed && !valid_utf8(file) ==> step.outcome == Outcome::<Option<Seq<char>>>::Fail(
                "path is not valid UTF-8: "@ + shown(file),
            )
            &&& found ==> (place.outcome matches Outcome::Fail(message) ==> step.outcome
                == Outcome::<Option<Seq<char>>>::Fail(message))
            &&& load.outcome is Done ==> (inspection.outcome matches Outcome::Fail(message)
                ==> step.outcome == Outcome::<Option<Seq<char>>>::Fail(message))
            &&& load.outcome matches Outcome::Fail(message) ==> step.outcome == Outcome::<
                Option<Seq<char>>,
            >::Fail(message)
        }),
{
    reveal(run_plan_step);
    reveal(make_plan_step);
    let load = load_config_step(config, r, at);
    let settings = load.outcome->Done_0;
    let inspection = inspect_step(source, r, load.at);
    let place = final_destination_step(destination, r, inspection.at);
    let file = place.outcome->Done_0;
    let wanted = if profile is Some {
        profile->0
    } else {
        settings.default_profile
    };
    let plan = planned(
        inspection.outcome->Done_0,
        decode_utf8(file),
        wanted,
        settings,
        session.version,
    );
    if load.outcome is Done && inspection.outcome is Done && place.outcome is Done && valid_utf8(
        file,
    ) && plan is Ok {
        law_outputs_are_written_where_all_is_done(
            output,
            plan_text(plan->Ok_0),
            session.process,
            r,
            place.at,
        );
    }
}

/// An inspection is reported exactly where there is one and it is printed, or written
/// to the named file.
pub proof fn law_inspections_are_reported_where_all_went_well(
    source: Seq<u8>,
    report: Option<Seq<u8>>,
    session: SessionView,
    r: Seq<Reply>,
    at: int,
)
    ensures
        ({
            let step = run_step(CommandView::Inspect { source, report }, session, r, at);
            let inspection = inspect_step(source, r, at);
            let p = inspection.at;
            step.outcome is Done <==> inspection.outcome is Done && match report {
                Some(path) => {
                    &&& text_name(path) is Some
                    &&& 0 <= p && p + 5 <= r.len()
                    &&& r[p] is Finished && r[p + 1] is Finished && r[p + 2] is Finished
                    &&& r[p + 3] is Finished && r[p + 4] is Finished
                },
                None => 0 <= p < r.len() && r[p] is Finished,
            }
        }),
{
    reveal(run_inspect_step);
    let inspection = inspect_step(source, r, at);
    if inspection.outcome is Done && report is Some {
        let document = inspection_of(inspection.outcome->Done_0, session.version);
        law_outputs_are_written_where_all_is_done(
            report->0,
            inspection_text(document),
            session.process,
            r,
            inspection.at,
        );
    }
}

} // verus!
