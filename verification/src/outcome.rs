//! What the end of a workflow says of what was archived.
use vstd::prelude::*;

use crate::apply::{
    archive_step, enter_step, prepared_step, publish_manifest_step, published_step, staged_step,
    verification_step, verified_step, TransactionView,
};
use crate::compare::output_check;
use crate::disposal::verify_manifest_step;
use crate::flow::{Outcome, Reply};
use crate::inspect::{inspect_step, regular_file_step};
use crate::model::{EvidenceView, JournalView, ManifestView, Phase, Profile};
use crate::os_text::raw;
use crate::plan::{manifest_of, quarantine_text};
use crate::replay::{count_enter, count_inspect, count_prepared, count_staged};
use crate::seconds::SecondsView;
use crate::tool::{decode_step, ffmpeg_step};
use crate::trace::counted;

verus! {

/// A copy that passes the comparison holds the same bytes as its source, as far
/// as their digests tell.
pub proof fn law_copy_has_the_same_digest(
    source: EvidenceView,
    output: EvidenceView,
    tolerance: SecondsView,
)
    requires
        output_check(Profile::Copy, source, output, tolerance) is Ok,
    ensures
        output.sha256 == source.sha256,
        output.size > 0,
{
}

/// Whether the output and the manifest of a transaction are sound: what stands
/// at the destination was compared with the source and decoded in full, and
/// after that its manifest was published.
pub open spec fn soundly_archived(
    t: TransactionView,
    output: EvidenceView,
    r: Seq<Reply>,
    from: int,
) -> bool {
    &&& output_check(
        t.plan.profile,
        t.plan.source,
        output,
        t.plan.duration_tolerance_seconds,
    ) is Ok
    &&& t.plan.profile == Profile::Copy ==> output.sha256 == t.plan.source.sha256
    &&& quarantine_text(t.plan) is Ok
    &&& exists|inspected: int, decoded: int, published: int|
        {
            &&& from <= inspected < decoded < published
            &&& (#[trigger] inspect_step(raw(t.plan.destination_path), r, inspected)).outcome
                == Outcome::Done(output)
            &&& (#[trigger] decode_step(t.plan.destination_path, r, decoded)).outcome is Done
            &&& (#[trigger] publish_manifest_step(
                t,
                manifest_of(t.plan, output, quarantine_text(t.plan)->Ok_0, t.version),
                r,
                published,
            )).outcome is Done
        }
}

/// Once archiving is over, the output was verified against the source, decoded
/// in full, and its manifest published, in this order.
pub proof fn law_archived_is_sound(
    t: TransactionView,
    journal: JournalView,
    r: Seq<Reply>,
    at: int,
    after: JournalView,
)
    requires
        journal.phase.rank() <= Phase::Published.rank(),
        archive_step(t, journal, r, at).outcome == Outcome::Done(after),
    ensures
        after.phase == Phase::Manifested,
        after.output is Some,
        soundly_archived(t, after.output->0, r, at),
{
    reveal(archive_step);
    reveal(counted);
    let prepared = prepared_step(t, journal, r, at);
    count_prepared(t, journal, r, at);
    let j1 = prepared.outcome->Done_0;
    let staged = staged_step(t, j1, r, prepared.at);
    count_staged(t, j1, r, prepared.at);
    let j2 = staged.outcome->Done_0;
    let published = published_step(t, j2, r, staged.at);
    let j3 = published.outcome->Done_0;
    assert(j1.phase.rank() >= 1 && j1.phase.rank() <= 2) by {
        reveal(prepared_step);
        reveal(enter_step);
    }
    assert(j2.phase == Phase::Published) by {
        reveal(staged_step);
        reveal(enter_step);
    }
    reveal(published_step);
    reveal(verification_step);
    reveal(enter_step);
    reveal(verified_step);
    reveal(ffmpeg_step);
    let inspected = inspect_step(raw(t.plan.destination_path), r, staged.at);
    count_inspect(raw(t.plan.destination_path), r, staged.at);
    let output = j3.output->0;
    assert(inspected.outcome == Outcome::Done(output));
    let decoded = decode_step(t.plan.destination_path, r, inspected.at);
    assert(decoded.outcome is Done);
    count_enter(t, j3, r, decoded.at);
    assert(inspected.asked.len() > 0) by {
        reveal(inspect_step);
        reveal(regular_file_step);
    }
    assert(publish_manifest_step(
        t,
        manifest_of(t.plan, output, quarantine_text(t.plan)->Ok_0, t.version),
        r,
        published.at,
    ).outcome is Done);
}

/// What a manifest is verified against has the archived digest, says the same as
/// the source and decodes in full; of a copy, that is the source's digest.
pub proof fn law_verified_manifest_is_sound(manifest: ManifestView, r: Seq<Reply>, at: int)
    requires
        verify_manifest_step(manifest, r, at).outcome is Done,
    ensures
        exists|output: EvidenceView|
            {
                &&& (#[trigger] output_check(
                    manifest.profile,
                    manifest.source,
                    output,
                    manifest.duration_tolerance_seconds,
                )) is Ok
                &&& inspect_step(raw(manifest.destination_path), r, at).outcome == Outcome::Done(output)
                &&& output.sha256 == manifest.output.sha256
                &&& manifest.profile == Profile::Copy ==> output.sha256 == manifest.source.sha256
                &&& decode_step(
                    manifest.destination_path,
                    r,
                    inspect_step(raw(manifest.destination_path), r, at).at,
                ).outcome is Done
            },
{
    reveal(verify_manifest_step);
    let output = inspect_step(raw(manifest.destination_path), r, at).outcome->Done_0;
    assert(output_check(
        manifest.profile,
        manifest.source,
        output,
        manifest.duration_tolerance_seconds,
    ) is Ok);
}

} // verus!
