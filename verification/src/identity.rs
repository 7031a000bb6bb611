//! What a transaction's identity tells apart.
use vstd::bytes::{lemma_auto_spec_u64_to_from_le_bytes, spec_u64_to_le_bytes};
use vstd::prelude::*;
use vstd::utf8::{
    char_is_scalar, char_u32_cast, encode_scalar, encode_utf8, encode_utf8_decode_utf8, is_scalar,
};

use crate::model::{
    law_dispositions_have_names_of_their_own, law_profiles_have_names_of_their_own,
    PlanView, Profile, SourceDisposition,
};
use crate::plan::{identity_bytes, terminated};

verus! {

/// Whether a text holds no zero character. A path never does.
pub open spec fn without_zero(text: Seq<char>) -> bool {
    forall|i: int| 0 <= i < text.len() ==> text[i] != '\0'
}

proof fn lemma_scalar_without_zero(scalar: u32)
    requires
        scalar != 0,
        is_scalar(scalar),
    ensures
        forall|i: int| 0 <= i < encode_scalar(scalar).len() ==> encode_scalar(scalar)[i] != 0,
{
    assert(0 < scalar && scalar <= 0x7f ==> (scalar & 0x7f) as u8 != 0) by (bit_vector);
    assert(forall|b: u8| #[trigger] (0x80u8 | b) != 0) by (bit_vector);
    assert(forall|b: u8| #[trigger] (0xc0u8 | b) != 0) by (bit_vector);
    assert(forall|b: u8| #[trigger] (0xe0u8 | b) != 0) by (bit_vector);
    assert(forall|b: u8| #[trigger] (0xf0u8 | b) != 0) by (bit_vector);
}

proof fn lemma_bytes_without_zero(text: Seq<char>)
    requires
        without_zero(text),
    ensures
        forall|i: int| 0 <= i < encode_utf8(text).len() ==> encode_utf8(text)[i] != 0,
    decreases text.len(),
{
    if text.len() > 0 {
        let c = text[0];
        assert(c != '\0');
        char_is_scalar(c);
        assert(c as u32 != 0) by {
            if c as u32 == 0 {
                char_u32_cast(c, 0);
            }
        }
        lemma_scalar_without_zero(c as u32);
        let rest = text.drop_first();
        assert forall|i: int| 0 <= i < rest.len() implies rest[i] != '\0' by {
            assert(rest[i] == text[i + 1]);
        }
        lemma_bytes_without_zero(rest);
        let start = encode_scalar(c as u32);
        assert forall|i: int| 0 <= i < encode_utf8(text).len() implies encode_utf8(text)[i]
            != 0 by {
            if i < start.len() {
                assert(encode_utf8(text)[i] == start[i]);
            } else {
                assert(encode_utf8(text)[i] == encode_utf8(rest)[i - start.len()]);
            }
        }
    }
}

/// Two terminated texts with something behind them are told apart.
proof fn lemma_terminated_splits(a: Seq<char>, b: Seq<char>, more_a: Seq<u8>, more_b: Seq<u8>)
    requires
        without_zero(a),
        without_zero(b),
        terminated(a) + more_a == terminated(b) + more_b,
    ensures
        a == b,
        more_a == more_b,
{
    lemma_bytes_without_zero(a);
    lemma_bytes_without_zero(b);
    let bytes_a = encode_utf8(a);
    let bytes_b = encode_utf8(b);
    let whole = terminated(a) + more_a;
    let n = bytes_a.len() as int;
    let m = bytes_b.len() as int;
    assert(whole[n] == 0);
    assert(whole[m] == 0) by {
        assert((terminated(b) + more_b)[m] == 0);
    }
    if n < m {
        assert((terminated(b) + more_b)[n] == bytes_b[n]);
    } else if m < n {
        assert(whole[m] == bytes_a[m]);
    }
    assert forall|i: int| 0 <= i < n implies bytes_a[i] == bytes_b[i] by {
        assert(whole[i] == bytes_a[i]);
        assert((terminated(b) + more_b)[i] == bytes_b[i]);
    }
    assert(bytes_a =~= bytes_b);
    encode_utf8_decode_utf8(a);
    encode_utf8_decode_utf8(b);
    assert(whole.skip(n + 1) =~= more_a);
    assert((terminated(b) + more_b).skip(n + 1) =~= more_b);
}

proof fn lemma_profile_names(a: Profile, b: Profile)
    ensures
        without_zero(a.name()),
        a.name() == b.name() ==> a == b,
{
    reveal_strlit("copy");
    reveal_strlit("av1");
    if a.name() == b.name() {
        law_profiles_have_names_of_their_own(a, b);
    }
}

proof fn lemma_disposition_names(a: SourceDisposition, b: SourceDisposition)
    ensures
        without_zero(a.name()),
        a.name() == b.name() ==> a == b,
{
    reveal_strlit("quarantine");
    reveal_strlit("preserve");
    reveal_strlit("delete");
    if a.name() == b.name() {
        law_dispositions_have_names_of_their_own(a, b);
    }
}

/// The settings that end a transaction's identity.
spec fn settings_bytes(plan: PlanView) -> Seq<u8> {
    seq![plan.av1.crf, plan.av1.preset] + spec_u64_to_le_bytes(
        plan.duration_tolerance_seconds.bits,
    )
}

proof fn lemma_identity_in_turn(plan: PlanView)
    ensures
        identity_bytes(plan) == terminated(plan.source.sha256) + (terminated(plan.source.path) + (
        terminated(plan.destination_path) + (terminated(plan.profile.name()) + (terminated(
            plan.source_disposition.name(),
        ) + (terminated(plan.av1.container) + settings_bytes(plan)))))),
{
    assert(identity_bytes(plan) =~= terminated(plan.source.sha256) + (terminated(plan.source.path)
        + (terminated(plan.destination_path) + (terminated(plan.profile.name()) + (terminated(
        plan.source_disposition.name(),
    ) + (terminated(plan.av1.container) + settings_bytes(plan)))))));
}

/// Plans that archive different bytes, from or to different places or with
/// different settings, have different identities.
pub proof fn law_identity_tells_plans_apart(a: PlanView, b: PlanView)
    requires
        without_zero(a.source.sha256) && without_zero(b.source.sha256),
        without_zero(a.source.path) && without_zero(b.source.path),
        without_zero(a.destination_path) && without_zero(b.destination_path),
        without_zero(a.av1.container) && without_zero(b.av1.container),
        identity_bytes(a) == identity_bytes(b),
    ensures
        a.source.sha256 == b.source.sha256,
        a.source.path == b.source.path,
        a.destination_path == b.destination_path,
        a.profile == b.profile,
        a.source_disposition == b.source_disposition,
        a.av1 == b.av1,
        a.duration_tolerance_seconds.bits == b.duration_tolerance_seconds.bits,
{
    lemma_identity_in_turn(a);
    lemma_identity_in_turn(b);
    lemma_profile_names(a.profile, b.profile);
    lemma_profile_names(b.profile, a.profile);
    lemma_disposition_names(a.source_disposition, b.source_disposition);
    lemma_disposition_names(b.source_disposition, a.source_disposition);
    let a6 = terminated(a.av1.container) + settings_bytes(a);
    let a5 = terminated(a.source_disposition.name()) + a6;
    let a4 = terminated(a.profile.name()) + a5;
    let a3 = terminated(a.destination_path) + a4;
    let a2 = terminated(a.source.path) + a3;
    let b6 = terminated(b.av1.container) + settings_bytes(b);
    let b5 = terminated(b.source_disposition.name()) + b6;
    let b4 = terminated(b.profile.name()) + b5;
    let b3 = terminated(b.destination_path) + b4;
    let b2 = terminated(b.source.path) + b3;
    lemma_terminated_splits(a.source.sha256, b.source.sha256, a2, b2);
    lemma_terminated_splits(a.source.path, b.source.path, a3, b3);
    lemma_terminated_splits(a.destination_path, b.destination_path, a4, b4);
    lemma_terminated_splits(a.profile.name(), b.profile.name(), a5, b5);
    lemma_terminated_splits(a.source_disposition.name(), b.source_disposition.name(), a6, b6);
    lemma_terminated_splits(
        a.av1.container,
        b.av1.container,
        settings_bytes(a),
        settings_bytes(b),
    );
    lemma_auto_spec_u64_to_from_le_bytes();
    assert(settings_bytes(a)[0] == a.av1.crf && settings_bytes(b)[0] == b.av1.crf);
    assert(settings_bytes(a)[1] == a.av1.preset && settings_bytes(b)[1] == b.av1.preset);
    assert(settings_bytes(a).skip(2) =~= spec_u64_to_le_bytes(a.duration_tolerance_seconds.bits));
    assert(settings_bytes(b).skip(2) =~= spec_u64_to_le_bytes(b.duration_tolerance_seconds.bits));
}

} // verus!
