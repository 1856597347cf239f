//! What holds of every run of the certification flow.

use vstd::prelude::*;
use vstd::string::*;
use vstd::utf8::*;

use crate::common_name::{
    generated_common_name_has_its_parts, system_common_name, usable_hostname,
};
use crate::csr::{
    accepted_common_name_is_whole_subject, common_name_der, csr_of, is_signed_request, request_info,
    requested_attributes,
};
use crate::flow::{
    awaits, bundle, carries_out, error_cause, error_message, is_attestation, is_session, is_valid,
    moves, moves_keep_validity, CertifyError, CertifyEvent, CertifyState, Session,
};
use crate::gpu::{gpu_message, read_gpu_evidence};
use crate::keygen::{is_generated_key, pkcs8_from_pem};
use crate::report_data::{report_data, sha512};
use crate::san::san_names;
use crate::settings::{has_valid_name, CertifyMode, CertifyPlan};
use crate::text::{
    is_white_space, joined_lines, joined_lines_hold_every_line, line_start, texts,
    trimming_drops_only_outer_white_space,
};

verus! {

/// Whether `states` are those of a run that carries out `plan`, which `events`
/// lead from one to the next.
pub open spec fn is_run(
    plan: CertifyPlan,
    states: Seq<CertifyState>,
    events: Seq<CertifyEvent>,
) -> bool {
    &&& states.len() == events.len() + 1
    &&& has_valid_name(plan)
    &&& states[0] == (CertifyState::ReadApiKey { plan })
    &&& forall|i: int|
        0 <= i < events.len() ==> awaits(states[i], #[trigger] events[i]) && moves(
            states[i],
            events[i],
            states[i + 1],
        )
}

/// How far a state lies from the start of a run.
pub open spec fn stage(state: CertifyState) -> int {
    match state {
        CertifyState::ReadApiKey { .. } => 0,
        CertifyState::LoadCertificate { .. } => 1,
        CertifyState::LoadPrivateKey { .. } => 2,
        CertifyState::GetVersion { .. } => 3,
        CertifyState::GetNonce { .. } => 4,
        CertifyState::CollectGpu { .. } => 5,
        CertifyState::CollectEvidence { .. } => 6,
        CertifyState::Certify { .. } => 7,
        CertifyState::WriteMaterials { .. } => 8,
        CertifyState::Done { .. } => 9,
        CertifyState::Failed { .. } => 10,
    }
}

/// The session that a state holds, if any.
pub open spec fn session_of(state: CertifyState) -> Option<Session> {
    match state {
        CertifyState::GetVersion { session } => Some(session),
        CertifyState::GetNonce { session } => Some(session),
        CertifyState::CollectGpu { session, .. } => Some(session),
        CertifyState::CollectEvidence { session, .. } => Some(session),
        CertifyState::Certify { session, .. } => Some(session),
        CertifyState::WriteMaterials { session, .. } => Some(session),
        _ => None,
    }
}

/// Whether an event stops a run: work that failed, or GPU evidence that is not
/// complete.
pub open spec fn is_fatal(event: CertifyEvent) -> bool {
    match event {
        CertifyEvent::Refused(_) => true,
        CertifyEvent::ApiKeyUnreadable { .. } => true,
        CertifyEvent::GpuCollected { payload, hashes } => read_gpu_evidence(
            payload,
            hashes@,
        ) is Err,
        _ => false,
    }
}

proof fn lemma_step(plan: CertifyPlan, states: Seq<CertifyState>, events: Seq<CertifyEvent>, i: int)
    requires
        is_run(plan, states, events),
        0 <= i < events.len(),
    ensures
        awaits(states[i], events[i]),
        moves(states[i], events[i], states[i + 1]),
{
    assert(awaits(states[i], events[i]));
}

/// Every state of a run is valid: its signing request, its report data, its GPU
/// evidence and its materials are what they should be.
pub proof fn every_state_is_valid(
    plan: CertifyPlan,
    states: Seq<CertifyState>,
    events: Seq<CertifyEvent>,
    i: int,
)
    requires
        is_run(plan, states, events),
        0 <= i < states.len(),
    ensures
        is_valid(states[i]),
    decreases i,
{
    if i > 0 {
        every_state_is_valid(plan, states, events, i - 1);
        lemma_step(plan, states, events, i - 1);
        moves_keep_validity(states[i - 1], events[i - 1], states[i]);
    }
}

/// A run never goes back: each state lies behind those before it. So none comes
/// twice, and a run ends after at most ten events.
pub proof fn runs_go_forward(
    plan: CertifyPlan,
    states: Seq<CertifyState>,
    events: Seq<CertifyEvent>,
    i: int,
    j: int,
)
    requires
        is_run(plan, states, events),
        0 <= i < j < states.len(),
    ensures
        stage(states[i]) < stage(states[j]),
        j - i <= stage(states[j]) - stage(states[i]),
        events.len() <= 10,
{
    lemma_forward(plan, states, events, i, j);
    lemma_forward(plan, states, events, 0, states.len() - 1);
}

proof fn lemma_forward(
    plan: CertifyPlan,
    states: Seq<CertifyState>,
    events: Seq<CertifyEvent>,
    i: int,
    j: int,
)
    requires
        is_run(plan, states, events),
        0 <= i <= j < states.len(),
    ensures
        j - i <= stage(states[j]) - stage(states[i]),
    decreases j,
{
    if i < j {
        lemma_forward(plan, states, events, i, j - 1);
        lemma_step(plan, states, events, j - 1);
    }
}

/// The session of a run never changes, and carries out the plan: what is asked
/// of the service, and with which key and which signing request, is settled
/// before the service is first asked.
pub proof fn session_carries_out_plan(
    plan: CertifyPlan,
    states: Seq<CertifyState>,
    events: Seq<CertifyEvent>,
    i: int,
    j: int,
)
    requires
        is_run(plan, states, events),
        0 <= i <= j < states.len(),
        session_of(states[i]) is Some,
        session_of(states[j]) is Some,
    ensures
        session_of(states[j]) == session_of(states[i]),
        carries_out(session_of(states[i])->Some_0, plan),
        is_session(session_of(states[i])->Some_0),
{
    lemma_session_kept(plan, states, events, i, j);
    lemma_carries_out(plan, states, events, i);
    every_state_is_valid(plan, states, events, i);
}

proof fn lemma_session_kept(
    plan: CertifyPlan,
    states: Seq<CertifyState>,
    events: Seq<CertifyEvent>,
    i: int,
    j: int,
)
    requires
        is_run(plan, states, events),
        0 <= i <= j < states.len(),
        session_of(states[i]) is Some,
        session_of(states[j]) is Some,
    ensures
        session_of(states[j]) == session_of(states[i]),
    decreases j,
{
    if i < j {
        lemma_step(plan, states, events, j - 1);
        if session_of(states[j - 1]) is Some {
            lemma_session_kept(plan, states, events, i, j - 1);
        } else {
            lemma_forward(plan, states, events, i, j - 1);
        }
    }
}

/// The plan that a state which holds no session yet still has.
spec fn plan_of(state: CertifyState) -> Option<CertifyPlan> {
    match state {
        CertifyState::ReadApiKey { plan } => Some(plan),
        CertifyState::LoadCertificate { plan, .. } => Some(plan),
        CertifyState::LoadPrivateKey { plan, .. } => Some(plan),
        _ => None,
    }
}

proof fn lemma_carries_out(
    plan: CertifyPlan,
    states: Seq<CertifyState>,
    events: Seq<CertifyEvent>,
    i: int,
)
    requires
        is_run(plan, states, events),
        0 <= i < states.len(),
    ensures
        session_of(states[i]) matches Some(session) ==> carries_out(session, plan),
        plan_of(states[i]) matches Some(kept) ==> kept == plan,
    decreases i,
{
    if i > 0 {
        lemma_carries_out(plan, states, events, i - 1);
        lemma_step(plan, states, events, i - 1);
    }
}

/// Nothing is written before the service has issued a certificate for the
/// session's signing request and the evidence that was collected for it; and
/// what is written is that certificate and its chain.
pub proof fn materials_follow_certificate(
    plan: CertifyPlan,
    states: Seq<CertifyState>,
    events: Seq<CertifyEvent>,
    i: int,
)
    requires
        is_run(plan, states, events),
        0 <= i < states.len(),
        states[i] is WriteMaterials,
    ensures
        i > 0,
        states[i - 1] matches CertifyState::Certify { session, attestation, .. } && {
            &&& session == states[i]->WriteMaterials_session
            &&& is_session(session)
            &&& is_attestation(attestation, session)
            &&& carries_out(session, plan)
        },
        events[i - 1] matches CertifyEvent::CertificateIssued { certificate, ca_chain } && {
            &&& states[i]->materials.certificate@ == certificate@
            &&& states[i]->materials.chain@ == joined_lines(texts(ca_chain@))
            &&& states[i]->materials.ca_bundle@ == joined_lines(texts(ca_chain@))
            &&& states[i]->WriteMaterials_output@ == bundle(certificate@, texts(ca_chain@))
        },
{
    assert(i > 0);
    lemma_step(plan, states, events, i - 1);
    every_state_is_valid(plan, states, events, i - 1);
    lemma_carries_out(plan, states, events, i - 1);
}

/// A run succeeds only once the materials have been written, and its output is
/// the certificate that was issued and its chain.
pub proof fn success_follows_writing(
    plan: CertifyPlan,
    states: Seq<CertifyState>,
    events: Seq<CertifyEvent>,
    i: int,
)
    requires
        is_run(plan, states, events),
        0 <= i < states.len(),
        states[i] is Done,
    ensures
        i > 1,
        i == states.len() - 1,
        events[i - 1] is MaterialsWritten,
        states[i - 1] is WriteMaterials,
        events[i - 2] matches CertifyEvent::CertificateIssued { certificate, ca_chain }
            && states[i]->Done_output@ == bundle(certificate@, texts(ca_chain@)),
{
    assert(i > 0);
    lemma_step(plan, states, events, i - 1);
    materials_follow_certificate(plan, states, events, i - 1);
    if i < states.len() - 1 {
        lemma_step(plan, states, events, i);
    }
}

/// A run is fail-closed: work that failed, and GPU evidence that is not
/// complete, end it in failure; and unless it was the writing itself that failed,
/// nothing is ever written.
pub proof fn failure_stops_the_run(
    plan: CertifyPlan,
    states: Seq<CertifyState>,
    events: Seq<CertifyEvent>,
    i: int,
    j: int,
)
    requires
        is_run(plan, states, events),
        0 <= i < events.len(),
        is_fatal(events[i]),
        0 <= j < states.len(),
    ensures
        states[i + 1] is Failed,
        i + 1 == states.len() - 1,
        states[j] !is Done,
        states[i] !is WriteMaterials ==> states[j] !is WriteMaterials,
        states[j] is WriteMaterials ==> j == i,
{
    lemma_step(plan, states, events, i);
    if i + 1 < states.len() - 1 {
        lemma_step(plan, states, events, i + 1);
    }
    if j < i {
        lemma_forward(plan, states, events, j, i);
    }
    if j < i && states[j] is WriteMaterials {
        lemma_step(plan, states, events, j);
        if j + 1 < i {
            lemma_step(plan, states, events, j + 1);
        }
    }
    if j < i && states[j] is Done {
        lemma_step(plan, states, events, j);
    }
}

/// The evidence that is sent was collected for the nonce that the service gave
/// in this run, and the GPU evidence is all of that which was collected in it.
pub proof fn evidence_is_for_this_run(
    plan: CertifyPlan,
    states: Seq<CertifyState>,
    events: Seq<CertifyEvent>,
    i: int,
)
    requires
        is_run(plan, states, events),
        0 <= i < states.len(),
        states[i] is Certify,
    ensures
        i > 2,
        ({
            let attestation = states[i]->Certify_attestation;
            &&& events[i - 1] == (CertifyEvent::EvidenceCollected {
                tee_evidence: states[i]->tee_evidence,
                tee_type: states[i]->tee_type,
            })
            &&& !plan.settings.gpu_enabled ==> events[i - 2] == CertifyEvent::NonceReceived(
                attestation.nonce,
            ) && attestation.gpu_evidence is None
            &&& plan.settings.gpu_enabled ==> {
                &&& events[i - 3] == CertifyEvent::NonceReceived(attestation.nonce)
                &&& events[i - 2] matches CertifyEvent::GpuCollected { payload, hashes }
                &&& attestation.component_hashes@ == hashes@
                &&& attestation.gpu_evidence matches Some(entries)
                &&& read_gpu_evidence(payload, hashes@) matches Ok(wanted)
                &&& entries@ == wanted
            }
        }),
{
    assert(i > 0);
    lemma_step(plan, states, events, i - 1);
    assert(i > 1);
    lemma_step(plan, states, events, i - 2);
    assert(i > 2);
    lemma_step(plan, states, events, i - 3);
    lemma_carries_out(plan, states, events, i);
    lemma_carries_out(plan, states, events, i - 1);
    lemma_carries_out(plan, states, events, i - 2);
    every_state_is_valid(plan, states, events, i - 2);
}

/// The evidence vouches for the key that is to be certified: the signing request
/// that is sent holds the session's Common Name, its Subject Alternative Names
/// and one public key, and nothing else; it is signed with the key of that
/// public key; and the report data is the digest of the nonce, that public key
/// and the component hashes.
pub proof fn evidence_vouches_for_certified_key(
    plan: CertifyPlan,
    states: Seq<CertifyState>,
    events: Seq<CertifyEvent>,
    i: int,
)
    requires
        is_run(plan, states, events),
        0 <= i < states.len(),
        states[i] is Certify,
    ensures
        ({
            let session = states[i]->Certify_session;
            let attestation = states[i]->Certify_attestation;
            &&& is_signed_request(
                session.csr_pem@,
                session.key@,
                request_info(
                    common_name_der(session.common_name@),
                    attestation.public_key@,
                    requested_attributes(san_names(session.sans@)),
                ),
            )
            &&& attestation.binding@ == report_data(
                attestation.nonce@,
                attestation.public_key@,
                attestation.component_hashes@,
            )
        }),
{
    every_state_is_valid(plan, states, events, i);
    let session = states[i]->Certify_session;
    accepted_common_name_is_whole_subject(
        session.common_name@,
        session.csr_pem@,
        session.key@,
        san_names(session.sans@),
    );
}

/// A first certification is for a fresh key: in every session of the run the key
/// is one that was generated, an RSA key of 4096 bits; no certificate is sent to
/// be renewed; and that very key is what is written.
pub proof fn first_certification_generates_key(
    plan: CertifyPlan,
    states: Seq<CertifyState>,
    events: Seq<CertifyEvent>,
    i: int,
)
    requires
        is_run(plan, states, events),
        plan.mode is Fresh,
        0 <= i < states.len(),
        session_of(states[i]) is Some,
    ensures
        is_generated_key(session_of(states[i])->Some_0.key@),
        session_of(states[i])->Some_0.renew_cert is None,
        states[i] is WriteMaterials ==> (states[i]->materials.key matches Some(key)
            && pkcs8_from_pem(key.pem@) == Ok::<Seq<u8>, Seq<char>>(
            session_of(states[i])->Some_0.key@,
        )),
{
    assert(i > 0);
    lemma_step(plan, states, events, 0);
    lemma_forward(plan, states, events, 1, i);
    session_carries_out_plan(plan, states, events, 1, i);
    every_state_is_valid(plan, states, events, i);
}

/// A renewal reuses the key that was loaded and sends the certificate that was
/// loaded, and never writes a key.
pub proof fn renewal_preserves_key(
    plan: CertifyPlan,
    states: Seq<CertifyState>,
    events: Seq<CertifyEvent>,
    i: int,
)
    requires
        is_run(plan, states, events),
        plan.mode is Renew,
        0 <= i < states.len(),
        session_of(states[i]) is Some,
    ensures
        i > 2,
        events[1] matches CertifyEvent::CertificateLoaded(certificate) && session_of(
            states[i],
        )->Some_0.renew_cert == Some(certificate),
        events[2] matches CertifyEvent::PrivateKeyLoaded(pem) && pkcs8_from_pem(pem@) == Ok::<
            Seq<u8>,
            Seq<char>,
        >(session_of(states[i])->Some_0.key@),
        states[i] is WriteMaterials ==> states[i]->materials.key is None,
{
    lemma_step(plan, states, events, 0);
    assert(i > 1);
    lemma_step(plan, states, events, 1);
    assert(i > 2);
    lemma_step(plan, states, events, 2);
    lemma_forward(plan, states, events, 3, i);
    if states[3] is Failed {
        assert(i == 3);
    }
    session_carries_out_plan(plan, states, events, 3, i);
    every_state_is_valid(plan, states, events, i);
}

/// The key that a first certification writes is the one whose certificate it
/// asked for, and a renewal that loads what was written goes on with that very
/// key.
pub proof fn renewal_reuses_written_key(
    plan: CertifyPlan,
    states: Seq<CertifyState>,
    events: Seq<CertifyEvent>,
    i: int,
    later_plan: CertifyPlan,
    later_states: Seq<CertifyState>,
    later_events: Seq<CertifyEvent>,
    j: int,
)
    requires
        is_run(plan, states, events),
        plan.mode is Fresh,
        0 <= i < states.len(),
        states[i] is WriteMaterials,
        is_run(later_plan, later_states, later_events),
        later_plan.mode is Renew,
        0 <= j < later_states.len(),
        session_of(later_states[j]) is Some,
        later_events[2] matches CertifyEvent::PrivateKeyLoaded(pem) && (
        states[i]->materials.key matches Some(key) && pem@ == key.pem@),
    ensures
        states[i]->materials.key matches Some(key) && key.overwrite == (plan.mode->force),
        session_of(later_states[j])->Some_0.key@ == session_of(states[i])->Some_0.key@,
{
    every_state_is_valid(plan, states, events, i);
    lemma_carries_out(plan, states, events, i);
    renewal_preserves_key(later_plan, later_states, later_events, j);
}

/// The API key that is sent is the text of the API key file without its outer
/// white space, in a first certification as in a renewal: it is the part of the
/// text from `span.0` up to `span.1`, which neither begins nor ends with white
/// space, and all around it is white space. It is the same in every session.
pub proof fn api_key_is_trimmed_in_every_run(
    plan: CertifyPlan,
    states: Seq<CertifyState>,
    events: Seq<CertifyEvent>,
    i: int,
    text: String,
) -> (span: (int, int))
    requires
        is_run(plan, states, events),
        events.len() > 0,
        events[0] == CertifyEvent::ApiKeyRead(text),
        0 <= i < states.len(),
        session_of(states[i]) is Some,
    ensures
        0 <= span.0 <= span.1 <= text@.len(),
        session_of(states[i])->Some_0.api_key@ == text@.subrange(span.0, span.1),
        forall|k: int|
            0 <= k < span.0 || span.1 <= k < text@.len() ==> is_white_space(#[trigger] text@[k]),
        span.0 < span.1 ==> !is_white_space(text@[span.0]) && !is_white_space(text@[span.1 - 1]),
{
    let span = trimming_drops_only_outer_white_space(text@);
    lemma_step(plan, states, events, 0);
    assert(i > 0);
    if plan.mode is Fresh {
        lemma_forward(plan, states, events, 1, i);
        session_carries_out_plan(plan, states, events, 1, i);
    } else {
        renewal_preserves_key(plan, states, events, i);
        lemma_step(plan, states, events, 1);
        lemma_step(plan, states, events, 2);
        lemma_forward(plan, states, events, 3, i);
        session_carries_out_plan(plan, states, events, 3, i);
    }
    span
}

/// Every session of a run has the settings, the directory, the mode and the
/// Subject Alternative Names of the plan, and its Common Name; where the plan has
/// none, the name begins with `tee.` or `tas.`.
pub proof fn session_has_what_plan_says(
    plan: CertifyPlan,
    states: Seq<CertifyState>,
    events: Seq<CertifyEvent>,
    i: int,
)
    requires
        is_run(plan, states, events),
        0 <= i < states.len(),
        session_of(states[i]) is Some,
    ensures
        ({
            let session = session_of(states[i])->Some_0;
            &&& session.settings == plan.settings
            &&& session.write_dir == plan.write_dir
            &&& session.mode == plan.mode
            &&& session.sans == plan.sans
            &&& plan.common_name matches Some(cn) ==> session.common_name@ == cn@
            &&& plan.common_name is None ==> session.common_name@.take(4) == "tee."@
                || session.common_name@.take(4) == "tas."@
        }),
{
    session_carries_out_plan(plan, states, events, i, i);
    let name = session_of(states[i])->Some_0.common_name@;
    if plan.common_name is None {
        let (reported, uuid) = choose|reported: Option<Seq<char>>, uuid: u128|
            name == #[trigger] system_common_name(usable_hostname(reported), uuid);
        generated_common_name_has_its_parts(usable_hostname(reported), uuid);
    }
}

/// What is written holds what the service gave: the certificate as it came, and
/// in the chain and in the bundle every certificate of the chain, in order, with
/// one line feed between each two. The output is the certificate, and, where
/// there is a chain, a line feed and that chain behind it.
pub proof fn written_materials_hold_whole_chain(
    plan: CertifyPlan,
    states: Seq<CertifyState>,
    events: Seq<CertifyEvent>,
    i: int,
    j: int,
)
    requires
        is_run(plan, states, events),
        0 <= i < states.len(),
        states[i] is WriteMaterials,
    ensures
        i > 0,
        events[i - 1] matches CertifyEvent::CertificateIssued { certificate, ca_chain } && {
            let materials = states[i]->materials;
            let output = states[i]->WriteMaterials_output@;
            let n = ca_chain@.len() as int;
            let starts = texts(ca_chain@);
            &&& materials.certificate@ == certificate@
            &&& materials.ca_bundle@ == materials.chain@
            &&& n == 0 ==> materials.chain@.len() == 0 && output == certificate@
            &&& n > 0 ==> materials.chain@.len() + 1 == line_start(starts, n) && output
                == certificate@.push('\n') + materials.chain@
            &&& 0 <= j < n ==> materials.chain@.subrange(
                line_start(starts, j),
                line_start(starts, j) + ca_chain@[j]@.len(),
            ) == ca_chain@[j]@
            &&& 0 < j < n ==> materials.chain@[line_start(starts, j) - 1] == '\n'
        },
{
    materials_follow_certificate(plan, states, events, i);
    if let CertifyEvent::CertificateIssued { certificate, ca_chain } = events[i - 1] {
        let lines = texts(ca_chain@);
        joined_lines_hold_every_line(lines);
        if 0 <= j < lines.len() {
            assert(lines[j] == ca_chain@[j]@);
        }
        if 0 < j < lines.len() {
            assert(line_start(lines, j) - 1 >= 0) by {
                assert(lines[j - 1] == ca_chain@[j - 1]@);
            }
        }
        if ca_chain@.len() == 0 {
            assert(states[i]->materials.chain@ =~= seq![]);
        }
    }
}

/// A key is written exactly in a first certification; it may overwrite another one
/// exactly where that is forced.
pub proof fn key_is_written_once(
    plan: CertifyPlan,
    states: Seq<CertifyState>,
    events: Seq<CertifyEvent>,
    i: int,
)
    requires
        is_run(plan, states, events),
        0 <= i < states.len(),
        states[i] is WriteMaterials,
    ensures
        plan.mode is Renew <==> states[i]->materials.key is None,
        plan.mode matches CertifyMode::Fresh { force } ==> (
        states[i]->materials.key matches Some(key) && key.overwrite == force),
{
    every_state_is_valid(plan, states, events, i);
    lemma_carries_out(plan, states, events, i);
}

/// The evidence is asked for after the service gave its version and then a nonce,
/// and the report data is the SHA-512 digest of that nonce, the public key and
/// the component hashes, one after the other.
pub proof fn evidence_follows_version_and_nonce(
    plan: CertifyPlan,
    states: Seq<CertifyState>,
    events: Seq<CertifyEvent>,
    i: int,
)
    requires
        is_run(plan, states, events),
        0 <= i < states.len(),
        states[i] is Certify,
    ensures
        ({
            let attestation = states[i]->Certify_attestation;
            let asked = if plan.settings.gpu_enabled {
                i - 3
            } else {
                i - 2
            };
            &&& asked > 0
            &&& events[asked] == CertifyEvent::NonceReceived(attestation.nonce)
            &&& events[asked - 1] is VersionRead
            &&& attestation.binding@ == sha512(
                encode_utf8(attestation.nonce@) + attestation.public_key@
                    + attestation.component_hashes@,
            )
        }),
{
    evidence_is_for_this_run(plan, states, events, i);
    evidence_vouches_for_certified_key(plan, states, events, i);
    let asked = if plan.settings.gpu_enabled {
        i - 3
    } else {
        i - 2
    };
    lemma_step(plan, states, events, asked);
    assert(asked > 0);
    lemma_step(plan, states, events, asked - 1);
}

/// Work that fails ends the run with the message for that work, and with the
/// reason, in the message or as its cause.
pub proof fn failed_work_is_reported(
    state: CertifyState,
    event: CertifyEvent,
    next: CertifyState,
    reason: String,
)
    requires
        awaits(state, event),
        moves(state, event, next),
        event == CertifyEvent::Refused(reason),
    ensures
        next matches CertifyState::Failed { error } && match state {
            CertifyState::LoadCertificate { .. } => error_message(error)
                == "failed to load certificate for renewal"@ && error_cause(error) == Some(reason@),
            CertifyState::LoadPrivateKey { .. } => error_message(error)
                == "failed to load private key for renewal"@ && error_cause(error) == Some(reason@),
            CertifyState::GetVersion { .. } => error_message(error) == "TAS Version Error: "@
                + reason@ && error_cause(error) is None,
            CertifyState::GetNonce { .. } => error_message(error) == "TAS Alpha Nonce Error: "@
                + reason@ && error_cause(error) is None,
            CertifyState::CollectGpu { .. } => error_message(error)
                == "failed to collect GPU evidence for certify"@ && error_cause(error) == Some(
                reason@,
            ),
            CertifyState::CollectEvidence { .. } => error_message(error) == "TEE evidence Error: "@
                + reason@ && error_cause(error) is None,
            CertifyState::Certify { .. } => error_message(error) == "TAS Certify Error: "@ + reason@
                && error_cause(error) is None,
            CertifyState::WriteMaterials { session, .. } => error_cause(error) == Some(reason@)
                && error_message(error) == if session.mode is Renew {
                "failed to write renewed certificate materials"@
            } else {
                "failed to write initial certificate materials"@
            },
            _ => false,
        },
{
}

/// An API key that cannot be read is reported with how its path is shown, and the
/// reason as the cause.
pub proof fn unreadable_api_key_is_reported(
    state: CertifyState,
    next: CertifyState,
    shown_path: String,
    reason: String,
)
    requires
        awaits(state, CertifyEvent::ApiKeyUnreadable { shown_path, reason }),
        moves(state, CertifyEvent::ApiKeyUnreadable { shown_path, reason }, next),
    ensures
        state is ReadApiKey,
        next matches CertifyState::Failed { error } && error_message(error)
            == "unable to read API key from "@ + shown_path@ && error_cause(error) == Some(reason@),
{
}

/// The messages of what fails in the flow itself give the reason.
pub proof fn messages_give_reason(reason: String)
    ensures
        error_message(CertifyError::ImportKey(reason))
            == "failed to import private key from PKCS#8: "@ + reason@,
        error_message(CertifyError::GenerateKey(reason)) == "failed to generate certify key: "@
            + reason@,
        error_message(CertifyError::BuildCsr(reason)) == "failed to build CSR: "@ + reason@,
        error_message(CertifyError::PublicKey(reason)) == "Failed to get public key DER: "@
            + reason@,
        error_message(CertifyError::ExportKey(reason)) == "failed to serialize key to PKCS#8: "@
            + reason@,
        error_message(CertifyError::GpuEvidence(reason)) == reason@,
        error_cause(CertifyError::ImportKey(reason)) is None,
        error_cause(CertifyError::GenerateKey(reason)) is None,
        error_cause(CertifyError::BuildCsr(reason)) is None,
        error_cause(CertifyError::PublicKey(reason)) is None,
        error_cause(CertifyError::ExportKey(reason)) is None,
        error_cause(CertifyError::GpuEvidence(reason)) is None,
{
}

/// Nothing follows a run that is done or has failed; and every other state takes
/// one kind of success and the failure of its work.
pub proof fn every_state_waits_for_its_own_work(state: CertifyState, event: CertifyEvent)
    ensures
        state is Done || state is Failed ==> !awaits(state, event),
        event is ApiKeyRead || event is ApiKeyUnreadable ==> (awaits(state, event) <==> state is
            ReadApiKey),
        event is CertificateLoaded ==> (awaits(state, event) <==> state is LoadCertificate),
        event is PrivateKeyLoaded ==> (awaits(state, event) <==> state is LoadPrivateKey),
        event is VersionRead ==> (awaits(state, event) <==> state is GetVersion),
        event is NonceReceived ==> (awaits(state, event) <==> state is GetNonce),
        event is GpuCollected ==> (awaits(state, event) <==> state is CollectGpu),
        event is EvidenceCollected ==> (awaits(state, event) <==> state is CollectEvidence),
        event is CertificateIssued ==> (awaits(state, event) <==> state is Certify),
        event is MaterialsWritten ==> (awaits(state, event) <==> state is WriteMaterials),
        event is Refused ==> (awaits(state, event) <==> !(state is ReadApiKey || state is Done
            || state is Failed)),
{
}

/// A loaded key opens a session with that very key and, where the plan has a
/// Common Name, with the signing request for the two and the planned names; and
/// otherwise the run fails with the reason why the key cannot be imported or the
/// request cannot be built.
pub proof fn loaded_key_opens_session_exactly(
    plan: CertifyPlan,
    api_key: String,
    certificate: String,
    pem: String,
    cn: String,
    next: CertifyState,
)
    requires
        plan.common_name == Some(cn),
        moves(
            CertifyState::LoadPrivateKey { plan, api_key, certificate },
            CertifyEvent::PrivateKeyLoaded(pem),
            next,
        ),
    ensures
        match pkcs8_from_pem(pem@) {
            Err(message) => next matches CertifyState::Failed {
                error: CertifyError::ImportKey(reason),
            } && reason@ == message,
            Ok(key) => match csr_of(key, cn@, san_names(plan.sans@)) {
                Err(message) => next matches CertifyState::Failed {
                    error: CertifyError::BuildCsr(reason),
                } && reason@ == message,
                Ok(csr_pem) => next matches CertifyState::GetVersion { session } && session.key@
                    == key && session.csr_pem@ == csr_pem && session.api_key@ == api_key@
                    && session.renew_cert == Some(certificate),
            },
        },
{
}

/// GPU evidence that is refused ends the run with the message for what is wrong
/// with it.
pub proof fn refused_gpu_evidence_is_reported(
    state: CertifyState,
    event: CertifyEvent,
    next: CertifyState,
)
    requires
        awaits(state, event),
        moves(state, event, next),
        event matches CertifyEvent::GpuCollected { payload, hashes } && read_gpu_evidence(
            payload,
            hashes@,
        ) is Err,
    ensures
        event matches CertifyEvent::GpuCollected { payload, hashes }
            && next matches CertifyState::Failed { error } && error_message(error) == gpu_message(
            read_gpu_evidence(payload, hashes@)->Err_0,
        ),
{
}

/// A run asks for GPU evidence exactly where GPUs are attested, right after the
/// nonce.
pub proof fn gpu_evidence_is_asked_for_exactly(
    plan: CertifyPlan,
    states: Seq<CertifyState>,
    events: Seq<CertifyEvent>,
    i: int,
)
    requires
        is_run(plan, states, events),
        0 <= i < events.len(),
        events[i] is NonceReceived,
        states[i + 1] !is Failed,
    ensures
        plan.settings.gpu_enabled <==> states[i + 1] is CollectGpu,
        !plan.settings.gpu_enabled <==> states[i + 1] is CollectEvidence,
{
    lemma_step(plan, states, events, i);
    lemma_carries_out(plan, states, events, i);
}

/// GPU evidence is collected for the nonce that just came, and evidence of the
/// execution environment for that nonce too, and for the report data that is the
/// digest of it, the public key and the component hashes; what is then sent is
/// what it was collected for.
pub proof fn evidence_is_collected_for_received_nonce(
    plan: CertifyPlan,
    states: Seq<CertifyState>,
    events: Seq<CertifyEvent>,
    i: int,
)
    requires
        is_run(plan, states, events),
        0 <= i < states.len(),
    ensures
        states[i] matches CertifyState::CollectGpu { nonce, .. } ==> i > 0 && events[i - 1]
            == CertifyEvent::NonceReceived(nonce),
        states[i] matches CertifyState::CollectEvidence { attestation, .. } ==> {
            let asked = if plan.settings.gpu_enabled {
                i - 2
            } else {
                i - 1
            };
            &&& asked > 0
            &&& events[asked] == CertifyEvent::NonceReceived(attestation.nonce)
            &&& attestation.binding@ == sha512(
                encode_utf8(attestation.nonce@) + attestation.public_key@
                    + attestation.component_hashes@,
            )
        },
        states[i] matches CertifyState::Certify { session, attestation, .. } ==> i > 0
            && states[i - 1] == (CertifyState::CollectEvidence { session, attestation }),
{
    if states[i] is CollectGpu || states[i] is CollectEvidence || states[i] is Certify {
        assert(i > 0);
        lemma_step(plan, states, events, i - 1);
        every_state_is_valid(plan, states, events, i);
        lemma_carries_out(plan, states, events, i - 1);
    }
    if states[i] is CollectEvidence {
        every_state_is_valid(plan, states, events, i - 1);
        assert(i > 1);
        lemma_step(plan, states, events, i - 2);
    }
}

/// Before it has a session, a run holds its plan as it was.
pub proof fn plan_is_kept(
    plan: CertifyPlan,
    states: Seq<CertifyState>,
    events: Seq<CertifyEvent>,
    i: int,
)
    requires
        is_run(plan, states, events),
        0 <= i < states.len(),
    ensures
        states[i] matches CertifyState::ReadApiKey { plan: kept } ==> kept == plan && i == 0,
        states[i] matches CertifyState::LoadCertificate { plan: kept, .. } ==> kept == plan
            && plan.mode is Renew && i == 1,
        states[i] matches CertifyState::LoadPrivateKey { plan: kept, .. } ==> kept == plan
            && plan.mode is Renew && i == 2,
{
    lemma_carries_out(plan, states, events, i);
    every_state_is_valid(plan, states, events, i);
    if i > 0 {
        lemma_step(plan, states, events, i - 1);
        lemma_forward(plan, states, events, 0, i);
        if i > 1 {
            lemma_step(plan, states, events, i - 2);
        }
    }
}

} // verus!
