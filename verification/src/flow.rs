//! The certification flow: what is done next, of what has happened so far.
//!
//! The flow alternates between work that the caller does (reading files, asking
//! the service, collecting evidence) and what follows from it. A
//! [`CertifyState`] says which work is next and holds what it needs; a
//! [`CertifyEvent`] says what came of it; [`step`] gives the next state. A
//! [`CertifyRun`] goes from one state to the next.

use std::path::PathBuf;

use vstd::prelude::*;
use vstd::string::*;

use crate::common_name::{
    generate_tee_common_name, generated_common_name_is_valid, is_generated_common_name,
    read_common_name, system_common_name, usable_hostname, CommonNameFault,
};
use crate::csr::{
    accepted_common_name_is_whole_subject, build_plain_csr, csr_of, is_request_for,
};
use crate::gpu::{
    accepted_gpu_evidence_is_complete, check_gpu_evidence, gpu_message, read_gpu_evidence,
    MAX_GPU_EVIDENCE_ENTRIES,
};
use crate::json::JsonValue;
use crate::keygen::{
    is_generated_key, is_key_encoding, pem_from_pkcs8, pkcs8_from_pem, public_key_from_pkcs8, AgentKey,
    KeyAlgorithm,
};
use crate::report_data::{certify_report_data, report_data, SHA512_DIGEST_LEN};
use crate::san::{san_names, SanEntry};
use crate::settings::{has_valid_name, CertifyMode, CertifyPlan, CertifySettings};
use crate::text::{join_lines, joined_lines, texts, trim_text, trimmed};

verus! {

/// What a run has before it first asks the service.
pub struct Session {
    /// What it needs to talk to the service.
    pub settings: CertifySettings,
    /// Directory in which the certificate materials are written and read.
    pub write_dir: PathBuf,
    /// Whether it obtains a first certificate or renews one.
    pub mode: CertifyMode,
    /// The API key.
    pub api_key: String,
    /// The certificate that is to be renewed.
    pub renew_cert: Option<String>,
    /// The key that is to be certified.
    pub key: AgentKey,
    /// The Common Name in the signing request.
    pub common_name: String,
    /// The Subject Alternative Names in the signing request.
    pub sans: Vec<SanEntry>,
    /// The signing request.
    pub csr_pem: String,
}

/// What the evidence is collected for.
pub struct Attestation {
    /// The nonce of the service.
    pub nonce: String,
    /// The public key, as PKCS#1 DER.
    pub public_key: Vec<u8>,
    /// The GPU evidence, where GPUs are attested.
    pub gpu_evidence: Option<Vec<JsonValue>>,
    /// The digests of the GPU evidence entries, one after the other.
    pub component_hashes: Vec<u8>,
    /// The report data.
    pub binding: Vec<u8>,
}

/// A key that is to be written.
pub struct NewKey {
    /// The key as a PKCS#8 PEM document.
    pub pem: String,
    /// Whether an existing key may be overwritten.
    pub overwrite: bool,
}

/// The certificate materials that are to be written.
pub struct Materials {
    /// What `key.pem` is to hold; `None` where the existing one is preserved.
    pub key: Option<NewKey>,
    /// What `cert.pem` is to hold.
    pub certificate: String,
    /// What `chain.pem` is to hold.
    pub chain: String,
    /// What `ca-bundle.pem` is to hold.
    pub ca_bundle: String,
}

/// How far a run has come.
pub enum CertifyState {
    /// The API key is read next.
    ReadApiKey { plan: CertifyPlan },
    /// The certificate that is to be renewed is loaded next.
    LoadCertificate { plan: CertifyPlan, api_key: String },
    /// The key of that certificate is loaded next.
    LoadPrivateKey { plan: CertifyPlan, api_key: String, certificate: String },
    /// The service is asked for its version next.
    GetVersion { session: Session },
    /// The service is asked for a nonce next.
    GetNonce { session: Session },
    /// GPU evidence is collected next.
    CollectGpu { session: Session, nonce: String, public_key: Vec<u8> },
    /// Evidence of the execution environment is collected next.
    CollectEvidence { session: Session, attestation: Attestation },
    /// The service is asked for a certificate next.
    Certify {
        session: Session,
        attestation: Attestation,
        tee_evidence: String,
        tee_type: String,
    },
    /// The certificate materials are written next.
    WriteMaterials { session: Session, materials: Materials, output: String },
    /// All is done; the output is the certificate and its chain.
    Done { output: String },
    /// The run has failed.
    Failed { error: CertifyError },
}

/// What came of the work that was next.
pub enum CertifyEvent {
    /// The text of the API key file.
    ApiKeyRead(String),
    /// The API key file cannot be read: how its path is shown, and the reason.
    ApiKeyUnreadable { shown_path: String, reason: String },
    /// The certificate that is to be renewed.
    CertificateLoaded(String),
    /// The key of that certificate, as a PKCS#8 PEM document.
    PrivateKeyLoaded(String),
    /// The service gave its version.
    VersionRead,
    /// The service gave a nonce.
    NonceReceived(String),
    /// GPU evidence, and the digests of its entries one after the other.
    GpuCollected { payload: JsonValue, hashes: Vec<u8> },
    /// Evidence of the execution environment.
    EvidenceCollected { tee_evidence: String, tee_type: String },
    /// The service issued a certificate, and gave its chain.
    CertificateIssued { certificate: String, ca_chain: Vec<String> },
    /// The certificate materials have been written.
    MaterialsWritten,
    /// The work failed, for the given reason.
    Refused(String),
}

/// Why a run has failed.
pub enum CertifyError {
    ApiKey { shown_path: String, reason: String },
    LoadCertificate(String),
    LoadPrivateKey(String),
    ImportKey(String),
    GenerateKey(String),
    BuildCsr(String),
    Version(String),
    Nonce(String),
    PublicKey(String),
    CollectGpu(String),
    GpuEvidence(String),
    TeeEvidence(String),
    Certify(String),
    ExportKey(String),
    WriteInitial(String),
    WriteRenewed(String),
}

/// The message of an error.
pub open spec fn error_message(error: CertifyError) -> Seq<char> {
    match error {
        CertifyError::ApiKey { shown_path, .. } => "unable to read API key from "@ + shown_path@,
        CertifyError::LoadCertificate(_) => "failed to load certificate for renewal"@,
        CertifyError::LoadPrivateKey(_) => "failed to load private key for renewal"@,
        CertifyError::ImportKey(reason) => "failed to import private key from PKCS#8: "@ + reason@,
        CertifyError::GenerateKey(reason) => "failed to generate certify key: "@ + reason@,
        CertifyError::BuildCsr(reason) => "failed to build CSR: "@ + reason@,
        CertifyError::Version(reason) => "TAS Version Error: "@ + reason@,
        CertifyError::Nonce(reason) => "TAS Alpha Nonce Error: "@ + reason@,
        CertifyError::PublicKey(reason) => "Failed to get public key DER: "@ + reason@,
        CertifyError::CollectGpu(_) => "failed to collect GPU evidence for certify"@,
        CertifyError::GpuEvidence(reason) => reason@,
        CertifyError::TeeEvidence(reason) => "TEE evidence Error: "@ + reason@,
        CertifyError::Certify(reason) => "TAS Certify Error: "@ + reason@,
        CertifyError::ExportKey(reason) => "failed to serialize key to PKCS#8: "@ + reason@,
        CertifyError::WriteInitial(_) => "failed to write initial certificate materials"@,
        CertifyError::WriteRenewed(_) => "failed to write renewed certificate materials"@,
    }
}

/// What lies behind an error whose message does not give it.
pub open spec fn error_cause(error: CertifyError) -> Option<Seq<char>> {
    match error {
        CertifyError::ApiKey { reason, .. } => Some(reason@),
        CertifyError::LoadCertificate(reason) => Some(reason@),
        CertifyError::LoadPrivateKey(reason) => Some(reason@),
        CertifyError::CollectGpu(reason) => Some(reason@),
        CertifyError::WriteInitial(reason) => Some(reason@),
        CertifyError::WriteRenewed(reason) => Some(reason@),
        _ => None,
    }
}

impl CertifyError {
    /// The message of the error.
    pub fn message(&self) -> (r: String)
        ensures
            r@ == error_message(*self),
    {
        match self {
            CertifyError::ApiKey { shown_path, .. } =>
                "unable to read API key from ".to_owned().concat(shown_path.as_str()),
            CertifyError::LoadCertificate(_) => "failed to load certificate for renewal".to_owned(),
            CertifyError::LoadPrivateKey(_) => "failed to load private key for renewal".to_owned(),
            CertifyError::ImportKey(reason) =>
                "failed to import private key from PKCS#8: ".to_owned().concat(reason.as_str()),
            CertifyError::GenerateKey(reason) =>
                "failed to generate certify key: ".to_owned().concat(reason.as_str()),
            CertifyError::BuildCsr(reason) =>
                "failed to build CSR: ".to_owned().concat(reason.as_str()),
            CertifyError::Version(reason) =>
                "TAS Version Error: ".to_owned().concat(reason.as_str()),
            CertifyError::Nonce(reason) =>
                "TAS Alpha Nonce Error: ".to_owned().concat(reason.as_str()),
            CertifyError::PublicKey(reason) =>
                "Failed to get public key DER: ".to_owned().concat(reason.as_str()),
            CertifyError::CollectGpu(_) => "failed to collect GPU evidence for certify".to_owned(),
            CertifyError::GpuEvidence(reason) => reason.clone(),
            CertifyError::TeeEvidence(reason) =>
                "TEE evidence Error: ".to_owned().concat(reason.as_str()),
            CertifyError::Certify(reason) =>
                "TAS Certify Error: ".to_owned().concat(reason.as_str()),
            CertifyError::ExportKey(reason) =>
                "failed to serialize key to PKCS#8: ".to_owned().concat(reason.as_str()),
            CertifyError::WriteInitial(_) =>
                "failed to write initial certificate materials".to_owned(),
            CertifyError::WriteRenewed(_) =>
                "failed to write renewed certificate materials".to_owned(),
        }
    }

    /// What lies behind the error, where its message does not give it.
    pub fn cause(&self) -> (r: Option<&str>)
        ensures
            match (r, error_cause(*self)) {
                (Some(cause), Some(reason)) => cause@ == reason,
                (None, None) => true,
                _ => false,
            },
    {
        match self {
            CertifyError::ApiKey { reason, .. } => Some(reason.as_str()),
            CertifyError::LoadCertificate(reason) => Some(reason.as_str()),
            CertifyError::LoadPrivateKey(reason) => Some(reason.as_str()),
            CertifyError::CollectGpu(reason) => Some(reason.as_str()),
            CertifyError::WriteInitial(reason) => Some(reason.as_str()),
            CertifyError::WriteRenewed(reason) => Some(reason.as_str()),
            _ => None,
        }
    }
}

/// Whether `cn` is the Common Name that a plan calls for: the one it has, or one
/// that is generated.
pub open spec fn is_named(plan: CertifyPlan, cn: Seq<char>) -> bool {
    match plan.common_name {
        Some(given) => cn == given@,
        None => is_generated_common_name(cn),
    }
}

/// Whether a session carries out a plan.
pub open spec fn carries_out(session: Session, plan: CertifyPlan) -> bool {
    &&& session.settings == plan.settings
    &&& session.write_dir == plan.write_dir
    &&& session.mode == plan.mode
    &&& session.sans == plan.sans
    &&& is_named(plan, session.common_name@)
}

/// What holds of every session: the signing request is the one for its key, its
/// Common Name and its Subject Alternative Names; the Common Name is valid; and
/// there is a certificate to renew exactly where it renews one.
pub open spec fn is_session(session: Session) -> bool {
    &&& csr_of(session.key@, session.common_name@, san_names(session.sans@)) == Ok::<
        Seq<char>,
        Seq<char>,
    >(session.csr_pem@)
    &&& is_request_for(
        session.csr_pem@,
        session.key@,
        session.common_name@,
        san_names(session.sans@),
    )
    &&& read_common_name(session.common_name@) == Ok::<Seq<char>, CommonNameFault>(
        session.common_name@,
    )
    &&& is_key_encoding(session.key@)
    &&& session.renew_cert is Some <==> session.mode is Renew
}

/// What holds of every attestation in a session: the report data is the digest
/// of the nonce, the session's public key and the component hashes; and there is
/// complete GPU evidence exactly where GPUs are attested.
pub open spec fn is_attestation(attestation: Attestation, session: Session) -> bool {
    &&& public_key_from_pkcs8(session.key@) == Ok::<Seq<u8>, Seq<char>>(attestation.public_key@)
    &&& attestation.binding@ == report_data(
        attestation.nonce@,
        attestation.public_key@,
        attestation.component_hashes@,
    )
    &&& match attestation.gpu_evidence {
        Some(entries) => {
            &&& session.settings.gpu_enabled
            &&& 1 <= entries@.len() <= MAX_GPU_EVIDENCE_ENTRIES
            &&& attestation.component_hashes@.len() == entries@.len() * SHA512_DIGEST_LEN
        },
        None => !session.settings.gpu_enabled && attestation.component_hashes@.len() == 0,
    }
}

/// What holds of all materials of a session: a first certificate comes with the
/// session's key, which may overwrite another one only where that is forced; a
/// renewal leaves the key as it is; the bundle is the chain.
pub open spec fn are_materials(materials: Materials, session: Session) -> bool {
    &&& match session.mode {
        CertifyMode::Fresh { force } => {
            &&& materials.key matches Some(key)
            &&& key.overwrite == force
            &&& pem_from_pkcs8(session.key@) == Ok::<Seq<char>, Seq<char>>(key.pem@)
            &&& pkcs8_from_pem(key.pem@) == Ok::<Seq<u8>, Seq<char>>(session.key@)
        },
        CertifyMode::Renew => materials.key is None,
    }
    &&& materials.ca_bundle@ == materials.chain@
}

/// What holds of every state that a run comes to.
pub open spec fn is_valid(state: CertifyState) -> bool {
    match state {
        CertifyState::ReadApiKey { plan } => has_valid_name(plan),
        CertifyState::LoadCertificate { plan, .. } => has_valid_name(plan) && plan.mode is Renew,
        CertifyState::LoadPrivateKey { plan, .. } => has_valid_name(plan) && plan.mode is Renew,
        CertifyState::GetVersion { session } => is_session(session),
        CertifyState::GetNonce { session } => is_session(session),
        CertifyState::CollectGpu { session, public_key, .. } => {
            &&& is_session(session)
            &&& session.settings.gpu_enabled
            &&& public_key_from_pkcs8(session.key@) == Ok::<Seq<u8>, Seq<char>>(public_key@)
        },
        CertifyState::CollectEvidence { session, attestation } => is_session(session)
            && is_attestation(attestation, session),
        CertifyState::Certify { session, attestation, .. } => is_session(session)
            && is_attestation(attestation, session),
        CertifyState::WriteMaterials { session, materials, .. } => is_session(session)
            && are_materials(materials, session),
        CertifyState::Done { .. } => true,
        CertifyState::Failed { .. } => true,
    }
}

/// Whether a state waits for an event of that kind. Every state that has work
/// to be done also takes the failure of that work; nothing follows the end of a
/// run.
pub open spec fn awaits(state: CertifyState, event: CertifyEvent) -> bool {
    match (state, event) {
        (CertifyState::Done { .. }, _) => false,
        (CertifyState::Failed { .. }, _) => false,
        (CertifyState::ReadApiKey { .. }, CertifyEvent::ApiKeyRead(_)) => true,
        (CertifyState::ReadApiKey { .. }, CertifyEvent::ApiKeyUnreadable { .. }) => true,
        (CertifyState::ReadApiKey { .. }, _) => false,
        (_, CertifyEvent::Refused(_)) => true,
        (CertifyState::LoadCertificate { .. }, CertifyEvent::CertificateLoaded(_)) => true,
        (CertifyState::LoadPrivateKey { .. }, CertifyEvent::PrivateKeyLoaded(_)) => true,
        (CertifyState::GetVersion { .. }, CertifyEvent::VersionRead) => true,
        (CertifyState::GetNonce { .. }, CertifyEvent::NonceReceived(_)) => true,
        (CertifyState::CollectGpu { .. }, CertifyEvent::GpuCollected { .. }) => true,
        (CertifyState::CollectEvidence { .. }, CertifyEvent::EvidenceCollected { .. }) => true,
        (CertifyState::Certify { .. }, CertifyEvent::CertificateIssued { .. }) => true,
        (CertifyState::WriteMaterials { .. }, CertifyEvent::MaterialsWritten) => true,
        _ => false,
    }
}

/// The error of a run whose next work was refused.
pub open spec fn refusal(state: CertifyState, reason: String) -> CertifyError {
    match state {
        CertifyState::LoadCertificate { .. } => CertifyError::LoadCertificate(reason),
        CertifyState::LoadPrivateKey { .. } => CertifyError::LoadPrivateKey(reason),
        CertifyState::GetVersion { .. } => CertifyError::Version(reason),
        CertifyState::GetNonce { .. } => CertifyError::Nonce(reason),
        CertifyState::CollectGpu { .. } => CertifyError::CollectGpu(reason),
        CertifyState::CollectEvidence { .. } => CertifyError::TeeEvidence(reason),
        CertifyState::Certify { .. } => CertifyError::Certify(reason),
        CertifyState::WriteMaterials {
            session: Session { mode: CertifyMode::Renew, .. },
            ..
        } => CertifyError::WriteRenewed(reason),
        _ => CertifyError::WriteInitial(reason),
    }
}

/// What follows once there is a key: a session that carries out the plan with
/// that key, or the error of building the signing request for it and a Common
/// Name that the plan calls for.
pub open spec fn opens(
    plan: CertifyPlan,
    api_key: Seq<char>,
    renew_cert: Option<String>,
    key: Seq<u8>,
    next: CertifyState,
) -> bool {
    match next {
        CertifyState::GetVersion { session } => {
            &&& carries_out(session, plan)
            &&& is_session(session)
            &&& session.api_key@ == api_key
            &&& session.renew_cert == renew_cert
            &&& session.key@ == key
        },
        CertifyState::Failed { error: CertifyError::BuildCsr(reason) } => exists|cn: Seq<char>|
            is_named(plan, cn) && #[trigger] csr_of(key, cn, san_names(plan.sans@)) == Err::<
                Seq<char>,
                Seq<char>,
            >(reason@),
        _ => false,
    }
}

/// Whether `next` is what building the signing request for a key and a Common
/// Name comes to: a session with that request, or the error of building it.
pub open spec fn opens_with(
    plan: CertifyPlan,
    key: Seq<u8>,
    common_name: String,
    next: CertifyState,
) -> bool {
    match csr_of(key, common_name@, san_names(plan.sans@)) {
        Ok(csr_pem) => next matches CertifyState::GetVersion { session } && session.common_name
            == common_name && session.csr_pem@ == csr_pem,
        Err(message) => next matches CertifyState::Failed {
            error: CertifyError::BuildCsr(reason),
        } && reason@ == message,
    }
}

/// What follows where a fresh key is generated: what follows of some RSA key of
/// 4096 bits, or the error of generating one.
pub open spec fn opens_fresh(plan: CertifyPlan, api_key: Seq<char>, next: CertifyState) -> bool {
    ||| next matches CertifyState::Failed { error: CertifyError::GenerateKey(_) }
    ||| exists|key: Seq<u8>|
        is_generated_key(key) && #[trigger] opens(plan, api_key, None, key, next)
}

/// What follows where the key is imported from a PKCS#8 PEM document: what
/// follows of that very key, or the error of importing it.
pub open spec fn opens_renewal(
    plan: CertifyPlan,
    api_key: Seq<char>,
    certificate: String,
    pem: Seq<char>,
    next: CertifyState,
) -> bool {
    match pkcs8_from_pem(pem) {
        Ok(key) => opens(plan, api_key, Some(certificate), key, next),
        Err(message) => next matches CertifyState::Failed {
            error: CertifyError::ImportKey(reason),
        } && reason@ == message,
    }
}

/// Whether `next` is to collect evidence for the report data of the given nonce,
/// public key, GPU evidence and component hashes.
pub open spec fn attests(
    next: CertifyState,
    session: Session,
    nonce: String,
    public_key: Seq<u8>,
    gpu_evidence: Option<Seq<JsonValue>>,
    component_hashes: Seq<u8>,
) -> bool {
    next matches CertifyState::CollectEvidence { session: kept, attestation } && {
        &&& kept == session
        &&& attestation.nonce == nonce
        &&& attestation.public_key@ == public_key
        &&& match (attestation.gpu_evidence, gpu_evidence) {
            (Some(entries), Some(wanted)) => entries@ == wanted,
            (None, None) => true,
            _ => false,
        }
        &&& attestation.component_hashes@ == component_hashes
        &&& attestation.binding@ == report_data(nonce@, public_key, component_hashes)
    }
}

/// What follows a nonce: GPU evidence is collected next where GPUs are attested,
/// and evidence of the execution environment otherwise; or the error of encoding
/// the public key.
pub open spec fn follows_nonce(session: Session, nonce: String, next: CertifyState) -> bool {
    match public_key_from_pkcs8(session.key@) {
        Ok(public_key) => if session.settings.gpu_enabled {
            next matches CertifyState::CollectGpu { session: kept, nonce: n, public_key: pk }
                && kept == session && n == nonce && pk@ == public_key
        } else {
            attests(next, session, nonce, public_key, None, Seq::empty())
        },
        Err(message) => next matches CertifyState::Failed {
            error: CertifyError::PublicKey(reason),
        } && reason@ == message,
    }
}

/// What follows GPU evidence: evidence of the execution environment is collected
/// for all of it; or the error of evidence that is not complete.
pub open spec fn follows_gpu(
    session: Session,
    nonce: String,
    public_key: Seq<u8>,
    payload: JsonValue,
    hashes: Seq<u8>,
    next: CertifyState,
) -> bool {
    match read_gpu_evidence(payload, hashes) {
        Ok(entries) => attests(next, session, nonce, public_key, Some(entries), hashes),
        Err(fault) => next matches CertifyState::Failed {
            error: CertifyError::GpuEvidence(reason),
        } && reason@ == gpu_message(fault),
    }
}

/// The output of a run: the certificate, and behind it the chain where there is
/// one.
pub open spec fn bundle(certificate: Seq<char>, ca_chain: Seq<Seq<char>>) -> Seq<char> {
    if ca_chain.len() == 0 {
        certificate
    } else {
        certificate.push('\n') + joined_lines(ca_chain)
    }
}

/// What follows a certificate: the materials are written next, with the
/// certificate and the chain that came.
pub open spec fn follows_certificate(
    session: Session,
    certificate: Seq<char>,
    ca_chain: Seq<Seq<char>>,
    next: CertifyState,
) -> bool {
    next matches CertifyState::WriteMaterials { session: kept, materials, output } && {
        &&& kept == session
        &&& are_materials(materials, session)
        &&& materials.certificate@ == certificate
        &&& materials.chain@ == joined_lines(ca_chain)
        &&& output@ == bundle(certificate, ca_chain)
    }
}

/// What follows a state and an event that it waits for.
pub open spec fn moves(state: CertifyState, event: CertifyEvent, next: CertifyState) -> bool {
    match (state, event) {
        (_, CertifyEvent::Refused(reason)) => next == (CertifyState::Failed {
            error: refusal(state, reason),
        }),
        (
            CertifyState::ReadApiKey { .. },
            CertifyEvent::ApiKeyUnreadable { shown_path, reason },
        ) => next == (CertifyState::Failed { error: CertifyError::ApiKey { shown_path, reason } }),
        (CertifyState::ReadApiKey { plan }, CertifyEvent::ApiKeyRead(text)) => match plan.mode {
            CertifyMode::Fresh { .. } => opens_fresh(plan, trimmed(text@), next),
            CertifyMode::Renew => next matches CertifyState::LoadCertificate {
                plan: kept,
                api_key,
            } && kept == plan && api_key@ == trimmed(text@),
        },
        (
            CertifyState::LoadCertificate { plan, api_key },
            CertifyEvent::CertificateLoaded(certificate),
        ) => next == (CertifyState::LoadPrivateKey { plan, api_key, certificate }),
        (
            CertifyState::LoadPrivateKey { plan, api_key, certificate },
            CertifyEvent::PrivateKeyLoaded(pem),
        ) => opens_renewal(plan, api_key@, certificate, pem@, next),
        (CertifyState::GetVersion { session }, CertifyEvent::VersionRead) => next == (
        CertifyState::GetNonce { session }),
        (CertifyState::GetNonce { session }, CertifyEvent::NonceReceived(nonce)) => follows_nonce(
            session,
            nonce,
            next,
        ),
        (
            CertifyState::CollectGpu { session, nonce, public_key },
            CertifyEvent::GpuCollected { payload, hashes },
        ) => follows_gpu(session, nonce, public_key@, payload, hashes@, next),
        (
            CertifyState::CollectEvidence { session, attestation },
            CertifyEvent::EvidenceCollected { tee_evidence, tee_type },
        ) => next == (CertifyState::Certify { session, attestation, tee_evidence, tee_type }),
        (
            CertifyState::Certify { session, .. },
            CertifyEvent::CertificateIssued { certificate, ca_chain },
        ) => follows_certificate(session, certificate@, texts(ca_chain@), next),
        (
            CertifyState::WriteMaterials { output, .. },
            CertifyEvent::MaterialsWritten,
        ) => next == (CertifyState::Done { output }),
        _ => false,
    }
}

/// Opens a session with a key and a Common Name: builds the signing request.
pub fn open_session(
    plan: CertifyPlan,
    api_key: String,
    renew_cert: Option<String>,
    key: AgentKey,
    common_name: String,
) -> (next: CertifyState)
    requires
        is_named(plan, common_name@),
        read_common_name(common_name@) == Ok::<Seq<char>, CommonNameFault>(common_name@),
        renew_cert is Some <==> plan.mode is Renew,
    ensures
        opens(plan, api_key@, renew_cert, key@, next),
        opens_with(plan, key@, common_name, next),
{
    proof {
        use_type_invariant(&key);
        accepted_common_name_is_whole_subject(common_name@, Seq::empty(), key@, Seq::empty());
    }
    match build_plain_csr(&key, common_name.as_str(), plan.sans.as_slice()) {
        Ok(csr_pem) => CertifyState::GetVersion {
            session: Session {
                settings: plan.settings,
                write_dir: plan.write_dir,
                mode: plan.mode,
                api_key,
                renew_cert,
                key,
                common_name,
                sans: plan.sans,
                csr_pem,
            },
        },
        Err(reason) => CertifyState::Failed { error: CertifyError::BuildCsr(reason) },
    }
}

/// The Common Name that a plan calls for: the one it has, or a generated one.
fn name_for(plan: &CertifyPlan) -> (r: String)
    requires
        has_valid_name(*plan),
    ensures
        is_named(*plan, r@),
        read_common_name(r@) == Ok::<Seq<char>, CommonNameFault>(r@),
{
    match &plan.common_name {
        Some(given) => given.clone(),
        None => {
            let name = generate_tee_common_name();
            proof {
                let (reported, uuid) = choose|reported: Option<Seq<char>>, uuid: u128|
                    name@ == #[trigger] system_common_name(usable_hostname(reported), uuid);
                generated_common_name_is_valid(usable_hostname(reported), uuid);
            }
            name
        },
    }
}

/// Goes on with what came of generating a key: opens a session with it, or fails
/// for the reason that was given.
pub fn after_generated(
    plan: CertifyPlan,
    api_key: String,
    generated: Result<AgentKey, String>,
    common_name: String,
) -> (next: CertifyState)
    requires
        plan.mode is Fresh,
        is_named(plan, common_name@),
        read_common_name(common_name@) == Ok::<Seq<char>, CommonNameFault>(common_name@),
    ensures
        match generated {
            Ok(key) => opens(plan, api_key@, None, key@, next) && opens_with(
                plan,
                key@,
                common_name,
                next,
            ),
            Err(reason) => next == (CertifyState::Failed {
                error: CertifyError::GenerateKey(reason),
            }),
        },
{
    match generated {
        Ok(key) => open_session(plan, api_key, None, key, common_name),
        Err(reason) => CertifyState::Failed { error: CertifyError::GenerateKey(reason) },
    }
}

fn after_api_key(plan: CertifyPlan, text: String) -> (next: CertifyState)
    requires
        is_valid(CertifyState::ReadApiKey { plan }),
    ensures
        moves(CertifyState::ReadApiKey { plan }, CertifyEvent::ApiKeyRead(text), next),
{
    let api_key = trim_text(text.as_str());
    match plan.mode {
        CertifyMode::Renew => CertifyState::LoadCertificate { plan, api_key },
        CertifyMode::Fresh { .. } => {
            let generated = AgentKey::generate(KeyAlgorithm::Rsa4096);
            let common_name = name_for(&plan);
            after_generated(plan, api_key, generated, common_name)
        },
    }
}

fn after_private_key(plan: CertifyPlan, api_key: String, certificate: String, pem: String) -> (next:
    CertifyState)
    requires
        is_valid(CertifyState::LoadPrivateKey { plan, api_key, certificate }),
    ensures
        opens_renewal(plan, api_key@, certificate, pem@, next),
{
    match AgentKey::from_pkcs8_pem(pem.as_str()) {
        Ok(key) => {
            let common_name = name_for(&plan);
            open_session(plan, api_key, Some(certificate), key, common_name)
        },
        Err(reason) => CertifyState::Failed { error: CertifyError::ImportKey(reason) },
    }
}

fn attest(
    session: Session,
    nonce: String,
    public_key: Vec<u8>,
    gpu_evidence: Option<Vec<JsonValue>>,
    component_hashes: Vec<u8>,
) -> (next: CertifyState)
    ensures
        attests(
            next,
            session,
            nonce,
            public_key@,
            match gpu_evidence {
                Some(entries) => Some(entries@),
                None => None,
            },
            component_hashes@,
        ),
{
    let binding = certify_report_data(
        nonce.as_str(),
        public_key.as_slice(),
        component_hashes.as_slice(),
    );
    CertifyState::CollectEvidence {
        session,
        attestation: Attestation { nonce, public_key, gpu_evidence, component_hashes, binding },
    }
}

fn after_nonce(session: Session, nonce: String) -> (next: CertifyState)
    ensures
        follows_nonce(session, nonce, next),
{
    match session.key.public_key_to_der() {
        Ok(public_key) => if session.settings.gpu_enabled {
            CertifyState::CollectGpu { session, nonce, public_key }
        } else {
            let none: Vec<u8> = Vec::new();
            assert(none@ =~= Seq::empty());
            attest(session, nonce, public_key, None, none)
        },
        Err(reason) => CertifyState::Failed { error: CertifyError::PublicKey(reason) },
    }
}

fn after_gpu(
    session: Session,
    nonce: String,
    public_key: Vec<u8>,
    payload: JsonValue,
    hashes: Vec<u8>,
) -> (next: CertifyState)
    ensures
        follows_gpu(session, nonce, public_key@, payload, hashes@, next),
{
    match check_gpu_evidence(payload, hashes) {
        Ok((entries, hashes)) => attest(session, nonce, public_key, Some(entries), hashes),
        Err(reason) => CertifyState::Failed { error: CertifyError::GpuEvidence(reason) },
    }
}

fn after_certificate(session: Session, certificate: String, ca_chain: Vec<String>) -> (next:
    CertifyState)
    ensures
        follows_certificate(session, certificate@, texts(ca_chain@), next),
{
    let key: Option<NewKey> = match session.mode {
        CertifyMode::Fresh { force } => match session.key.private_key_to_pkcs8_pem() {
            Ok(pem) => Some(NewKey { pem, overwrite: force }),
            Err(reason) => return CertifyState::Failed { error: CertifyError::ExportKey(reason) },
        },
        CertifyMode::Renew => None,
    };
    let chain = join_lines(&ca_chain);
    let mut output = certificate.clone();
    if ca_chain.len() > 0 {
        output.push('\n');
        output.append(chain.as_str());
    }
    let ca_bundle = chain.clone();
    CertifyState::WriteMaterials {
        session,
        materials: Materials { key, certificate, chain, ca_bundle },
        output,
    }
}

fn refused(state: CertifyState, reason: String) -> (error: CertifyError)
    ensures
        error == refusal(state, reason),
{
    match state {
        CertifyState::LoadCertificate { .. } => CertifyError::LoadCertificate(reason),
        CertifyState::LoadPrivateKey { .. } => CertifyError::LoadPrivateKey(reason),
        CertifyState::GetVersion { .. } => CertifyError::Version(reason),
        CertifyState::GetNonce { .. } => CertifyError::Nonce(reason),
        CertifyState::CollectGpu { .. } => CertifyError::CollectGpu(reason),
        CertifyState::CollectEvidence { .. } => CertifyError::TeeEvidence(reason),
        CertifyState::Certify { .. } => CertifyError::Certify(reason),
        CertifyState::WriteMaterials {
            session: Session { mode: CertifyMode::Renew, .. },
            ..
        } => CertifyError::WriteRenewed(reason),
        _ => CertifyError::WriteInitial(reason),
    }
}

/// Gives the state that follows an event. A key is generated, or a Common Name,
/// where the run needs one; all else follows from the state and the event.
pub fn step(state: CertifyState, event: CertifyEvent) -> (next: CertifyState)
    requires
        is_valid(state),
        awaits(state, event),
    ensures
        moves(state, event, next),
        is_valid(next),
{
    let ghost before = state;
    let next = match (state, event) {
        (state, CertifyEvent::Refused(reason)) => CertifyState::Failed {
            error: refused(state, reason),
        },
        (
            CertifyState::ReadApiKey { .. },
            CertifyEvent::ApiKeyUnreadable { shown_path, reason },
        ) => CertifyState::Failed { error: CertifyError::ApiKey { shown_path, reason } },
        (CertifyState::ReadApiKey { plan }, CertifyEvent::ApiKeyRead(text)) => after_api_key(
            plan,
            text,
        ),
        (
            CertifyState::LoadCertificate { plan, api_key },
            CertifyEvent::CertificateLoaded(certificate),
        ) => CertifyState::LoadPrivateKey { plan, api_key, certificate },
        (
            CertifyState::LoadPrivateKey { plan, api_key, certificate },
            CertifyEvent::PrivateKeyLoaded(pem),
        ) => after_private_key(plan, api_key, certificate, pem),
        (
            CertifyState::GetVersion { session },
            CertifyEvent::VersionRead,
        ) => CertifyState::GetNonce { session },
        (CertifyState::GetNonce { session }, CertifyEvent::NonceReceived(nonce)) => after_nonce(
            session,
            nonce,
        ),
        (
            CertifyState::CollectGpu { session, nonce, public_key },
            CertifyEvent::GpuCollected { payload, hashes },
        ) => after_gpu(session, nonce, public_key, payload, hashes),
        (
            CertifyState::CollectEvidence { session, attestation },
            CertifyEvent::EvidenceCollected { tee_evidence, tee_type },
        ) => CertifyState::Certify { session, attestation, tee_evidence, tee_type },
        (
            CertifyState::Certify { session, .. },
            CertifyEvent::CertificateIssued { certificate, ca_chain },
        ) => after_certificate(session, certificate, ca_chain),
        (
            CertifyState::WriteMaterials { output, .. },
            CertifyEvent::MaterialsWritten,
        ) => CertifyState::Done { output },
        (state, _) => state,
    };
    proof {
        moves_keep_validity(before, event, next);
    }
    next
}

/// A run of the flow: the state that it has come to.
pub struct CertifyRun {
    state: CertifyState,
}

impl View for CertifyRun {
    type V = CertifyState;

    closed spec fn view(&self) -> CertifyState {
        self.state
    }
}

impl CertifyRun {
    /// What holds of every run.
    #[verifier::type_invariant]
    pub open spec fn is_sound(self) -> bool {
        is_valid(self@)
    }

    /// Begins a run that carries out a plan.
    pub fn begin(plan: CertifyPlan) -> (run: CertifyRun)
        requires
            has_valid_name(plan),
        ensures
            run@ == (CertifyState::ReadApiKey { plan }),
    {
        CertifyRun { state: CertifyState::ReadApiKey { plan } }
    }

    /// The state that the run has come to, which says what work is next.
    pub fn state(&self) -> (state: &CertifyState)
        ensures
            *state == self@,
            is_valid(self@),
    {
        proof {
            use_type_invariant(self);
        }
        &self.state
    }

    /// Whether the run waits for an event of that kind.
    pub fn accepts(&self, event: &CertifyEvent) -> (r: bool)
        ensures
            r == awaits(self@, *event),
    {
        match (&self.state, event) {
            (CertifyState::Done { .. }, _) => false,
            (CertifyState::Failed { .. }, _) => false,
            (CertifyState::ReadApiKey { .. }, CertifyEvent::ApiKeyRead(_)) => true,
            (CertifyState::ReadApiKey { .. }, CertifyEvent::ApiKeyUnreadable { .. }) => true,
            (CertifyState::ReadApiKey { .. }, _) => false,
            (_, CertifyEvent::Refused(_)) => true,
            (CertifyState::LoadCertificate { .. }, CertifyEvent::CertificateLoaded(_)) => true,
            (CertifyState::LoadPrivateKey { .. }, CertifyEvent::PrivateKeyLoaded(_)) => true,
            (CertifyState::GetVersion { .. }, CertifyEvent::VersionRead) => true,
            (CertifyState::GetNonce { .. }, CertifyEvent::NonceReceived(_)) => true,
            (CertifyState::CollectGpu { .. }, CertifyEvent::GpuCollected { .. }) => true,
            (CertifyState::CollectEvidence { .. }, CertifyEvent::EvidenceCollected { .. }) => true,
            (CertifyState::Certify { .. }, CertifyEvent::CertificateIssued { .. }) => true,
            (CertifyState::WriteMaterials { .. }, CertifyEvent::MaterialsWritten) => true,
            _ => false,
        }
    }

    /// Goes on with what came of the work that was next.
    pub fn advance(self, event: CertifyEvent) -> (run: CertifyRun)
        requires
            awaits(self@, event),
        ensures
            moves(self@, event, run@),
            is_valid(run@),
    {
        proof {
            use_type_invariant(&self);
        }
        CertifyRun { state: step(self.state, event) }
    }

    /// The output of a run that is done, or the error of one that has failed;
    /// the run itself where it is not over.
    pub fn outcome(self) -> (r: Result<Result<String, CertifyError>, CertifyRun>)
        ensures
            match (r, self@) {
                (Ok(Ok(given)), CertifyState::Done { output }) => given == output,
                (Ok(Err(given)), CertifyState::Failed { error }) => given == error,
                (Err(run), CertifyState::Done { .. }) => false,
                (Err(run), CertifyState::Failed { .. }) => false,
                (Err(run), _) => run@ == self@,
                _ => false,
            },
    {
        proof {
            use_type_invariant(&self);
        }
        match self.state {
            CertifyState::Done { output } => Ok(Ok(output)),
            CertifyState::Failed { error } => Ok(Err(error)),
            state => Err(CertifyRun { state }),
        }
    }
}

/// Whatever follows a valid state is valid.
pub proof fn moves_keep_validity(state: CertifyState, event: CertifyEvent, next: CertifyState)
    requires
        is_valid(state),
        moves(state, event, next),
    ensures
        is_valid(next),
{
    if let (
        CertifyState::CollectGpu { .. },
        CertifyEvent::GpuCollected { payload, hashes },
    ) = (state, event) {
        if read_gpu_evidence(payload, hashes@) is Ok {
            accepted_gpu_evidence_is_complete(payload, hashes@);
        }
    }
}

} // verus!
