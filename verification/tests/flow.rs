use std::path::PathBuf;

use rsa::pkcs8::{EncodePrivateKey, LineEnding};
use tas_agent::common_name::parse_common_name;
use tas_agent::csr::build_plain_csr;
use tas_agent::flow::{
    after_generated, open_session, step, CertifyError, CertifyEvent, CertifyRun, CertifyState, Session,
};
use tas_agent::json::JsonValue;
use tas_agent::keygen::AgentKey;
use tas_agent::report_data::certify_report_data;
use tas_agent::settings::{
    plan_certify, CertifyArgs, CertifyConfig, CertifyMode, CertifyPlan, Cli, Config,
};

fn key_pem(bits: usize) -> String {
    rsa::RsaPrivateKey::new(&mut rsa::rand_core::OsRng, bits)
        .unwrap()
        .to_pkcs8_pem(LineEnding::LF)
        .unwrap()
        .to_string()
}

fn begin(plan: CertifyPlan) -> CertifyState {
    CertifyState::ReadApiKey { plan }
}

fn import(pem: &str) -> AgentKey {
    AgentKey::from_pkcs8_pem(pem).ok().unwrap()
}

fn plan(renew: bool, force: bool, no_gpu: bool, common_name: Option<&str>) -> CertifyPlan {
    let cli = Cli {
        server_uri: Some("https://tas.example".to_string()),
        domain_policy: Some("domain".to_string()),
        no_gpu,
        ..Default::default()
    };
    let args = CertifyArgs {
        renew,
        write_dir: Some(PathBuf::from("/certs")),
        force,
        common_name: common_name.map(str::to_string),
        sans: Vec::new(),
    };
    let cfg = Config {
        certify_config: CertifyConfig {
            sans: Some(vec!["DNS:node.example".to_string()]),
            ..Default::default()
        },
        ..Default::default()
    };
    plan_certify(&cli, &args, &cfg).ok().unwrap()
}

fn gpu_payload(count: usize) -> JsonValue {
    let entries = (0..count)
        .map(|i| JsonValue::Number(i.to_string()))
        .collect::<Vec<_>>();
    JsonValue::Object(vec![("gpu".to_string(), JsonValue::Array(entries))])
}

fn renewal_until_version(pem: &str, no_gpu: bool) -> CertifyState {
    let mut state = begin(plan(true, false, no_gpu, Some("node.example")));
    for event in [
        CertifyEvent::ApiKeyRead(" secret\n".to_string()),
        CertifyEvent::CertificateLoaded("old certificate".to_string()),
        CertifyEvent::PrivateKeyLoaded(pem.to_string()),
    ] {
        state = step(state, event);
    }
    state
}

fn fresh_until_version(pem: &str, force: bool) -> CertifyState {
    open_session(
        plan(false, force, true, Some("node.example")),
        "secret".to_string(),
        None,
        import(pem),
        "node.example".to_string(),
    )
}

fn session_of(state: &CertifyState) -> &Session {
    match state {
        CertifyState::GetVersion { session } => session,
        CertifyState::GetNonce { session } => session,
        CertifyState::Certify { session, .. } => session,
        CertifyState::WriteMaterials { session, .. } => session,
        _ => panic!("no session"),
    }
}

fn run(mut state: CertifyState, events: Vec<CertifyEvent>) -> CertifyState {
    for event in events {
        state = step(state, event);
    }
    state
}

fn nonce() -> CertifyEvent {
    CertifyEvent::NonceReceived("0123".to_string())
}

fn evidence() -> CertifyEvent {
    CertifyEvent::EvidenceCollected {
        tee_evidence: "evidence".to_string(),
        tee_type: "sev-snp".to_string(),
    }
}

fn issued(chain: &[&str]) -> CertifyEvent {
    CertifyEvent::CertificateIssued {
        certificate: "leaf".to_string(),
        ca_chain: chain.iter().map(|c| c.to_string()).collect(),
    }
}

fn refused() -> CertifyEvent {
    CertifyEvent::Refused("no".to_string())
}

fn unreadable() -> CertifyEvent {
    CertifyEvent::ApiKeyUnreadable {
        shown_path: format!("{:?}", PathBuf::from("/k")),
        reason: "no such file".to_string(),
    }
}

fn error_of(state: CertifyState) -> CertifyError {
    match state {
        CertifyState::Failed { error } => error,
        _ => panic!("not failed"),
    }
}

#[test]
fn renewal_reuses_key_and_certificate() {
    let pem = key_pem(1024);
    let state = renewal_until_version(&pem, true);
    let session = session_of(&state);
    assert_eq!(session.api_key, "secret");
    assert_eq!(session.renew_cert, Some("old certificate".to_string()));
    assert_eq!(session.mode, CertifyMode::Renew);
    assert_eq!(session.common_name, "node.example");
    assert_eq!(session.key.private_key_to_pkcs8_pem().unwrap(), pem);
    assert_eq!(
        session.csr_pem,
        build_plain_csr(&import(&pem), "node.example", &session.sans).unwrap()
    );

    let written = run(
        state,
        vec![CertifyEvent::VersionRead, nonce(), evidence(), issued(&[])],
    );
    match &written {
        CertifyState::WriteMaterials { materials, .. } => assert!(materials.key.is_none()),
        _ => panic!("nothing to write"),
    }
    assert_eq!(
        session_of(&written).key.private_key_to_pkcs8_pem().unwrap(),
        pem
    );
}

#[test]
fn renewal_of_written_key_goes_on_with_it() {
    let pem = key_pem(1024);
    let state = run(
        fresh_until_version(&pem, true),
        vec![CertifyEvent::VersionRead, nonce(), evidence(), issued(&[])],
    );
    let written = match state {
        CertifyState::WriteMaterials { materials, .. } => materials.key.unwrap(),
        _ => panic!("nothing to write"),
    };
    assert!(written.overwrite);
    let renewal = renewal_until_version(&written.pem, true);
    assert_eq!(
        session_of(&renewal).key.public_key_to_der(),
        import(&pem).public_key_to_der()
    );
}

#[test]
fn fresh_run_writes_key_certificate_and_chain() {
    let pem = key_pem(1024);
    let state = run(
        fresh_until_version(&pem, false),
        vec![
            CertifyEvent::VersionRead,
            nonce(),
            evidence(),
            issued(&["ca one", "ca two"]),
        ],
    );
    match &state {
        CertifyState::WriteMaterials {
            session,
            materials,
            output,
        } => {
            assert_eq!(session.write_dir, PathBuf::from("/certs"));
            assert_eq!(session.renew_cert, None);
            let key = materials.key.as_ref().unwrap();
            assert_eq!(key.pem, pem);
            assert!(!key.overwrite);
            assert_eq!(materials.certificate, "leaf");
            assert_eq!(materials.chain, "ca one\nca two");
            assert_eq!(materials.ca_bundle, "ca one\nca two");
            assert_eq!(output, "leaf\nca one\nca two");
        }
        _ => panic!("nothing to write"),
    }
    match step(state, CertifyEvent::MaterialsWritten) {
        CertifyState::Done { output } => assert_eq!(output, "leaf\nca one\nca two"),
        _ => panic!("not done"),
    }
}

#[test]
fn output_without_chain_is_the_certificate() {
    let pem = key_pem(1024);
    let state = run(
        renewal_until_version(&pem, true),
        vec![
            CertifyEvent::VersionRead,
            nonce(),
            evidence(),
            issued(&[]),
            CertifyEvent::MaterialsWritten,
        ],
    );
    match state {
        CertifyState::Done { output } => assert_eq!(output, "leaf"),
        _ => panic!("not done"),
    }
}

#[test]
fn report_data_binds_nonce_key_and_gpu_hashes() {
    let pem = key_pem(1024);
    let public_key = import(&pem).public_key_to_der().unwrap();

    let state = run(
        renewal_until_version(&pem, true),
        vec![CertifyEvent::VersionRead, nonce(), evidence()],
    );
    match state {
        CertifyState::Certify {
            attestation,
            tee_evidence,
            tee_type,
            ..
        } => {
            assert_eq!(attestation.nonce, "0123");
            assert_eq!(attestation.public_key, public_key);
            assert!(attestation.gpu_evidence.is_none());
            assert_eq!(
                attestation.binding,
                certify_report_data("0123", &public_key, &[])
            );
            assert_eq!(tee_evidence, "evidence");
            assert_eq!(tee_type, "sev-snp");
        }
        _ => panic!("nothing to certify"),
    }

    let hashes = vec![5u8; 128];
    let state = run(
        renewal_until_version(&pem, false),
        vec![
            CertifyEvent::VersionRead,
            nonce(),
            CertifyEvent::GpuCollected {
                payload: gpu_payload(2),
                hashes: hashes.clone(),
            },
            evidence(),
        ],
    );
    match state {
        CertifyState::Certify { attestation, .. } => {
            assert_eq!(
                attestation.gpu_evidence.unwrap(),
                vec![
                    JsonValue::Number("0".to_string()),
                    JsonValue::Number("1".to_string())
                ]
            );
            assert_eq!(attestation.component_hashes, hashes);
            assert_eq!(
                attestation.binding,
                certify_report_data("0123", &public_key, &hashes)
            );
        }
        _ => panic!("nothing to certify"),
    }
}

#[test]
fn gpu_evidence_that_is_not_complete_stops_the_run() {
    let pem = key_pem(1024);
    let state = run(
        renewal_until_version(&pem, false),
        vec![
            CertifyEvent::VersionRead,
            nonce(),
            CertifyEvent::GpuCollected {
                payload: gpu_payload(2),
                hashes: vec![5u8; 64],
            },
        ],
    );
    assert_eq!(
        error_of(state).message(),
        "GPU evidence hash chain has 64 bytes for 2 entries; expected 128"
    );
}

#[test]
fn refused_work_fails_with_its_message() {
    let pem = key_pem(1024);
    let loaded = || {
        step(
            begin(plan(true, false, false, None)),
            CertifyEvent::ApiKeyRead("k".to_string()),
        )
    };
    let certified = || {
        step(
            loaded(),
            CertifyEvent::CertificateLoaded("old".to_string()),
        )
    };
    let versioned = || renewal_until_version(&pem, false);
    let nonced = || step(versioned(), CertifyEvent::VersionRead);
    let gpu = || step(nonced(), nonce());
    let attested = || {
        step(
            gpu(),
            CertifyEvent::GpuCollected {
                payload: gpu_payload(1),
                hashes: vec![0; 64],
            },
        )
    };
    let certify = || step(attested(), evidence());
    let write = || step(certify(), issued(&[]));
    let fresh_write = || {
        run(
            fresh_until_version(&pem, false),
            vec![CertifyEvent::VersionRead, nonce(), evidence(), issued(&[])],
        )
    };
    let outcomes: Vec<(CertifyState, &str, Option<&str>)> = vec![
        (loaded(), "failed to load certificate for renewal", Some("no")),
        (certified(), "failed to load private key for renewal", Some("no")),
        (versioned(), "TAS Version Error: no", None),
        (nonced(), "TAS Alpha Nonce Error: no", None),
        (gpu(), "failed to collect GPU evidence for certify", Some("no")),
        (attested(), "TEE evidence Error: no", None),
        (certify(), "TAS Certify Error: no", None),
        (write(), "failed to write renewed certificate materials", Some("no")),
        (
            fresh_write(),
            "failed to write initial certificate materials",
            Some("no"),
        ),
    ];
    for (state, message, cause) in outcomes {
        let error = error_of(step(state, refused()));
        assert_eq!(error.message(), message);
        assert_eq!(error.cause(), cause);
    }
}

#[test]
fn key_that_cannot_be_imported_stops_the_run() {
    let state = renewal_until_version("no key", true);
    let reason = AgentKey::from_pkcs8_pem("no key").err().unwrap();
    assert_eq!(
        error_of(state).message(),
        format!("failed to import private key from PKCS#8: {reason}")
    );
}

#[test]
fn request_that_cannot_be_built_stops_the_run() {
    let state = renewal_until_version(&key_pem(256), true);
    let message = error_of(state).message();
    assert!(message.starts_with("failed to build CSR: signature error: "));
}

#[test]
fn name_is_generated_where_none_was_asked_for() {
    let mut state = begin(plan(true, false, true, None));
    for event in [
        CertifyEvent::ApiKeyRead("k".to_string()),
        CertifyEvent::CertificateLoaded("old".to_string()),
        CertifyEvent::PrivateKeyLoaded(key_pem(1024)),
    ] {
        state = step(state, event);
    }
    let name = &session_of(&state).common_name;
    assert!(name.starts_with("tee.") || name.starts_with("tas."));
    assert_eq!(&parse_common_name(name).unwrap(), name);
}

#[test]
fn messages_of_other_errors() {
    let reason = || "why".to_string();
    for (error, message) in [
        (CertifyError::GenerateKey(reason()), "failed to generate certify key: why"),
        (CertifyError::PublicKey(reason()), "Failed to get public key DER: why"),
        (CertifyError::ExportKey(reason()), "failed to serialize key to PKCS#8: why"),
        (CertifyError::GpuEvidence(reason()), "why"),
    ] {
        assert_eq!(error.message(), message);
        assert_eq!(error.cause(), None);
    }
}

#[test]
fn run_goes_from_state_to_state() {
    let mut run = CertifyRun::begin(plan(true, false, true, Some("node.example")));
    assert!(matches!(run.state(), CertifyState::ReadApiKey { .. }));
    let pem = key_pem(1024);
    for event in [
        CertifyEvent::ApiKeyRead("k".to_string()),
        CertifyEvent::CertificateLoaded("old".to_string()),
        CertifyEvent::PrivateKeyLoaded(pem),
        CertifyEvent::VersionRead,
        nonce(),
        evidence(),
        issued(&["ca"]),
        CertifyEvent::MaterialsWritten,
    ] {
        run = run.outcome().err().unwrap();
        assert!(run.accepts(&event));
        run = run.advance(event);
    }
    assert!(!run.accepts(&refused()));
    match run.outcome() {
        Ok(Ok(output)) => assert_eq!(output, "leaf\nca"),
        _ => panic!("not done"),
    }
}

#[test]
fn run_waits_for_one_kind_of_event_or_its_refusal() {
    let run = CertifyRun::begin(plan(true, false, true, Some("node.example")));
    assert!(run.accepts(&CertifyEvent::ApiKeyRead("k".to_string())));
    assert!(run.accepts(&unreadable()));
    assert!(!run.accepts(&refused()));
    assert!(!run.accepts(&CertifyEvent::VersionRead));
    assert!(!run.accepts(&issued(&[])));
    assert!(!run.accepts(&CertifyEvent::MaterialsWritten));
    let run = run.advance(CertifyEvent::ApiKeyRead("k".to_string()));
    assert!(run.accepts(&refused()));
    assert!(!run.accepts(&unreadable()));
    let failed = run.advance(refused());
    assert!(!failed.accepts(&refused()));
    assert!(matches!(failed.outcome(), Ok(Err(_))));
}

#[test]
fn unreadable_api_key_is_reported_with_its_path_and_cause() {
    for renew in [false, true] {
        let run = CertifyRun::begin(plan(renew, false, true, Some("node.example")));
        match run.advance(unreadable()).outcome() {
            Ok(Err(error)) => {
                assert_eq!(error.message(), "unable to read API key from \"/k\"");
                assert_eq!(error.cause(), Some("no such file"));
            }
            _ => panic!("not failed"),
        }
    }
}

#[test]
fn generated_key_opens_a_session_and_its_failure_is_reported() {
    let pem = key_pem(1024);
    let next = |generated| {
        after_generated(
            plan(false, true, true, Some("node.example")),
            "secret".to_string(),
            generated,
            "node.example".to_string(),
        )
    };
    let state = next(Ok(import(&pem)));
    let session = session_of(&state);
    assert_eq!(session.key.private_key_to_pkcs8_pem().unwrap(), pem);
    assert_eq!(session.api_key, "secret");
    assert_eq!(session.renew_cert, None);
    assert_eq!(session.mode, CertifyMode::Fresh { force: true });
    assert_eq!(
        error_of(next(Err("why".to_string()))).message(),
        "failed to generate certify key: why"
    );
}
