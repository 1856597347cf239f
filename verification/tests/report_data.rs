use sha2::{Digest, Sha512};
use tas_agent::report_data::{
    certify_report_data, compute_report_data_binding, compute_report_data_binding_with_components,
};

#[test]
fn cpu_only_report_data_uses_plain_binding() {
    let nonce = "0123456789abcdef";
    let public_key = b"public-key";

    let actual = certify_report_data(nonce, public_key, &[]);
    let expected = compute_report_data_binding(nonce.as_bytes(), public_key);

    assert_eq!(actual, expected);
    assert_eq!(actual.len(), 64);
}

#[test]
fn gpu_report_data_uses_component_hash_order() {
    let nonce = "0123456789abcdef";
    let public_key = b"public-key";
    let mut hashes = vec![1_u8; 64];
    hashes.extend(vec![2_u8; 64]);

    let actual = certify_report_data(nonce, public_key, &hashes);
    let expected =
        compute_report_data_binding_with_components(nonce.as_bytes(), public_key, &hashes);

    assert_eq!(actual, expected);
    assert_eq!(actual.len(), 64);

    let mut reversed = hashes.clone();
    reversed.reverse();
    assert_ne!(actual, certify_report_data(nonce, public_key, &reversed));
}

#[test]
fn report_data_is_the_digest_of_nonce_key_and_hashes() {
    let nonce = "n\u{f6}nce";
    let public_key = [0x30u8, 0x82];
    let hashes = [9u8; 64];
    let mut message = nonce.as_bytes().to_vec();
    message.extend_from_slice(&public_key);
    assert_eq!(
        certify_report_data(nonce, &public_key, &[]),
        Sha512::digest(&message).to_vec()
    );
    message.extend_from_slice(&hashes);
    assert_eq!(
        certify_report_data(nonce, &public_key, &hashes),
        Sha512::digest(&message).to_vec()
    );
}

#[test]
fn report_data_of_nothing_is_the_digest_of_the_empty_message() {
    let empty = compute_report_data_binding(b"", b"");
    assert_eq!(
        hex::encode(&empty[..8]),
        "cf83e1357eefb8bd"
    );
    assert_eq!(compute_report_data_binding_with_components(b"", b"", b""), empty);
}

#[test]
fn other_inputs_make_other_report_data() {
    let data = certify_report_data("nonce-1", b"key", &[]);
    assert_ne!(data, certify_report_data("nonce-2", b"key", &[]));
    assert_ne!(data, certify_report_data("nonce-1", b"kez", &[]));
    assert_ne!(data, certify_report_data("nonce-1", b"key", &[0]));
}
