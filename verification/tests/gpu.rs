use tas_agent::gpu::{check_gpu_evidence, extract_gpu_entries, MAX_GPU_EVIDENCE_ENTRIES};
use tas_agent::json::{take_field, JsonValue};

fn text(s: &str) -> JsonValue {
    JsonValue::Text(s.to_string())
}

fn object(members: Vec<(&str, JsonValue)>) -> JsonValue {
    JsonValue::Object(
        members
            .into_iter()
            .map(|(name, value)| (name.to_string(), value))
            .collect(),
    )
}

fn payload_with_entries(count: usize) -> JsonValue {
    let entries = (0..count)
        .map(|index| {
            object(vec![
                ("type", text("gpu-nvidia")),
                ("device-index", JsonValue::Number(index.to_string())),
                ("evidence", text("evidence")),
            ])
        })
        .collect::<Vec<_>>();
    object(vec![("gpu", JsonValue::Array(entries))])
}

fn device_index(entry: JsonValue) -> JsonValue {
    take_field(entry, "device-index").unwrap()
}

#[test]
fn extracts_bare_gpu_array() {
    let mut entries = extract_gpu_entries(payload_with_entries(2)).unwrap();

    assert_eq!(entries.len(), 2);
    let second = entries.pop().unwrap();
    let first = entries.pop().unwrap();
    assert_eq!(device_index(first), JsonValue::Number("0".to_string()));
    assert_eq!(device_index(second), JsonValue::Number("1".to_string()));
}

#[test]
fn rejects_missing_non_array_and_empty_gpu_payloads() {
    let missing = extract_gpu_entries(object(vec![])).unwrap_err();
    assert!(missing.to_string().contains("missing the 'gpu' field"));

    let non_array = extract_gpu_entries(object(vec![("gpu", object(vec![]))])).unwrap_err();
    assert!(non_array.to_string().contains("must be an array"));

    let empty = extract_gpu_entries(payload_with_entries(0)).unwrap_err();
    assert!(empty.to_string().contains("contains no entries"));
}

#[test]
fn enforces_backend_gpu_limit() {
    assert_eq!(
        extract_gpu_entries(payload_with_entries(MAX_GPU_EVIDENCE_ENTRIES))
            .unwrap()
            .len(),
        MAX_GPU_EVIDENCE_ENTRIES
    );

    let error =
        extract_gpu_entries(payload_with_entries(MAX_GPU_EVIDENCE_ENTRIES + 1)).unwrap_err();
    assert!(error.to_string().contains("maximum is 16"));
}

#[test]
fn gpu_messages_name_the_fault() {
    assert_eq!(
        extract_gpu_entries(JsonValue::Null).unwrap_err(),
        "GPU evidence payload is missing the 'gpu' field"
    );
    assert_eq!(
        extract_gpu_entries(JsonValue::Array(vec![])).unwrap_err(),
        "GPU evidence payload is missing the 'gpu' field"
    );
    assert_eq!(
        extract_gpu_entries(object(vec![("gpu", JsonValue::Null)])).unwrap_err(),
        "GPU evidence payload field 'gpu' must be an array"
    );
    assert_eq!(
        extract_gpu_entries(payload_with_entries(0)).unwrap_err(),
        "GPU evidence payload contains no entries"
    );
    assert_eq!(
        extract_gpu_entries(payload_with_entries(17)).unwrap_err(),
        "GPU evidence payload contains 17 entries; maximum is 16"
    );
}

#[test]
fn gpu_field_is_found_behind_others() {
    let payload = object(vec![
        ("version", JsonValue::Number("1".to_string())),
        ("gpus", JsonValue::Bool(true)),
        ("gpu", JsonValue::Array(vec![text("e")])),
    ]);
    assert_eq!(extract_gpu_entries(payload).unwrap(), vec![text("e")]);
}

#[test]
fn gpu_evidence_needs_one_digest_for_each_entry() {
    let (entries, hashes) = check_gpu_evidence(payload_with_entries(2), vec![7; 128]).unwrap();
    assert_eq!(entries.len(), 2);
    assert_eq!(hashes, vec![7; 128]);

    assert_eq!(
        check_gpu_evidence(payload_with_entries(2), vec![7; 127]).unwrap_err(),
        "GPU evidence hash chain has 127 bytes for 2 entries; expected 128"
    );
    assert_eq!(
        check_gpu_evidence(payload_with_entries(1), vec![]).unwrap_err(),
        "GPU evidence hash chain has 0 bytes for 1 entries; expected 64"
    );
    assert_eq!(
        check_gpu_evidence(payload_with_entries(0), vec![]).unwrap_err(),
        "GPU evidence payload contains no entries"
    );
}
