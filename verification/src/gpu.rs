//! GPU evidence for certification requests.

use vstd::prelude::*;
use vstd::string::*;

use crate::json::{field, take_field, JsonValue};
use crate::report_data::SHA512_DIGEST_LEN;
use crate::text::{decimal, decimal_text};

verus! {

/// The greatest number of GPU evidence entries in a request.
pub const MAX_GPU_EVIDENCE_ENTRIES: usize = 16;

/// What can be wrong with collected GPU evidence.
pub enum GpuFault {
    MissingField,
    NotAnArray,
    NoEntries,
    TooManyEntries(nat),
    HashChain { bytes: nat, entries: nat },
}

/// The entries of a GPU evidence payload, or what is wrong with it.
pub open spec fn read_gpu_entries(payload: JsonValue) -> Result<Seq<JsonValue>, GpuFault> {
    match field(payload, "gpu"@) {
        None => Err(GpuFault::MissingField),
        Some(JsonValue::Array(entries)) => if entries@.len() == 0 {
            Err(GpuFault::NoEntries)
        } else if entries@.len() > MAX_GPU_EVIDENCE_ENTRIES {
            Err(GpuFault::TooManyEntries(entries@.len()))
        } else {
            Ok(entries@)
        },
        Some(_) => Err(GpuFault::NotAnArray),
    }
}

/// The entries of collected GPU evidence whose hashes make up one digest for
/// each entry, or what is wrong with it.
pub open spec fn read_gpu_evidence(payload: JsonValue, hashes: Seq<u8>) -> Result<
    Seq<JsonValue>,
    GpuFault,
> {
    match read_gpu_entries(payload) {
        Ok(entries) => if hashes.len() == entries.len() * SHA512_DIGEST_LEN {
            Ok(entries)
        } else {
            Err(GpuFault::HashChain { bytes: hashes.len(), entries: entries.len() })
        },
        Err(fault) => Err(fault),
    }
}

/// The message for a fault.
pub open spec fn gpu_message(fault: GpuFault) -> Seq<char> {
    match fault {
        GpuFault::MissingField => "GPU evidence payload is missing the 'gpu' field"@,
        GpuFault::NotAnArray => "GPU evidence payload field 'gpu' must be an array"@,
        GpuFault::NoEntries => "GPU evidence payload contains no entries"@,
        GpuFault::TooManyEntries(count) => "GPU evidence payload contains "@ + decimal(count)
            + " entries; maximum is 16"@,
        GpuFault::HashChain { bytes, entries } => "GPU evidence hash chain has "@ + decimal(bytes)
            + " bytes for "@ + decimal(entries) + " entries; expected "@ + decimal(
            entries * SHA512_DIGEST_LEN as nat,
        ),
    }
}

/// Takes the entries out of a GPU evidence payload.
///
/// # Errors
///
/// Returns a message if the payload has no `gpu` field, if that is no array, or
/// if it has no entries or more than [`MAX_GPU_EVIDENCE_ENTRIES`].
pub fn extract_gpu_entries(payload: JsonValue) -> (r: Result<Vec<JsonValue>, String>)
    ensures
        match (r, read_gpu_entries(payload)) {
            (Ok(entries), Ok(wanted)) => entries@ == wanted,
            (Err(message), Err(fault)) => message@ == gpu_message(fault),
            _ => false,
        },
{
    let gpu: JsonValue = match take_field(payload, "gpu") {
        Some(gpu) => gpu,
        None => return Err("GPU evidence payload is missing the 'gpu' field".to_owned()),
    };
    let entries: Vec<JsonValue> = match gpu {
        JsonValue::Array(entries) => entries,
        _ => return Err("GPU evidence payload field 'gpu' must be an array".to_owned()),
    };
    if entries.len() == 0 {
        return Err("GPU evidence payload contains no entries".to_owned());
    }
    if entries.len() > MAX_GPU_EVIDENCE_ENTRIES {
        let mut message = "GPU evidence payload contains ".to_owned();
        message.append(decimal_text(entries.len()).as_str());
        message.append(" entries; maximum is 16");
        return Err(message);
    }
    Ok(entries)
}

/// Checks collected GPU evidence: a payload, and the digests of its entries one
/// after the other.
///
/// # Errors
///
/// Returns a message if the payload is malformed, empty or oversized, or if the
/// hashes do not make up one digest for each entry.
pub fn check_gpu_evidence(payload: JsonValue, hashes: Vec<u8>) -> (r: Result<
    (Vec<JsonValue>, Vec<u8>),
    String,
>)
    ensures
        match (r, read_gpu_evidence(payload, hashes@)) {
            (Ok((entries, chain)), Ok(wanted)) => entries@ == wanted && chain == hashes,
            (Err(message), Err(fault)) => message@ == gpu_message(fault),
            _ => false,
        },
{
    let entries: Vec<JsonValue> = match extract_gpu_entries(payload) {
        Ok(entries) => entries,
        Err(message) => return Err(message),
    };
    let expected_hash_bytes: usize = entries.len() * SHA512_DIGEST_LEN;
    if hashes.len() != expected_hash_bytes {
        let mut message = "GPU evidence hash chain has ".to_owned();
        message.append(decimal_text(hashes.len()).as_str());
        message.append(" bytes for ");
        message.append(decimal_text(entries.len()).as_str());
        message.append(" entries; expected ");
        message.append(decimal_text(expected_hash_bytes).as_str());
        return Err(message);
    }
    Ok((entries, hashes))
}

/// Accepted GPU evidence has one to [`MAX_GPU_EVIDENCE_ENTRIES`] entries, those
/// of the payload's `gpu` array in order, and one digest for each of them.
pub proof fn accepted_gpu_evidence_is_complete(payload: JsonValue, hashes: Seq<u8>)
    requires
        read_gpu_evidence(payload, hashes) is Ok,
    ensures
        field(payload, "gpu"@) matches Some(JsonValue::Array(entries)) && read_gpu_evidence(
            payload,
            hashes,
        )->Ok_0 == entries@,
        1 <= read_gpu_evidence(payload, hashes)->Ok_0.len() <= MAX_GPU_EVIDENCE_ENTRIES,
        hashes.len() == SHA512_DIGEST_LEN * read_gpu_evidence(payload, hashes)->Ok_0.len(),
        hashes.len() > 0,
{
}

/// GPU evidence is accepted exactly where its `gpu` field is an array of one to 16
/// entries and there are 64 octets of hashes for each of them; and what is given
/// on is that array, every entry in its place.
pub proof fn gpu_evidence_is_accepted_exactly(
    payload: JsonValue,
    hashes: Seq<u8>,
    entries: Vec<JsonValue>,
)
    requires
        field(payload, "gpu"@) == Some(JsonValue::Array(entries)),
    ensures
        read_gpu_entries(payload) is Ok <==> 1 <= entries@.len() <= 16,
        read_gpu_evidence(payload, hashes) is Ok <==> 1 <= entries@.len() <= 16 && hashes.len()
            == 64 * entries@.len(),
        read_gpu_entries(payload) matches Ok(given) ==> given == entries@,
        read_gpu_evidence(payload, hashes) matches Ok(given) ==> given == entries@,
{
}

/// GPU evidence whose `gpu` field is missing or is no array is refused.
pub proof fn gpu_evidence_without_array_is_refused(payload: JsonValue, hashes: Seq<u8>)
    requires
        !(field(payload, "gpu"@) matches Some(JsonValue::Array(_))),
    ensures
        read_gpu_entries(payload) is Err,
        read_gpu_evidence(payload, hashes) is Err,
        field(payload, "gpu"@) is None ==> gpu_message(read_gpu_entries(payload)->Err_0)
            == "GPU evidence payload is missing the 'gpu' field"@,
        field(payload, "gpu"@) is Some ==> gpu_message(read_gpu_entries(payload)->Err_0)
            == "GPU evidence payload field 'gpu' must be an array"@,
        read_gpu_evidence(payload, hashes)->Err_0 == read_gpu_entries(payload)->Err_0,
{
}

/// The message for an array that is refused gives the numbers that do not fit.
pub proof fn gpu_refusal_gives_numbers(
    payload: JsonValue,
    hashes: Seq<u8>,
    entries: Vec<JsonValue>,
)
    requires
        field(payload, "gpu"@) == Some(JsonValue::Array(entries)),
    ensures
        entries@.len() == 0 ==> gpu_message(read_gpu_evidence(payload, hashes)->Err_0)
            == "GPU evidence payload contains no entries"@,
        entries@.len() > 16 ==> gpu_message(read_gpu_evidence(payload, hashes)->Err_0)
            == "GPU evidence payload contains "@ + decimal(entries@.len())
            + " entries; maximum is 16"@,
        1 <= entries@.len() <= 16 && hashes.len() != 64 * entries@.len() ==> gpu_message(
            read_gpu_evidence(payload, hashes)->Err_0,
        ) == "GPU evidence hash chain has "@ + decimal(hashes.len()) + " bytes for "@ + decimal(
            entries@.len(),
        ) + " entries; expected "@ + decimal(64 * entries@.len()),
{
}

} // verus!
