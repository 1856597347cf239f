//! Plain PKCS#10 certificate signing requests.

use std::error::Error;
use std::str::FromStr;

use rsa::pkcs1v15::{Signature, SigningKey};
use rsa::pkcs8::DecodePrivateKey;
use rsa::signature::{Keypair, SignatureEncoding, Signer};
use rsa::traits::PrivateKeyParts;
use sha2::Sha256;
use vstd::prelude::*;
use vstd::string::*;
use vstd::utf8::*;
use x509_cert::builder::{Builder, RequestBuilder};
use x509_cert::der::asn1::{BitString, Ia5String, OctetString};
use x509_cert::der::pem::{LineEnding, PemLabel};
use x509_cert::der::{Decode, Encode};
use x509_cert::ext::pkix::{name, SubjectAltName};
use x509_cert::name::Name;
use x509_cert::request::{CertReq, CertReqInfo};
use x509_cert::spki::{DynSignatureAlgorithmIdentifier, SubjectPublicKeyInfoOwned};

use crate::common_name::{accepted_common_name_is_safe, is_forbidden, read_common_name};
use crate::der::{der_bits, der_value, octet_lists, MAX_DER_LENGTH};
use crate::ip::{fields, numeral_value};
use crate::keygen::{public_key_from_pkcs8, AgentKey};
use crate::outcome::{octets_outcome, text_outcome};
use crate::san::{
    accepted_san_is_clean, general_name, general_name_holds_name, general_names,
    general_names_keep_order, has_general_name, is_clean, name_contents,
    read_san, san_names, to_general_names, GeneralName, GeneralNameContent, SanEntry, SanFault,
    SanName,
};
use crate::text::{decimal, decimal_text};

verus! {

/// The greatest number of Subject Alternative Names in a single request.
pub const MAX_SANS: usize = 64;

/// The text of a subject of which `cn` is the Common Name.
pub open spec fn subject_text(cn: Seq<char>) -> Seq<char> {
    "CN="@ + cn
}

/// Whether an attribute of the distinguished name `text` starts at `i`: at the
/// start of the text, or behind a comma or a plus sign that is not escaped.
pub open spec fn attribute_starts_at(text: Seq<char>, i: int) -> bool {
    i == 0 || {
        &&& 0 < i <= text.len()
        &&& text[i - 1] == ',' || text[i - 1] == '+'
        &&& i >= 2 && text[i - 2] == '\\' ==> i >= 3 && text[i - 3] == '\\'
    }
}

/// How many octets a number of an object identifier takes behind the first two;
/// `None` for the numbers that are refused there.
pub open spec fn arc_octets(n: nat) -> Option<nat> {
    if n <= 0x7f {
        Some(1)
    } else if n <= 0x3fff {
        Some(2)
    } else if n <= 0x1f_ffff {
        Some(3)
    } else if n < 0x1020_0000 {
        Some(4)
    } else if n <= 0x1fff_ffff {
        None
    } else {
        Some(5)
    }
}

/// How many octets the numbers of an object identifier take so far: the first is
/// at most 2, the second at most 39, and all of them take fewer than 39 octets;
/// `None` where one of them is refused.
pub open spec fn identifier_octets(arcs: Seq<Seq<char>>) -> Option<nat>
    decreases arcs.len(),
{
    if arcs.len() == 0 {
        Some(0)
    } else {
        match (identifier_octets(arcs.drop_last()), numeral_value(arcs.last(), 10)) {
            (Some(before), Some(n)) => if arcs.len() == 1 {
                if n <= 2 {
                    Some(0)
                } else {
                    None
                }
            } else if arcs.len() == 2 {
                if n <= 39 {
                    Some(1)
                } else {
                    None
                }
            } else {
                match arc_octets(n) {
                    Some(octets) => if before + octets < 39 {
                        Some(before + octets)
                    } else {
                        None
                    },
                    None => None,
                }
            },
            _ => None,
        }
    }
}

/// Whether the attribute that starts at `from` has a type: something stands before
/// its first equals sign.
pub open spec fn has_type(text: Seq<char>, from: int) -> bool {
    text[from] != '=' && exists|mark: int|
        from < mark < text.len() && #[trigger] text[mark] == '=' && forall|k: int|
            from < k <= mark ==> !attribute_starts_at(text, k)
}

/// Whether the attribute that starts at `from`, before which none is without a
/// type, has for its type an object identifier in which reading comes to the
/// number from `arc` up to `end`, and that number takes more than 32 bits.
pub open spec fn has_large_arc(text: Seq<char>, from: int, arc: int, end: int) -> bool {
    &&& 0 <= from <= arc < end <= text.len()
    &&& attribute_starts_at(text, from)
    &&& forall|before: int|
        0 <= before < from && #[trigger] attribute_starts_at(text, before) ==> has_type(
            text,
            before,
        )
    &&& '0' <= text[from] <= '9'
    &&& arc > from ==> text[arc - 1] == '.' && identifier_octets(
        fields(text.subrange(from, arc - 1), '.'),
    ) is Some
    &&& numeral_value(text.subrange(arc, end), 10) matches Some(n) && n > u32::MAX
    &&& exists|mark: int|
        end <= mark < text.len() && #[trigger] text[mark] == '=' && forall|k: int|
            end <= k <= mark ==> !attribute_starts_at(text, k)
}

/// Whether every number that is read in the object identifiers of a distinguished
/// name takes at most 32 bits.
pub open spec fn has_bounded_arcs(text: Seq<char>) -> bool {
    forall|from: int, arc: int, end: int| !has_large_arc(text, from, arc, end)
}

/// Whether an attribute value stands for itself: nothing in it ends the value,
/// is an escape, or marks it as hexadecimal.
pub open spec fn is_plain_value(value: Seq<char>) -> bool {
    &&& forall|i: int|
        0 <= i < value.len() ==> #[trigger] value[i] != ',' && value[i] != '+' && value[i] != '\\'
    &&& value.len() > 0 ==> value[0] != '#'
}

/// The subject whose one attribute is the Common Name `cn`.
pub open spec fn common_name_der(cn: Seq<char>) -> Seq<u8> {
    let attribute = seq![0x06u8, 0x03u8, 0x55u8, 0x04u8, 0x03u8] + der_value(
        0x0c,
        encode_utf8(cn),
    );
    der_value(0x30, der_value(0x31, der_value(0x30, attribute)))
}

/// The `SubjectPublicKeyInfo` of an RSA key with the given PKCS#1 encoding.
pub open spec fn public_key_der(public_key: Seq<u8>) -> Seq<u8> {
    let algorithm = seq![
        0x30u8, 0x0du8, 0x06u8, 0x09u8, 0x2au8, 0x86u8, 0x48u8, 0x86u8, 0xf7u8, 0x0du8, 0x01u8,
        0x01u8, 0x01u8, 0x05u8, 0x00u8,
    ];
    der_value(0x30, algorithm + der_bits(public_key))
}

/// The `extensionRequest` attribute of a request for a Subject Alternative Name
/// extension of the given DER encoded general names.
pub open spec fn san_attribute(names: Seq<Seq<u8>>) -> Seq<u8> {
    let extension = seq![0x06u8, 0x03u8, 0x55u8, 0x1du8, 0x11u8] + der_value(
        0x04,
        der_value(0x30, names.flatten()),
    );
    let extensions = der_value(0x30, der_value(0x30, extension));
    let extension_request = seq![
        0x06u8, 0x09u8, 0x2au8, 0x86u8, 0x48u8, 0x86u8, 0xf7u8, 0x0du8, 0x01u8, 0x09u8, 0x0eu8,
    ];
    der_value(0x30, extension_request + der_value(0x31, extensions))
}

/// The information of a request: version zero, the encoded subject, the public
/// key and the attributes.
pub open spec fn request_info(subject: Seq<u8>, public_key: Seq<u8>, attributes: Seq<u8>) -> Seq<
    u8,
> {
    der_value(
        0x30,
        seq![0x02u8, 0x01u8, 0x00u8] + subject + public_key_der(public_key) + der_value(
            0xa0,
            attributes,
        ),
    )
}

/// A request: its information, the algorithm `sha256WithRSAEncryption` and the
/// signature.
pub open spec fn certification_request(info: Seq<u8>, signature: Seq<u8>) -> Seq<u8> {
    let algorithm = seq![
        0x30u8, 0x0du8, 0x06u8, 0x09u8, 0x2au8, 0x86u8, 0x48u8, 0x86u8, 0xf7u8, 0x0du8, 0x01u8,
        0x01u8, 0x0bu8, 0x05u8, 0x00u8,
    ];
    der_value(0x30, info + algorithm + der_bits(signature))
}

/// The DER encoding of the subject that an RFC 4514 text stands for, `None` where
/// it would be longer than DER allows; or the error of reading the text.
pub uninterp spec fn subject_der(text: Seq<char>) -> Result<Option<Seq<u8>>, Seq<char>>;

/// Whether `info` is the information of a request for the subject that `text`
/// stands for and the public half of the PKCS#8 encoded `key`.
pub open spec fn is_info_of(
    info: Seq<u8>,
    key: Seq<u8>,
    text: Seq<char>,
    attributes: Seq<u8>,
) -> bool {
    &&& subject_der(text) matches Ok(Some(subject))
    &&& public_key_from_pkcs8(key) matches Ok(public_key)
    &&& info == request_info(subject, public_key, attributes)
}

/// Whether the subject that `text` stands for and the public half of `key` can be
/// encoded, and the information of a request for them with these attributes is no
/// longer than DER allows.
pub open spec fn fits(key: Seq<u8>, text: Seq<char>, attributes: Seq<u8>) -> bool {
    &&& subject_der(text) matches Ok(Some(subject))
    &&& public_key_from_pkcs8(key) matches Ok(public_key)
    &&& request_info(subject, public_key, attributes).len() <= MAX_DER_LENGTH
}

/// The request information without attributes for a PKCS#8 encoded RSA key and
/// the subject that a text stands for, or the error of encoding it.
pub uninterp spec fn plain_info(key: Seq<u8>, text: Seq<char>) -> Result<Seq<u8>, Seq<char>>;

/// The request without attributes for a PKCS#8 encoded RSA key, the subject
/// that a text stands for and a signature, or the error of encoding it.
pub uninterp spec fn plain_request(key: Seq<u8>, text: Seq<char>, signature: Seq<u8>) -> Result<
    Seq<u8>,
    Seq<char>,
>;

/// The request information with a Subject Alternative Name extension of DER
/// encoded general names, or the error of building it.
pub uninterp spec fn extended_info(key: Seq<u8>, text: Seq<char>, names: Seq<Seq<u8>>) -> Result<
    Seq<u8>,
    Seq<char>,
>;

/// The request with a Subject Alternative Name extension of DER encoded general
/// names and a signature, or the error of building it.
pub uninterp spec fn extended_request(
    key: Seq<u8>,
    text: Seq<char>,
    names: Seq<Seq<u8>>,
    signature: Seq<u8>,
) -> Result<Seq<u8>, Seq<char>>;

/// How many bits the first and the second prime of a PKCS#8 encoded RSA key have,
/// or the error of reading it.
pub uninterp spec fn prime_bits(key: Seq<u8>) -> Result<(nat, nat), Seq<char>>;

/// How many bits the second prime of a key that signs may have beyond the first.
pub const MAX_PRIME_BITS_APART: usize = 24;

/// Whether the second prime of a key is so much greater than the first that
/// signing, which takes as many rounds as the first goes into the second, would
/// not come to an end.
pub open spec fn is_lopsided(key: Seq<u8>) -> bool {
    prime_bits(key) matches Ok(bits) && bits.1 > bits.0 + MAX_PRIME_BITS_APART
}

/// The RSASSA-PKCS1-v1_5 signature with SHA-256 of a message under a PKCS#8
/// encoded RSA key, or the error of signing.
pub uninterp spec fn signature_of(key: Seq<u8>, message: Seq<u8>) -> Result<Seq<u8>, Seq<char>>;

/// The PEM document of a request, or the error of writing it.
pub uninterp spec fn request_pem(request: Seq<u8>) -> Result<Seq<char>, Seq<char>>;

/// The DER encoding of a general name: its content under the context-specific
/// tag of its type.
pub open spec fn general_name_der(name: GeneralNameContent) -> Seq<u8> {
    match name {
        GeneralNameContent::Rfc822Name(content) => der_value(0x81, content),
        GeneralNameContent::DnsName(content) => der_value(0x82, content),
        GeneralNameContent::UniformResourceIdentifier(content) => der_value(0x86, content),
        GeneralNameContent::IpAddress(content) => der_value(0x87, content),
    }
}

/// Whether octets are the content of an `IA5String`.
pub open spec fn is_ia5_content(content: Seq<u8>) -> bool {
    content.len() <= MAX_DER_LENGTH && forall|i: int|
        0 <= i < content.len() ==> #[trigger] content[i] <= 0x7f
}

/// Whether a general name holds what its type allows.
pub open spec fn is_encodable(name: GeneralNameContent) -> bool {
    match name {
        GeneralNameContent::Rfc822Name(content) => is_ia5_content(content),
        GeneralNameContent::DnsName(content) => is_ia5_content(content),
        GeneralNameContent::UniformResourceIdentifier(content) => is_ia5_content(content),
        GeneralNameContent::IpAddress(content) => content.len() <= MAX_DER_LENGTH,
    }
}

/// Whether octets are the encoding of a general name.
pub open spec fn is_general_name(der: Seq<u8>) -> bool {
    exists|name: GeneralNameContent| is_encodable(name) && der == #[trigger] general_name_der(name)
}

/// Whether every one of `names` is the encoding of a general name.
pub open spec fn are_general_names(names: Seq<Seq<u8>>) -> bool {
    forall|i: int| 0 <= i < names.len() ==> is_general_name(#[trigger] names[i])
}

/// Calls `from_str` of `x509_cert::name::Name` and encodes the name with
/// `to_der`: the result is a function of the text alone. A Common Name that
/// stands for itself makes a subject of that one attribute. The call overflows
/// on an object identifier with too large a number in it.
#[verifier::external_body]
fn read_subject(text: &str) -> (r: Result<Option<Vec<u8>>, String>)
    requires
        has_bounded_arcs(text@),
    ensures
        match r {
            Ok(Some(der)) => subject_der(text@) == Ok::<Option<Seq<u8>>, Seq<char>>(Some(der@)),
            Ok(None) => subject_der(text@) == Ok::<Option<Seq<u8>>, Seq<char>>(None),
            Err(message) => subject_der(text@) == Err::<Option<Seq<u8>>, Seq<char>>(message@),
        },
        forall|cn: Seq<char>|
            text@ == #[trigger] subject_text(cn) && is_plain_value(cn) ==> (r matches Ok(Some(der))
                ==> der@ == common_name_der(cn)),
        forall|cn: Seq<char>|
            text@ == #[trigger] subject_text(cn) && is_plain_value(cn) && common_name_der(cn).len()
                <= MAX_DER_LENGTH ==> r matches Ok(Some(_)),
{
    match Name::from_str(text) {
        Ok(name) => Ok(name.to_der().ok()),
        Err(e) => Err(e.to_string()),
    }
}

/// Calls `to_der` of `x509_cert::request::CertReqInfo` on the information of the
/// default version for the subject that the text stands for and the public half
/// of the key that the octets encode, with no attributes. The result is a
/// function of the two alone: the sequence of the version, the encoded subject,
/// the encoded public key and an empty set of attributes. It is there wherever
/// these can be encoded and it is no longer than DER allows.
#[verifier::external_body]
fn encode_info(key: &[u8], text: &str) -> (r: Result<Vec<u8>, String>)
    requires
        has_bounded_arcs(text@),
    ensures
        octets_outcome(r) == plain_info(key@, text@),
        r matches Ok(info) ==> is_info_of(info@, key@, text@, Seq::empty()),
        fits(key@, text@, Seq::empty()) ==> r is Ok,
{
    let info = || -> Result<Vec<u8>, Box<dyn Error>> {
        let key = SigningKey::<Sha256>::from_pkcs8_der(key)?;
        let info = CertReqInfo {
            version: Default::default(),
            subject: Name::from_str(text)?,
            public_key: SubjectPublicKeyInfoOwned::from_key(key.verifying_key())?,
            attributes: Default::default(),
        };
        Ok(info.to_der()?)
    };
    info().map_err(|e| e.to_string())
}

/// Calls `to_der` of `x509_cert::request::CertReq` on that information, the
/// signature algorithm of the key and the given signature. The result is a
/// function of the three alone: the sequence of the encoded information, the
/// algorithm identifier and the signature. It is there wherever that information
/// is and it is no longer than DER allows.
#[verifier::external_body]
fn encode_request(key: &[u8], text: &str, signature: &[u8]) -> (r: Result<Vec<u8>, String>)
    requires
        has_bounded_arcs(text@),
    ensures
        octets_outcome(r) == plain_request(key@, text@, signature@),
        r matches Ok(request) ==> plain_info(key@, text@) matches Ok(info) ==> request@
            == certification_request(info, signature@),
        plain_info(key@, text@) matches Ok(info) && certification_request(info, signature@).len()
            <= MAX_DER_LENGTH ==> r is Ok,
{
    let request = || -> Result<Vec<u8>, Box<dyn Error>> {
        let key = SigningKey::<Sha256>::from_pkcs8_der(key)?;
        let info = CertReqInfo {
            version: Default::default(),
            subject: Name::from_str(text)?,
            public_key: SubjectPublicKeyInfoOwned::from_key(key.verifying_key())?,
            attributes: Default::default(),
        };
        let algorithm = key.signature_algorithm_identifier()?;
        let signature = BitString::from_bytes(signature)?;
        Ok(CertReq { info, algorithm, signature }.to_der()?)
    };
    request().map_err(|e| e.to_string())
}

/// Calls `to_der` of `x509_cert::ext::pkix::name::GeneralName` on the general
/// name. The result is the content under the context-specific tag of the name's
/// type; the error, an overflow, comes where that would be longer than DER
/// allows.
#[verifier::external_body]
fn encode_general_name(general_name: &GeneralName) -> (r: Result<Vec<u8>, String>)
    requires
        is_encodable(general_name@),
    ensures
        match r {
            Ok(der) => der@ == general_name_der(general_name@) && der@.len() <= MAX_DER_LENGTH,
            Err(message) => general_name_der(general_name@).len() > MAX_DER_LENGTH && message@
                == "integer overflow"@,
        },
{
    let ia5 = |v: &Vec<u8>| Ia5String::new(v).map_err(|e| e.to_string());
    let general_name = match general_name {
        GeneralName::DnsName(v) => name::GeneralName::DnsName(ia5(v)?),
        GeneralName::UniformResourceIdentifier(v) =>
            name::GeneralName::UniformResourceIdentifier(ia5(v)?),
        GeneralName::Rfc822Name(v) => name::GeneralName::Rfc822Name(ia5(v)?),
        GeneralName::IpAddress(v) => name::GeneralName::IpAddress(
            OctetString::new(v.as_slice()).map_err(|e| e.to_string())?,
        ),
    };
    general_name.to_der().map_err(|e| e.to_string())
}

/// Calls `finalize` of `x509_cert::builder::RequestBuilder`, which was made for
/// the subject that the text stands for and the key that the octets encode, and
/// to which a `SubjectAltName` of the given general names was added. The result
/// is a function of the three alone: the sequence of the version, the encoded
/// subject, the encoded public key and one attribute, which asks for the
/// extension with these names. It is there wherever these can be encoded and it
/// is no longer than DER allows.
#[verifier::external_body]
fn encode_extended_info(key: &[u8], text: &str, names: &Vec<Vec<u8>>) -> (r: Result<
    Vec<u8>,
    String,
>)
    requires
        has_bounded_arcs(text@),
        are_general_names(octet_lists(names@)),
    ensures
        octets_outcome(r) == extended_info(key@, text@, octet_lists(names@)),
        r matches Ok(info) ==> is_info_of(
            info@,
            key@,
            text@,
            san_attribute(octet_lists(names@)),
        ),
        fits(key@, text@, san_attribute(octet_lists(names@))) ==> r is Ok,
{
    let info = || -> Result<Vec<u8>, Box<dyn Error>> {
        let key = SigningKey::<Sha256>::from_pkcs8_der(key)?;
        let mut builder = RequestBuilder::new(Name::from_str(text)?, &key)?;
        let names = names.iter().map(|name| Decode::from_der(name)).collect::<Result<_, _>>()?;
        builder.add_extension(&SubjectAltName(names))?;
        Ok(builder.finalize().map_err(x509_cert::builder::Error::from)?)
    };
    info().map_err(|e| e.to_string())
}

/// Calls `assemble` of that `x509_cert::builder::RequestBuilder` with the given
/// signature, and encodes the request with `to_der`. The result is a function of
/// the four alone: the sequence of the finalized information, the algorithm
/// identifier and the signature. It is there wherever that information is and it
/// is no longer than DER allows.
#[verifier::external_body]
fn encode_extended_request(
    key: &[u8],
    text: &str,
    names: &Vec<Vec<u8>>,
    signature: &[u8],
) -> (r: Result<Vec<u8>, String>)
    requires
        has_bounded_arcs(text@),
        are_general_names(octet_lists(names@)),
    ensures
        octets_outcome(r) == extended_request(key@, text@, octet_lists(names@), signature@),
        r matches Ok(request) ==> extended_info(key@, text@, octet_lists(names@)) matches Ok(info)
            ==> request@ == certification_request(info, signature@),
        extended_info(key@, text@, octet_lists(names@)) matches Ok(info) && certification_request(
            info,
            signature@,
        ).len() <= MAX_DER_LENGTH ==> r is Ok,
{
    let request = || -> Result<Vec<u8>, Box<dyn Error>> {
        let key = SigningKey::<Sha256>::from_pkcs8_der(key)?;
        let mut builder = RequestBuilder::new(Name::from_str(text)?, &key)?;
        let names = names.iter().map(|name| Decode::from_der(name)).collect::<Result<_, _>>()?;
        builder.add_extension(&SubjectAltName(names))?;
        builder.finalize()?;
        let signature = BitString::from_bytes(signature)?;
        Ok(builder.assemble(signature)?.to_der()?)
    };
    request().map_err(|e| e.to_string())
}

/// Calls `bits` on the two `primes` of the `rsa::RsaPrivateKey` that the octets
/// encode: the result is a function of those octets alone.
#[verifier::external_body]
fn read_prime_bits(key: &[u8]) -> (r: Result<(usize, usize), String>)
    ensures
        match r {
            Ok((first, second)) => prime_bits(key@) == Ok::<(nat, nat), Seq<char>>(
                (first as nat, second as nat),
            ),
            Err(message) => prime_bits(key@) == Err::<(nat, nat), Seq<char>>(message@),
        },
{
    let key = rsa::RsaPrivateKey::from_pkcs8_der(key).map_err(|e| e.to_string())?;
    Ok((key.primes()[0].bits(), key.primes()[1].bits()))
}

/// Calls `try_sign` of `rsa::pkcs1v15::SigningKey` with SHA-256, on the key that
/// the octets encode: the scheme is deterministic, so the result is a function
/// of the key and the message alone. The call adds up the first prime until it
/// reaches the second, so it does not return where that is far greater.
#[verifier::external_body]
fn sign(key: &[u8], message: &[u8]) -> (r: Result<Vec<u8>, String>)
    requires
        !is_lopsided(key@),
    ensures
        octets_outcome(r) == signature_of(key@, message@),
{
    let key = SigningKey::<Sha256>::from_pkcs8_der(key).map_err(|e| e.to_string())?;
    let signature: Signature = key.try_sign(message).map_err(|e| e.to_string())?;
    Ok(signature.to_vec())
}

/// Calls `encode_string` of `x509_cert::der::pem` with the label of a request
/// and line feeds: the result is a function of the octets alone, is there for
/// every DER value, and has the delimiters of a certificate request.
#[verifier::external_body]
fn encode_pem(request: &[u8]) -> (r: Result<String, String>)
    ensures
        text_outcome(r) == request_pem(request@),
        r matches Ok(pem) ==> "-----BEGIN CERTIFICATE REQUEST-----\n"@.is_prefix_of(pem@),
        r matches Ok(pem) ==> "\n-----END CERTIFICATE REQUEST-----\n"@.is_suffix_of(pem@),
        0 < request@.len() <= MAX_DER_LENGTH ==> r is Ok,
{
    x509_cert::der::pem::encode_string(CertReq::PEM_LABEL, LineEnding::LF, request).map_err(
        |e| e.to_string(),
    )
}

/// The signature of the information of a request, or the error of signing it.
pub open spec fn signing(key: Seq<u8>, info: Seq<u8>) -> Result<Seq<u8>, Seq<char>> {
    if is_lopsided(key) {
        Err("signature error: the primes of the key are too far apart"@)
    } else {
        match signature_of(key, info) {
            Ok(signature) => Ok(signature),
            Err(message) => Err("signature error: "@ + message),
        }
    }
}

/// A signing request without attributes, or the error of making it.
pub open spec fn plain_csr(key: Seq<u8>, text: Seq<char>) -> Result<Seq<char>, Seq<char>> {
    match plain_info(key, text) {
        Ok(info) => match signing(key, info) {
            Ok(signature) => match plain_request(key, text, signature) {
                Ok(request) => request_pem(request),
                Err(message) => Err(message),
            },
            Err(message) => Err(message),
        },
        Err(message) => Err(message),
    }
}

/// A signing request for DER encoded general names, or the error of making it.
pub open spec fn extended_csr(key: Seq<u8>, text: Seq<char>, names: Seq<Seq<u8>>) -> Result<
    Seq<char>,
    Seq<char>,
> {
    match extended_info(key, text, names) {
        Ok(info) => match signing(key, info) {
            Ok(signature) => match extended_request(key, text, names, signature) {
                Ok(request) => request_pem(request),
                Err(message) => Err(message),
            },
            Err(message) => Err(message),
        },
        Err(message) => Err(message),
    }
}

/// The DER encodings of general names, in order; or the message where one of
/// them would be longer than DER allows.
pub open spec fn encoded_names(names: Seq<GeneralNameContent>) -> Result<
    Seq<Seq<u8>>,
    Seq<char>,
> {
    if forall|i: int|
        0 <= i < names.len() ==> general_name_der(#[trigger] names[i]).len() <= MAX_DER_LENGTH {
        Ok(names.map_values(|n: GeneralNameContent| general_name_der(n)))
    } else {
        Err("ASN.1 error: "@ + "integer overflow"@)
    }
}

/// The DER encodings of the general names that a request for `sans` carries, or
/// the message where there are none.
pub open spec fn requested_names(sans: Seq<SanName>) -> Result<Seq<Seq<u8>>, Seq<char>> {
    match general_names(sans) {
        Ok(contents) => encoded_names(contents),
        Err(message) => Err(message),
    }
}

/// The message where too many Subject Alternative Names are requested.
pub open spec fn too_many_sans(count: nat) -> Seq<char> {
    "too many SANs: "@ + decimal(count) + " (max 64)"@
}

/// The signing request for a PKCS#8 encoded key, a Common Name and Subject
/// Alternative Names as a PEM document, or the message where there is none.
pub open spec fn csr_of(key: Seq<u8>, cn: Seq<char>, sans: Seq<SanName>) -> Result<
    Seq<char>,
    Seq<char>,
> {
    if sans.len() > MAX_SANS {
        Err(too_many_sans(sans.len()))
    } else {
        match subject_der(subject_text(cn)) {
            Err(message) => Err(message),
            Ok(_) => if sans.len() == 0 {
                plain_csr(key, subject_text(cn))
            } else {
                match requested_names(sans) {
                    Ok(names) => extended_csr(key, subject_text(cn), names),
                    Err(message) => Err(message),
                }
            },
        }
    }
}

/// The attributes of a request for `sans`: none, or one for the extension that
/// holds them all.
pub open spec fn requested_attributes(sans: Seq<SanName>) -> Seq<u8> {
    if sans.len() == 0 {
        Seq::empty()
    } else {
        san_attribute(requested_names(sans)->Ok_0)
    }
}

/// Whether `pem` is a request that holds `info` and its signature under `key`.
pub open spec fn is_signed_request(pem: Seq<char>, key: Seq<u8>, info: Seq<u8>) -> bool {
    signing(key, info) matches Ok(signature) && request_pem(
        certification_request(info, signature),
    ) == Ok::<Seq<char>, Seq<char>>(pem)
}

/// Whether `pem` is a request for a PKCS#8 encoded key, a Common Name and Subject
/// Alternative Names, signed under that key. The subject of a Common Name that
/// stands for itself has that one attribute.
pub open spec fn is_request_for(
    pem: Seq<char>,
    key: Seq<u8>,
    cn: Seq<char>,
    sans: Seq<SanName>,
) -> bool {
    exists|info: Seq<u8>|
        #[trigger] is_signed_request(pem, key, info) && is_info_of(
            info,
            key,
            subject_text(cn),
            requested_attributes(sans),
        ) && (is_plain_value(cn) ==> subject_der(subject_text(cn)) == Ok::<
            Option<Seq<u8>>,
            Seq<char>,
        >(Some(common_name_der(cn))))
}

/// Whether nothing stands in the way of a request: the names can be encoded, the
/// information can be encoded and signed, and the request is no longer than DER
/// allows.
pub open spec fn is_request_due(key: Seq<u8>, cn: Seq<char>, sans: Seq<SanName>) -> bool {
    &&& sans.len() <= MAX_SANS
    &&& sans.len() > 0 ==> requested_names(sans) is Ok
    &&& subject_der(subject_text(cn)) matches Ok(Some(subject))
    &&& public_key_from_pkcs8(key) matches Ok(public_key)
    &&& ({
        let info = request_info(subject, public_key, requested_attributes(sans));
        signing(key, info) matches Ok(signature) && certification_request(info, signature).len()
            <= MAX_DER_LENGTH
    })
}

/// Signs the information of a request.
///
/// # Errors
///
/// Returns a message if the key cannot sign, or if its primes are too far apart.
fn sign_info(key: &[u8], info: &[u8]) -> (r: Result<Vec<u8>, String>)
    ensures
        octets_outcome(r) == signing(key@, info@),
{
    match read_prime_bits(key) {
        Ok((first, second)) => {
            if second > MAX_PRIME_BITS_APART && second - MAX_PRIME_BITS_APART > first {
                return Err("signature error: the primes of the key are too far apart".to_owned());
            }
        },
        Err(_) => {},
    }
    match sign(key, info) {
        Ok(signature) => Ok(signature),
        Err(message) => Err("signature error: ".to_owned().concat(message.as_str())),
    }
}

/// Refuses more than [`MAX_SANS`] Subject Alternative Names.
///
/// # Errors
///
/// Returns a message that gives the number of names and the greatest number.
pub fn check_san_count(count: usize) -> (r: Result<(), String>)
    ensures
        match r {
            Ok(_) => count <= MAX_SANS,
            Err(message) => count > MAX_SANS && message@ == too_many_sans(count as nat),
        },
{
    if count > MAX_SANS {
        let mut message = "too many SANs: ".to_owned();
        message.append(decimal_text(count).as_str());
        message.append(" (max 64)");
        return Err(message);
    }
    Ok(())
}

/// Encodes general names, in order.
fn encode_names(names: &Vec<GeneralName>) -> (r: Result<Vec<Vec<u8>>, String>)
    requires
        forall|i: int| 0 <= i < names@.len() ==> is_encodable((#[trigger] names@[i])@),
    ensures
        match (r, encoded_names(name_contents(names@))) {
            (Ok(encoded), Ok(wanted)) => octet_lists(encoded@) == wanted && are_general_names(
                wanted,
            ),
            (Err(message), Err(text)) => message@ == text,
            _ => false,
        },
{
    let ghost contents = name_contents(names@);
    let mut encoded: Vec<Vec<u8>> = Vec::new();
    let mut i: usize = 0;
    while i < names.len()
        invariant
            i <= names@.len(),
            contents == name_contents(names@),
            forall|j: int| 0 <= j < names@.len() ==> is_encodable((#[trigger] names@[j])@),
            encoded@.len() == i,
            forall|j: int|
                0 <= j < i ==> general_name_der(#[trigger] contents[j]).len() <= MAX_DER_LENGTH,
            forall|j: int| 0 <= j < i ==> (#[trigger] encoded@[j])@ == general_name_der(contents[j]),
        decreases names@.len() - i,
    {
        assert(contents[i as int] == names@[i as int]@);
        match encode_general_name(&names[i]) {
            Ok(der) => encoded.push(der),
            Err(message) => {
                assert(general_name_der(contents[i as int]).len() > MAX_DER_LENGTH);
                return Err("ASN.1 error: ".to_owned().concat(message.as_str()));
            },
        }
        i += 1;
    }
    proof {
        let wanted = contents.map_values(|n: GeneralNameContent| general_name_der(n));
        assert(octet_lists(encoded@) =~= wanted);
        assert forall|j: int| 0 <= j < wanted.len() implies is_general_name(#[trigger] wanted[j]) by {
            assert(is_encodable(names@[j]@));
            assert(wanted[j] == general_name_der(names@[j]@));
        }
    }
    Ok(encoded)
}

proof fn lemma_general_names_are_encodable(sans: Seq<SanEntry>)
    requires
        general_names(san_names(sans)) is Ok,
    ensures
        forall|i: int|
            0 <= i < sans.len() ==> is_encodable(
                #[trigger] general_names(san_names(sans))->Ok_0[i],
            ),
{
    let wanted = san_names(sans);
    assert forall|i: int| 0 <= i < sans.len() implies is_encodable(
        #[trigger] general_names(wanted)->Ok_0[i],
    ) by {
        assert(wanted[i] == sans[i]@);
        assert(has_general_name(wanted[i]));
        assert(general_names(wanted)->Ok_0[i] == general_name(wanted[i]));
    }
}

/// Builds a signed PKCS#10 certificate signing request in PEM form.
///
/// When `sans` is empty the request has no attributes, so no `extensionRequest`.
/// When one or more names are given, a Subject Alternative Name extension holds
/// them in order.
///
/// The request is signed under `key` and holds its public half, the Common Name
/// and the names, and nothing else: see [`request_info`].
///
/// # Errors
///
/// Returns a message if more than [`MAX_SANS`] names are requested, if a name
/// cannot be encoded, or if building, signing or encoding the request fails.
pub fn build_plain_csr(key: &AgentKey, common_name: &str, sans: &[SanEntry]) -> (r: Result<
    String,
    String,
>)
    requires
        has_bounded_arcs(subject_text(common_name@)),
    ensures
        text_outcome(r) == csr_of(key@, common_name@, san_names(sans@)),
        is_request_due(key@, common_name@, san_names(sans@)) ==> r is Ok,
        r matches Ok(pem) ==> is_request_for(pem@, key@, common_name@, san_names(sans@)),
        r matches Ok(pem) ==> "-----BEGIN CERTIFICATE REQUEST-----\n"@.is_prefix_of(pem@),
        r matches Ok(pem) ==> "\n-----END CERTIFICATE REQUEST-----\n"@.is_suffix_of(pem@),
        sans@.len() <= MAX_SANS && is_plain_value(common_name@) && common_name_der(
            common_name@,
        ).len() <= MAX_DER_LENGTH ==> subject_der(subject_text(common_name@)) is Ok,
{
    match check_san_count(sans.len()) {
        Ok(_) => {},
        Err(message) => return Err(message),
    }
    let text: String = "CN=".to_owned().concat(common_name);
    match read_subject(text.as_str()) {
        Ok(_) => {},
        Err(message) => return Err(message),
    }
    let pkcs8: &[u8] = key.as_pkcs8();
    if sans.len() == 0 {
        let info: Vec<u8> = match encode_info(pkcs8, text.as_str()) {
            Ok(info) => info,
            Err(message) => return Err(message),
        };
        let signature: Vec<u8> = match sign_info(pkcs8, info.as_slice()) {
            Ok(signature) => signature,
            Err(message) => return Err(message),
        };
        let request: Vec<u8> = match encode_request(pkcs8, text.as_str(), signature.as_slice()) {
            Ok(request) => request,
            Err(message) => return Err(message),
        };
        let pem = encode_pem(request.as_slice());
        assert(pem matches Ok(text) ==> is_signed_request(text@, key@, info@));
        return pem;
    }
    let general_names: Vec<GeneralName> = match to_general_names(sans) {
        Ok(names) => names,
        Err(message) => return Err(message),
    };
    proof {
        lemma_general_names_are_encodable(sans@);
        assert forall|i: int| 0 <= i < general_names@.len() implies is_encodable(
            (#[trigger] general_names@[i])@,
        ) by {
            assert(name_contents(general_names@)[i] == general_names@[i]@);
        }
    }
    let names: Vec<Vec<u8>> = match encode_names(&general_names) {
        Ok(names) => names,
        Err(message) => return Err(message),
    };
    let info: Vec<u8> = match encode_extended_info(pkcs8, text.as_str(), &names) {
        Ok(info) => info,
        Err(message) => return Err(message),
    };
    let signature: Vec<u8> = match sign_info(pkcs8, info.as_slice()) {
        Ok(signature) => signature,
        Err(message) => return Err(message),
    };
    let request: Vec<u8> = match encode_extended_request(
        pkcs8,
        text.as_str(),
        &names,
        signature.as_slice(),
    ) {
        Ok(request) => request,
        Err(message) => return Err(message),
    };
    let pem = encode_pem(request.as_slice());
    assert(pem matches Ok(text) ==> is_signed_request(text@, key@, info@));
    pem
}

proof fn lemma_encoded_length(t: Seq<char>)
    ensures
        encode_utf8(t).len() <= 4 * t.len(),
    decreases t.len(),
{
    if t.len() > 0 {
        lemma_encoded_length(t.drop_first());
    }
}

proof fn lemma_one_attribute(cn: Seq<char>)
    requires
        forall|i: int| 0 <= i < cn.len() ==> #[trigger] cn[i] != ',' && cn[i] != '+',
    ensures
        has_bounded_arcs(subject_text(cn)),
{
    reveal_strlit("CN=");
    let text = subject_text(cn);
    assert forall|from: int, arc: int, end: int| !has_large_arc(text, from, arc, end) by {
        if has_large_arc(text, from, arc, end) {
            if from > 0 {
                assert(text[from - 1] == if from <= 3 {
                    "CN="@[from - 1]
                } else {
                    cn[from - 4]
                });
            }
            assert(text[0] == 'C');
        }
    }
}

proof fn lemma_der_value_length(tag: u8, content: Seq<u8>)
    ensures
        der_value(tag, content).len() <= content.len() + 6,
{
}

/// An accepted Common Name cannot bring in other attributes: it stands for
/// itself, and wherever a request for it is built, the information that is
/// signed holds a subject of that one attribute, the public half of the key and
/// what was asked for beside them, and nothing else.
pub proof fn accepted_common_name_is_whole_subject(
    s: Seq<char>,
    pem: Seq<char>,
    key: Seq<u8>,
    sans: Seq<SanName>,
)
    requires
        read_common_name(s) is Ok,
    ensures
        is_plain_value(read_common_name(s)->Ok_0),
        has_bounded_arcs(subject_text(read_common_name(s)->Ok_0)),
        common_name_der(read_common_name(s)->Ok_0).len() <= MAX_DER_LENGTH,
        is_request_for(pem, key, read_common_name(s)->Ok_0, sans) ==> (public_key_from_pkcs8(
            key,
        ) matches Ok(public_key) && is_signed_request(
            pem,
            key,
            request_info(
                common_name_der(read_common_name(s)->Ok_0),
                public_key,
                requested_attributes(sans),
            ),
        )),
{
    let cn = read_common_name(s)->Ok_0;
    accepted_common_name_is_safe(s);
    assert forall|i: int| 0 <= i < cn.len() implies #[trigger] cn[i] != ',' && cn[i] != '+'
        && cn[i] != '\\' && cn[i] != '#' by {
        assert(!is_forbidden(cn[i]));
    }
    lemma_one_attribute(cn);
    lemma_encoded_length(cn);
    let value = der_value(0x0c, encode_utf8(cn));
    let attribute = seq![0x06u8, 0x03u8, 0x55u8, 0x04u8, 0x03u8] + value;
    lemma_der_value_length(0x0c, encode_utf8(cn));
    lemma_der_value_length(0x30, attribute);
    lemma_der_value_length(0x31, der_value(0x30, attribute));
    lemma_der_value_length(0x30, der_value(0x31, der_value(0x30, attribute)));
}

/// Whether the encoding of a name is no longer than DER allows.
pub open spec fn fits_der(name: SanName) -> bool {
    match name {
        SanName::Dns(value) => value.len() + 6 <= MAX_DER_LENGTH,
        SanName::Uri(value) => value.len() + 6 <= MAX_DER_LENGTH,
        SanName::Email(value) => value.len() + 6 <= MAX_DER_LENGTH,
        SanName::Ip(octets) => true,
    }
}

proof fn lemma_clean_name_is_encoded(san: SanName)
    requires
        is_clean(san),
        fits_der(san),
    ensures
        has_general_name(san),
        general_name_der(general_name(san)).len() <= MAX_DER_LENGTH,
{
    match general_name(san) {
        GeneralNameContent::Rfc822Name(content) => lemma_der_value_length(0x81, content),
        GeneralNameContent::DnsName(content) => lemma_der_value_length(0x82, content),
        GeneralNameContent::UniformResourceIdentifier(content) => lemma_der_value_length(
            0x86,
            content,
        ),
        GeneralNameContent::IpAddress(content) => lemma_der_value_length(0x87, content),
    }
}

/// Subject Alternative Names that were accepted can be encoded, unless one is
/// longer than DER allows.
pub proof fn accepted_sans_can_be_encoded(tokens: Seq<Seq<char>>, sans: Seq<SanName>)
    requires
        sans.len() == tokens.len(),
        forall|i: int|
            0 <= i < sans.len() ==> read_san(tokens[i]) == Ok::<SanName, SanFault>(
                #[trigger] sans[i],
            ),
        forall|i: int| 0 <= i < sans.len() ==> fits_der(#[trigger] sans[i]),
    ensures
        requested_names(sans) matches Ok(names) && names.len() == sans.len(),
{
    assert forall|i: int| 0 <= i < sans.len() implies has_general_name(#[trigger] sans[i])
        && general_name_der(general_name(sans[i])).len() <= MAX_DER_LENGTH by {
        accepted_san_is_clean(tokens[i]);
        lemma_clean_name_is_encoded(sans[i]);
    }
    let contents = sans.map_values(|n: SanName| general_name(n));
    assert forall|i: int| 0 <= i < contents.len() implies general_name_der(
        #[trigger] contents[i],
    ).len() <= MAX_DER_LENGTH by {
        assert(contents[i] == general_name(sans[i]));
    }
}

/// A request carries a general name for each name that was asked for, in the same
/// place: it begins with the tag of the name's type, and ends in the codes of the
/// name's characters, or the octets of the address, and holds nothing else but
/// their number.
pub proof fn request_carries_every_name(sans: Seq<SanName>, i: int, k: int)
    requires
        requested_names(sans) is Ok,
        0 <= i < sans.len(),
    ensures
        requested_names(sans)->Ok_0.len() == sans.len(),
        ({
            let der = requested_names(sans)->Ok_0[i];
            match sans[i] {
                SanName::Email(v) => der[0] == 0x81 && holds_text(der, v, k),
                SanName::Dns(v) => der[0] == 0x82 && holds_text(der, v, k),
                SanName::Uri(v) => der[0] == 0x86 && holds_text(der, v, k),
                SanName::Ip(octets) => der[0] == 0x87 && der.len() <= octets.len() + 6 && der.skip(
                    der.len() - octets.len(),
                ) == octets,
            }
        }),
{
    general_names_keep_order(sans, i);
    general_name_holds_name(sans[i], k);
    let content = general_name(sans[i]);
    let der = requested_names(sans)->Ok_0[i];
    assert(der == general_name_der(content));
    match content {
        GeneralNameContent::Rfc822Name(c) => lemma_der_tail(0x81, c),
        GeneralNameContent::DnsName(c) => lemma_der_tail(0x82, c),
        GeneralNameContent::UniformResourceIdentifier(c) => lemma_der_tail(0x86, c),
        GeneralNameContent::IpAddress(c) => lemma_der_tail(0x87, c),
    }
}

/// Whether an encoding ends in the codes of the characters of `v`, of which the
/// one at `k` stands in its place, with a tag and a length before them.
pub open spec fn holds_text(der: Seq<u8>, v: Seq<char>, k: int) -> bool {
    v.len() + 2 <= der.len() <= v.len() + 6 && (0 <= k < v.len() ==> der[der.len() - v.len() + k]
        as u32 == v[k] as u32)
}

proof fn lemma_der_tail(tag: u8, content: Seq<u8>)
    ensures
        content.len() + 2 <= der_value(tag, content).len() <= content.len() + 6,
        der_value(tag, content)[0] == tag,
        der_value(tag, content).skip(der_value(tag, content).len() - content.len()) == content,
        forall|k: int|
            0 <= k < content.len() ==> der_value(tag, content)[der_value(tag, content).len()
                - content.len() + k] == #[trigger] content[k],
{
    lemma_der_value_length(tag, content);
    let der = der_value(tag, content);
    assert(der.skip(der.len() - content.len()) =~= content);
}

/// A request carries no attribute where no names were asked for, and one that
/// holds them all otherwise; more than 64 names are refused, whatever they are.
pub proof fn request_has_attribute_for_names(key: Seq<u8>, cn: Seq<char>, sans: Seq<SanName>)
    ensures
        sans.len() == 0 ==> requested_attributes(sans) == Seq::<u8>::empty(),
        sans.len() > 0 && requested_names(sans) is Ok ==> requested_attributes(sans)
            == san_attribute(requested_names(sans)->Ok_0),
        sans.len() > 64 ==> csr_of(key, cn, sans) == Err::<Seq<char>, Seq<char>>(
            "too many SANs: "@ + decimal(sans.len()) + " (max 64)"@,
        ),
{
}

/// A key whose second prime has at most 24 bits more than its first signs as the
/// scheme does.
pub proof fn keys_with_near_primes_sign(key: Seq<u8>, info: Seq<u8>, first: nat, second: nat)
    requires
        prime_bits(key) == Ok::<(nat, nat), Seq<char>>((first, second)),
        second <= first + 24,
    ensures
        signing(key, info) is Ok <==> signature_of(key, info) is Ok,
        signing(key, info) matches Ok(signature) ==> signature_of(key, info) == Ok::<
            Seq<u8>,
            Seq<char>,
        >(signature),
        signature_of(key, info) matches Err(message) ==> signing(key, info) == Err::<
            Seq<u8>,
            Seq<char>,
        >("signature error: "@ + message),
{
}

/// A request is signed by the key that it is for: what is signed, `parts.0`, is
/// the information with the encoded subject, the public half of that key and the
/// attributes for the names; and the request holds just that information and
/// that signature, `parts.1`.
pub proof fn request_is_signed_by_its_key(
    pem: Seq<char>,
    key: Seq<u8>,
    cn: Seq<char>,
    sans: Seq<SanName>,
) -> (parts: (Seq<u8>, Seq<u8>))
    requires
        is_request_for(pem, key, cn, sans),
    ensures
        signature_of(key, parts.0) == Ok::<Seq<u8>, Seq<char>>(parts.1),
        request_pem(certification_request(parts.0, parts.1)) == Ok::<Seq<char>, Seq<char>>(pem),
        subject_der(subject_text(cn)) matches Ok(Some(subject)) && (public_key_from_pkcs8(
            key,
        ) matches Ok(public_key) && parts.0 == request_info(
            subject,
            public_key,
            if sans.len() == 0 {
                Seq::empty()
            } else {
                san_attribute(requested_names(sans)->Ok_0)
            },
        )),
        is_plain_value(cn) ==> subject_der(subject_text(cn)) == Ok::<Option<Seq<u8>>, Seq<char>>(
            Some(common_name_der(cn)),
        ),
{
    let info = choose|info: Seq<u8>|
        #[trigger] is_signed_request(pem, key, info) && is_info_of(
            info,
            key,
            subject_text(cn),
            requested_attributes(sans),
        );
    (info, signing(key, info)->Ok_0)
}

/// What stops a request before it is signed, in this order: too many names, a
/// subject that cannot be read, a name that has no general name, and one whose
/// encoding is too long.
pub proof fn request_is_stopped_in_order(key: Seq<u8>, cn: Seq<char>, sans: Seq<SanName>)
    requires
        sans.len() <= 64,
    ensures
        subject_der(subject_text(cn)) matches Err(message) ==> csr_of(key, cn, sans) == Err::<
            Seq<char>,
            Seq<char>,
        >(message),
        subject_der(subject_text(cn)) is Ok && sans.len() > 0 ==> (general_names(
            sans,
        ) matches Err(message) ==> csr_of(key, cn, sans) == Err::<Seq<char>, Seq<char>>(message)),
        subject_der(subject_text(cn)) is Ok && sans.len() > 0 && general_names(sans) is Ok && (
        exists|i: int|
            0 <= i < sans.len() && general_name_der(general_name(#[trigger] sans[i])).len()
                > 0xfff_ffff) ==> csr_of(key, cn, sans) is Err,
{
    if sans.len() > 0 && general_names(sans) is Ok {
        let contents = general_names(sans)->Ok_0;
        if exists|i: int|
            0 <= i < sans.len() && general_name_der(general_name(#[trigger] sans[i])).len()
                > 0xfff_ffff {
            let i = choose|i: int|
                0 <= i < sans.len() && general_name_der(general_name(#[trigger] sans[i])).len()
                    > 0xfff_ffff;
            general_names_keep_order(sans, i);
            assert(general_name_der(contents[i]).len() > MAX_DER_LENGTH);
        }
    }
}

} // verus!
