//! The agent's private key.

use rsa::pkcs1::EncodeRsaPublicKey;
use rsa::pkcs8::{DecodePrivateKey, EncodePrivateKey};
use vstd::prelude::*;

use crate::outcome::{octets_outcome, text_outcome};

verus! {

/// The kinds of key that the agent can generate.
#[derive(Clone, Copy, Debug, PartialEq, Eq)]
pub enum KeyAlgorithm {
    /// RSA with a modulus of 4096 bits.
    Rsa4096,
}

/// The PKCS#8 DER encoding of the RSA key in a PKCS#8 PEM document, or the
/// error of reading it.
pub uninterp spec fn pkcs8_from_pem(pem: Seq<char>) -> Result<Seq<u8>, Seq<char>>;

/// The PKCS#8 PEM document of a PKCS#8 encoded RSA key, or the error of writing
/// it.
pub uninterp spec fn pem_from_pkcs8(key: Seq<u8>) -> Result<Seq<char>, Seq<char>>;

/// The PKCS#1 DER encoding of the public half of a PKCS#8 encoded RSA key, or
/// the error of writing it.
pub uninterp spec fn public_key_from_pkcs8(key: Seq<u8>) -> Result<Seq<u8>, Seq<char>>;

/// Whether `key` is the encoding of an RSA key: it is written to a PEM document
/// and read back from it unchanged, and its public half can be encoded.
pub open spec fn is_key_encoding(key: Seq<u8>) -> bool {
    &&& pem_from_pkcs8(key) matches Ok(pem)
    &&& pkcs8_from_pem(pem) == Ok::<Seq<u8>, Seq<char>>(key)
    &&& public_key_from_pkcs8(key) is Ok
}

/// Whether octets are the PKCS#1 DER encoding of an RSA public key with a modulus
/// of 4096 bits and the public exponent 65537.
pub open spec fn is_rsa_4096(public_key: Seq<u8>) -> bool {
    &&& public_key.len() == 526
    &&& public_key.take(9) == seq![
        0x30u8, 0x82u8, 0x02u8, 0x0au8, 0x02u8, 0x82u8, 0x02u8, 0x01u8, 0x00u8,
    ]
    &&& public_key[9] >= 0x80
    &&& public_key.skip(521) == seq![0x02u8, 0x03u8, 0x01u8, 0x00u8, 0x01u8]
}

/// What holds of every key that is generated: its encoding survives being
/// written to PEM and read back, and it is an RSA key of 4096 bits.
pub open spec fn is_generated_key(key: Seq<u8>) -> bool {
    is_key_encoding(key) && (public_key_from_pkcs8(key) matches Ok(public_key) && is_rsa_4096(
        public_key,
    ))
}

/// Calls `rsa::RsaPrivateKey::new` with the operating system's random numbers
/// and encodes the key with `to_pkcs8_der`. Its modulus has as many bits as were
/// asked for, its public exponent is 65537, and its encoding survives being
/// written to PEM and read back. Which key it is, and whether there is one at
/// all, rests on those random numbers: nothing is claimed of it.
#[verifier::external_body]
fn generate_rsa(bits: usize) -> (r: Result<Vec<u8>, String>)
    requires
        bits == 4096,
    ensures
        r matches Ok(key) ==> is_generated_key(key@),
{
    match rsa::RsaPrivateKey::new(&mut rsa::rand_core::OsRng, bits) {
        Ok(key) => match key.to_pkcs8_der() {
            Ok(der) => Ok(der.as_bytes().to_vec()),
            Err(e) => Err(e.to_string()),
        },
        Err(e) => Err(e.to_string()),
    }
}

/// Calls `from_pkcs8_pem` of `rsa::RsaPrivateKey` and encodes the key with
/// `to_pkcs8_der`: the result is a function of the document alone. The encoding
/// survives being written to PEM and read back, and the public half of the key
/// can be encoded.
#[verifier::external_body]
fn read_pkcs8_pem(pem: &str) -> (r: Result<Vec<u8>, String>)
    ensures
        octets_outcome(r) == pkcs8_from_pem(pem@),
        r matches Ok(key) ==> is_key_encoding(key@),
{
    match rsa::RsaPrivateKey::from_pkcs8_pem(pem) {
        Ok(key) => match key.to_pkcs8_der() {
            Ok(der) => Ok(der.as_bytes().to_vec()),
            Err(e) => Err(e.to_string()),
        },
        Err(e) => Err(e.to_string()),
    }
}

/// Calls `to_pkcs8_pem` of `rsa::RsaPrivateKey` with line feeds, on the key
/// that the octets encode: the result is a function of those octets alone.
#[verifier::external_body]
fn write_pkcs8_pem(key: &[u8]) -> (r: Result<String, String>)
    ensures
        text_outcome(r) == pem_from_pkcs8(key@),
{
    match rsa::RsaPrivateKey::from_pkcs8_der(key) {
        Ok(key) => match key.to_pkcs8_pem(rsa::pkcs8::LineEnding::LF) {
            Ok(pem) => Ok(pem.to_string()),
            Err(e) => Err(e.to_string()),
        },
        Err(e) => Err(e.to_string()),
    }
}

/// Calls `to_pkcs1_der` of `rsa::RsaPublicKey`, on the public half of the key
/// that the octets encode: the result is a function of those octets alone.
#[verifier::external_body]
fn write_public_key(key: &[u8]) -> (r: Result<Vec<u8>, String>)
    ensures
        octets_outcome(r) == public_key_from_pkcs8(key@),
{
    match rsa::RsaPrivateKey::from_pkcs8_der(key) {
        Ok(key) => match key.to_public_key().to_pkcs1_der() {
            Ok(der) => Ok(der.as_bytes().to_vec()),
            Err(e) => Err(e.to_string()),
        },
        Err(e) => Err(e.to_string()),
    }
}

/// The agent's private key, held as its PKCS#8 DER encoding.
pub struct AgentKey {
    pkcs8: Vec<u8>,
}

impl View for AgentKey {
    type V = Seq<u8>;

    closed spec fn view(&self) -> Seq<u8> {
        self.pkcs8@
    }
}

impl AgentKey {
    /// What holds of every key.
    #[verifier::type_invariant]
    pub open spec fn is_encoded(self) -> bool {
        is_key_encoding(self@)
    }

    /// Generates a fresh key, of the kind that is asked for.
    ///
    /// # Errors
    ///
    /// Returns a message if no key can be generated.
    pub fn generate(algorithm: KeyAlgorithm) -> (r: Result<AgentKey, String>)
        ensures
            r matches Ok(key) ==> match algorithm {
                KeyAlgorithm::Rsa4096 => is_generated_key(key@),
            },
    {
        let bits: usize = match algorithm {
            KeyAlgorithm::Rsa4096 => 4096,
        };
        AgentKey::from_generated(generate_rsa(bits))
    }

    /// The key that came of generating one: the very key whose encoding was
    /// made, or the message where there is none.
    fn from_generated(generated: Result<Vec<u8>, String>) -> (r: Result<AgentKey, String>)
        requires
            generated matches Ok(pkcs8) ==> is_generated_key(pkcs8@),
        ensures
            match (r, generated) {
                (Ok(key), Ok(pkcs8)) => key@ == pkcs8@,
                (Err(message), Err(reason)) => message == reason,
                _ => false,
            },
    {
        match generated {
            Ok(pkcs8) => Ok(AgentKey { pkcs8 }),
            Err(message) => Err(message),
        }
    }

    /// Imports a key from a PKCS#8 PEM document.
    ///
    /// # Errors
    ///
    /// Returns a message if the document holds no RSA key.
    pub fn from_pkcs8_pem(pem: &str) -> (r: Result<AgentKey, String>)
        ensures
            match r {
                Ok(key) => pkcs8_from_pem(pem@) == Ok::<Seq<u8>, Seq<char>>(key@)
                    && is_key_encoding(key@),
                Err(message) => pkcs8_from_pem(pem@) == Err::<Seq<u8>, Seq<char>>(message@),
            },
    {
        match read_pkcs8_pem(pem) {
            Ok(pkcs8) => Ok(AgentKey { pkcs8 }),
            Err(message) => Err(message),
        }
    }

    /// The key as a PKCS#8 PEM document, from which it can be imported again.
    ///
    /// # Errors
    ///
    /// None comes of a key that was generated or imported.
    pub fn private_key_to_pkcs8_pem(&self) -> (r: Result<String, String>)
        ensures
            r is Ok,
            text_outcome(r) == pem_from_pkcs8(self@),
            pkcs8_from_pem(r->Ok_0@) == Ok::<Seq<u8>, Seq<char>>(self@),
    {
        proof {
            use_type_invariant(self);
        }
        write_pkcs8_pem(self.pkcs8.as_slice())
    }

    /// The public half of the key as PKCS#1 DER.
    ///
    /// # Errors
    ///
    /// None comes of a key that was generated or imported.
    pub fn public_key_to_der(&self) -> (r: Result<Vec<u8>, String>)
        ensures
            r is Ok,
            octets_outcome(r) == public_key_from_pkcs8(self@),
    {
        proof {
            use_type_invariant(self);
        }
        write_public_key(self.pkcs8.as_slice())
    }

    /// The PKCS#8 DER encoding of the key.
    pub(crate) fn as_pkcs8(&self) -> (r: &[u8])
        ensures
            r@ == self@,
    {
        self.pkcs8.as_slice()
    }
}

} // verus!
