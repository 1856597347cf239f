//! The report data that binds attestation evidence to a certification request.

use sha2::{Digest, Sha512};
use vstd::prelude::*;
use vstd::utf8::*;

verus! {

/// The length of a SHA-512 digest, in octets.
pub const SHA512_DIGEST_LEN: usize = 64;

/// The SHA-512 digest of a message.
pub uninterp spec fn sha512(message: Seq<u8>) -> Seq<u8>;

/// Calls `digest` of `sha2::Sha512`: the result is a function of the message
/// alone, and [`SHA512_DIGEST_LEN`] octets long.
#[verifier::external_body]
fn sha512_digest(message: &[u8]) -> (r: Vec<u8>)
    ensures
        r@ == sha512(message@),
        r@.len() == SHA512_DIGEST_LEN,
{
    Sha512::digest(message).to_vec()
}

/// What report data is the digest of: the nonce, the public key and the hashes
/// of the components, in this order.
pub open spec fn binding_message(
    nonce: Seq<u8>,
    public_key: Seq<u8>,
    component_hashes: Seq<u8>,
) -> Seq<u8> {
    nonce + public_key + component_hashes
}

/// The report data for a nonce text, a public key and the hashes of the
/// components.
pub open spec fn report_data(
    nonce: Seq<char>,
    public_key: Seq<u8>,
    component_hashes: Seq<u8>,
) -> Seq<u8> {
    sha512(binding_message(encode_utf8(nonce), public_key, component_hashes))
}

/// Computes the report data that binds a nonce and a public key.
pub fn compute_report_data_binding(nonce: &[u8], public_key: &[u8]) -> (r: Vec<u8>)
    ensures
        r@ == sha512(nonce@ + public_key@),
        r@.len() == SHA512_DIGEST_LEN,
{
    let mut message: Vec<u8> = Vec::new();
    message.extend_from_slice(nonce);
    message.extend_from_slice(public_key);
    assert(message@ =~= nonce@ + public_key@);
    sha512_digest(message.as_slice())
}

/// Computes the report data that binds a nonce, a public key and the hashes of
/// the components.
pub fn compute_report_data_binding_with_components(
    nonce: &[u8],
    public_key: &[u8],
    component_hashes: &[u8],
) -> (r: Vec<u8>)
    ensures
        r@ == sha512(binding_message(nonce@, public_key@, component_hashes@)),
        r@.len() == SHA512_DIGEST_LEN,
{
    let mut message: Vec<u8> = Vec::new();
    message.extend_from_slice(nonce);
    message.extend_from_slice(public_key);
    message.extend_from_slice(component_hashes);
    assert(message@ =~= binding_message(nonce@, public_key@, component_hashes@));
    sha512_digest(message.as_slice())
}

/// Computes the report data of a certification request. Without component
/// hashes it binds the nonce and the public key alone.
pub fn certify_report_data(
    nonce: &str,
    public_key_pkcs1_der: &[u8],
    component_hashes: &[u8],
) -> (r: Vec<u8>)
    ensures
        r@ == report_data(nonce@, public_key_pkcs1_der@, component_hashes@),
        component_hashes@.len() == 0 ==> r@ == sha512(encode_utf8(nonce@) + public_key_pkcs1_der@),
        r@.len() == SHA512_DIGEST_LEN,
{
    if component_hashes.len() > 0 {
        return compute_report_data_binding_with_components(
            nonce.as_bytes(),
            public_key_pkcs1_der,
            component_hashes,
        );
    }
    proof {
        report_data_without_components(encode_utf8(nonce@), public_key_pkcs1_der@);
    }
    compute_report_data_binding(nonce.as_bytes(), public_key_pkcs1_der)
}

/// To bind no components is to bind the nonce and the public key alone.
pub proof fn report_data_without_components(nonce: Seq<u8>, public_key: Seq<u8>)
    ensures
        binding_message(nonce, public_key, Seq::empty()) == nonce + public_key,
{
    assert(binding_message(nonce, public_key, Seq::empty()) =~= nonce + public_key);
}

/// For one nonce and one public key, other component hashes, or the same hashes
/// in another order, make another message to digest; and so does another public
/// key or another nonce of the same length.
pub proof fn binding_message_tells_inputs_apart(
    nonce: Seq<u8>,
    public_key: Seq<u8>,
    component_hashes: Seq<u8>,
    other_nonce: Seq<u8>,
    other_public_key: Seq<u8>,
    other_component_hashes: Seq<u8>,
)
    requires
        nonce.len() == other_nonce.len(),
        public_key.len() == other_public_key.len(),
    ensures
        binding_message(nonce, public_key, component_hashes) == binding_message(
            other_nonce,
            other_public_key,
            other_component_hashes,
        ) <==> nonce == other_nonce && public_key == other_public_key && component_hashes
            == other_component_hashes,
{
    let one = binding_message(nonce, public_key, component_hashes);
    let other = binding_message(other_nonce, other_public_key, other_component_hashes);
    let n = nonce.len() as int;
    let m = n + public_key.len() as int;
    assert(one.take(n) =~= nonce);
    assert(one.subrange(n, m) =~= public_key);
    assert(one.skip(m) =~= component_hashes);
    assert(other.take(n) =~= other_nonce);
    assert(other.subrange(n, m) =~= other_public_key);
    assert(other.skip(m) =~= other_component_hashes);
}

/// What is digested is the nonce, right behind it the public key, and right
/// behind that the component hashes octet for octet in their given order, and
/// nothing else.
pub proof fn binding_message_holds_all_in_order(
    nonce: Seq<u8>,
    public_key: Seq<u8>,
    component_hashes: Seq<u8>,
)
    ensures
        binding_message(nonce, public_key, component_hashes).len() == nonce.len()
            + public_key.len() + component_hashes.len(),
        binding_message(nonce, public_key, component_hashes).take(nonce.len() as int) == nonce,
        binding_message(nonce, public_key, component_hashes).subrange(
            nonce.len() as int,
            (nonce.len() + public_key.len()) as int,
        ) == public_key,
        binding_message(nonce, public_key, component_hashes).skip(
            (nonce.len() + public_key.len()) as int,
        ) == component_hashes,
{
    let message = binding_message(nonce, public_key, component_hashes);
    assert(message.take(nonce.len() as int) =~= nonce);
    assert(message.subrange(nonce.len() as int, (nonce.len() + public_key.len()) as int)
        =~= public_key);
    assert(message.skip((nonce.len() + public_key.len()) as int) =~= component_hashes);
}

/// The report data is the SHA-512 digest of the UTF-8 nonce, the public key and
/// the component hashes one after the other. With the hashes of one component
/// more, what is digested goes on with them: the first component's come first.
pub proof fn report_data_digests_inputs_in_order(
    nonce: Seq<char>,
    public_key: Seq<u8>,
    component_hashes: Seq<u8>,
    more_hashes: Seq<u8>,
)
    ensures
        report_data(nonce, public_key, component_hashes) == sha512(
            encode_utf8(nonce) + public_key + component_hashes,
        ),
        report_data(nonce, public_key, component_hashes + more_hashes) == sha512(
            binding_message(encode_utf8(nonce), public_key, component_hashes) + more_hashes,
        ),
{
    assert(binding_message(encode_utf8(nonce), public_key, component_hashes + more_hashes)
        =~= binding_message(encode_utf8(nonce), public_key, component_hashes) + more_hashes);
}

} // verus!
