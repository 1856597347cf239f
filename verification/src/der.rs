//! The distinguished encoding rules, as far as a certificate request needs them.

use vstd::prelude::*;

verus! {

/// The greatest length of a DER value, in octets.
pub const MAX_DER_LENGTH: usize = 0xfff_ffff;

/// The octets of a DER length of at most 32 bits.
pub open spec fn der_length(n: nat) -> Seq<u8> {
    if n < 0x80 {
        seq![n as u8]
    } else if n < 0x100 {
        seq![0x81u8, n as u8]
    } else if n < 0x1_0000 {
        seq![0x82u8, (n / 0x100) as u8, (n % 0x100) as u8]
    } else if n < 0x100_0000 {
        seq![0x83u8, (n / 0x1_0000) as u8, (n / 0x100 % 0x100) as u8, (n % 0x100) as u8]
    } else {
        seq![
            0x84u8,
            (n / 0x100_0000) as u8,
            (n / 0x1_0000 % 0x100) as u8,
            (n / 0x100 % 0x100) as u8,
            (n % 0x100) as u8,
        ]
    }
}

/// A DER value: its tag, its length and its content.
pub open spec fn der_value(tag: u8, content: Seq<u8>) -> Seq<u8> {
    seq![tag] + der_length(content.len()) + content
}

/// A DER bit string of whole octets.
pub open spec fn der_bits(octets: Seq<u8>) -> Seq<u8> {
    der_value(0x03, seq![0x00u8] + octets)
}

/// The octets that lists hold.
pub open spec fn octet_lists(lists: Seq<Vec<u8>>) -> Seq<Seq<u8>> {
    lists.map_values(|v: Vec<u8>| v@)
}

} // verus!
