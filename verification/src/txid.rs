//! Transaction identifiers as they come in, in hexadecimal, and the eight
//! bytes that the index keeps of each.

use vstd::prelude::*;
use vstd::slice::slice_subrange;
use vstd::utf8::encode_utf8;

verus! {

/// What a hexadecimal digit stands for; `None` for any other byte.
pub open spec fn spec_hex_value(digit: u8) -> Option<u8> {
    if 0x30 <= digit <= 0x39 {
        Some((digit - 0x30) as u8)
    } else if 0x61 <= digit <= 0x66 {
        Some((digit - 0x61 + 10) as u8)
    } else if 0x41 <= digit <= 0x46 {
        Some((digit - 0x41 + 10) as u8)
    } else {
        None
    }
}

/// Whether `data` is hexadecimal: digits only, in pairs.
pub open spec fn spec_is_hex(data: Seq<u8>) -> bool {
    &&& data.len() % 2 == 0
    &&& forall|i: int| 0 <= i < data.len() ==> spec_hex_value(#[trigger] data[i]) is Some
}

/// The bytes that the digit pairs of `data` spell, the high digit first.
pub open spec fn spec_hex_decoded(data: Seq<u8>) -> Seq<u8> {
    Seq::new(
        data.len() / 2,
        |i: int|
            (16 * spec_hex_value(data[2 * i]).unwrap() + spec_hex_value(
                data[2 * i + 1],
            ).unwrap()) as u8,
    )
}

/// `data` without the `0x` that may stand before the digits.
pub open spec fn spec_without_0x(data: Seq<u8>) -> Seq<u8> {
    if data.len() >= 2 && data[0] == 0x30 && data[1] == 0x78 {
        data.skip(2)
    } else {
        data
    }
}

/// The first eight bytes of the identifier that `hash` spells in
/// hexadecimal, with or without `0x` before it; `None` where `hash` is not
/// hexadecimal or spells fewer than eight bytes.
pub open spec fn spec_txid_prefix(hash: Seq<u8>) -> Option<Seq<u8>> {
    let digits = spec_without_0x(hash);
    if spec_is_hex(digits) && digits.len() >= 16 {
        Some(spec_hex_decoded(digits).take(8))
    } else {
        None
    }
}

/// The first eight bytes of the identifier that the characters of `hash`
/// spell.
pub open spec fn spec_hash_prefix(hash: Seq<char>) -> Option<Seq<u8>> {
    spec_txid_prefix(encode_utf8(hash))
}

/// `hex::FromHexError`: why `hex::decode` gave no bytes.
#[verifier::external_type_specification]
#[verifier::external_body]
pub struct ExFromHexError(hex::FromHexError);

/// Calls `hex::decode`. It succeeds on an even number of hexadecimal digits,
/// upper or lower case, and on nothing else; each pair of digits gives one
/// byte, the high digit first.
#[verifier::external_body]
fn hex_decode(data: &[u8]) -> (decoded: Result<Vec<u8>, hex::FromHexError>)
    ensures
        decoded is Ok <==> spec_is_hex(data@),
        decoded matches Ok(bytes) ==> bytes@ == spec_hex_decoded(data@),
{
    hex::decode(data)
}

/// The eight bytes that the index keeps of the transaction identifier
/// `hash`.
pub fn txid_prefix(hash: &str) -> (prefix: Option<[u8; 8]>)
    ensures
        prefix is Some <==> spec_hash_prefix(hash@) is Some,
        prefix matches Some(bytes) ==> Some(bytes@) == spec_hash_prefix(hash@),
{
    let data = hash.as_bytes();
    let digits = if data.len() >= 2 && data[0] == 0x30 && data[1] == 0x78 {
        slice_subrange(data, 2, data.len())
    } else {
        data
    };
    assert(digits@ =~= spec_without_0x(data@));
    match hex_decode(digits) {
        Ok(bytes) => {
            if bytes.len() < 8 {
                return None;
            }
            let prefix: [u8; 8] = [
                bytes[0],
                bytes[1],
                bytes[2],
                bytes[3],
                bytes[4],
                bytes[5],
                bytes[6],
                bytes[7],
            ];
            assert(prefix@ =~= spec_hex_decoded(digits@).take(8));
            Some(prefix)
        },
        Err(_) => None,
    }
}

} // verus!
