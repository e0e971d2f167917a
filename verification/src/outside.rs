//! The functions and types of other crates on which the library rests. Verus
//! takes what is stated of them here on trust.

use std::str::FromStr;

use bitcoincore_rpc::bitcoin::{BlockHash, Txid};
use vstd::prelude::*;
use vstd::utf8::encode_utf8;

verus! {

/// The sending end of a channel of `crossbeam_channel`. The library carries
/// such ends through; nothing is claimed of them.
#[verifier::external_type_specification]
#[verifier::external_body]
#[verifier::reject_recursive_types(T)]
pub struct ExSender<T>(crossbeam_channel::Sender<T>);

/// The receiving end of a channel of `crossbeam_channel`. The library carries
/// such ends through; nothing is claimed of them.
#[verifier::external_type_specification]
#[verifier::external_body]
#[verifier::reject_recursive_types(T)]
pub struct ExReceiver<T>(crossbeam_channel::Receiver<T>);

/// The lower-case hexadecimal digit of a value below sixteen.
pub open spec fn hex_digit(value: u8) -> char {
    "0123456789abcdef"@[value as int]
}

/// Bytes in lower-case hexadecimal: two digits for each, the upper half first.
pub open spec fn hex_text(data: Seq<u8>) -> Seq<char> {
    Seq::new(
        2 * data.len(),
        |i: int|
            if i % 2 == 0 {
                hex_digit(data[i / 2] / 16)
            } else {
                hex_digit(data[i / 2] % 16)
            },
    )
}

/// `hex::encode`: writes bytes in lower-case hexadecimal, two digits for each
/// byte, the upper half first.
#[verifier::external_body]
pub(crate) fn encode_hex(data: &Vec<u8>) -> (text: String)
    ensures
        text@ == hex_text(data@),
{
    hex::encode(data)
}

/// Whether a byte is a hexadecimal digit, of either case.
pub open spec fn is_hex_digit(byte: u8) -> bool {
    48 <= byte <= 57 || 65 <= byte <= 70 || 97 <= byte <= 102
}

/// The value of a hexadecimal digit.
pub open spec fn hex_value(byte: u8) -> int {
    if byte <= 57 {
        byte - 48
    } else if byte <= 70 {
        byte - 55
    } else {
        byte - 87
    }
}

/// The digest that a text spells, if it spells one: 64 hexadecimal digits, two
/// for each of 32 bytes, the last byte first.
pub open spec fn digest_of(text: Seq<u8>) -> Option<Seq<u8>> {
    if text.len() == 64 && forall|i: int| 0 <= i < 64 ==> is_hex_digit(#[trigger] text[i]) {
        Some(
            Seq::new(
                32,
                |i: int| (16 * hex_value(text[62 - 2 * i]) + hex_value(text[63 - 2 * i])) as u8,
            ),
        )
    } else {
        None
    }
}

/// `Txid::from_str`, and the bytes of what it reads: succeeds on 64 hexadecimal
/// digits of either case, which spell the digest with its last byte first, and
/// fails on any other text.
#[verifier::external_body]
pub(crate) fn parse_txid(text: &str) -> (digest: Option<[u8; 32]>)
    ensures
        match digest_of(encode_utf8(text@)) {
            Some(bytes) => digest matches Some(array) && array@ == bytes,
            None => digest is None,
        },
{
    match Txid::from_str(text) {
        Ok(txid) => Some(bitcoincore_rpc::bitcoin::hashes::Hash::to_byte_array(txid)),
        Err(_) => None,
    }
}

/// `BlockHash::from_str`, and the bytes of what it reads: succeeds on 64
/// hexadecimal digits of either case, which spell the digest with its last byte
/// first, and fails on any other text.
#[verifier::external_body]
pub(crate) fn parse_block_hash(text: &str) -> (digest: Option<[u8; 32]>)
    ensures
        match digest_of(encode_utf8(text@)) {
            Some(bytes) => digest matches Some(array) && array@ == bytes,
            None => digest is None,
        },
{
    match BlockHash::from_str(text) {
        Ok(block_hash) => Some(bitcoincore_rpc::bitcoin::hashes::Hash::to_byte_array(block_hash)),
        Err(_) => None,
    }
}

} // verus!
