//! Laws on texts: their order, the order of blocks and of reports, and what
//! messages and proofs read like.

use vstd::prelude::*;
use vstd::utf8::{encode_utf8, is_char_boundary};

use crate::chain::{block_before, BlockIdentifier, BlockKey, TransactionIdentifier};
use crate::outside::{digest_of, hex_digit, hex_text};
use crate::proofs::{hash_digest, proof_failure, proof_text};
use crate::report::{is_entry_of, BlocksByPredicate, PredicateBlocks};
use crate::text::{bytes_before, bytes_differ_at, text_before};

verus! {

/// Texts are ordered by their bytes: the first byte decides, or where it is the
/// same in both, the rest. Nothing comes before something, and nothing before
/// nothing.
pub proof fn order_goes_byte_by_byte(x: u8, a: Seq<u8>, y: u8, b: Seq<u8>)
    ensures
        bytes_before(seq![x] + a, seq![y] + b) <==> x < y || (x == y && bytes_before(a, b)),
        bytes_before(Seq::empty(), seq![y] + b),
        !bytes_before(seq![x] + a, Seq::empty()),
        !bytes_before(Seq::empty(), Seq::empty()),
{
    let (s, t) = (seq![x] + a, seq![y] + b);
    assert(s[0] == x && t[0] == y);
    assert(bytes_differ_at(Seq::empty(), t, 0));
    if x < y {
        assert(bytes_differ_at(s, t, 0));
    }
    if x == y && bytes_before(a, b) {
        let k = choose|k: int| bytes_differ_at(a, b, k);
        assert forall|i: int| 0 <= i < k + 1 implies #[trigger] s[i] == t[i] by {
            if i > 0 {
                assert(a[i - 1] == b[i - 1]);
            }
        }
        assert(bytes_differ_at(s, t, k + 1));
    }
    if bytes_before(s, t) {
        let k = choose|k: int| bytes_differ_at(s, t, k);
        if k > 0 {
            assert(s[0] == t[0]);
            assert forall|i: int| 0 <= i < k - 1 implies #[trigger] a[i] == b[i] by {
                assert(s[i + 1] == t[i + 1]);
            }
            assert(bytes_differ_at(a, b, k - 1));
        }
    }
}

/// The order of texts is that of their bytes in UTF-8.
pub proof fn texts_are_ordered_by_their_bytes(a: Seq<char>, b: Seq<char>)
    ensures
        text_before(a, b) <==> bytes_before(encode_utf8(a), encode_utf8(b)),
{
}

/// A higher block is listed first, and of two blocks of one height that with the
/// greater hash.
pub proof fn higher_block_is_listed_first(a: BlockIdentifier, b: BlockIdentifier)
    ensures
        a.index > b.index ==> block_before(a@, b@) && !block_before(b@, a@),
        a.index == b.index ==> (block_before(a@, b@) <==> bytes_before(
            encode_utf8(b.hash@),
            encode_utf8(a.hash@),
        )),
{
}

/// Whether an entry lists its blocks in order: the highest first, those of one
/// height by their hashes, the greatest first, and none twice.
pub open spec fn lists_in_order(entry: PredicateBlocks) -> bool {
    let blocks = entry.spec_blocks();
    forall|i: int, j: int|
        0 <= i < j < blocks.len() ==> (#[trigger] blocks[i]).index > (#[trigger] blocks[j]).index
            || (blocks[i].index == blocks[j].index && bytes_before(
            encode_utf8(blocks[j].hash),
            encode_utf8(blocks[i].hash),
        ))
}

/// A report lists its predicates by their uuids, and the blocks of each in their
/// order. What it holds of a predicate is what the predicate's entry lists.
pub proof fn report_is_listed_in_order(
    map: BlocksByPredicate,
    uuid: Seq<char>,
    block: BlockKey,
)
    requires
        map.wf(),
    ensures
        forall|i: int, j: int|
            0 <= i < j < map.spec_entries().len() ==> bytes_before(
                encode_utf8((#[trigger] map.spec_entries()[i]).spec_uuid()),
                encode_utf8((#[trigger] map.spec_entries()[j]).spec_uuid()),
            ),
        forall|i: int|
            0 <= i < map.spec_entries().len() ==> lists_in_order(#[trigger] map.spec_entries()[i]),
        map@.contains_key(uuid) <==> exists|i: int|
            0 <= i < map.spec_entries().len() && (#[trigger] map.spec_entries()[i]).spec_uuid()
                == uuid,
        map@.contains_key(uuid) && map@[uuid].contains(block) <==> exists|i: int|
            0 <= i < map.spec_entries().len() && (#[trigger] map.spec_entries()[i]).spec_uuid()
                == uuid && map.spec_entries()[i].spec_blocks().contains(block),
{
    let entries = map.spec_entries();
    assert forall|i: int, j: int| 0 <= i < j < entries.len() implies bytes_before(
        encode_utf8((#[trigger] entries[i]).spec_uuid()),
        encode_utf8((#[trigger] entries[j]).spec_uuid()),
    ) by {
        assert(text_before(entries[i].spec_uuid(), entries[j].spec_uuid()));
    }
    if exists|i: int| is_entry_of(entries, uuid, i) {
        let i = choose|i: int| is_entry_of(entries, uuid, i);
        assert(entries[i].spec_uuid() == uuid);
        assert(map@[uuid] == entries[i].set());
        assert forall|j: int| 0 <= j < entries.len() && (#[trigger] entries[j]).spec_uuid()
            == uuid implies j == i by {
            if j < i {
                assert(text_before(entries[j].spec_uuid(), entries[i].spec_uuid()));
            }
            if i < j {
                assert(text_before(entries[i].spec_uuid(), entries[j].spec_uuid()));
            }
        }
    }
    if exists|i: int| 0 <= i < entries.len() && (#[trigger] entries[i]).spec_uuid() == uuid {
        let i = choose|i: int|
            0 <= i < entries.len() && (#[trigger] entries[i]).spec_uuid() == uuid;
        assert(is_entry_of(entries, uuid, i));
    }
}

/// A byte of a text that is a hexadecimal digit, of either case, and its value.
pub open spec fn is_digit_of(byte: u8, value: int) -> bool {
    ||| 48 <= byte <= 57 && value == byte - 48
    ||| 65 <= byte <= 70 && value == byte - 65 + 10
    ||| 97 <= byte <= 102 && value == byte - 97 + 10
}

/// Whether a hash spells a digest: behind two bytes, at the end of a character, it
/// has 64 hexadecimal digits, two for each of 32 bytes, the last byte first.
pub open spec fn spells(hash: Seq<char>, digest: Seq<u8>) -> bool {
    let bytes = encode_utf8(hash);
    &&& bytes.len() == 66
    &&& is_char_boundary(bytes, 2)
    &&& digest.len() == 32
    &&& forall|i: int|
        0 <= i < 32 ==> is_digit_of(bytes[64 - 2 * i], (#[trigger] digest[i]) as int / 16)
            && is_digit_of(bytes[65 - 2 * i], digest[i] as int % 16)
}

/// The digest by which the Bitcoin node is asked is the one that the hash spells; a
/// hash that spells none yields none.
pub proof fn digest_is_what_the_hash_spells(hash: Seq<char>, digest: Seq<u8>)
    ensures
        hash_digest(hash) == Some(digest) <==> spells(hash, digest),
{
    broadcast use vstd::utf8::encode_utf8_valid_utf8;

    let bytes = encode_utf8(hash);
    assert(is_char_boundary(bytes, 2) ==> bytes.len() >= 2);
    if spells(hash, digest) {
        let text = bytes.subrange(2, 66);
        assert forall|i: int| 0 <= i < 64 implies crate::outside::is_hex_digit(
            #[trigger] text[i],
        ) by {
            let k = (63 - i) / 2;
            assert(is_digit_of(bytes[64 - 2 * k], digest[k] as int / 16));
            assert(is_digit_of(bytes[65 - 2 * k], digest[k] as int % 16));
            assert(i == 62 - 2 * k || i == 63 - 2 * k);
        }
        let spelled = digest_of(text)->0;
        assert forall|i: int| 0 <= i < 32 implies #[trigger] spelled[i] == digest[i] by {
            assert(text[62 - 2 * i] == bytes[64 - 2 * i]);
            assert(text[63 - 2 * i] == bytes[65 - 2 * i]);
            assert(is_digit_of(bytes[64 - 2 * i], digest[i] as int / 16));
        }
        assert(spelled =~= digest);
    }
    if hash_digest(hash) == Some(digest) {
        let text = bytes.subrange(2, bytes.len() as int);
        assert forall|i: int| 0 <= i < 32 implies is_digit_of(
            bytes[64 - 2 * i],
            (#[trigger] digest[i]) as int / 16,
        ) && is_digit_of(bytes[65 - 2 * i], digest[i] as int % 16) by {
            assert(crate::outside::is_hex_digit(text[62 - 2 * i]));
            assert(crate::outside::is_hex_digit(text[63 - 2 * i]));
            assert(text[62 - 2 * i] == bytes[64 - 2 * i]);
            assert(text[63 - 2 * i] == bytes[65 - 2 * i]);
        }
    }
}

/// The digits of hexadecimal, in lower case.
pub open spec fn digits() -> Seq<char> {
    seq!['0', '1', '2', '3', '4', '5', '6', '7', '8', '9', 'a', 'b', 'c', 'd', 'e', 'f']
}

/// A proof reads as `0x` and two lower-case hexadecimal digits for each of its bytes,
/// in their order.
pub proof fn proof_reads_as_hexadecimal(proof: Seq<u8>, i: int)
    ensures
        proof_text(proof).len() == 2 + 2 * proof.len(),
        proof_text(proof)[0] == '0',
        proof_text(proof)[1] == 'x',
        0 <= i < proof.len() ==> {
            &&& proof_text(proof)[2 + 2 * i] == digits()[proof[i] as int / 16]
            &&& proof_text(proof)[3 + 2 * i] == digits()[proof[i] as int % 16]
        },
{
    reveal_strlit("0x");
    reveal_strlit("0123456789abcdef");
    let text = proof_text(proof);
    if 0 <= i < proof.len() {
        assert((2 * i) / 2 == i && (2 * i) % 2 == 0);
        assert((2 * i + 1) / 2 == i && (2 * i + 1) % 2 == 1);
        assert(text[2 + 2 * i] == hex_text(proof)[2 * i]);
        assert(text[3 + 2 * i] == hex_text(proof)[2 * i + 1]);
        assert(hex_text(proof)[2 * i] == hex_digit(proof[i] / 16));
        assert(hex_text(proof)[2 * i + 1] == hex_digit(proof[i] % 16));
        assert("0123456789abcdef"@ =~= digits());
    }
}

/// The message about a proof that could not be had names the transaction and the
/// reason, in this order.
pub proof fn failure_names_transaction_and_reason(
    transaction: TransactionIdentifier,
    error: String,
)
    ensures
        proof_failure(transaction.hash@, error@) == "failed collecting proof for transaction "@
            + transaction.hash@ + ": "@ + error@,
{
}

} // verus!
