//! Text: the byte order of strings and the building of messages.

use vstd::prelude::*;
use vstd::utf8::{encode_utf8, decode_utf8};

verus! {

/// Lexicographic order of byte sequences: `a` comes strictly before `b`.
pub open spec fn bytes_before(a: Seq<u8>, b: Seq<u8>) -> bool {
    exists|k: int| bytes_differ_at(a, b, k)
}

/// `a` and `b` agree on their first `k` bytes, and there `a` ends or has the
/// smaller byte while `b` goes on.
pub open spec fn bytes_differ_at(a: Seq<u8>, b: Seq<u8>, k: int) -> bool {
    &&& 0 <= k <= a.len()
    &&& k < b.len()
    &&& forall|i: int| 0 <= i < k ==> #[trigger] a[i] == b[i]
    &&& k == a.len() || a[k] < b[k]
}

/// The order of strings: that of their UTF-8 bytes.
pub open spec fn text_before(a: Seq<char>, b: Seq<char>) -> bool {
    bytes_before(encode_utf8(a), encode_utf8(b))
}

/// No text comes before itself.
pub proof fn text_before_is_irreflexive(a: Seq<char>)
    ensures
        !text_before(a, a),
{
}

/// The order of texts is transitive.
pub proof fn text_before_is_transitive(a: Seq<char>, b: Seq<char>, c: Seq<char>)
    requires
        text_before(a, b),
        text_before(b, c),
    ensures
        text_before(a, c),
{
    let (x, y, z) = (encode_utf8(a), encode_utf8(b), encode_utf8(c));
    let j = choose|k: int| bytes_differ_at(x, y, k);
    let l = choose|k: int| bytes_differ_at(y, z, k);
    let m = if j <= l { j } else { l };
    assert(bytes_differ_at(x, z, m));
}

/// Two texts with the same bytes are the same text.
pub proof fn text_is_its_bytes(a: Seq<char>, b: Seq<char>)
    requires
        encode_utf8(a) == encode_utf8(b),
    ensures
        a == b,
{
    broadcast use vstd::utf8::encode_utf8_decode_utf8;
    assert(decode_utf8(encode_utf8(a)) == a);
    assert(decode_utf8(encode_utf8(b)) == b);
}

/// How two texts compare.
#[derive(Clone, Copy, Debug, PartialEq, Eq, Structural)]
pub enum TextOrder {
    Before,
    Same,
    After,
}

/// Compares two texts in the order of their bytes.
pub fn compare_text(a: &str, b: &str) -> (order: TextOrder)
    ensures
        order is Before <==> text_before(a@, b@),
        order is Same <==> a@ == b@,
        order is After <==> text_before(b@, a@),
{
    let x = a.as_bytes();
    let y = b.as_bytes();
    let mut i: usize = 0;
    while i < x.len() && i < y.len() && x[i] == y[i]
        invariant
            i <= x.len(),
            i <= y.len(),
            forall|j: int| 0 <= j < i ==> #[trigger] x@[j] == y@[j],
        decreases x.len() - i,
    {
        i += 1;
    }
    if i < x.len() && i < y.len() {
        if x[i] < y[i] {
            assert(bytes_differ_at(x@, y@, i as int));
            TextOrder::Before
        } else {
            assert(bytes_differ_at(y@, x@, i as int));
            TextOrder::After
        }
    } else if i < y.len() {
        assert(bytes_differ_at(x@, y@, i as int));
        TextOrder::Before
    } else if i < x.len() {
        assert(bytes_differ_at(y@, x@, i as int));
        TextOrder::After
    } else {
        assert(x@ =~= y@);
        proof {
            text_is_its_bytes(a@, b@);
        }
        TextOrder::Same
    }
}

/// Whether two texts are the same.
pub fn same_text(a: &str, b: &str) -> (same: bool)
    ensures
        same == (a@ == b@),
{
    match compare_text(a, b) {
        TextOrder::Same => true,
        _ => false,
    }
}

/// Puts a text between two others.
pub fn wrap_text(before: &str, text: &str, after: &str) -> (whole: String)
    ensures
        whole@ == before@ + text@ + after@,
{
    let mut whole = before.to_string();
    whole.append(text);
    whole.append(after);
    whole
}

} // verus!
