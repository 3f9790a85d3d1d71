//! The order of identities: lexicographic by the bytes of their UTF-8
//! encoding, which is the order in which Rust compares strings.

use vstd::prelude::*;
use vstd::utf8::encode_utf8;
use vstd::utf8::encode_utf8_decode_utf8;
use vstd::utf8::is_ascii_chars;
use vstd::utf8::is_ascii_chars_encode_utf8;

verus! {

/// `a` and `b` agree on their first `k` bytes.
pub open spec fn common_prefix(a: Seq<u8>, b: Seq<u8>, k: int) -> bool {
    &&& 0 <= k <= a.len()
    &&& k <= b.len()
    &&& forall|i: int| 0 <= i < k ==> a[i] == b[i]
}

/// `a` and `b` agree on their first `k` bytes, and at position `k` either `a`
/// ends while `b` goes on, or `a` holds the smaller byte.
pub open spec fn decided_at(a: Seq<u8>, b: Seq<u8>, k: int) -> bool {
    &&& common_prefix(a, b, k)
    &&& k < b.len()
    &&& (k == a.len() || a[k] < b[k])
}

/// `a` comes strictly before `b` in lexicographic order.
pub open spec fn bytes_before(a: Seq<u8>, b: Seq<u8>) -> bool {
    exists|k: int| #[trigger] decided_at(a, b, k)
}

/// The identity `a` comes strictly before the identity `b`.
pub open spec fn precedes(a: Seq<char>, b: Seq<char>) -> bool {
    bytes_before(encode_utf8(a), encode_utf8(b))
}

/// No byte string comes before itself.
pub proof fn lemma_bytes_before_irreflexive(a: Seq<u8>)
    ensures
        !bytes_before(a, a),
{
}

/// The order of byte strings is transitive.
pub proof fn lemma_bytes_before_transitive(a: Seq<u8>, b: Seq<u8>, c: Seq<u8>)
    requires
        bytes_before(a, b),
        bytes_before(b, c),
    ensures
        bytes_before(a, c),
{
    let i = choose|k: int| #[trigger] decided_at(a, b, k);
    let j = choose|k: int| #[trigger] decided_at(b, c, k);
    let k = if i <= j { i } else { j };
    assert(decided_at(a, c, k));
}

/// Two byte strings that agree on their first `k` bytes are equal, or one of
/// them comes before the other.
proof fn lemma_decided_from(a: Seq<u8>, b: Seq<u8>, k: int)
    requires
        common_prefix(a, b, k),
    ensures
        a == b || bytes_before(a, b) || bytes_before(b, a),
    decreases a.len() - k,
{
    if k == a.len() || k == b.len() {
        if a.len() == b.len() {
            assert(a =~= b);
        } else if k == a.len() {
            assert(decided_at(a, b, k));
        } else {
            assert(common_prefix(b, a, k));
            assert(decided_at(b, a, k));
        }
    } else if a[k] < b[k] {
        assert(decided_at(a, b, k));
    } else if b[k] < a[k] {
        assert(common_prefix(b, a, k));
        assert(decided_at(b, a, k));
    } else {
        lemma_decided_from(a, b, k + 1);
    }
}

/// No identity comes before itself.
pub proof fn lemma_precedes_irreflexive(a: Seq<char>)
    ensures
        !precedes(a, a),
{
    lemma_bytes_before_irreflexive(encode_utf8(a));
}

/// The order of identities is transitive.
pub proof fn lemma_precedes_transitive(a: Seq<char>, b: Seq<char>, c: Seq<char>)
    requires
        precedes(a, b),
        precedes(b, c),
    ensures
        precedes(a, c),
{
    lemma_bytes_before_transitive(encode_utf8(a), encode_utf8(b), encode_utf8(c));
}

/// Of two different identities one comes before the other.
pub proof fn lemma_precedes_total(a: Seq<char>, b: Seq<char>)
    requires
        a != b,
    ensures
        precedes(a, b) || precedes(b, a),
{
    encode_utf8_decode_utf8(a);
    encode_utf8_decode_utf8(b);
    lemma_decided_from(encode_utf8(a), encode_utf8(b), 0);
}

/// `a` and `b` agree on their first `k` characters, and at position `k`
/// either `a` ends while `b` goes on, or `a` holds the smaller character.
pub open spec fn chars_decided_at(a: Seq<char>, b: Seq<char>, k: int) -> bool {
    &&& 0 <= k <= a.len()
    &&& k < b.len()
    &&& forall|i: int| 0 <= i < k ==> a[i] == b[i]
    &&& (k == a.len() || a[k] < b[k])
}

/// Among identities of ASCII characters the order is lexicographic by
/// characters.
pub proof fn lemma_precedes_ascii(a: Seq<char>, b: Seq<char>)
    requires
        is_ascii_chars(a),
        is_ascii_chars(b),
    ensures
        precedes(a, b) <==> exists|k: int| #[trigger] chars_decided_at(a, b, k),
{
    is_ascii_chars_encode_utf8(a);
    is_ascii_chars_encode_utf8(b);
    let x = encode_utf8(a);
    let y = encode_utf8(b);
    assert forall|i: int| 0 <= i < a.len() implies (#[trigger] a[i]) as u8 == x[i] && a[i] as int
        == x[i] as int by {}
    assert forall|i: int| 0 <= i < b.len() implies (#[trigger] b[i]) as u8 == y[i] && b[i] as int
        == y[i] as int by {}
    if precedes(a, b) {
        let k = choose|k: int| #[trigger] decided_at(x, y, k);
        assert forall|i: int| 0 <= i < k implies a[i] == b[i] by {
            assert(x[i] == y[i]);
            assert(a[i] as int == b[i] as int);
        }
        assert(chars_decided_at(a, b, k));
    }
    if exists|k: int| #[trigger] chars_decided_at(a, b, k) {
        let k = choose|k: int| #[trigger] chars_decided_at(a, b, k);
        assert forall|i: int| 0 <= i < k implies x[i] == y[i] by {
            assert(a[i] == b[i]);
        }
        assert(decided_at(x, y, k));
    }
}

/// Tells whether `a` and `b` are the same identity.
pub fn name_eq(a: &str, b: &str) -> (same: bool)
    ensures
        same == (a@ == b@),
{
    let x = a.as_bytes();
    let y = b.as_bytes();
    proof {
        encode_utf8_decode_utf8(a@);
        encode_utf8_decode_utf8(b@);
    }
    if x.len() != y.len() {
        return false;
    }
    let mut i: usize = 0;
    while i < x.len()
        invariant
            x@ == encode_utf8(a@),
            y@ == encode_utf8(b@),
            x@.len() == y@.len(),
            a@ != b@ ==> x@ != y@,
            common_prefix(x@, y@, i as int),
        decreases x.len() - i,
    {
        if x[i] != y[i] {
            return false;
        }
        i += 1;
    }
    assert(x@ =~= y@);
    true
}

/// Tells whether the identity `a` comes strictly before the identity `b`.
pub fn name_before(a: &str, b: &str) -> (before: bool)
    ensures
        before == precedes(a@, b@),
{
    let x = a.as_bytes();
    let y = b.as_bytes();
    let mut i: usize = 0;
    while i < x.len() && i < y.len()
        invariant
            x@ == encode_utf8(a@),
            y@ == encode_utf8(b@),
            common_prefix(x@, y@, i as int),
        decreases x.len() - i,
    {
        if x[i] != y[i] {
            proof {
                if x[i as int] < y[i as int] {
                    assert(decided_at(x@, y@, i as int));
                } else {
                    assert forall|k: int| !#[trigger] decided_at(x@, y@, k) by {
                        if decided_at(x@, y@, k) {
                            if k > i {
                                assert(x@[i as int] == y@[i as int]);
                            }
                        }
                    }
                }
            }
            return x[i] < y[i];
        }
        i += 1;
    }
    proof {
        if x.len() < y.len() {
            assert(decided_at(x@, y@, i as int));
        } else {
            assert forall|k: int| !#[trigger] decided_at(x@, y@, k) by {}
        }
    }
    x.len() < y.len()
}

} // verus!
