//! Kademlia identifiers and the XOR metric.

use vstd::prelude::*;
use crate::grid::bitfield::{bit_set, lemma_bit_constants, wire_bit};
use crate::net::SocketAddress;

verus! {

/// 256-bit node identifier.
pub type NodeId = [u8; 32];

/// 256-bit file identifier: the hash of a file's piece hashes.
pub type InfoHash = [u8; 32];

/// Byte-wise XOR of two equally long byte strings.
pub open spec fn xor_bytes(a: Seq<u8>, b: Seq<u8>) -> Seq<u8> {
    Seq::new(a.len(), |i: int| a[i] ^ b[i])
}

/// Byte-wise OR of two equally long byte strings.
pub open spec fn or_bytes(a: Seq<u8>, b: Seq<u8>) -> Seq<u8> {
    Seq::new(a.len(), |i: int| a[i] | b[i])
}

/// A byte string read as a big-endian number.
pub open spec fn big_endian(s: Seq<u8>) -> nat
    decreases s.len(),
{
    if s.len() == 0 {
        0
    } else {
        256 * big_endian(s.drop_last()) + s.last() as nat
    }
}

/// The Kademlia distance between two identifiers.
pub fn xor_distance(a: &NodeId, b: &NodeId) -> (d: [u8; 32])
    ensures
        d@ == xor_bytes(a@, b@),
{
    let mut result = [0u8; 32];
    let mut i: usize = 0;
    while i < 32
        invariant
            i <= 32,
            forall|k: int| 0 <= k < i ==> result@[k] == a@[k] ^ b@[k],
        decreases 32 - i,
    {
        result[i] = a[i] ^ b[i];
        i += 1;
    }
    assert(result@ =~= xor_bytes(a@, b@));
    result
}

/// The all-zero byte string of a given length.
pub open spec fn zero_bytes(len: nat) -> Seq<u8> {
    Seq::new(len, |i: int| 0u8)
}

/// Every bit of `x` is also a bit of `y`, byte by byte.
pub open spec fn bits_within(x: Seq<u8>, y: Seq<u8>) -> bool {
    x.len() == y.len() && forall|i: int| 0 <= i < x.len() ==> #[trigger] x[i] & !y[i] == 0
}

/// The position of the highest-order one bit of a byte string, counting the
/// most significant bit of the first byte as 0.
pub open spec fn is_leading_bit(d: Seq<u8>, pos: int) -> bool {
    &&& 0 <= pos < 8 * d.len()
    &&& wire_bit(d, pos)
    &&& forall|j: int| 0 <= j < pos ==> !wire_bit(d, j)
}

proof fn lemma_xor_facts(a: u8, b: u8, c: u8)
    by (bit_vector)
    ensures
        a ^ a == 0,
        a ^ b == b ^ a,
        (a ^ b == 0) == (a == b),
        (a ^ c) & !((a ^ b) | (b ^ c)) == 0,
        (a ^ b) ^ b == a,
{
}

proof fn lemma_within_le(x: u8, y: u8)
    by (bit_vector)
    requires
        x & !y == 0,
    ensures
        x <= y,
{
}

proof fn lemma_nonzero_bit(x: u8, pos: u8)
    by (bit_vector)
    requires
        pos < 8,
    ensures
        ((x >> pos) & 1u8 != 0u8) == bit_set(x, pos),
        ((x >> pos) & 1u8 == 0u8) == !bit_set(x, pos),
{
}

/// A byte string that is byte-wise no larger reads as a no larger number.
pub proof fn lemma_big_endian_monotone(x: Seq<u8>, y: Seq<u8>)
    requires
        x.len() == y.len(),
        forall|i: int| 0 <= i < x.len() ==> x[i] <= y[i],
    ensures
        big_endian(x) <= big_endian(y),
    decreases x.len(),
{
    if x.len() > 0 {
        lemma_big_endian_monotone(x.drop_last(), y.drop_last());
    }
}

/// Two equally long byte strings that first differ at `i` compare as
/// numbers the way their bytes at `i` compare.
pub proof fn lemma_big_endian_first_difference(x: Seq<u8>, y: Seq<u8>, i: int)
    requires
        x.len() == y.len(),
        0 <= i < x.len(),
        forall|k: int| 0 <= k < i ==> x[k] == y[k],
        x[i] < y[i],
    ensures
        big_endian(x) < big_endian(y),
    decreases x.len(),
{
    let xd = x.drop_last();
    let yd = y.drop_last();
    if i == x.len() - 1 {
        assert(xd =~= yd);
    } else {
        lemma_big_endian_first_difference(xd, yd, i);
    }
}

/// Equally long byte strings that read as the same number are the same.
pub proof fn lemma_big_endian_injective(x: Seq<u8>, y: Seq<u8>)
    requires
        x.len() == y.len(),
        big_endian(x) == big_endian(y),
    ensures
        x == y,
    decreases x.len(),
{
    if x.len() > 0 {
        lemma_big_endian_injective(x.drop_last(), y.drop_last());
        assert(x =~= x.drop_last().push(x.last()));
        assert(y =~= y.drop_last().push(y.last()));
    } else {
        assert(x =~= y);
    }
}

/// Distance is zero from an identifier to itself, and only to itself.
pub proof fn lemma_distance_identity(a: Seq<u8>, b: Seq<u8>)
    requires
        a.len() == b.len(),
    ensures
        xor_bytes(a, a) == zero_bytes(a.len()),
        big_endian(xor_bytes(a, a)) == 0,
        (xor_bytes(a, b) == zero_bytes(a.len())) <==> a == b,
{
    assert forall|i: int| 0 <= i < a.len() implies #[trigger] (a[i] ^ a[i]) == 0u8 by {
        lemma_xor_facts(a[i], a[i], a[i]);
    }
    assert(xor_bytes(a, a) =~= zero_bytes(a.len()));
    lemma_big_endian_zero(a.len());
    if xor_bytes(a, b) == zero_bytes(a.len()) {
        assert forall|i: int| 0 <= i < a.len() implies a[i] == b[i] by {
            assert(xor_bytes(a, b)[i] == zero_bytes(a.len())[i]);
            lemma_xor_facts(a[i], b[i], a[i]);
        }
        assert(a =~= b);
    }
}

pub proof fn lemma_big_endian_zero(len: nat)
    ensures
        big_endian(zero_bytes(len)) == 0,
    decreases len,
{
    if len > 0 {
        assert(zero_bytes(len).drop_last() =~= zero_bytes((len - 1) as nat));
        lemma_big_endian_zero((len - 1) as nat);
    }
}

/// Distance does not depend on the direction.
pub proof fn lemma_distance_symmetric(a: Seq<u8>, b: Seq<u8>)
    requires
        a.len() == b.len(),
    ensures
        xor_bytes(a, b) == xor_bytes(b, a),
{
    assert forall|i: int| 0 <= i < a.len() implies #[trigger] (a[i] ^ b[i]) == b[i] ^ a[i] by {
        lemma_xor_facts(a[i], b[i], a[i]);
    }
    assert(xor_bytes(a, b) =~= xor_bytes(b, a));
}

/// The triangle law of the XOR metric: every bit of the distance from `a`
/// to `c` is a bit of the distance from `a` to `b` or of that from `b` to
/// `c`, so the distance is no larger than their bitwise OR.
pub proof fn lemma_distance_triangle(a: Seq<u8>, b: Seq<u8>, c: Seq<u8>)
    requires
        a.len() == b.len(),
        b.len() == c.len(),
    ensures
        bits_within(xor_bytes(a, c), or_bytes(xor_bytes(a, b), xor_bytes(b, c))),
        big_endian(xor_bytes(a, c)) <= big_endian(or_bytes(xor_bytes(a, b), xor_bytes(b, c))),
{
    let d = xor_bytes(a, c);
    let e = or_bytes(xor_bytes(a, b), xor_bytes(b, c));
    assert forall|i: int| 0 <= i < d.len() implies #[trigger] d[i] & !e[i] == 0 && d[i]
        <= e[i] by {
        lemma_xor_facts(a[i], b[i], c[i]);
        lemma_within_le(d[i], e[i]);
    }
    lemma_big_endian_monotone(d, e);
}

/// Distances to one target tell identifiers apart: equal distances mean
/// equal identifiers.
pub proof fn lemma_distance_injective(a: Seq<u8>, b: Seq<u8>, target: Seq<u8>)
    requires
        a.len() == target.len(),
        b.len() == target.len(),
        xor_bytes(a, target) == xor_bytes(b, target),
    ensures
        a == b,
{
    assert forall|i: int| 0 <= i < a.len() implies a[i] == b[i] by {
        assert(xor_bytes(a, target)[i] == xor_bytes(b, target)[i]);
        assert(xor_bytes(a, target)[i] == a[i] ^ target[i]);
        assert(xor_bytes(b, target)[i] == b[i] ^ target[i]);
        lemma_xor_facts(a[i], target[i], a[i]);
        lemma_xor_facts(b[i], target[i], a[i]);
    }
    assert(a =~= b);
}

/// Whether two identifiers are the same.
pub fn same_id(a: &NodeId, b: &NodeId) -> (same: bool)
    ensures
        same == (a@ == b@),
{
    let mut i: usize = 0;
    while i < 32
        invariant
            i <= 32,
            forall|k: int| 0 <= k < i ==> a@[k] == b@[k],
        decreases 32 - i,
    {
        if a[i] != b[i] {
            return false;
        }
        i += 1;
    }
    assert(a@ =~= b@);
    true
}

/// Whether distance `x` is smaller than distance `y`, both read as
/// big-endian numbers.
pub fn distance_less(x: &[u8; 32], y: &[u8; 32]) -> (less: bool)
    ensures
        less == (big_endian(x@) < big_endian(y@)),
{
    let mut i: usize = 0;
    while i < 32
        invariant
            i <= 32,
            forall|k: int| 0 <= k < i ==> x@[k] == y@[k],
        decreases 32 - i,
    {
        if x[i] < y[i] {
            proof {
                lemma_big_endian_first_difference(x@, y@, i as int);
            }
            return true;
        }
        if x[i] > y[i] {
            proof {
                lemma_big_endian_first_difference(y@, x@, i as int);
            }
            return false;
        }
        i += 1;
    }
    assert(x@ =~= y@);
    false
}

/// The bucket that `remote` belongs to, seen from `local`.
pub open spec fn spec_bucket_index(local: Seq<u8>, remote: Seq<u8>) -> int {
    if local == remote {
        255
    } else {
        choose|p: int| is_leading_bit(xor_bytes(local, remote), p)
    }
}

/// A byte string has at most one leading bit.
pub proof fn lemma_leading_bit_unique(d: Seq<u8>, p: int, q: int)
    requires
        is_leading_bit(d, p),
        is_leading_bit(d, q),
    ensures
        p == q,
{
}

/// The k-bucket of `remote` as seen from `local`: the position of the
/// highest-order bit in which the two differ, 0 being the most significant
/// bit; 255 for `local` itself.
pub fn bucket_index(local: &NodeId, remote: &NodeId) -> (index: usize)
    ensures
        index < 256,
        index == spec_bucket_index(local@, remote@),
        local@ != remote@ ==> is_leading_bit(xor_bytes(local@, remote@), index as int),
        local@ == remote@ ==> index == 255,
{
    let distance = xor_distance(local, remote);
    let mut i: usize = 0;
    while i < 32
        invariant
            i <= 32,
            distance@ == xor_bytes(local@, remote@),
            forall|k: int| 0 <= k < i ==> distance@[k] == 0u8,
        decreases 32 - i,
    {
        let byte = distance[i];
        if byte != 0 {
            let zeros = byte.leading_zeros();
            proof {
                vstd::std_specs::bits::axiom_u8_leading_zeros(byte);
                let pos = i * 8 + zeros;
                let d = distance@;
                assert(pos / 8 == i && (7 - pos % 8) as u8 == (7 - zeros) as u8);
                lemma_nonzero_bit(byte, (7 - zeros) as u8);
                assert(wire_bit(d, pos as int));
                assert forall|j: int| 0 <= j < pos implies !wire_bit(d, j) by {
                    let p = (7 - j % 8) as u8;
                    if j / 8 < i {
                        lemma_bit_constants(p);
                    } else {
                        assert(8 - zeros <= p < 8);
                        assert((byte >> p) & 1u8 == 0u8);
                        lemma_nonzero_bit(byte, p);
                    }
                }
                if local@ == remote@ {
                    lemma_distance_identity(local@, remote@);
                    assert(d[i as int] == zero_bytes(32)[i as int]);
                } else {
                    let chosen = spec_bucket_index(local@, remote@);
                    assert(is_leading_bit(d, pos as int));
                    lemma_leading_bit_unique(d, pos as int, chosen);
                }
            }
            return i * 8 + zeros as usize;
        }
        i += 1;
    }
    proof {
        assert(distance@ =~= zero_bytes(32));
        lemma_distance_identity(local@, remote@);
    }
    255
}

} // verus!
