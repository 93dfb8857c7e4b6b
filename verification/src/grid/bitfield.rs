//! Presence map over piece indices.
//!
//! Bit `i` lives in byte `i / 8` at position `7 - i % 8`, so the most
//! significant bit of the first byte is piece 0. The bytes are the wire form.

use vstd::prelude::*;

verus! {

/// Number of bytes that hold `length` bits.
pub open spec fn bytes_needed(length: int) -> int {
    (length + 7) / 8
}

/// Whether bit `pos` of `byte` is one, counting from the least significant bit.
pub open spec fn bit_set(byte: u8, pos: u8) -> bool {
    (byte >> pos) & 1u8 == 1u8
}

/// Whether piece `i` is marked in the wire bytes (most significant bit first).
pub open spec fn wire_bit(bytes: Seq<u8>, i: int) -> bool {
    bit_set(bytes[i / 8], (7 - i % 8) as u8)
}

/// The first `length` presence bits that the wire bytes encode.
pub open spec fn wire_bits(bytes: Seq<u8>, length: nat) -> Seq<bool> {
    Seq::new(length, |i: int| wire_bit(bytes, i))
}

/// Number of `true` entries.
pub open spec fn count_set(s: Seq<bool>) -> nat
    decreases s.len(),
{
    if s.len() == 0 {
        0
    } else {
        count_set(s.drop_last()) + if s.last() { 1nat } else { 0nat }
    }
}

/// The indices that hold `true`, in increasing order.
pub open spec fn set_positions(s: Seq<bool>) -> Seq<int>
    decreases s.len(),
{
    if s.len() == 0 {
        Seq::empty()
    } else if s.last() {
        set_positions(s.drop_last()).push(s.len() - 1)
    } else {
        set_positions(s.drop_last())
    }
}

/// A list of machine indices read as mathematical integers.
pub open spec fn index_list(v: Seq<usize>) -> Seq<int> {
    Seq::new(v.len(), |k: int| v[k] as int)
}

/// Entry-wise negation.
pub open spec fn negated(s: Seq<bool>) -> Seq<bool> {
    Seq::new(s.len(), |i: int| !s[i])
}

/// Entry-wise `b && !a`: what `b` marks and `a` lacks.
pub open spec fn lacking(a: Seq<bool>, b: Seq<bool>) -> Seq<bool> {
    Seq::new(a.len(), |i: int| !a[i] && b[i])
}

/// Entry-wise conjunction.
pub open spec fn both(a: Seq<bool>, b: Seq<bool>) -> Seq<bool> {
    Seq::new(a.len(), |i: int| a[i] && b[i])
}

/// Entry-wise disjunction.
pub open spec fn either(a: Seq<bool>, b: Seq<bool>) -> Seq<bool> {
    Seq::new(a.len(), |i: int| a[i] || b[i])
}

/// The padding bits of the last byte, past `length`, are all zero and no
/// byte follows the last one that holds a piece.
pub open spec fn padding_clear(bytes: Seq<u8>, length: nat) -> bool {
    &&& bytes.len() == bytes_needed(length as int)
    &&& forall|i: int| length <= i < 8 * bytes.len() ==> !wire_bit(bytes, i)
}

pub proof fn lemma_count_set_bound(s: Seq<bool>)
    ensures
        count_set(s) <= s.len(),
    decreases s.len(),
{
    if s.len() > 0 {
        lemma_count_set_bound(s.drop_last());
    }
}

/// A sequence counts as many `true` entries as it is long exactly when every
/// entry is `true`, and none exactly when every entry is `false`.
pub proof fn lemma_count_set_extremes(s: Seq<bool>)
    ensures
        count_set(s) == s.len() <==> (forall|i: int| 0 <= i < s.len() ==> s[i]),
        count_set(s) == 0 <==> (forall|i: int| 0 <= i < s.len() ==> !s[i]),
    decreases s.len(),
{
    if s.len() > 0 {
        let t = s.drop_last();
        lemma_count_set_extremes(t);
        lemma_count_set_bound(t);
        assert(forall|i: int| 0 <= i < t.len() ==> t[i] == s[i]);
        if forall|i: int| 0 <= i < s.len() ==> s[i] {
            assert(s.last());
            assert(forall|i: int| 0 <= i < t.len() ==> t[i]);
        }
        if count_set(s) == s.len() {
            assert forall|i: int| 0 <= i < s.len() implies s[i] by {
                if i < t.len() {
                    assert(t[i]);
                }
            }
        }
        if forall|i: int| 0 <= i < s.len() ==> !s[i] {
            assert(!s.last());
            assert(forall|i: int| 0 <= i < t.len() ==> !t[i]);
        }
        if count_set(s) == 0 {
            assert forall|i: int| 0 <= i < s.len() implies !s[i] by {
                if i < t.len() {
                    assert(!t[i]);
                }
            }
        }
    }
}

/// `set_positions` lists exactly the indices that hold `true`, each once and
/// in increasing order, and as many of them as `count_set` counts.
pub proof fn lemma_set_positions(s: Seq<bool>)
    ensures
        set_positions(s).len() == count_set(s),
        forall|k: int|
            0 <= k < set_positions(s).len() ==> 0 <= #[trigger] set_positions(s)[k] < s.len()
                && s[set_positions(s)[k]],
        forall|j: int, k: int|
            0 <= j < k < set_positions(s).len() ==> set_positions(s)[j] < set_positions(s)[k],
        forall|i: int| 0 <= i < s.len() && s[i] ==> set_positions(s).contains(i),
    decreases s.len(),
{
    if s.len() > 0 {
        let t = s.drop_last();
        lemma_set_positions(t);
        let p = set_positions(s);
        let q = set_positions(t);
        assert forall|i: int| 0 <= i < s.len() && s[i] implies p.contains(i) by {
            if i < t.len() {
                assert(t[i]);
                let k = choose|k: int| 0 <= k < q.len() && q[k] == i;
                assert(p[k] == i);
            } else {
                assert(p[p.len() - 1] == i);
            }
        }
        assert forall|j: int, k: int| 0 <= j < k < p.len() implies p[j] < p[k] by {
            if k < q.len() {
                assert(q[j] < q[k]);
            } else {
                assert(p[j] == q[j]);
                assert(q[j] < t.len());
            }
        }
    }
}

proof fn lemma_bit_or(b: u8, k: u8, j: u8)
    by (bit_vector)
    requires
        k < 8,
        j < 8,
    ensures
        bit_set(b | (1u8 << k), j) == (j == k || bit_set(b, j)),
{
}

proof fn lemma_bit_clear(b: u8, k: u8, j: u8)
    by (bit_vector)
    requires
        k < 8,
        j < 8,
    ensures
        bit_set(b & !(1u8 << k), j) == (j != k && bit_set(b, j)),
{
}

pub proof fn lemma_bit_constants(j: u8)
    by (bit_vector)
    requires
        j < 8,
    ensures
        !bit_set(0u8, j),
        bit_set(0xFFu8, j),
{
}

proof fn lemma_bit_high_mask(r: u8, j: u8)
    by (bit_vector)
    requires
        0 < r < 8,
        j < 8,
    ensures
        bit_set(0xFFu8 << ((8 - r) as u8), j) == (j >= 8 - r),
{
}

proof fn lemma_bit_union(a: u8, b: u8, j: u8)
    by (bit_vector)
    requires
        j < 8,
    ensures
        bit_set(a | b, j) == (bit_set(a, j) || bit_set(b, j)),
{
}

proof fn lemma_byte_by_bits(a: u8, b: u8)
    by (bit_vector)
    requires
        bit_set(a, 0) == bit_set(b, 0),
        bit_set(a, 1) == bit_set(b, 1),
        bit_set(a, 2) == bit_set(b, 2),
        bit_set(a, 3) == bit_set(b, 3),
        bit_set(a, 4) == bit_set(b, 4),
        bit_set(a, 5) == bit_set(b, 5),
        bit_set(a, 6) == bit_set(b, 6),
        bit_set(a, 7) == bit_set(b, 7),
    ensures
        a == b,
{
}

proof fn lemma_same_bit(x: Seq<u8>, y: Seq<u8>, length: nat, k: int, j: u8)
    requires
        padding_clear(x, length),
        padding_clear(y, length),
        wire_bits(x, length) == wire_bits(y, length),
        0 <= k < x.len(),
        j < 8,
    ensures
        bit_set(x[k], j) == bit_set(y[k], j),
{
    let i = 8 * k + (7 - j);
    assert(i / 8 == k && (7 - i % 8) as u8 == j);
    if i < length {
        assert(wire_bits(x, length)[i] == wire_bit(x, i));
        assert(wire_bits(y, length)[i] == wire_bit(y, i));
    } else {
        assert(!wire_bit(x, i) && !wire_bit(y, i));
    }
}

/// Wire bytes whose padding is clear are determined by the presence bits
/// they encode: two such encodings of the same map are the same bytes.
pub proof fn lemma_canonical_wire(x: Seq<u8>, y: Seq<u8>, length: nat)
    requires
        padding_clear(x, length),
        padding_clear(y, length),
        wire_bits(x, length) == wire_bits(y, length),
    ensures
        x == y,
{
    assert forall|k: int| 0 <= k < x.len() implies x[k] == y[k] by {
        lemma_same_bit(x, y, length, k, 0);
        lemma_same_bit(x, y, length, k, 1);
        lemma_same_bit(x, y, length, k, 2);
        lemma_same_bit(x, y, length, k, 3);
        lemma_same_bit(x, y, length, k, 4);
        lemma_same_bit(x, y, length, k, 5);
        lemma_same_bit(x, y, length, k, 6);
        lemma_same_bit(x, y, length, k, 7);
        lemma_byte_by_bits(x[k], y[k]);
    }
    assert(x =~= y);
}

/// Presence map over the pieces of one file.
#[derive(Debug, PartialEq, Eq)]
pub struct Bitfield {
    bytes: Vec<u8>,
    length: usize,
}

impl View for Bitfield {
    type V = Seq<bool>;

    /// Entry `i` says whether piece `i` is held.
    closed spec fn view(&self) -> Seq<bool> {
        wire_bits(self.bytes@, self.length as nat)
    }
}

impl Clone for Bitfield {
    fn clone(&self) -> (res: Self)
        ensures
            res@ == self@,
            res.wire() == self.wire(),
            res.spec_len() == self.spec_len(),
            res.wf() == self.wf(),
    {
        Bitfield { bytes: self.bytes.clone(), length: self.length }
    }
}

impl Bitfield {
    /// Enough bytes are held for every piece. Every constructor establishes
    /// this and every method keeps it.
    pub closed spec fn wf(&self) -> bool {
        self.bytes@.len() >= bytes_needed(self.length as int)
    }

    /// The wire form: the bytes as they are sent.
    pub closed spec fn wire(&self) -> Seq<u8> {
        self.bytes@
    }

    /// The number of pieces.
    pub closed spec fn spec_len(&self) -> nat {
        self.length as nat
    }

    /// The view is what the wire bytes encode for the first `len` pieces.
    pub proof fn lemma_view(&self)
        ensures
            self@ == wire_bits(self.wire(), self.spec_len()),
            self@.len() == self.spec_len(),
            self.wf() <==> self.wire().len() >= bytes_needed(self.spec_len() as int),
    {
    }

    /// Reading a map back from its own wire form and length gives the same
    /// map: the same pieces, the same bytes. `restored` stands for any map
    /// with the wire bytes and length of `self`, which is what `from_bytes`
    /// returns on `as_bytes` and `len`.
    pub proof fn lemma_wire_round_trip(&self, restored: &Bitfield)
        requires
            self.wf(),
            restored.wire() == self.wire(),
            restored.spec_len() == self.spec_len(),
        ensures
            restored.wf(),
            restored@ == self@,
            wire_bits(self.wire(), self.spec_len()) == self@,
            padding_clear(self.wire(), self.spec_len()) ==> padding_clear(
                restored.wire(),
                restored.spec_len(),
            ),
    {
    }

    /// Among maps whose padding is clear, the pieces held decide the wire
    /// form: equal views have equal bytes.
    pub proof fn lemma_view_decides_wire(&self, other: &Bitfield)
        requires
            padding_clear(self.wire(), self.spec_len()),
            padding_clear(other.wire(), other.spec_len()),
            self@ == other@,
        ensures
            self.wire() == other.wire(),
            self.spec_len() == other.spec_len(),
    {
        assert(self@.len() == self.length);
        assert(other@.len() == other.length);
        lemma_canonical_wire(self.bytes@, other.bytes@, self.length as nat);
    }

    /// A map of `length` pieces, none of them held.
    pub fn new(length: usize) -> (bf: Self)
        requires
            length <= usize::MAX - 7,
        ensures
            bf.wf(),
            bf@ == Seq::new(length as nat, |i: int| false),
            bf.spec_len() == length,
            padding_clear(bf.wire(), length as nat),
    {
        let byte_len = (length + 7) / 8;
        let mut bytes: Vec<u8> = Vec::new();
        while bytes.len() < byte_len
            invariant
                bytes.len() <= byte_len,
                forall|k: int| 0 <= k < bytes.len() ==> bytes[k] == 0u8,
            decreases byte_len - bytes.len(),
        {
            bytes.push(0u8);
        }
        let bf = Bitfield { bytes, length };
        proof {
            assert forall|i: int| 0 <= i < 8 * bf.bytes@.len() implies !wire_bit(bf.bytes@, i) by {
                lemma_bit_constants((7 - i % 8) as u8);
            }
            assert(bf@ =~= Seq::new(length as nat, |i: int| false));
        }
        bf
    }

    /// A map of `length` pieces, all of them held, with the padding bits of
    /// the last byte left at zero.
    pub fn full(length: usize) -> (bf: Self)
        requires
            length <= usize::MAX - 7,
        ensures
            bf.wf(),
            bf@ == Seq::new(length as nat, |i: int| true),
            bf.spec_len() == length,
            padding_clear(bf.wire(), length as nat),
    {
        let byte_len = (length + 7) / 8;
        let mut bytes: Vec<u8> = Vec::new();
        while bytes.len() < byte_len
            invariant
                bytes.len() <= byte_len,
                forall|k: int| 0 <= k < bytes.len() ==> bytes[k] == 0xFFu8,
            decreases byte_len - bytes.len(),
        {
            bytes.push(0xFFu8);
        }
        let remainder: u8 = (length % 8) as u8;
        if remainder > 0 && bytes.len() > 0 {
            let last_idx = bytes.len() - 1;
            bytes.set(last_idx, 0xFFu8 << (8 - remainder));
        }
        let bf = Bitfield { bytes, length };
        proof {
            assert forall|i: int| 0 <= i < 8 * bf.bytes@.len() implies wire_bit(bf.bytes@, i) == (i
                < length) by {
                let pos = (7 - i % 8) as u8;
                if remainder > 0 && i / 8 == byte_len - 1 {
                    lemma_bit_high_mask(remainder, pos);
                } else {
                    lemma_bit_constants(pos);
                }
            }
            assert(bf@ =~= Seq::new(length as nat, |i: int| true));
        }
        bf
    }

    /// Whether piece `index` is held; an index past the end is not.
    pub fn has(&self, index: usize) -> (held: bool)
        requires
            self.wf(),
        ensures
            held == (index < self@.len() && self@[index as int]),
    {
        if index >= self.length {
            return false;
        }
        let byte_index = index / 8;
        let bit_index: u8 = 7 - (index % 8) as u8;
        (self.bytes[byte_index] >> bit_index) & 1 == 1
    }

    /// Marks or unmarks piece `index`; an index past the end changes nothing.
    pub fn set(&mut self, index: usize, value: bool)
        requires
            old(self).wf(),
        ensures
            final(self).wf(),
            final(self).spec_len() == old(self).spec_len(),
            index < old(self)@.len() ==> final(self)@ == old(self)@.update(index as int, value),
            index >= old(self)@.len() ==> final(self)@ == old(self)@ && final(self).wire() == old(
                self,
            ).wire(),
            final(self).wire().len() == old(self).wire().len(),
            padding_clear(old(self).wire(), old(self).spec_len()) ==> padding_clear(
                final(self).wire(),
                final(self).spec_len(),
            ),
    {
        if index >= self.length {
            return ;
        }
        let byte_index = index / 8;
        let bit_index: u8 = 7 - (index % 8) as u8;
        let before = self.bytes[byte_index];
        let after = if value {
            before | (1u8 << bit_index)
        } else {
            before & !(1u8 << bit_index)
        };
        self.bytes.set(byte_index, after);
        proof {
            assert forall|i: int| 0 <= i < 8 * self.bytes@.len() implies wire_bit(self.bytes@, i)
                == (if i == index { value } else { wire_bit(old(self).bytes@, i) }) by {
                let pos = (7 - i % 8) as u8;
                if i / 8 == byte_index {
                    if value {
                        lemma_bit_or(before, bit_index, pos);
                    } else {
                        lemma_bit_clear(before, bit_index, pos);
                    }
                }
            }
            assert(self@ =~= old(self)@.update(index as int, value));
        }
    }

    /// Marks piece `index` as held.
    pub fn mark(&mut self, index: usize)
        requires
            old(self).wf(),
        ensures
            final(self).wf(),
            final(self).spec_len() == old(self).spec_len(),
            index < old(self)@.len() ==> final(self)@ == old(self)@.update(index as int, true),
            index >= old(self)@.len() ==> final(self)@ == old(self)@,
            final(self).wire().len() == old(self).wire().len(),
            padding_clear(old(self).wire(), old(self).spec_len()) ==> padding_clear(
                final(self).wire(),
                final(self).spec_len(),
            ),
    {
        self.set(index, true);
    }

    /// Marks piece `index` as not held.
    pub fn unmark(&mut self, index: usize)
        requires
            old(self).wf(),
        ensures
            final(self).wf(),
            final(self).spec_len() == old(self).spec_len(),
            index < old(self)@.len() ==> final(self)@ == old(self)@.update(index as int, false),
            index >= old(self)@.len() ==> final(self)@ == old(self)@,
            final(self).wire().len() == old(self).wire().len(),
            padding_clear(old(self).wire(), old(self).spec_len()) ==> padding_clear(
                final(self).wire(),
                final(self).spec_len(),
            ),
    {
        self.set(index, false);
    }

    /// The wire form, byte for byte.
    pub fn as_bytes(&self) -> (bytes: &[u8])
        requires
            self.wf(),
        ensures
            bytes@ == self.wire(),
    {
        self.bytes.as_slice()
    }

    /// Reads a map of `length` pieces from its wire form, kept verbatim.
    pub fn from_bytes(bytes: Vec<u8>, length: usize) -> (bf: Self)
        requires
            bytes@.len() >= bytes_needed(length as int),
        ensures
            bf.wf(),
            bf.wire() == bytes@,
            bf.spec_len() == length,
            bf@ == wire_bits(bytes@, length as nat),
    {
        Bitfield { bytes, length }
    }

    /// Reads a map of `length` pieces from its wire form, or nothing where
    /// the bytes are too few to hold that many pieces.
    pub fn try_from_bytes(bytes: Vec<u8>, length: usize) -> (res: Option<Self>)
        ensures
            res.is_some() <==> bytes@.len() >= bytes_needed(length as int),
            res.is_some() ==> res.unwrap().wf() && res.unwrap().wire() == bytes@ && res.unwrap().spec_len() == length
                && res.unwrap()@ == wire_bits(bytes@, length as nat),
    {
        if bytes.len() < length / 8 + (if length % 8 == 0 { 0usize } else { 1usize }) {
            None
        } else {
            Some(Bitfield { bytes, length })
        }
    }

    /// The number of pieces.
    pub fn len(&self) -> (n: usize)
        requires
            self.wf(),
        ensures
            n == self@.len(),
            n == self.spec_len(),
    {
        self.length
    }

    /// Whether the map covers no piece at all.
    pub fn is_empty(&self) -> (empty: bool)
        requires
            self.wf(),
        ensures
            empty == (self@.len() == 0),
    {
        self.length == 0
    }

    /// The number of pieces held.
    pub fn count_ones(&self) -> (count: usize)
        requires
            self.wf(),
        ensures
            count == count_set(self@),
    {
        let mut count: usize = 0;
        let mut i: usize = 0;
        while i < self.length
            invariant
                i <= self.length,
                self.wf(),
                self@.len() == self.length,
                count == count_set(self@.take(i as int)),
                count <= i,
            decreases self.length - i,
        {
            proof {
                assert(self@.take(i + 1).drop_last() =~= self@.take(i as int));
            }
            if self.has(i) {
                count += 1;
            }
            i += 1;
        }
        proof {
            assert(self@.take(i as int) =~= self@);
        }
        count
    }

    /// The number of pieces not held.
    pub fn count_zeros(&self) -> (count: usize)
        requires
            self.wf(),
        ensures
            count == self@.len() - count_set(self@),
    {
        proof {
            lemma_count_set_bound(self@);
        }
        self.length - self.count_ones()
    }

    /// Whether every piece is held.
    pub fn is_complete(&self) -> (complete: bool)
        requires
            self.wf(),
        ensures
            complete == (forall|i: int| 0 <= i < self@.len() ==> self@[i]),
            complete == (count_set(self@) == self@.len()),
    {
        proof {
            lemma_count_set_extremes(self@);
        }
        self.count_ones() == self.length
    }

    /// The pieces not held, in increasing order.
    pub fn missing_pieces(&self) -> (missing: Vec<usize>)
        requires
            self.wf(),
        ensures
            index_list(missing@) == set_positions(negated(self@)),
    {
        let mut missing: Vec<usize> = Vec::new();
        let mut i: usize = 0;
        while i < self.length
            invariant
                i <= self.length,
                self.wf(),
                self@.len() == self.length,
                index_list(missing@) == set_positions(negated(self@).take(i as int)),
            decreases self.length - i,
        {
            proof {
                assert(negated(self@).take(i + 1).drop_last() =~= negated(self@).take(i as int));
            }
            if !self.has(i) {
                missing.push(i);
            }
            i += 1;
        }
        proof {
            assert(negated(self@).take(i as int) =~= negated(self@));
        }
        missing
    }

    /// The pieces held, in increasing order.
    pub fn available_pieces(&self) -> (available: Vec<usize>)
        requires
            self.wf(),
        ensures
            index_list(available@) == set_positions(self@),
    {
        let mut available: Vec<usize> = Vec::new();
        let mut i: usize = 0;
        while i < self.length
            invariant
                i <= self.length,
                self.wf(),
                self@.len() == self.length,
                index_list(available@) == set_positions(self@.take(i as int)),
            decreases self.length - i,
        {
            proof {
                assert(self@.take(i + 1).drop_last() =~= self@.take(i as int));
            }
            if self.has(i) {
                available.push(i);
            }
            i += 1;
        }
        proof {
            assert(self@.take(i as int) =~= self@);
        }
        available
    }

    /// The pieces that `other` holds and this map lacks, in increasing order.
    pub fn difference(&self, other: &Bitfield) -> (wanted: Vec<usize>)
        requires
            self.wf(),
            other.wf(),
            self@.len() == other@.len(),
        ensures
            index_list(wanted@) == set_positions(lacking(self@, other@)),
    {
        let mut wanted: Vec<usize> = Vec::new();
        let mut i: usize = 0;
        let ghost target = lacking(self@, other@);
        while i < self.length
            invariant
                i <= self.length,
                self.wf(),
                other.wf(),
                self@.len() == self.length,
                self@.len() == other@.len(),
                target == lacking(self@, other@),
                index_list(wanted@) == set_positions(target.take(i as int)),
            decreases self.length - i,
        {
            proof {
                assert(target.take(i + 1).drop_last() =~= target.take(i as int));
            }
            if !self.has(i) && other.has(i) {
                wanted.push(i);
            }
            i += 1;
        }
        proof {
            assert(target.take(i as int) =~= target);
        }
        wanted
    }

    /// The pieces that both maps hold, in increasing order.
    pub fn intersection(&self, other: &Bitfield) -> (shared: Vec<usize>)
        requires
            self.wf(),
            other.wf(),
            self@.len() == other@.len(),
        ensures
            index_list(shared@) == set_positions(both(self@, other@)),
    {
        let mut shared: Vec<usize> = Vec::new();
        let mut i: usize = 0;
        let ghost target = both(self@, other@);
        while i < self.length
            invariant
                i <= self.length,
                self.wf(),
                other.wf(),
                self@.len() == self.length,
                self@.len() == other@.len(),
                target == both(self@, other@),
                index_list(shared@) == set_positions(target.take(i as int)),
            decreases self.length - i,
        {
            proof {
                assert(target.take(i + 1).drop_last() =~= target.take(i as int));
            }
            if self.has(i) && other.has(i) {
                shared.push(i);
            }
            i += 1;
        }
        proof {
            assert(target.take(i as int) =~= target);
        }
        shared
    }

    /// Adds every piece that `other` holds.
    pub fn merge(&mut self, other: &Bitfield)
        requires
            old(self).wf(),
            other.wf(),
            old(self)@.len() == other@.len(),
        ensures
            final(self).wf(),
            final(self)@ == either(old(self)@, other@),
            final(self).spec_len() == old(self).spec_len(),
    {
        let n = if self.bytes.len() < other.bytes.len() {
            self.bytes.len()
        } else {
            other.bytes.len()
        };
        let mut k: usize = 0;
        while k < n
            invariant
                k <= n,
                n <= self.bytes@.len(),
                n <= other.bytes@.len(),
                n >= bytes_needed(self.length as int),
                self.length == old(self).length,
                self.bytes@.len() == old(self).bytes@.len(),
                forall|j: int| 0 <= j < k ==> self.bytes@[j] == old(self).bytes@[j] | other.bytes@[j],
                forall|j: int| k <= j < self.bytes@.len() ==> self.bytes@[j] == old(self).bytes@[j],
            decreases n - k,
        {
            let merged = self.bytes[k] | other.bytes[k];
            self.bytes.set(k, merged);
            k += 1;
        }
        proof {
            assert forall|i: int| 0 <= i < self.length implies wire_bit(self.bytes@, i) == (
            wire_bit(old(self).bytes@, i) || wire_bit(other.bytes@, i)) by {
                lemma_bit_union(old(self).bytes@[i / 8], other.bytes@[i / 8], (7 - i % 8) as u8);
            }
            assert(self@.len() == either(old(self)@, other@).len());
            assert forall|i: int| 0 <= i < self@.len() implies self@[i] == either(
                old(self)@,
                other@,
            )[i] by {
                assert(self@[i] == wire_bit(self.bytes@, i));
                assert(old(self)@[i] == wire_bit(old(self).bytes@, i));
                assert(other@[i] == wire_bit(other.bytes@, i));
            }
            assert(self@ =~= either(old(self)@, other@));
        }
    }
}

} // verus!
