//! Piece geometry, piece hashes and their verification, and the
//! bookkeeping of requests under way.

use vstd::prelude::*;
use crate::bootstrap::stats::{elapsed_ms, elapsed_since};
use crate::digest::{hex_encode, hex_string, sha256, sha256_digest};
use crate::grid::bitfield::{count_set, Bitfield};
use crate::grid::dht::same_id;
use crate::seq_util::{lemma_filter_ends, lemma_filter_members, lemma_filter_step};

verus! {

/// A request that has been under way for longer than this (30 seconds)
/// is given up.
pub const REQUEST_TIMEOUT_MS: u64 = 30_000;

/// One piece of a file: where it lies and what it hashes to.
#[derive(Clone, Copy, Debug)]
pub struct PieceInfo {
    pub index: usize,
    pub offset: u64,
    pub length: u32,
    pub hash: [u8; 32],
}

/// What identifies a file in the swarm and lets its pieces be checked.
#[derive(Debug)]
pub struct FileMetadata {
    pub info_hash: [u8; 32],
    pub file_name: String,
    pub file_size: u64,
    pub piece_size: u32,
    pub total_pieces: usize,
    pub piece_hashes: Vec<[u8; 32]>,
    pub merkle_root: Option<[u8; 32]>,
}

/// The number of pieces of `piece_size` bytes that a file of `file_size`
/// bytes has: the last piece may be shorter.
pub open spec fn piece_count(file_size: int, piece_size: int) -> int {
    (file_size + piece_size - 1) / piece_size
}

/// Where piece `index` starts.
pub open spec fn piece_offset(index: int, piece_size: int) -> int {
    index * piece_size
}

/// How long piece `index` is: the piece size, but for the last piece,
/// which takes what is left.
pub open spec fn piece_length(index: int, file_size: int, piece_size: int) -> int {
    if index == piece_count(file_size, piece_size) - 1 {
        file_size - piece_offset(index, piece_size)
    } else {
        piece_size
    }
}

/// The lengths of the first `count` pieces together.
pub open spec fn lengths_sum(count: int, file_size: int, piece_size: int) -> int
    decreases count,
{
    if count <= 0 {
        0
    } else {
        lengths_sum(count - 1, file_size, piece_size) + piece_length(
            count - 1,
            file_size,
            piece_size,
        )
    }
}

/// The bytes of piece `index` of a file.
pub open spec fn piece_bytes(data: Seq<u8>, piece_size: int, index: int) -> Seq<u8> {
    data.subrange(
        piece_offset(index, piece_size),
        piece_offset(index, piece_size) + piece_length(index, data.len() as int, piece_size),
    )
}

/// The hashes one after the other as one byte string.
pub open spec fn joined(hashes: Seq<[u8; 32]>) -> Seq<u8>
    decreases hashes.len(),
{
    if hashes.len() == 0 {
        Seq::empty()
    } else {
        joined(hashes.drop_last()) + hashes.last()@
    }
}

/// The level above `level` in the Merkle tree: each pair of neighbours
/// hashed together, a last node without neighbour hashed with itself.
pub open spec fn merkle_parent_level(level: Seq<Seq<u8>>) -> Seq<Seq<u8>> {
    Seq::new(
        ((level.len() + 1) / 2) as nat,
        |k: int|
            if 2 * k + 1 < level.len() {
                sha256(level[2 * k] + level[2 * k + 1])
            } else {
                sha256(level[2 * k] + level[2 * k])
            },
    )
}

/// The root of the Merkle tree over `level`: 32 zero bytes for no leaf
/// at all, the leaf itself where it is the only one.
pub open spec fn merkle_root_of(level: Seq<Seq<u8>>) -> Seq<u8>
    decreases level.len(),
{
    if level.len() == 0 {
        Seq::new(32, |i: int| 0u8)
    } else if level.len() == 1 {
        level[0]
    } else {
        merkle_root_of(merkle_parent_level(level))
    }
}

/// The hashes as byte strings.
pub open spec fn hash_views(hashes: Seq<[u8; 32]>) -> Seq<Seq<u8>> {
    Seq::new(hashes.len(), |k: int| hashes[k]@)
}

/// The hash of each piece of a file, in order.
pub open spec fn piece_hashes_of(data: Seq<u8>, piece_size: int) -> Seq<Seq<u8>> {
    Seq::new(
        piece_count(data.len() as int, piece_size) as nat,
        |k: int| sha256(piece_bytes(data, piece_size, k)),
    )
}

/// The pieces of a file lie one behind the other, none is longer than the
/// piece size, none but the last is shorter, and together they are the file.
pub proof fn lemma_piece_geometry(file_size: int, piece_size: int)
    requires
        0 <= file_size,
        0 < piece_size,
    ensures
        0 <= piece_count(file_size, piece_size),
        (piece_count(file_size, piece_size) == 0) <==> file_size == 0,
        forall|i: int|
            0 <= i < piece_count(file_size, piece_size) ==> 0 < #[trigger] piece_length(
                i,
                file_size,
                piece_size,
            ) <= piece_size && piece_offset(i, piece_size) + piece_length(i, file_size, piece_size)
                <= file_size,
        forall|i: int|
            0 <= i < piece_count(file_size, piece_size) - 1 ==> #[trigger] piece_length(
                i,
                file_size,
                piece_size,
            ) == piece_size,
        lengths_sum(piece_count(file_size, piece_size), file_size, piece_size) == file_size,
{
    let n = piece_count(file_size, piece_size);
    assert(0 <= n && n * piece_size >= file_size && (n - 1) * piece_size < file_size && ((n == 0)
        <==> file_size == 0)) by (nonlinear_arith)
        requires
            0 <= file_size,
            0 < piece_size,
            n == (file_size + piece_size - 1) / piece_size,
    ;
    assert forall|i: int| 0 <= i < n implies 0 < #[trigger] piece_length(i, file_size, piece_size)
        <= piece_size && piece_offset(i, piece_size) + piece_length(i, file_size, piece_size)
        <= file_size by {
        assert(i * piece_size + piece_size <= (n - 1) * piece_size + piece_size
            && (n - 1) * piece_size + piece_size == n * piece_size) by (nonlinear_arith)
            requires
                0 <= i < n,
                0 < piece_size,
        ;
        if i < n - 1 {
            assert(i * piece_size + piece_size <= (n - 1) * piece_size) by (nonlinear_arith)
                requires
                    0 <= i < n - 1,
                    0 < piece_size,
            ;
        }
    }
    lemma_lengths_prefix(n - 1, file_size, piece_size);
    if n > 0 {
        assert(lengths_sum(n, file_size, piece_size) == lengths_sum(n - 1, file_size, piece_size)
            + piece_length(n - 1, file_size, piece_size));
    }
}

/// The pieces before the last are all of the piece size.
pub proof fn lemma_lengths_prefix(count: int, file_size: int, piece_size: int)
    requires
        count <= piece_count(file_size, piece_size) - 1,
    ensures
        count >= 0 ==> lengths_sum(count, file_size, piece_size) == count * piece_size,
        count < 0 ==> lengths_sum(count, file_size, piece_size) == 0,
    decreases count,
{
    if count > 0 {
        lemma_lengths_prefix(count - 1, file_size, piece_size);
        assert(piece_length(count - 1, file_size, piece_size) == piece_size);
        assert((count - 1) * piece_size + piece_size == count * piece_size) by (nonlinear_arith);
    } else if count == 0 {
        assert(count * piece_size == 0) by (nonlinear_arith)
            requires
                count == 0,
        ;
    }
}

impl FileMetadata {
    /// The numbers fit together: the piece size is not zero, there are as
    /// many pieces as the sizes demand, and one hash for each piece.
    pub open spec fn geometry_ok(&self) -> bool {
        &&& self.piece_size > 0
        &&& self.total_pieces == piece_count(self.file_size as int, self.piece_size as int)
        &&& self.piece_hashes@.len() == self.total_pieces
    }

    /// The identifiers are those of the piece hashes: the info-hash is the
    /// hash of all piece hashes joined, the Merkle root, where there is
    /// one, that of the tree over them.
    pub open spec fn identifiers_ok(&self) -> bool {
        &&& self.info_hash@ == sha256(joined(self.piece_hashes@))
        &&& match self.merkle_root {
            Some(root) => root@ == merkle_root_of(hash_views(self.piece_hashes@)),
            None => true,
        }
    }

    /// Whether the numbers fit together, as [`FileMetadata::geometry_ok`] says.
    pub fn has_valid_geometry(&self) -> (ok: bool)
        ensures
            ok == self.geometry_ok(),
    {
        if self.piece_size == 0 {
            return false;
        }
        let size = self.piece_size as u64;
        let full = (self.file_size / size) as u128;
        let count: u128 = if self.file_size % size == 0 { full } else { full + 1 };
        proof {
            let f = self.file_size as int;
            let p = size as int;
            assert(piece_count(f, p) == if f % p == 0 { f / p } else { f / p + 1 })
                by (nonlinear_arith)
                requires
                    0 <= f,
                    0 < p,
                    piece_count(f, p) == (f + p - 1) / p,
            ;
        }
        self.total_pieces as u128 == count && self.piece_hashes.len() == self.total_pieces
    }

    /// The info-hash as lower-case hex text.
    pub fn info_hash_hex(&self) -> (text: String)
        ensures
            text@ == hex_string(self.info_hash@),
    {
        hex_encode(self.info_hash.as_slice())
    }
}

/// The hashes joined into one byte string.
#[verifier::loop_isolation(false)]
pub fn join_hashes(hashes: &Vec<[u8; 32]>) -> (bytes: Vec<u8>)
    ensures
        bytes@ == joined(hashes@),
{
    let mut bytes: Vec<u8> = Vec::new();
    let mut k: usize = 0;
    while k < hashes.len()
        invariant
            k <= hashes@.len(),
            bytes@ == joined(hashes@.take(k as int)),
        decreases hashes@.len() - k,
    {
        proof {
            assert(hashes@.take(k + 1).drop_last() =~= hashes@.take(k as int));
        }
        let hash = hashes[k];
        let ghost before = bytes@;
        let mut i: usize = 0;
        while i < 32
            invariant
                i <= 32,
                bytes@ == before + hash@.take(i as int),
            decreases 32 - i,
        {
            bytes.push(hash[i]);
            proof {
                assert(bytes@ =~= before + hash@.take(i + 1));
            }
            i += 1;
        }
        proof {
            assert(hash@.take(32) =~= hash@);
        }
        k += 1;
    }
    proof {
        assert(hashes@.take(k as int) =~= hashes@);
    }
    bytes
}

/// The info-hash of a file with these piece hashes: the hash of the
/// hashes joined.
pub fn compute_info_hash(hashes: &Vec<[u8; 32]>) -> (info_hash: [u8; 32])
    ensures
        info_hash@ == sha256(joined(hashes@)),
{
    let bytes = join_hashes(hashes);
    sha256_digest(bytes.as_slice())
}

/// Two hashes joined and hashed.
fn hash_pair(left: &[u8; 32], right: &[u8; 32]) -> (parent: [u8; 32])
    ensures
        parent@ == sha256(left@ + right@),
{
    let mut bytes: Vec<u8> = Vec::new();
    let mut i: usize = 0;
    while i < 32
        invariant
            i <= 32,
            bytes@ == left@.take(i as int),
        decreases 32 - i,
    {
        bytes.push(left[i]);
        proof {
            assert(bytes@ =~= left@.take(i + 1));
        }
        i += 1;
    }
    let mut j: usize = 0;
    while j < 32
        invariant
            j <= 32,
            i == 32,
            bytes@ == left@.take(32) + right@.take(j as int),
        decreases 32 - j,
    {
        bytes.push(right[j]);
        proof {
            assert(bytes@ =~= left@.take(32) + right@.take(j + 1));
        }
        j += 1;
    }
    proof {
        assert(left@.take(32) =~= left@);
        assert(right@.take(32) =~= right@);
    }
    sha256_digest(bytes.as_slice())
}

/// The root of the Merkle tree over the piece hashes.
#[verifier::loop_isolation(false)]
pub fn compute_merkle_root(hashes: &Vec<[u8; 32]>) -> (root: [u8; 32])
    ensures
        root@ == merkle_root_of(hash_views(hashes@)),
{
    if hashes.len() == 0 {
        let zero = [0u8; 32];
        assert(zero@ =~= Seq::new(32, |i: int| 0u8));
        return zero;
    }
    let mut level: Vec<[u8; 32]> = Vec::new();
    let mut c: usize = 0;
    while c < hashes.len()
        invariant
            c <= hashes@.len(),
            level@ == hashes@.take(c as int),
        decreases hashes@.len() - c,
    {
        level.push(hashes[c]);
        proof {
            assert(level@ =~= hashes@.take(c + 1));
        }
        c += 1;
    }
    proof {
        assert(hashes@.take(c as int) =~= hashes@);
    }
    while level.len() > 1
        invariant
            level@.len() >= 1,
            merkle_root_of(hash_views(level@)) == merkle_root_of(hash_views(hashes@)),
        decreases level@.len(),
    {
        let ghost below = hash_views(level@);
        let mut next: Vec<[u8; 32]> = Vec::new();
        let n = level.len();
        let mut i: usize = 0;
        while i < n
            invariant
                n == level@.len(),
                i <= n,
                i % 2 == 0 || i == n,
                next@.len() == (i + 1) / 2,
                forall|m: int|
                    0 <= m < next@.len() ==> (#[trigger] next@[m])@ == merkle_parent_level(below)[m],
            decreases n - i,
        {
            let left = level[i];
            let paired = n - i >= 2;
            let parent = if paired {
                let right = level[i + 1];
                hash_pair(&left, &right)
            } else {
                hash_pair(&left, &left)
            };
            proof {
                let k = next@.len() as int;
                assert(2 * k == i);
                assert(below[2 * k] == left@);
            }
            next.push(parent);
            i = if paired { i + 2 } else { n };
        }
        proof {
            assert(hash_views(next@) =~= merkle_parent_level(below));
        }
        level = next;
    }
    level[0]
}

/// The metadata of the file `data` cut into pieces of `piece_size` bytes:
/// what [`FileMetadata::from_bytes`] returns, as a relation.
pub open spec fn describes(meta: FileMetadata, name: Seq<char>, data: Seq<u8>, piece_size: u32) -> bool {
    &&& meta.file_name@ == name
    &&& meta.file_size == data.len()
    &&& meta.piece_size == piece_size
    &&& meta.geometry_ok()
    &&& hash_views(meta.piece_hashes@) == piece_hashes_of(data, piece_size as int)
    &&& meta.info_hash@ == sha256(joined(meta.piece_hashes@))
    &&& meta.merkle_root.is_some()
    &&& meta.merkle_root.unwrap()@ == merkle_root_of(hash_views(meta.piece_hashes@))
}

/// Whether `data` is piece `index` of the file that `meta` describes: it
/// has the length of that piece and hashes to its hash.
pub open spec fn piece_verifies(meta: FileMetadata, index: int, data: Seq<u8>) -> bool {
    &&& 0 <= index < meta.total_pieces
    &&& data.len() == piece_length(index, meta.file_size as int, meta.piece_size as int)
    &&& sha256(data) == meta.piece_hashes@[index]@
}

/// Every piece of a file verifies against the metadata computed from the
/// file, and the identifiers of that metadata are decided by the file's
/// bytes, the piece size and nothing else.
pub proof fn lemma_hash_verify_round_trip(
    meta: FileMetadata,
    other: FileMetadata,
    name: Seq<char>,
    data: Seq<u8>,
    piece_size: u32,
)
    requires
        describes(meta, name, data, piece_size),
        describes(other, name, data, piece_size),
    ensures
        forall|i: int|
            0 <= i < meta.total_pieces ==> piece_verifies(
                meta,
                i,
                #[trigger] piece_bytes(data, piece_size as int, i),
            ),
        other.info_hash@ == meta.info_hash@,
        other.merkle_root.unwrap()@ == meta.merkle_root.unwrap()@,
        hash_views(other.piece_hashes@) == hash_views(meta.piece_hashes@),
{
    lemma_piece_geometry(data.len() as int, piece_size as int);
    assert forall|i: int| 0 <= i < meta.total_pieces implies piece_verifies(
        meta,
        i,
        #[trigger] piece_bytes(data, piece_size as int, i),
    ) by {
        assert(hash_views(meta.piece_hashes@)[i] == piece_hashes_of(data, piece_size as int)[i]);
        assert(0 < piece_length(i, data.len() as int, piece_size as int));
    }
    lemma_joined_by_views(meta.piece_hashes@, other.piece_hashes@);
}

/// Lists of hashes with the same byte strings join to the same bytes.
pub proof fn lemma_joined_by_views(a: Seq<[u8; 32]>, b: Seq<[u8; 32]>)
    requires
        hash_views(a) == hash_views(b),
    ensures
        joined(a) == joined(b),
    decreases a.len(),
{
    assert(a.len() == hash_views(a).len());
    assert(b.len() == hash_views(b).len());
    if a.len() > 0 {
        assert(hash_views(a.drop_last()) =~= hash_views(a).drop_last());
        assert(hash_views(b.drop_last()) =~= hash_views(b).drop_last());
        lemma_joined_by_views(a.drop_last(), b.drop_last());
        assert(hash_views(a)[a.len() - 1] == hash_views(b)[b.len() - 1]);
    }
}

impl FileMetadata {
    /// The metadata of a file given as its bytes: one SHA-256 hash per
    /// piece of `piece_size` bytes, the info-hash over the piece hashes,
    /// and the Merkle root over them.
    #[verifier::loop_isolation(false)]
    pub fn from_bytes(file_name: String, data: &[u8], piece_size: u32) -> (meta: Self)
        requires
            piece_size > 0,
            data@.len() <= u64::MAX,
        ensures
            describes(meta, file_name@, data@, piece_size),
    {
        let size = piece_size as usize;
        let len = data.len();
        proof {
            lemma_piece_geometry(len as int, size as int);
        }
        let mut piece_hashes: Vec<[u8; 32]> = Vec::new();
        let mut offset: usize = 0;
        let ghost total = piece_count(len as int, size as int);
        while offset < len
            invariant
                offset <= len,
                piece_hashes@.len() <= total,
                offset == piece_offset(piece_hashes@.len() as int, size as int) || (offset == len
                    && piece_hashes@.len() == total),
                offset == len ==> piece_hashes@.len() == total,
                forall|k: int|
                    0 <= k < piece_hashes@.len() ==> (#[trigger] piece_hashes@[k])@ == sha256(
                        piece_bytes(data@, size as int, k),
                    ),
            decreases len - offset,
        {
            let ghost k = piece_hashes@.len() as int;
            let take = if len - offset < size { len - offset } else { size };
            proof {
                assert(k < total && (take == piece_length(k, len as int, size as int)) && (offset + take
                    == len ==> k == total - 1) && (offset + take < len ==> offset + take
                    == piece_offset(k + 1, size as int))) by (nonlinear_arith)
                    requires
                        offset == k * size,
                        offset < len,
                        0 < size,
                        take == (if len - offset < size { len - offset } else { size as int }),
                        total == (len + size - 1) / (size as int),
                        piece_length(k, len as int, size as int) == (if k == total - 1 {
                            len - k * size
                        } else {
                            size as int
                        }),
                        piece_offset(k + 1, size as int) == (k + 1) * size,
                ;
            }
            let mut chunk: Vec<u8> = Vec::new();
            let mut i: usize = 0;
            while i < take
                invariant
                    i <= take,
                    offset + take <= len,
                    chunk@ == data@.subrange(offset as int, offset + i),
                decreases take - i,
            {
                chunk.push(data[offset + i]);
                proof {
                    assert(chunk@ =~= data@.subrange(offset as int, offset + i + 1));
                }
                i += 1;
            }
            piece_hashes.push(sha256_digest(chunk.as_slice()));
            offset += take;
        }
        proof {
            if len == 0 {
                assert(total == 0);
            }
            assert(hash_views(piece_hashes@) =~= piece_hashes_of(data@, size as int));
        }
        let info_hash = compute_info_hash(&piece_hashes);
        let merkle_root = compute_merkle_root(&piece_hashes);
        FileMetadata {
            info_hash,
            file_name,
            file_size: len as u64,
            piece_size,
            total_pieces: piece_hashes.len(),
            piece_hashes,
            merkle_root: Some(merkle_root),
        }
    }
}

/// Metadata in the making, for a file that is read piece by piece.
#[derive(Debug)]
pub struct MetadataBuilder {
    file_name: String,
    file_size: u64,
    piece_size: u32,
    piece_hashes: Vec<[u8; 32]>,
}

impl MetadataBuilder {
    /// The hashes of the pieces taken so far.
    pub closed spec fn hashed(&self) -> Seq<Seq<u8>> {
        hash_views(self.piece_hashes@)
    }

    /// The name of the file.
    pub closed spec fn name(&self) -> Seq<char> {
        self.file_name@
    }

    /// The size of the file.
    pub closed spec fn spec_file_size(&self) -> u64 {
        self.file_size
    }

    /// The piece size.
    pub closed spec fn spec_piece_size(&self) -> u32 {
        self.piece_size
    }

    /// The piece size is not zero and no more pieces were taken than the
    /// file has.
    pub closed spec fn wf(&self) -> bool {
        &&& self.piece_size > 0
        &&& self.piece_hashes@.len() <= piece_count(self.file_size as int, self.piece_size as int)
    }

    /// The number of pieces that the file has.
    pub open spec fn total(&self) -> int {
        piece_count(self.spec_file_size() as int, self.spec_piece_size() as int)
    }

    /// A builder for a file of `file_size` bytes in pieces of `piece_size`
    /// bytes, with no piece taken yet.
    pub fn new(file_name: String, file_size: u64, piece_size: u32) -> (builder: Self)
        requires
            piece_size > 0,
        ensures
            builder.wf(),
            builder.name() == file_name@,
            builder.spec_file_size() == file_size,
            builder.spec_piece_size() == piece_size,
            builder.hashed().len() == 0,
    {
        proof {
            lemma_piece_geometry(file_size as int, piece_size as int);
        }
        MetadataBuilder { file_name, file_size, piece_size, piece_hashes: Vec::new() }
    }

    /// How long the piece is that is due next, or nothing once every piece
    /// was taken.
    pub fn next_piece_length(&self) -> (length: Option<u32>)
        requires
            self.wf(),
        ensures
            length == if self.hashed().len() < self.total() {
                Some(
                    piece_length(
                        self.hashed().len() as int,
                        self.spec_file_size() as int,
                        self.spec_piece_size() as int,
                    ) as u32,
                )
            } else {
                None
            },
            length.is_some() ==> 0 < length.unwrap() <= self.spec_piece_size(),
    {
        let size = self.piece_size as u128;
        let done = self.piece_hashes.len() as u128;
        proof {
            assert(done * size <= u128::MAX) by (nonlinear_arith)
                requires
                    0 <= done <= u64::MAX,
                    0 <= size <= u32::MAX,
            ;
        }
        let start = done * size;
        proof {
            let f = self.file_size as int;
            let p = self.piece_size as int;
            let k = self.piece_hashes@.len() as int;
            lemma_piece_geometry(f, p);
            let n = piece_count(f, p);
            assert(n * p >= f && (n - 1) * p < f && (k < n ==> k * p < f) && (k >= n ==> k * p >= f)
                && (k < n - 1 ==> k * p + p <= f) && (k == n - 1 ==> k * p + p >= f) && k * p >= 0)
                by (nonlinear_arith)
                requires
                    0 <= f,
                    0 < p,
                    0 <= k <= n,
                    n == (f + p - 1) / p,
            ;
            assert(k * p <= n * p) by (nonlinear_arith)
                requires
                    0 <= k <= n,
                    0 < p,
            ;
            assert(n * p < f + p) by (nonlinear_arith)
                requires
                    (n - 1) * p < f,
            ;
        }
        if start >= self.file_size as u128 {
            None
        } else {
            let left = self.file_size as u128 - start;
            Some(if left < size { left as u32 } else { self.piece_size })
        }
    }

    /// Takes the data of the piece that is due next and hashes it; data
    /// of another length than that piece's, and data beyond the last
    /// piece, is refused.
    pub fn add_piece(&mut self, data: &[u8]) -> (taken: bool)
        requires
            old(self).wf(),
        ensures
            final(self).wf(),
            final(self).name() == old(self).name(),
            final(self).spec_file_size() == old(self).spec_file_size(),
            final(self).spec_piece_size() == old(self).spec_piece_size(),
            taken == (old(self).hashed().len() < old(self).total() && data@.len() == piece_length(
                old(self).hashed().len() as int,
                old(self).spec_file_size() as int,
                old(self).spec_piece_size() as int,
            )),
            final(self).hashed() == if taken {
                old(self).hashed().push(sha256(data@))
            } else {
                old(self).hashed()
            },
    {
        proof {
            lemma_piece_geometry(self.file_size as int, self.piece_size as int);
        }
        match self.next_piece_length() {
            None => false,
            Some(length) => {
                if data.len() != length as usize {
                    return false;
                }
                let hash = sha256_digest(data);
                let ghost before = self.hashed();
                self.piece_hashes.push(hash);
                proof {
                    assert(self.hashed() =~= before.push(sha256(data@)));
                }
                true
            },
        }
    }

    /// The metadata, once every piece was taken; nothing before.
    pub fn finish(self) -> (metadata: Option<FileMetadata>)
        requires
            self.wf(),
        ensures
            metadata.is_some() <==> self.hashed().len() == self.total(),
            metadata.is_some() ==> {
                let meta = metadata.unwrap();
                &&& meta.file_name@ == self.name()
                &&& meta.file_size == self.spec_file_size()
                &&& meta.piece_size == self.spec_piece_size()
                &&& meta.geometry_ok()
                &&& meta.identifiers_ok()
                &&& meta.merkle_root.is_some()
                &&& hash_views(meta.piece_hashes@) == self.hashed()
            },
    {
        if self.next_piece_length().is_some() {
            return None;
        }
        let info_hash = compute_info_hash(&self.piece_hashes);
        let merkle_root = compute_merkle_root(&self.piece_hashes);
        Some(
            FileMetadata {
                info_hash,
                file_name: self.file_name,
                file_size: self.file_size,
                piece_size: self.piece_size,
                total_pieces: self.piece_hashes.len(),
                piece_hashes: self.piece_hashes,
                merkle_root: Some(merkle_root),
            },
        )
    }
}

/// A request under way: the piece, when it was asked for, of whom, and
/// how much of it has come in.
#[derive(Clone, Debug)]
pub struct PendingPiece {
    pub index: usize,
    pub requested_at: u64,
    pub from_peer: String,
    pub received_bytes: u32,
}

/// A request under way as a mathematical value.
pub struct PendingView {
    pub index: usize,
    pub requested_at: u64,
    pub from_peer: Seq<char>,
    pub received_bytes: u32,
}

impl View for PendingPiece {
    type V = PendingView;

    open spec fn view(&self) -> PendingView {
        PendingView {
            index: self.index,
            requested_at: self.requested_at,
            from_peer: self.from_peer@,
            received_bytes: self.received_bytes,
        }
    }
}

/// Why a piece is not read or written.
#[derive(Clone, Copy, Debug, PartialEq, Eq, Structural)]
pub enum PieceError {
    /// No piece has this index.
    InvalidIndex,
    /// The data is not as long as the piece.
    LengthMismatch { expected: u32, got: usize },
    /// The data does not hash to the piece's hash.
    HashMismatch,
    /// No file was named to read from or write to.
    PathNotSet,
}

/// Where in the file a piece is to be read or written.
#[derive(Clone, Copy, Debug, PartialEq, Eq, Structural)]
pub struct PieceSpan {
    pub offset: u64,
    pub length: u32,
    /// The size that the file is to have.
    pub file_size: u64,
}

/// The requests as mathematical values, in order.
pub open spec fn pending_views(pending: Seq<PendingPiece>) -> Seq<PendingView> {
    Seq::new(pending.len(), |k: int| pending[k]@)
}

/// Whether a request has been under way for longer than the timeout.
pub open spec fn request_stale(request: PendingView, now: u64) -> bool {
    elapsed_ms(request.requested_at, now) > REQUEST_TIMEOUT_MS
}

/// The requests that are not stale at `now`, in their order.
pub open spec fn live_requests(pending: Seq<PendingView>, now: u64) -> Seq<PendingView> {
    pending.filter(|r: PendingView| !request_stale(r, now))
}

/// The pieces whose requests are stale at `now`, in the order of the requests.
pub open spec fn stale_pieces(pending: Seq<PendingView>, now: u64) -> Seq<usize> {
    pending.filter(|r: PendingView| request_stale(r, now)).map_values(|r: PendingView| r.index)
}

/// The position of the request for `piece`, or -1.
pub open spec fn request_position(pending: Seq<PendingView>, piece: usize) -> int
    decreases pending.len(),
{
    if pending.len() == 0 {
        -1
    } else {
        let p = request_position(pending.drop_last(), piece);
        if p >= 0 {
            p
        } else if pending.last().index == piece {
            pending.len() - 1
        } else {
            -1
        }
    }
}

/// No piece has two requests.
pub open spec fn distinct_requests(pending: Seq<PendingView>) -> bool {
    forall|i: int, j: int|
        0 <= i < j < pending.len() ==> (#[trigger] pending[i]).index != (#[trigger] pending[j]).index
}

pub proof fn lemma_request_position(pending: Seq<PendingView>, piece: usize)
    ensures
        -1 <= request_position(pending, piece) < pending.len(),
        request_position(pending, piece) >= 0 ==> pending[request_position(pending, piece)].index
            == piece,
        forall|i: int|
            0 <= i < pending.len() && (#[trigger] pending[i]).index == piece ==> 0
                <= request_position(pending, piece) <= i,
    decreases pending.len(),
{
    if pending.len() > 0 {
        lemma_request_position(pending.drop_last(), piece);
        assert forall|i: int| 0 <= i < pending.len() && (#[trigger] pending[i]).index
            == piece implies 0 <= request_position(pending, piece) <= i by {
            if i < pending.len() - 1 {
                assert(pending.drop_last()[i] == pending[i]);
            }
        }
    }
}

/// Once every request has been under way for longer than the timeout, a
/// cleanup gives back every piece that was asked for and leaves no
/// request behind.
pub proof fn lemma_pending_ttl(pending: Seq<PendingView>, now: u64)
    requires
        forall|k: int| 0 <= k < pending.len() ==> request_stale(#[trigger] pending[k], now),
    ensures
        stale_pieces(pending, now) == pending.map_values(|r: PendingView| r.index),
        live_requests(pending, now).len() == 0,
    decreases pending.len(),
{
    reveal(Seq::filter);
    if pending.len() > 0 {
        let rest = pending.drop_last();
        assert forall|k: int| 0 <= k < rest.len() implies request_stale(#[trigger] rest[k], now) by {
            assert(rest[k] == pending[k]);
        }
        lemma_pending_ttl(rest, now);
        let stale = |r: PendingView| request_stale(r, now);
        let index = |r: PendingView| r.index;
        assert(pending.filter(stale) == rest.filter(stale).push(pending.last()));
        assert(rest.filter(stale).map_values(index) == rest.map_values(index));
        assert(rest.filter(stale) =~= rest) by {
            lemma_filter_all(rest, stale);
        }
        assert(pending.filter(stale) =~= pending);
    } else {
        assert(stale_pieces(pending, now) =~= pending.map_values(|r: PendingView| r.index));
    }
}

/// A filter that every element passes changes nothing.
pub proof fn lemma_filter_all<A>(s: Seq<A>, pred: spec_fn(A) -> bool)
    requires
        forall|k: int| 0 <= k < s.len() ==> pred(#[trigger] s[k]),
    ensures
        s.filter(pred) == s,
    decreases s.len(),
{
    reveal(Seq::filter);
    if s.len() > 0 {
        let rest = s.drop_last();
        assert forall|k: int| 0 <= k < rest.len() implies pred(#[trigger] rest[k]) by {
            assert(rest[k] == s[k]);
        }
        lemma_filter_all(rest, pred);
        assert(s.filter(pred) =~= s);
    } else {
        assert(s.filter(pred) =~= s);
    }
}

/// The pieces of the file that `meta` describes.
pub open spec fn pieces_of(meta: FileMetadata) -> Seq<PieceInfo> {
    Seq::new(
        meta.total_pieces as nat,
        |i: int|
            PieceInfo {
                index: i as usize,
                offset: piece_offset(i, meta.piece_size as int) as u64,
                length: piece_length(i, meta.file_size as int, meta.piece_size as int) as u32,
                hash: meta.piece_hashes@[i],
            },
    )
}

/// Where piece `index` is read from the file named by `path`, or why it is not.
pub open spec fn read_check(meta: FileMetadata, path: Option<Seq<char>>, index: usize) -> Result<
    PieceSpan,
    PieceError,
> {
    if index >= meta.total_pieces {
        Err(PieceError::InvalidIndex)
    } else if path.is_none() {
        Err(PieceError::PathNotSet)
    } else {
        Ok(
            PieceSpan {
                offset: pieces_of(meta)[index as int].offset,
                length: pieces_of(meta)[index as int].length,
                file_size: meta.file_size,
            },
        )
    }
}

/// Where `data` is written as piece `index` to the file named by `path`,
/// or why it is not: no such piece, not the piece's length, not the
/// piece's hash, no file named, in this order.
pub open spec fn write_check(
    meta: FileMetadata,
    path: Option<Seq<char>>,
    index: usize,
    data: Seq<u8>,
) -> Result<PieceSpan, PieceError> {
    if index >= meta.total_pieces {
        Err(PieceError::InvalidIndex)
    } else if data.len() != pieces_of(meta)[index as int].length {
        Err(
            PieceError::LengthMismatch {
                expected: pieces_of(meta)[index as int].length,
                got: data.len() as usize,
            },
        )
    } else if !piece_verifies(meta, index as int, data) {
        Err(PieceError::HashMismatch)
    } else if path.is_none() {
        Err(PieceError::PathNotSet)
    } else {
        Ok(
            PieceSpan {
                offset: pieces_of(meta)[index as int].offset,
                length: pieces_of(meta)[index as int].length,
                file_size: meta.file_size,
            },
        )
    }
}

/// The state of one file in the swarm: its pieces, which of them are held,
/// and which are asked for.
#[derive(Debug)]
pub struct PieceManager {
    metadata: FileMetadata,
    pieces: Vec<PieceInfo>,
    my_bitfield: Bitfield,
    pending_pieces: Vec<PendingPiece>,
    save_path: Option<String>,
}

impl PieceManager {
    /// The metadata of the file.
    pub closed spec fn metadata(&self) -> FileMetadata {
        self.metadata
    }

    /// For each piece, whether it is held.
    pub closed spec fn held(&self) -> Seq<bool> {
        self.my_bitfield@
    }

    /// The requests under way, in the order they were made.
    pub closed spec fn pending(&self) -> Seq<PendingView> {
        pending_views(self.pending_pieces@)
    }

    /// The file to read from or write to, if one was named.
    pub closed spec fn path(&self) -> Option<Seq<char>> {
        match self.save_path {
            Some(p) => Some(p@),
            None => None,
        }
    }

    /// The pieces are those of the metadata, the presence map covers them,
    /// and no piece has two requests.
    pub closed spec fn wf(&self) -> bool {
        &&& self.metadata.geometry_ok()
        &&& self.pieces@ == pieces_of(self.metadata)
        &&& self.my_bitfield.wf()
        &&& self.my_bitfield@.len() == self.metadata.total_pieces
        &&& distinct_requests(pending_views(self.pending_pieces@))
    }

    pub proof fn lemma_wf(&self)
        ensures
            self.wf() ==> self.metadata().geometry_ok() && self.held().len()
                == self.metadata().total_pieces && distinct_requests(self.pending()),
    {
    }

    /// The pieces of a file, one after the other.
    #[verifier::loop_isolation(false)]
    pub fn build_piece_infos(metadata: &FileMetadata) -> (pieces: Vec<PieceInfo>)
        requires
            metadata.geometry_ok(),
        ensures
            pieces@ == pieces_of(*metadata),
    {
        let mut pieces: Vec<PieceInfo> = Vec::new();
        let size = metadata.piece_size as u64;
        proof {
            lemma_piece_geometry(metadata.file_size as int, size as int);
        }
        let mut i: usize = 0;
        while i < metadata.total_pieces
            invariant
                i <= metadata.total_pieces,
                pieces@ == pieces_of(*metadata).take(i as int),
            decreases metadata.total_pieces - i,
        {
            proof {
                let len = piece_length(i as int, metadata.file_size as int, size as int);
                assert(0 < len <= size);
                assert(i * size + len <= metadata.file_size);
                assert(piece_offset(i as int, size as int) == i * size);
            }
            let offset = i as u64 * size;
            let length = if i == metadata.total_pieces - 1 {
                (metadata.file_size - offset) as u32
            } else {
                metadata.piece_size
            };
            pieces.push(PieceInfo { index: i, offset, length, hash: metadata.piece_hashes[i] });
            proof {
                assert(pieces@ =~= pieces_of(*metadata).take(i + 1));
            }
            i += 1;
        }
        proof {
            assert(pieces_of(*metadata).take(i as int) =~= pieces_of(*metadata));
        }
        pieces
    }

    /// The manager of a file of which nothing is held yet.
    pub fn new(metadata: FileMetadata) -> (manager: Self)
        requires
            metadata.geometry_ok(),
            metadata.total_pieces <= usize::MAX - 7,
        ensures
            manager.wf(),
            manager.metadata() == metadata,
            manager.held() == Seq::new(metadata.total_pieces as nat, |i: int| false),
            manager.pending().len() == 0,
            manager.path().is_none(),
    {
        let pieces = PieceManager::build_piece_infos(&metadata);
        let my_bitfield = Bitfield::new(metadata.total_pieces);
        PieceManager {
            metadata,
            pieces,
            my_bitfield,
            pending_pieces: Vec::new(),
            save_path: None,
        }
    }

    /// The manager of a file that is held in full.
    pub fn new_seeder(metadata: FileMetadata) -> (manager: Self)
        requires
            metadata.geometry_ok(),
            metadata.total_pieces <= usize::MAX - 7,
        ensures
            manager.wf(),
            manager.metadata() == metadata,
            manager.held() == Seq::new(metadata.total_pieces as nat, |i: int| true),
            manager.pending().len() == 0,
            manager.path().is_none(),
    {
        let pieces = PieceManager::build_piece_infos(&metadata);
        let my_bitfield = Bitfield::full(metadata.total_pieces);
        PieceManager {
            metadata,
            pieces,
            my_bitfield,
            pending_pieces: Vec::new(),
            save_path: None,
        }
    }

    /// Names the file to write the pieces to.
    pub fn set_save_path(&mut self, path: String)
        requires
            old(self).wf(),
        ensures
            final(self).wf(),
            final(self).path() == Some(path@),
            final(self).metadata() == old(self).metadata(),
            final(self).held() == old(self).held(),
            final(self).pending() == old(self).pending(),
    {
        self.save_path = Some(path);
    }

    /// Names the file to read the pieces from.
    pub fn set_source_path(&mut self, path: String)
        requires
            old(self).wf(),
        ensures
            final(self).wf(),
            final(self).path() == Some(path@),
            final(self).metadata() == old(self).metadata(),
            final(self).held() == old(self).held(),
            final(self).pending() == old(self).pending(),
    {
        self.save_path = Some(path);
    }

    /// Whether `data` is piece `index`: it has the piece's length and
    /// hashes to the piece's hash.
    pub fn verify_piece(&self, index: usize, data: &[u8]) -> (ok: bool)
        requires
            self.wf(),
        ensures
            ok == piece_verifies(self.metadata(), index as int, data@),
    {
        if index >= self.pieces.len() {
            return false;
        }
        let piece = self.pieces[index];
        proof {
            lemma_piece_geometry(
                self.metadata.file_size as int,
                self.metadata.piece_size as int,
            );
            assert(self.pieces@[index as int] == pieces_of(self.metadata)[index as int]);
        }
        if data.len() != piece.length as usize {
            return false;
        }
        let hash = sha256_digest(data);
        same_id(&hash, &piece.hash)
    }

    /// Marks piece `index` as held; an index past the end changes nothing.
    pub fn mark_completed(&mut self, index: usize)
        requires
            old(self).wf(),
        ensures
            final(self).wf(),
            final(self).metadata() == old(self).metadata(),
            final(self).pending() == old(self).pending(),
            final(self).path() == old(self).path(),
            final(self).held() == if index < old(self).held().len() {
                old(self).held().update(index as int, true)
            } else {
                old(self).held()
            },
    {
        self.my_bitfield.mark(index);
    }

    #[verifier::loop_isolation(false)]
    fn find_request(&self, index: usize) -> (at: usize)
        ensures
            at <= self.pending().len(),
            at < self.pending().len() ==> request_position(self.pending(), index) == at,
            at == self.pending().len() ==> request_position(self.pending(), index) == -1,
    {
        proof {
            lemma_request_position(self.pending(), index);
        }
        let mut i: usize = 0;
        while i < self.pending_pieces.len()
            invariant
                i <= self.pending_pieces@.len(),
                forall|k: int| 0 <= k < i ==> (#[trigger] self.pending()[k]).index != index,
            decreases self.pending_pieces@.len() - i,
        {
            if self.pending_pieces[i].index == index {
                assert(self.pending()[i as int].index == index);
                return i;
            }
            i += 1;
        }
        i
    }

    /// Notes that piece `index` is asked of `peer_id` at time `now`, unless
    /// it is asked for already.
    pub fn request_piece(&mut self, index: usize, peer_id: &str, now: u64) -> (accepted: bool)
        requires
            old(self).wf(),
        ensures
            final(self).wf(),
            final(self).metadata() == old(self).metadata(),
            final(self).held() == old(self).held(),
            final(self).path() == old(self).path(),
            accepted == (request_position(old(self).pending(), index) < 0),
            accepted ==> final(self).pending() == old(self).pending().push(
                PendingView {
                    index,
                    requested_at: now,
                    from_peer: peer_id@,
                    received_bytes: 0,
                },
            ),
            !accepted ==> final(self).pending() == old(self).pending(),
    {
        let at = self.find_request(index);
        if at < self.pending_pieces.len() {
            return false;
        }
        proof {
            lemma_request_position(self.pending(), index);
        }
        let ghost before = self.pending();
        self.pending_pieces.push(
            PendingPiece { index, requested_at: now, from_peer: peer_id.to_owned(), received_bytes: 0 },
        );
        proof {
            let entry = PendingView {
                index,
                requested_at: now,
                from_peer: peer_id@,
                received_bytes: 0,
            };
            assert(self.pending() =~= before.push(entry));
            assert forall|i: int, j: int| 0 <= i < j < self.pending().len() implies (
            #[trigger] self.pending()[i]).index != (#[trigger] self.pending()[j]).index by {
                if j < before.len() {
                    assert(before[i].index != before[j].index);
                } else {
                    assert(before[i].index != index);
                }
            }
        }
        true
    }

    /// Notes that the request for piece `index` is over, whether it was
    /// served or given up; without such a request nothing changes.
    pub fn complete_request(&mut self, index: usize)
        requires
            old(self).wf(),
        ensures
            final(self).wf(),
            final(self).metadata() == old(self).metadata(),
            final(self).held() == old(self).held(),
            final(self).path() == old(self).path(),
            final(self).pending() == if request_position(old(self).pending(), index) >= 0 {
                old(self).pending().remove(request_position(old(self).pending(), index))
            } else {
                old(self).pending()
            },
    {
        let at = self.find_request(index);
        let ghost before = self.pending();
        if at < self.pending_pieces.len() {
            let _ = self.pending_pieces.remove(at);
            proof {
                assert(self.pending() =~= before.remove(at as int));
                assert forall|i: int, j: int| 0 <= i < j < self.pending().len() implies (
                #[trigger] self.pending()[i]).index != (#[trigger] self.pending()[j]).index by {
                    let a = if i < at { i } else { i + 1 };
                    let b = if j < at { j } else { j + 1 };
                    assert(before[a].index != before[b].index);
                }
            }
        }
    }

    /// Gives up every request that has been under way for longer than 30
    /// seconds at time `now`, and returns their pieces to be asked for anew.
    #[verifier::loop_isolation(false)]
    pub fn cleanup_stale_requests(&mut self, now: u64) -> (stale: Vec<usize>)
        requires
            old(self).wf(),
        ensures
            final(self).wf(),
            final(self).metadata() == old(self).metadata(),
            final(self).held() == old(self).held(),
            final(self).path() == old(self).path(),
            final(self).pending() == live_requests(old(self).pending(), now),
            stale@ == stale_pieces(old(self).pending(), now),
    {
        let ghost before = self.pending();
        let ghost is_stale = |r: PendingView| request_stale(r, now);
        let ghost is_live = |r: PendingView| !request_stale(r, now);
        let ghost index_of = |r: PendingView| r.index;
        let mut stale: Vec<usize> = Vec::new();
        let mut kept: Vec<PendingPiece> = Vec::new();
        let total = self.pending_pieces.len();
        let mut done: usize = 0;
        proof {
            lemma_filter_ends(before, is_stale);
            lemma_filter_ends(before, is_live);
            assert(stale@ =~= before.take(0).filter(is_stale).map_values(index_of));
            assert(pending_views(kept@) =~= before.take(0).filter(is_live));
        }
        while done < total
            invariant
                done <= total,
                total == before.len(),
                self.pending_pieces@.len() == total - done,
                forall|k: int|
                    0 <= k < self.pending_pieces@.len() ==> (#[trigger] self.pending_pieces@[k])@
                        == before[k + done],
                stale@ == before.take(done as int).filter(is_stale).map_values(index_of),
                pending_views(kept@) == before.take(done as int).filter(is_live),
                self.metadata == old(self).metadata,
                self.my_bitfield == old(self).my_bitfield,
                self.pieces == old(self).pieces,
                self.save_path == old(self).save_path,
            decreases total - done,
        {
            let request = self.pending_pieces.remove(0);
            proof {
                assert(request@ == before[done as int]);
                lemma_filter_step(before, is_stale, done as int);
                lemma_filter_step(before, is_live, done as int);
            }
            let ghost kept_before = pending_views(kept@);
            let ghost stale_before = stale@;
            if elapsed_since(request.requested_at, now) > REQUEST_TIMEOUT_MS {
                stale.push(request.index);
                proof {
                    assert(stale@ =~= before.take(done + 1).filter(is_stale).map_values(index_of));
                }
            } else {
                kept.push(request);
                proof {
                    assert(pending_views(kept@) =~= kept_before.push(before[done as int]));
                }
            }
            done += 1;
        }
        self.pending_pieces = kept;
        proof {
            assert(before.take(total as int) =~= before);
            lemma_filter_members(before, is_live);
            let after = self.pending();
            lemma_filter_keeps_distinct(before, now);
        }
        stale
    }

    /// The presence map.
    pub fn get_bitfield(&self) -> (bitfield: &Bitfield)
        requires
            self.wf(),
        ensures
            bitfield.wf(),
            bitfield@ == self.held(),
    {
        &self.my_bitfield
    }

    /// The metadata of the file.
    pub fn get_metadata(&self) -> (metadata: &FileMetadata)
        ensures
            *metadata == self.metadata(),
    {
        &self.metadata
    }

    /// Piece `index`, or nothing past the end.
    pub fn get_piece_info(&self, index: usize) -> (piece: Option<PieceInfo>)
        requires
            self.wf(),
        ensures
            piece == if index < self.metadata().total_pieces {
                Some(pieces_of(self.metadata())[index as int])
            } else {
                None
            },
    {
        if index < self.pieces.len() {
            Some(self.pieces[index])
        } else {
            None
        }
    }

    /// The number of pieces.
    pub fn total_pieces(&self) -> (n: usize)
        ensures
            n == self.metadata().total_pieces,
    {
        self.metadata.total_pieces
    }

    /// The number of pieces held.
    pub fn completed_pieces(&self) -> (n: usize)
        requires
            self.wf(),
        ensures
            n == count_set(self.held()),
    {
        self.my_bitfield.count_ones()
    }

    /// Whether every piece is held.
    pub fn is_complete(&self) -> (complete: bool)
        requires
            self.wf(),
        ensures
            complete == (forall|i: int| 0 <= i < self.held().len() ==> self.held()[i]),
            complete == (count_set(self.held()) == self.held().len()),
    {
        proof {
            crate::grid::bitfield::lemma_count_set_extremes(self.held());
        }
        self.my_bitfield.is_complete()
    }

    /// The pieces not held, in growing order.
    pub fn missing_pieces(&self) -> (missing: Vec<usize>)
        requires
            self.wf(),
        ensures
            crate::grid::bitfield::index_list(missing@) == crate::grid::bitfield::set_positions(
                crate::grid::bitfield::negated(self.held()),
            ),
    {
        self.my_bitfield.missing_pieces()
    }

    /// The number of requests under way.
    pub fn pending_count(&self) -> (n: usize)
        ensures
            n == self.pending().len(),
    {
        self.pending_pieces.len()
    }

    /// The identifier of the file.
    pub fn info_hash(&self) -> (hash: &[u8; 32])
        ensures
            *hash == self.metadata().info_hash,
    {
        &self.metadata.info_hash
    }

    /// Where to read piece `index` from the file that was named, if the
    /// piece exists and a file was named.
    pub fn check_read(&self, index: usize) -> (span: Result<PieceSpan, PieceError>)
        requires
            self.wf(),
        ensures
            span == read_check(self.metadata(), self.path(), index),
    {
        if index >= self.pieces.len() {
            return Err(PieceError::InvalidIndex);
        }
        if self.save_path.is_none() {
            return Err(PieceError::PathNotSet);
        }
        let piece = self.pieces[index];
        Ok(PieceSpan { offset: piece.offset, length: piece.length, file_size: self.metadata.file_size })
    }

    /// Where to write `data` as piece `index`, once it is found to be that
    /// piece: the index must exist, the data must have the piece's length
    /// and hash to its hash, and a file must have been named. The piece is
    /// marked as held by [`PieceManager::mark_completed`] once it is written.
    pub fn check_write(&self, index: usize, data: &[u8]) -> (span: Result<PieceSpan, PieceError>)
        requires
            self.wf(),
        ensures
            span == write_check(self.metadata(), self.path(), index, data@),
            span.is_ok() ==> span.unwrap().offset + span.unwrap().length
                <= self.metadata().file_size,
    {
        if index >= self.pieces.len() {
            return Err(PieceError::InvalidIndex);
        }
        let piece = self.pieces[index];
        proof {
            lemma_piece_geometry(
                self.metadata.file_size as int,
                self.metadata.piece_size as int,
            );
            assert(self.pieces@[index as int] == pieces_of(self.metadata)[index as int]);
        }
        if data.len() != piece.length as usize {
            return Err(PieceError::LengthMismatch { expected: piece.length, got: data.len() });
        }
        if !self.verify_piece(index, data) {
            return Err(PieceError::HashMismatch);
        }
        if self.save_path.is_none() {
            return Err(PieceError::PathNotSet);
        }
        Ok(PieceSpan { offset: piece.offset, length: piece.length, file_size: self.metadata.file_size })
    }
}

/// Dropping the stale requests leaves no piece with two requests.
pub proof fn lemma_filter_keeps_distinct(pending: Seq<PendingView>, now: u64)
    requires
        distinct_requests(pending),
    ensures
        distinct_requests(live_requests(pending, now)),
    decreases pending.len(),
{
    reveal(Seq::filter);
    let live = |r: PendingView| !request_stale(r, now);
    if pending.len() > 0 {
        let rest = pending.drop_last();
        assert forall|i: int, j: int| 0 <= i < j < rest.len() implies (#[trigger] rest[i]).index != (
        #[trigger] rest[j]).index by {
            assert(rest[i] == pending[i] && rest[j] == pending[j]);
        }
        lemma_filter_keeps_distinct(rest, now);
        lemma_filter_members(rest, live);
        let out = live_requests(pending, now);
        let sub = live_requests(rest, now);
        assert forall|i: int, j: int| 0 <= i < j < out.len() implies (#[trigger] out[i]).index != (
        #[trigger] out[j]).index by {
            if j < sub.len() {
                assert(sub[i].index != sub[j].index);
            } else {
                assert(rest.contains(sub[i]));
                let k = choose|k: int| 0 <= k < rest.len() && rest[k] == sub[i];
                assert(pending[k] == rest[k]);
                assert(pending[k].index != pending[pending.len() - 1].index);
            }
        }
    }
}

} // verus!
