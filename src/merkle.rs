use vstd::prelude::*;

use sha3::Digest;

use crate::context::is_pow2;
use crate::field::{Felt, felt_bytes};
use crate::fibonacci_rap::{lemma_next_pow2, next_pow2, next_power_of_two};

verus! {

/// The SHA3-256 digest of a byte string.
pub uninterp spec fn sha3_256_of(data: Seq<u8>) -> Seq<u8>;

/// Relies on sha3's `Sha3_256`: the 32-byte digest of `data`.
#[verifier::external_body]
pub(crate) fn sha3_256(data: &Vec<u8>) -> (r: [u8; 32])
    ensures
        r@ == sha3_256_of(data@),
{
    let mut hasher = sha3::Sha3_256::new();
    hasher.update(data);
    hasher.finalize().into()
}

/// The bytes hashed for a leaf: the big-endian encodings of its elements, in order.
pub open spec fn leaf_bytes(leaf: Seq<Felt>) -> Seq<u8>
    decreases leaf.len(),
{
    if leaf.len() == 0 {
        Seq::empty()
    } else {
        leaf_bytes(leaf.drop_last()) + felt_bytes(leaf.last())
    }
}

/// The digest of a leaf.
pub open spec fn leaf_hash(leaf: Seq<Felt>) -> Seq<u8> {
    sha3_256_of(leaf_bytes(leaf))
}

/// The digest of an inner node.
pub open spec fn parent_hash(left: Seq<u8>, right: Seq<u8>) -> Seq<u8> {
    sha3_256_of(left + right)
}

/// The root that an authentication path leads to from the digest `h` of the
/// node at `index`: siblings from the leaf upwards, the node on the left when
/// its index is even.
pub open spec fn root_from_path(h: Seq<u8>, index: nat, path: Seq<Seq<u8>>) -> Seq<u8>
    decreases path.len(),
{
    if path.len() == 0 {
        h
    } else {
        let up = if index % 2 == 0 {
            parent_hash(h, path[0])
        } else {
            parent_hash(path[0], h)
        };
        root_from_path(up, index / 2, path.drop_first())
    }
}

/// The views of a path's digests.
pub open spec fn path_view(path: Seq<[u8; 32]>) -> Seq<Seq<u8>> {
    path.map_values(|n: [u8; 32]| n@)
}

/// Equality of two digests, byte by byte.
pub fn digest_eq(a: &[u8; 32], b: &[u8; 32]) -> (r: bool)
    ensures
        r == (a@ == b@),
{
    let mut i: usize = 0;
    while i < 32
        invariant
            i <= 32,
            forall|k: int| 0 <= k < i ==> a@[k] == b@[k],
        decreases 32 - i,
    {
        if a[i] != b[i] {
            return false;
        }
        i = i + 1;
    }
    proof {
        assert(a@ =~= b@);
    }
    true
}

/// The Merkle backend that commits to rows of field elements: a leaf is the
/// digest of all its elements, an inner node the digest of its two children.
#[derive(Clone, Copy, Debug)]
pub struct BatchStarkProverBackend {}

impl BatchStarkProverBackend {
    pub fn new() -> (r: BatchStarkProverBackend) {
        BatchStarkProverBackend {}
    }

    /// The digest of a leaf: SHA3-256 over the big-endian encodings of its elements.
    pub fn hash_data(&self, input: &Vec<Felt>) -> (r: [u8; 32])
        ensures
            r@ == leaf_hash(input@),
    {
        let mut bytes: Vec<u8> = Vec::new();
        let mut i: usize = 0;
        while i < input.len()
            invariant
                i <= input.len(),
                bytes@ == leaf_bytes(input@.take(i as int)),
            decreases input.len() - i,
        {
            proof {
                assert(input@.take(i as int + 1).drop_last() =~= input@.take(i as int));
            }
            input[i].append_bytes_be(&mut bytes);
            i = i + 1;
        }
        proof {
            assert(input@.take(input.len() as int) =~= input@);
        }
        sha3_256(&bytes)
    }

    /// The digest of an inner node: SHA3-256 over `left ∥ right`.
    pub fn hash_new_parent(&self, left: &[u8; 32], right: &[u8; 32]) -> (r: [u8; 32])
        ensures
            r@ == parent_hash(left@, right@),
    {
        let mut bytes: Vec<u8> = Vec::new();
        let mut i: usize = 0;
        while i < 32
            invariant
                i <= 32,
                bytes@ == left@.take(i as int),
            decreases 32 - i,
        {
            bytes.push(left[i]);
            i = i + 1;
            proof {
                assert(bytes@ =~= left@.take(i as int));
            }
        }
        let mut j: usize = 0;
        while j < 32
            invariant
                j <= 32,
                bytes@ == left@ + right@.take(j as int),
            decreases 32 - j,
        {
            proof {
                assert(left@.take(32) =~= left@);
            }
            bytes.push(right[j]);
            j = j + 1;
            proof {
                assert(bytes@ =~= left@ + right@.take(j as int));
            }
        }
        proof {
            assert(left@.take(32) =~= left@);
            assert(right@.take(32) =~= right@);
        }
        sha3_256(&bytes)
    }

    /// Whether `path` authenticates `leaf` at `index` under `root`.
    pub fn verify_path(&self, root: &[u8; 32], index: usize, leaf: &Vec<Felt>, path: &Vec<[u8; 32]>) -> (r: bool)
        ensures
            r == (root@ == root_from_path(leaf_hash(leaf@), index as nat, path_view(path@))),
    {
        let mut h = self.hash_data(leaf);
        let mut idx: usize = index;
        let mut i: usize = 0;
        proof {
            assert(path_view(path@).skip(0) =~= path_view(path@));
        }
        while i < path.len()
            invariant
                i <= path.len(),
                root_from_path(h@, idx as nat, path_view(path@).skip(i as int))
                    == root_from_path(leaf_hash(leaf@), index as nat, path_view(path@)),
            decreases path.len() - i,
        {
            proof {
                assert(path_view(path@).skip(i as int).drop_first() =~= path_view(path@).skip(i as int + 1));
            }
            if idx % 2 == 0 {
                h = self.hash_new_parent(&h, &path[i]);
            } else {
                h = self.hash_new_parent(&path[i], &h);
            }
            idx = idx / 2;
            i = i + 1;
        }
        proof {
            assert(path_view(path@).skip(i as int) =~= Seq::<Seq<u8>>::empty());
        }
        digest_eq(root, &h)
    }
}

/// A Merkle tree kept level by level: level 0 holds the leaf digests (padded to
/// a power of two by repeating the last), each further level the parents of the
/// one below, and the last level the root alone.
#[derive(Clone, Debug)]
pub struct MerkleTree {
    pub levels: Vec<Vec<[u8; 32]>>,
}

/// The index at level `k` of the ancestor of leaf `pos`.
pub open spec fn ancestor_index(pos: nat, k: nat) -> nat
    decreases k,
{
    if k == 0 {
        pos
    } else {
        ancestor_index(pos, (k - 1) as nat) / 2
    }
}

/// The sibling of node `i` in its level.
pub open spec fn sibling(i: nat) -> nat {
    if i % 2 == 0 {
        i + 1
    } else {
        (i - 1) as nat
    }
}

impl MerkleTree {
    /// Each level but the last is twice the next, the last holds one node, and
    /// every node above the leaves is the digest of its two children.
    pub open spec fn wf(&self) -> bool {
        let l = self.levels@;
        &&& l.len() >= 1
        &&& l[l.len() - 1].len() == 1
        &&& forall|k: int| 1 <= k < l.len() ==> (#[trigger] l[k]).len() * 2 == l[k - 1].len()
        &&& forall|k: int, j: int| 1 <= k < l.len() && 0 <= j < l[k].len() ==>
                (#[trigger] l[k]@[j])@ == parent_hash(l[k - 1]@[2 * j]@, l[k - 1]@[2 * j + 1]@)
    }

    /// The root: the one node of the last level.
    pub open spec fn root_spec(&self) -> Seq<u8> {
        self.levels@[self.levels.len() - 1]@[0]@
    }

    /// The authentication path of leaf `pos`: its ancestors' siblings from the
    /// leaf level up.
    pub open spec fn path_spec(&self, pos: nat) -> Seq<Seq<u8>> {
        Seq::new(
            (self.levels.len() - 1) as nat,
            |k: int| self.levels@[k]@[sibling(ancestor_index(pos, k as nat)) as int]@,
        )
    }

    /// Builds the tree over rows of field elements; `None` for no rows.
    pub fn build(leaves: &Vec<Vec<Felt>>) -> (r: Option<MerkleTree>)
        requires
            leaves.len() <= usize::MAX / 8,
        ensures
            r is None <==> leaves.len() == 0,
            r matches Some(t) ==> t.wf() && is_pow2(t.levels@[0].len() as nat)
                && t.levels@[0].len() == next_pow2(leaves.len() as nat)
                && forall|i: int| 0 <= i < t.levels@[0].len() ==> (#[trigger] t.levels@[0]@[i])@
                    == leaf_hash(leaves@[if i < leaves.len() { i } else { leaves.len() - 1 }]@),
    {
        if leaves.len() == 0 {
            return None;
        }
        let backend = BatchStarkProverBackend::new();
        let n = leaves.len();
        let size = next_power_of_two(n);
        proof {
            lemma_next_pow2(n as nat);
        }
        let mut level0: Vec<[u8; 32]> = Vec::new();
        let mut i: usize = 0;
        while i < size
            invariant
                i <= size,
                n == leaves.len(),
                n >= 1,
                size >= n,
                level0.len() == i,
                forall|k: int| 0 <= k < i ==> (#[trigger] level0@[k])@
                    == leaf_hash(leaves@[if k < n { k } else { n - 1 }]@),
            decreases size - i,
        {
            let src = if i < n { i } else { n - 1 };
            level0.push(backend.hash_data(&leaves[src]));
            i = i + 1;
        }
        let mut levels: Vec<Vec<[u8; 32]>> = Vec::new();
        let mut current = level0;
        let ghost first = current@;
        while current.len() > 1
            invariant
                current.len() >= 1,
                is_pow2(current.len() as nat),
                levels.len() == 0 ==> current@ == first,
                levels.len() > 0 ==> levels@[0]@ == first,
                levels.len() > 0 ==> current.len() * 2 == levels@[levels.len() - 1].len(),
                levels.len() > 0 ==> forall|j: int| 0 <= j < current.len() ==> (#[trigger] current@[j])@
                    == parent_hash(levels@[levels.len() - 1]@[2 * j]@, levels@[levels.len() - 1]@[2 * j + 1]@),
                forall|k: int| 1 <= k < levels.len() ==> (#[trigger] levels@[k]).len() * 2 == levels@[k - 1].len(),
                forall|k: int, j: int| 1 <= k < levels.len() && 0 <= j < levels@[k].len() ==>
                    (#[trigger] levels@[k]@[j])@ == parent_hash(levels@[k - 1]@[2 * j]@, levels@[k - 1]@[2 * j + 1]@),
            decreases current.len(),
        {
            let half = current.len() / 2;
            proof {
                assert(current.len() % 2 == 0);
            }
            let mut next: Vec<[u8; 32]> = Vec::new();
            let mut j: usize = 0;
            while j < half
                invariant
                    j <= half,
                    half * 2 == current.len(),
                    next.len() == j,
                    forall|t: int| 0 <= t < j ==> (#[trigger] next@[t])@
                        == parent_hash(current@[2 * t]@, current@[2 * t + 1]@),
                decreases half - j,
            {
                next.push(backend.hash_new_parent(&current[2 * j], &current[2 * j + 1]));
                j = j + 1;
            }
            let ghost old_levels = levels@;
            let ghost cur = current@;
            levels.push(current);
            proof {
                assert(levels@[levels.len() - 1]@ == cur);
                assert forall|k: int, jj: int| 1 <= k < levels.len() && 0 <= jj < levels@[k].len() implies
                    (#[trigger] levels@[k]@[jj])@ == parent_hash(levels@[k - 1]@[2 * jj]@, levels@[k - 1]@[2 * jj + 1]@) by {
                    if k < levels.len() - 1 {
                        assert(levels@[k] == old_levels[k]);
                        assert(levels@[k - 1] == old_levels[k - 1]);
                    } else {
                        assert(levels@[k]@ == cur);
                        assert(levels@[k - 1] == old_levels[k - 1]);
                    }
                }
                assert forall|k: int| 1 <= k < levels.len() implies (#[trigger] levels@[k]).len() * 2 == levels@[k - 1].len() by {
                    if k < levels.len() - 1 {
                        assert(levels@[k] == old_levels[k]);
                        assert(levels@[k - 1] == old_levels[k - 1]);
                    }
                }
            }
            current = next;
        }
        let ghost old_levels = levels@;
        let ghost cur = current@;
        levels.push(current);
        let t = MerkleTree { levels };
        proof {
            assert(t.levels@[t.levels.len() - 1]@ == cur);
            assert(t.levels@[0]@ == first);
            assert forall|k: int, jj: int| 1 <= k < t.levels.len() && 0 <= jj < t.levels@[k].len() implies
                (#[trigger] t.levels@[k]@[jj])@ == parent_hash(t.levels@[k - 1]@[2 * jj]@, t.levels@[k - 1]@[2 * jj + 1]@) by {
                if k < t.levels.len() - 1 {
                    assert(t.levels@[k] == old_levels[k]);
                    assert(t.levels@[k - 1] == old_levels[k - 1]);
                } else {
                    assert(t.levels@[k]@ == cur);
                    assert(t.levels@[k - 1] == old_levels[k - 1]);
                }
            }
            assert forall|k: int| 1 <= k < t.levels.len() implies (#[trigger] t.levels@[k]).len() * 2 == t.levels@[k - 1].len() by {
                if k < t.levels.len() - 1 {
                    assert(t.levels@[k] == old_levels[k]);
                    assert(t.levels@[k - 1] == old_levels[k - 1]);
                }
            }
        }
        Some(t)
    }

    /// The root.
    pub fn root(&self) -> (r: [u8; 32])
        requires
            self.wf(),
        ensures
            r@ == self.root_spec(),
    {
        self.levels[self.levels.len() - 1][0]
    }
}

impl MerkleTree {
    /// The authentication path of leaf `pos`; `None` when there is no such leaf.
    pub fn get_proof_by_pos(&self, pos: usize) -> (r: Option<Vec<[u8; 32]>>)
        requires
            self.wf(),
        ensures
            r is None <==> pos >= self.levels@[0].len(),
            r matches Some(p) ==> path_view(p@) == self.path_spec(pos as nat),
    {
        if pos >= self.levels[0].len() {
            return None;
        }
        let depth = self.levels.len() - 1;
        let mut path: Vec<[u8; 32]> = Vec::new();
        let mut idx: usize = pos;
        let mut k: usize = 0;
        while k < depth
            invariant
                self.wf(),
                depth == self.levels.len() - 1,
                k <= depth,
                idx == ancestor_index(pos as nat, k as nat),
                idx < self.levels@[k as int].len(),
                path.len() == k,
                forall|t: int| 0 <= t < k ==> (#[trigger] path@[t])@
                    == self.levels@[t]@[sibling(ancestor_index(pos as nat, t as nat)) as int]@,
            decreases depth - k,
        {
            let level = &self.levels[k];
            proof {
                let l = self.levels@;
                assert(l[k as int + 1].len() * 2 == l[k as int].len());
            }
            let sib = if idx % 2 == 0 { idx + 1 } else { idx - 1 };
            path.push(level[sib]);
            idx = idx / 2;
            k = k + 1;
        }
        proof {
            assert(path_view(path@) =~= self.path_spec(pos as nat));
        }
        Some(path)
    }
}

/// One level up the path: from the ancestor at level `k` to the one at `k + 1`.
proof fn lemma_path_step(t: MerkleTree, pos: nat, k: nat)
    requires
        t.wf(),
        k + 1 < t.levels.len(),
        ancestor_index(pos, k) < t.levels@[k as int].len(),
    ensures
        root_from_path(
            t.levels@[k as int]@[ancestor_index(pos, k) as int]@,
            ancestor_index(pos, k),
            t.path_spec(pos).skip(k as int),
        ) == root_from_path(
            t.levels@[k as int + 1]@[ancestor_index(pos, k + 1) as int]@,
            ancestor_index(pos, k + 1),
            t.path_spec(pos).skip(k as int + 1),
        ),
{
    let l = t.levels@;
    let idx = ancestor_index(pos, k);
    let p = t.path_spec(pos);
    let rest = p.skip(k as int);
    assert(rest.drop_first() =~= p.skip(k as int + 1));
    assert(rest[0] == l[k as int]@[sibling(idx) as int]@);
    assert(ancestor_index(pos, k + 1) == idx / 2);
    let j = idx / 2;
    assert(l[k as int + 1].len() * 2 == l[k as int].len());
    assert(l[k as int + 1]@[j as int]@ == parent_hash(l[k as int]@[2 * j as int]@, l[k as int]@[2 * j as int + 1]@));
}

proof fn lemma_path_from_level(t: MerkleTree, pos: nat, k: nat)
    requires
        t.wf(),
        pos < t.levels@[0].len(),
        k < t.levels.len(),
    ensures
        root_from_path(
            t.levels@[k as int]@[ancestor_index(pos, k) as int]@,
            ancestor_index(pos, k),
            t.path_spec(pos).skip(k as int),
        ) == t.root_spec(),
    decreases t.levels.len() - k,
{
    lemma_index_in_level(t, pos, k);
    if k == t.levels.len() - 1 {
        assert(t.path_spec(pos).skip(k as int) =~= Seq::<Seq<u8>>::empty());
    } else {
        lemma_path_step(t, pos, k);
        lemma_path_from_level(t, pos, k + 1);
    }
}

proof fn lemma_index_in_level(t: MerkleTree, pos: nat, k: nat)
    requires
        t.wf(),
        pos < t.levels@[0].len(),
        k < t.levels.len(),
    ensures
        ancestor_index(pos, k) < t.levels@[k as int].len(),
        k == t.levels.len() - 1 ==> ancestor_index(pos, k) == 0,
    decreases k,
{
    let l = t.levels@;
    if k > 0 {
        lemma_index_in_level(t, pos, (k - 1) as nat);
        assert(l[k as int].len() * 2 == l[k as int - 1].len());
    }
}

/// Every path that the tree hands out authenticates its leaf: folding the
/// digest of leaf `pos` up the path reaches the root.
pub proof fn lemma_merkle_path_authenticates_leaf(t: MerkleTree, pos: nat)
    requires
        t.wf(),
        pos < t.levels@[0].len(),
    ensures
        root_from_path(t.levels@[0]@[pos as int]@, pos, t.path_spec(pos)) == t.root_spec(),
{
    lemma_path_from_level(t, pos, 0);
    assert(t.path_spec(pos).skip(0) =~= t.path_spec(pos));
}

} // verus!
