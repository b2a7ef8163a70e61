//! Merkle tree: integrity anchor over the blocks of a message.

use vstd::prelude::*;
use vstd::bytes::{spec_u32_to_le_bytes, spec_u64_to_le_bytes, u32_to_le_bytes, u64_to_le_bytes};
use crate::bytes::{append_bytes, bytes_equal};
use crate::crypto::primitives::{sha256, sha256_output};

verus! {

/// Digest of a leaf record: SHA-256(msg_id LE || offset LE || payload).
pub open spec fn leaf_digest(msg_id: u64, offset: u32, payload: Seq<u8>) -> Seq<u8> {
    sha256_output(spec_u64_to_le_bytes(msg_id) + spec_u32_to_le_bytes(offset) + payload)
}

/// Leaf-level hash of a leaf digest (domain byte 0x00).
pub open spec fn leaf_hash(digest: Seq<u8>) -> Seq<u8> {
    sha256_output(seq![0u8] + digest)
}

/// Inner-node hash of two children (domain byte 0x01).
pub open spec fn node_hash(left: Seq<u8>, right: Seq<u8>) -> Seq<u8> {
    sha256_output(seq![1u8] + left + right)
}

pub open spec fn zero32() -> Seq<u8> {
    Seq::new(32, |i: int| 0u8)
}

/// Smallest power of two that is at least `n`, searching upwards from `w`.
pub open spec fn pad_width(n: nat, w: nat) -> nat
    decreases if n > w {
        (n - w) as nat
    } else {
        0nat
    },
    when w >= 1
{
    if w >= n {
        w
    } else {
        pad_width(n, 2 * w)
    }
}

pub open spec fn pow2(k: nat) -> nat
    decreases k,
{
    if k == 0 {
        1
    } else {
        2 * pow2((k - 1) as nat)
    }
}

/// The leaf level for `data`: one leaf hash per record, padded with zero
/// hashes up to a power of two.
pub open spec fn padded_leaves(data: Seq<(u64, u32, Vec<u8>)>) -> Seq<Seq<u8>> {
    Seq::new(
        pad_width(data.len(), 1),
        |i: int|
            if i < data.len() {
                leaf_hash(leaf_digest(data[i].0, data[i].1, data[i].2@))
            } else {
                zero32()
            },
    )
}

/// One level up: hash neighbouring pairs.
pub open spec fn reduce_level(s: Seq<Seq<u8>>) -> Seq<Seq<u8>> {
    Seq::new(s.len() / 2, |i: int| node_hash(s[2 * i], s[2 * i + 1]))
}

/// Root of the tree whose leaf level is `s` (a power-of-two length).
pub open spec fn tree_root(s: Seq<Seq<u8>>) -> Seq<u8>
    decreases s.len(),
{
    if s.len() <= 1 {
        s[0]
    } else {
        tree_root(reduce_level(s))
    }
}

pub open spec fn arrays_view(v: Seq<[u8; 32]>) -> Seq<Seq<u8>> {
    v.map_values(|a: [u8; 32]| a@)
}

/// Leaf node: SHA-256 of msg_id(8) || offset(4) || payload.
#[derive(Clone)]
pub struct LeafNode([u8; 32]);

impl View for LeafNode {
    type V = Seq<u8>;

    closed spec fn view(&self) -> Seq<u8> {
        self.0@
    }
}

impl LeafNode {
    pub fn new(msg_id: u64, offset: u32, payload: &[u8]) -> (leaf: LeafNode)
        ensures
            leaf@ == leaf_digest(msg_id, offset, payload@),
    {
        let mut buf = u64_to_le_bytes(msg_id);
        let off = u32_to_le_bytes(offset);
        append_bytes(&mut buf, off.as_slice());
        append_bytes(&mut buf, payload);
        LeafNode(sha256(buf.as_slice()))
    }

    pub fn as_bytes(&self) -> (bytes: &[u8; 32])
        ensures
            bytes@ == self@,
    {
        &self.0
    }

    fn hash(&self) -> (h: [u8; 32])
        ensures
            h@ == leaf_hash(self@),
    {
        let mut buf: Vec<u8> = Vec::new();
        buf.push(0u8);
        append_bytes(&mut buf, &self.0);
        assert(buf@ =~= seq![0u8] + self@);
        sha256(buf.as_slice())
    }
}

fn combine(left: &[u8; 32], right: &[u8; 32]) -> (h: [u8; 32])
    ensures
        h@ == node_hash(left@, right@),
{
    let mut buf: Vec<u8> = Vec::new();
    buf.push(1u8);
    append_bytes(&mut buf, left);
    append_bytes(&mut buf, right);
    assert(buf@ =~= seq![1u8] + left@ + right@);
    sha256(buf.as_slice())
}

/// Hashes of level `l` of a level list.
pub open spec fn lvl(levels: Seq<Vec<[u8; 32]>>, l: int) -> Seq<Seq<u8>> {
    arrays_view(levels[l]@)
}

/// Each level is the pairwise reduction of the one below it.
pub open spec fn levels_chained(levels: Seq<Vec<[u8; 32]>>) -> bool {
    forall|l: int|
        1 <= l < levels.len() ==> lvl(levels, l - 1).len() == 2 * (#[trigger] lvl(levels, l)).len()
            && lvl(levels, l) == reduce_level(lvl(levels, l - 1))
}

/// Index of the ancestor of leaf `i` on level `l`.
pub open spec fn index_at(i: int, l: nat) -> int
    decreases l,
{
    if l == 0 {
        i
    } else {
        index_at(i, (l - 1) as nat) / 2
    }
}

pub open spec fn sibling_of(idx: int) -> int {
    if idx % 2 == 0 {
        idx + 1
    } else {
        idx - 1
    }
}

/// The proof path for leaf `i`: on each level below the top, whether the
/// running hash is the left child, and its sibling.
pub open spec fn path_for(levels: Seq<Vec<[u8; 32]>>, i: int) -> Seq<(bool, Seq<u8>)> {
    Seq::new(
        (levels.len() - 1) as nat,
        |l: int|
            (
                index_at(i, l as nat) % 2 == 0,
                lvl(levels, l)[sibling_of(index_at(i, l as nat))],
            ),
    )
}

/// One step of proof verification.
pub open spec fn path_step(current: Seq<u8>, entry: (bool, Seq<u8>)) -> Seq<u8> {
    if entry.0 {
        node_hash(current, entry.1)
    } else {
        node_hash(entry.1, current)
    }
}

/// Folds a proof path over a starting hash, lowest level first.
pub open spec fn fold_path(current: Seq<u8>, path: Seq<(bool, Seq<u8>)>) -> Seq<u8>
    decreases path.len(),
{
    if path.len() == 0 {
        current
    } else {
        fold_path(path_step(current, path[0]), path.drop_first())
    }
}

pub open spec fn path_view(path: Seq<(bool, [u8; 32])>) -> Seq<(bool, Seq<u8>)> {
    path.map_values(|e: (bool, [u8; 32])| (e.0, e.1@))
}

/// Merkle tree stored level by level (level 0 holds the leaves).
pub struct MerkleTree {
    root: [u8; 32],
    levels: Vec<Vec<[u8; 32]>>,
}

/// A membership proof: for each level, whether the running hash is the left
/// child, and the sibling hash.
#[derive(Debug, Clone)]
pub struct MerkleProof {
    pub leaf_index: usize,
    pub path: Vec<(bool, [u8; 32])>,
}

impl MerkleTree {
    pub closed spec fn levels_view(&self) -> Seq<Vec<[u8; 32]>> {
        self.levels@
    }

    pub closed spec fn root_view(&self) -> Seq<u8> {
        self.root@
    }

    /// Number of leaves (after padding); zero for the empty tree.
    pub open spec fn width(&self) -> int {
        if self.levels_view().len() == 0 {
            0
        } else {
            lvl(self.levels_view(), 0).len() as int
        }
    }

    /// The levels halve up to a single root node, each parent hashing its two
    /// children; an empty tree has the all-zero root.
    pub open spec fn wf(&self) -> bool {
        let levels = self.levels_view();
        if levels.len() == 0 {
            self.root_view() == zero32()
        } else {
            &&& lvl(levels, levels.len() - 1).len() == 1
            &&& self.root_view() == lvl(levels, levels.len() - 1)[0]
            &&& levels_chained(levels)
        }
    }

    /// Builds the tree over `(msg_id, offset, payload)` records: leaves are
    /// padded with zero hashes to a power of two, then reduced pairwise.  An
    /// empty input gives the empty tree with the all-zero root.
    #[verifier::rlimit(40)]
    pub fn build(data: Vec<(u64, u32, Vec<u8>)>) -> (tree: MerkleTree)
        requires
            data@.len() <= usize::MAX / 2,
        ensures
            tree.wf(),
            data@.len() == 0 ==> tree.levels_view().len() == 0,
            data@.len() > 0 ==> {
                &&& tree.levels_view().len() > 0
                &&& lvl(tree.levels_view(), 0) == padded_leaves(data@)
                &&& tree.root_view() == tree_root(padded_leaves(data@))
            },
    {
        if data.len() == 0 {
            let root = [0u8; 32];
            assert(root@ =~= zero32());
            return MerkleTree { root, levels: Vec::new() };
        }
        let leaves = leaf_level(&data);
        let ghost mut k: nat = choose|k: nat| leaves@.len() == pow2(k);
        let mut levels: Vec<Vec<[u8; 32]>> = Vec::new();
        levels.push(leaves);
        let ghost leaf_level = padded_leaves(data@);
        while levels[levels.len() - 1].len() > 1
            invariant
                levels@.len() >= 1,
                lvl(levels@, 0) == leaf_level,
                lvl(levels@, levels@.len() - 1).len() == pow2(k),
                levels_chained(levels@),
                tree_root(leaf_level) == tree_root(lvl(levels@, levels@.len() - 1)),
            decreases k,
        {
            let top = levels.len() - 1;
            let len = levels[top].len();
            assert(k > 0) by {
                if k == 0 {
                    assert(pow2(0) == 1);
                }
            }
            assert(len == 2 * pow2((k - 1) as nat));
            let next = next_level(&levels[top]);
            let ghost before = levels@;
            levels.push(next);
            assert forall|l: int| 0 <= l < before.len() implies #[trigger] lvl(levels@, l) == lvl(
                before,
                l,
            ) by {
                assert(levels@[l] == before[l]);
            }
            assert(lvl(levels@, levels@.len() - 1) == reduce_level(lvl(before, top as int)));
            assert(levels_chained(levels@)) by {
                assert forall|l: int| 1 <= l < levels@.len() implies lvl(levels@, l - 1).len() == 2
                    * (#[trigger] lvl(levels@, l)).len() && lvl(levels@, l) == reduce_level(
                    lvl(levels@, l - 1),
                ) by {
                    if l < before.len() {
                        assert(lvl(before, l - 1).len() == 2 * lvl(before, l).len());
                    }
                }
            }
            proof {
                k = (k - 1) as nat;
            }
        }
        let top = levels.len() - 1;
        proof {
            lemma_pow2_pos(k);
        }
        let root = levels[top][0];
        MerkleTree { root, levels }
    }

    pub fn root(&self) -> (r: [u8; 32])
        ensures
            r@ == self.root_view(),
    {
        self.root
    }

    /// Number of leaves after padding (zero for the empty tree).
    pub fn leaf_count(&self) -> (n: usize)
        ensures
            n == self.width(),
    {
        if self.levels.len() == 0 {
            0
        } else {
            self.levels[0].len()
        }
    }

    /// Proof for leaf `leaf_index`: present exactly when the tree is not empty
    /// and the index is below the (padded) leaf count.
    #[verifier::rlimit(40)]
    pub fn leaf_proof(&self, leaf_index: usize) -> (p: Option<MerkleProof>)
        requires
            self.wf(),
        ensures
            p is Some <==> 0 <= leaf_index < self.width(),
            p matches Some(pr) ==> pr.leaf_index == leaf_index && path_view(pr.path@) == path_for(
                self.levels_view(),
                leaf_index as int,
            ),
    {
        if self.levels.len() == 0 || leaf_index >= self.levels[0].len() {
            return None;
        }
        let ghost levels = self.levels@;
        let mut path: Vec<(bool, [u8; 32])> = Vec::new();
        let mut idx = leaf_index;
        let h = self.levels.len() - 1;
        let mut level: usize = 0;
        proof {
            lemma_level_lengths(levels);
        }
        while level < h
            invariant
                levels == self.levels@,
                levels.len() >= 1,
                h == levels.len() - 1,
                level <= h,
                idx == index_at(leaf_index as int, level as nat),
                idx < lvl(levels, level as int).len(),
                forall|l: int|
                    0 <= l < h ==> lvl(levels, l).len() == 2 * (#[trigger] lvl(levels, l + 1)).len(),
                path@.len() == level,
                forall|l: int|
                    0 <= l < level ==> #[trigger] path_view(path@)[l] == path_for(
                        levels,
                        leaf_index as int,
                    )[l],
            decreases h - level,
        {
            assert(lvl(levels, level as int).len() == 2 * lvl(levels, level as int + 1).len());
            let is_left = idx % 2 == 0;
            let sibling = if is_left {
                idx + 1
            } else {
                idx - 1
            };
            let sibling_hash = if sibling < self.levels[level].len() {
                self.levels[level][sibling]
            } else {
                [0u8; 32]
            };
            let ghost old_path = path@;
            path.push((is_left, sibling_hash));
            assert forall|l: int| 0 <= l < level + 1 implies #[trigger] path_view(path@)[l]
                == path_for(levels, leaf_index as int)[l] by {
                if l < level {
                    assert(path@[l] == old_path[l]);
                    assert(path_view(old_path)[l] == path_for(levels, leaf_index as int)[l]);
                }
            }
            idx = idx / 2;
            level += 1;
        }
        assert(path_view(path@) =~= path_for(levels, leaf_index as int));
        Some(MerkleProof { leaf_index, path })
    }

    /// Whether folding the proof path over the leaf's hash reaches the root.
    pub fn verify(&self, leaf: &LeafNode, path_proof: &MerkleProof) -> (ok: bool)
        ensures
            ok == (fold_path(leaf_hash(leaf@), path_view(path_proof.path@)) == self.root_view()),
    {
        let mut current = leaf.hash();
        let ghost pv = path_view(path_proof.path@);
        assert(pv.subrange(0, pv.len() as int) =~= pv);
        let mut i: usize = 0;
        while i < path_proof.path.len()
            invariant
                pv == path_view(path_proof.path@),
                i <= pv.len(),
                fold_path(leaf_hash(leaf@), pv) == fold_path(
                    current@,
                    pv.subrange(i as int, pv.len() as int),
                ),
            decreases pv.len() - i,
        {
            let entry = path_proof.path[i];
            proof {
                lemma_fold_step(current@, pv, i as int);
            }
            current = if entry.0 {
                combine(&current, &entry.1)
            } else {
                combine(&entry.1, &current)
            };
            i += 1;
        }
        assert(pv.subrange(pv.len() as int, pv.len() as int) =~= Seq::<(bool, Seq<u8>)>::empty());
        bytes_equal(&current, &self.root)
    }
}


/// Leaf hashes of the records, padded with zero hashes to a power of two.
fn leaf_level(data: &Vec<(u64, u32, Vec<u8>)>) -> (leaves: Vec<[u8; 32]>)
    requires
        1 <= data@.len() <= usize::MAX / 2,
    ensures
        arrays_view(leaves@) == padded_leaves(data@),
        exists|k: nat| leaves@.len() == pow2(k),
{
    let n = data.len();
    let mut leaves: Vec<[u8; 32]> = Vec::new();
    for i in 0..n
        invariant
            n == data@.len(),
            leaves@.len() == i,
            forall|j: int|
                0 <= j < i ==> #[trigger] leaves@[j]@ == leaf_hash(
                    leaf_digest(data@[j].0, data@[j].1, data@[j].2@),
                ),
    {
        let entry = &data[i];
        let leaf = LeafNode::new(entry.0, entry.1, entry.2.as_slice());
        leaves.push(leaf.hash());
    }
    let mut width: usize = 1;
    let ghost mut k: nat = 0;
    while width < n
        invariant
            1 <= n <= usize::MAX / 2,
            width >= 1,
            width == pow2(k),
            pad_width(n as nat, width as nat) == pad_width(n as nat, 1),
        decreases usize::MAX - width,
    {
        width = width * 2;
        proof {
            k = k + 1;
        }
    }
    assert(pad_width(n as nat, width as nat) == width);
    while leaves.len() < width
        invariant
            n == data@.len(),
            n <= leaves@.len() <= width,
            forall|j: int|
                0 <= j < n ==> #[trigger] leaves@[j]@ == leaf_hash(
                    leaf_digest(data@[j].0, data@[j].1, data@[j].2@),
                ),
            forall|j: int| n <= j < leaves@.len() ==> #[trigger] leaves@[j]@ == zero32(),
        decreases width - leaves@.len(),
    {
        let z = [0u8; 32];
        assert(z@ =~= zero32());
        leaves.push(z);
    }
    assert(arrays_view(leaves@) =~= padded_leaves(data@));
    assert(leaves@.len() == pow2(k));
    leaves
}

/// The pairwise reduction of a level of even length.
fn next_level(level: &Vec<[u8; 32]>) -> (next: Vec<[u8; 32]>)
    requires
        level@.len() % 2 == 0,
    ensures
        arrays_view(next@) == reduce_level(arrays_view(level@)),
{
    let len = level.len();
    let half = len / 2;
    let mut next: Vec<[u8; 32]> = Vec::new();
    let mut i: usize = 0;
    while i < half
        invariant
            len == level@.len(),
            len == 2 * half,
            i <= half,
            next@.len() == i,
            forall|j: int|
                0 <= j < i ==> #[trigger] next@[j]@ == node_hash(
                    level@[2 * j]@,
                    level@[2 * j + 1]@,
                ),
        decreases half - i,
    {
        let h = combine(&level[2 * i], &level[2 * i + 1]);
        next.push(h);
        i += 1;
    }
    assert(arrays_view(next@) =~= reduce_level(arrays_view(level@)));
    next
}

proof fn lemma_fold_step(current: Seq<u8>, pv: Seq<(bool, Seq<u8>)>, i: int)
    requires
        0 <= i < pv.len(),
    ensures
        fold_path(current, pv.subrange(i, pv.len() as int)) == fold_path(
            path_step(current, pv[i]),
            pv.subrange(i + 1, pv.len() as int),
        ),
{
    assert(pv.subrange(i, pv.len() as int).drop_first() =~= pv.subrange(i + 1, pv.len() as int));
}

proof fn lemma_level_lengths(levels: Seq<Vec<[u8; 32]>>)
    requires
        levels_chained(levels),
    ensures
        forall|l: int|
            0 <= l < levels.len() - 1 ==> lvl(levels, l).len() == 2 * (#[trigger] lvl(
                levels,
                l + 1,
            )).len(),
{
    assert forall|l: int| 0 <= l < levels.len() - 1 implies lvl(levels, l).len() == 2 * (
    #[trigger] lvl(levels, l + 1)).len() by {
        assert(lvl(levels, (l + 1) - 1) == lvl(levels, l));
    }
}

/// Folding the path for leaf `i` from level `l` up reaches the top node.
proof fn lemma_fold_from_level(levels: Seq<Vec<[u8; 32]>>, i: int, l: int)
    requires
        levels.len() >= 1,
        levels_chained(levels),
        lvl(levels, levels.len() - 1).len() == 1,
        0 <= l < levels.len(),
        0 <= index_at(i, l as nat) < lvl(levels, l).len(),
    ensures
        fold_path(
            lvl(levels, l)[index_at(i, l as nat)],
            path_for(levels, i).subrange(l, levels.len() - 1),
        ) == lvl(levels, levels.len() - 1)[0],
    decreases levels.len() - l,
{
    let h = levels.len() - 1;
    let path = path_for(levels, i);
    if l == h {
        assert(path.subrange(l, h) =~= Seq::<(bool, Seq<u8>)>::empty());
        assert(index_at(i, l as nat) == 0);
    } else {
        lemma_level_lengths(levels);
        let idx = index_at(i, l as nat);
        let next = index_at(i, (l + 1) as nat);
        assert(next == idx / 2);
        assert(lvl(levels, l).len() == 2 * lvl(levels, l + 1).len());
        assert(lvl(levels, l + 1) == reduce_level(lvl(levels, (l + 1) - 1)));
        let cur = lvl(levels, l)[idx];
        assert(path[l] == (idx % 2 == 0, lvl(levels, l)[sibling_of(idx)]));
        if idx % 2 == 0 {
            assert(path_step(cur, path[l]) == node_hash(cur, lvl(levels, l)[idx + 1]));
            assert(2 * next == idx);
        } else {
            assert(path_step(cur, path[l]) == node_hash(lvl(levels, l)[idx - 1], cur));
            assert(2 * next + 1 == idx);
        }
        assert(path_step(cur, path[l]) == lvl(levels, l + 1)[next]);
        lemma_fold_step_gen(cur, path, l, h);
        lemma_fold_from_level(levels, i, l + 1);
    }
}

proof fn lemma_fold_step_gen(current: Seq<u8>, pv: Seq<(bool, Seq<u8>)>, i: int, end: int)
    requires
        0 <= i < end <= pv.len(),
    ensures
        fold_path(current, pv.subrange(i, end)) == fold_path(
            path_step(current, pv[i]),
            pv.subrange(i + 1, end),
        ),
{
    assert(pv.subrange(i, end).drop_first() =~= pv.subrange(i + 1, end));
}

/// Every leaf of a well-formed tree verifies against the root with the proof
/// that the tree gives for it.
pub proof fn lemma_proof_reaches_root(tree: MerkleTree, i: int)
    requires
        tree.wf(),
        0 <= i < tree.width(),
    ensures
        fold_path(lvl(tree.levels_view(), 0)[i], path_for(tree.levels_view(), i))
            == tree.root_view(),
{
    let levels = tree.levels_view();
    assert(path_for(levels, i).subrange(0, levels.len() - 1) =~= path_for(levels, i));
    lemma_fold_from_level(levels, i, 0);
}

/// For a tree built from `data`, the leaf node of record `i` verifies with
/// the proof for index `i`.
pub proof fn lemma_built_leaf_verifies(tree: MerkleTree, data: Seq<(u64, u32, Vec<u8>)>, i: int)
    requires
        tree.wf(),
        data.len() > 0,
        tree.levels_view().len() > 0,
        lvl(tree.levels_view(), 0) == padded_leaves(data),
        0 <= i < data.len(),
    ensures
        fold_path(
            leaf_hash(leaf_digest(data[i].0, data[i].1, data[i].2@)),
            path_for(tree.levels_view(), i),
        ) == tree.root_view(),
{
    lemma_pad_width_ge(data.len(), 1);
    lemma_proof_reaches_root(tree, i);
}

proof fn lemma_index_at_shift(i: usize, l: usize)
    requires
        l < usize::BITS,
    ensures
        index_at(i as int, l as nat) == (i >> l) as int,
    decreases l,
{
    if l == 0 {
        assert(i >> 0usize == i) by (bit_vector);
    } else {
        lemma_index_at_shift(i, (l - 1) as usize);
        let k = (l - 1) as usize;
        assert((i >> k) / 2 == i >> l) by (bit_vector)
            requires
                k + 1 == l,
                l < usize::BITS,
        ;
    }
}

/// The left/right flags of a proof path are the bits of the leaf index:
/// on level `l` the running hash is the left child exactly when bit `l` of
/// the index is clear.
pub proof fn lemma_path_flags(levels: Seq<Vec<[u8; 32]>>, i: usize, l: usize)
    requires
        l + 1 < levels.len(),
        l < usize::BITS,
    ensures
        path_for(levels, i as int)[l as int].0 == ((i >> l) & 1 == 0),
{
    lemma_index_at_shift(i, l);
    let x = i >> l;
    assert((x % 2 == 0) == (x & 1 == 0)) by (bit_vector);
}

proof fn lemma_pow2_pos(k: nat)
    ensures
        pow2(k) >= 1,
    decreases k,
{
    if k > 0 {
        lemma_pow2_pos((k - 1) as nat);
    }
}

proof fn lemma_pad_width_ge(n: nat, w: nat)
    requires
        w >= 1,
    ensures
        pad_width(n, w) >= n,
        pad_width(n, w) >= w,
    decreases if n > w {
        (n - w) as nat
    } else {
        0nat
    },
{
    if w < n {
        lemma_pad_width_ge(n, 2 * w);
    }
}

} // verus!
