//! Merkle tree over the sections of a replay, and the hybrid
//! Ed25519 + ML-DSA-65 signature of its root.

use crate::digest::{sha3_256, sha3_256_digest, NodeHash};
use crate::signing::{
    base64_decode, base64_decoding, base64_encode, base64_encoding, ed25519_accepts, ed25519_generate_and_sign,
    ed25519_verify, mldsa65_accepts, mldsa65_generate_and_sign, mldsa65_verify,
    ED25519_PUBLIC_KEY_LEN, ED25519_SIGNATURE_LEN, MLDSA65_PUBLIC_KEY_LEN, MLDSA65_SIGNATURE_LEN,
};
use vstd::prelude::*;

verus! {

// ---------------------------------------------------------------------------
// Mathematical model of the tree
// ---------------------------------------------------------------------------

/// The powers of two reached by doubling `p` until it is at least `n`.
pub open spec fn double_until(p: nat, n: nat) -> nat
    decreases (if p < n { n - p } else { 0 }),
{
    if p == 0 || p >= n {
        p
    } else {
        double_until(2 * p, n)
    }
}

/// The smallest power of two that is at least `n` (1 when `n` is 0 or 1),
/// as `usize::next_power_of_two` computes it.
pub open spec fn next_pow2(n: nat) -> nat {
    double_until(1, n)
}

/// Whether `p` is a power of two.
pub open spec fn is_pow2(p: nat) -> bool
    decreases p,
{
    if p == 1 {
        true
    } else if p == 0 || p % 2 == 1 {
        false
    } else {
        is_pow2(p / 2)
    }
}

/// Number of nodes in the array-laid-out tree over `len` leaves.
pub open spec fn tree_size(len: nat) -> nat {
    (2 * next_pow2(len) - 1) as nat
}

/// Index of the first leaf slot in the array layout.
pub open spec fn leaf_offset(len: nat) -> nat {
    (next_pow2(len) - 1) as nat
}

/// Leaf slot `j` of the bottom row: the `j`-th leaf, or the last leaf
/// repeated to fill the row up to a power of two.
pub open spec fn padded_leaf(leaves: Seq<Seq<u8>>, j: int) -> Seq<u8> {
    if j < leaves.len() {
        leaves[j]
    } else {
        leaves.last()
    }
}

/// The hash of an inner node: SHA3-256 of its two children concatenated.
pub open spec fn node_hash(left: Seq<u8>, right: Seq<u8>) -> Seq<u8> {
    sha3_256(left + right)
}

/// Node `i` of the array-laid-out tree whose bottom row starts at `offset`:
/// children of node `i` are `2i+1` and `2i+2`, the root is node 0.
pub open spec fn node_at(leaves: Seq<Seq<u8>>, offset: nat, i: nat) -> Seq<u8>
    decreases (if i < offset { offset - i } else { 0 }),
{
    if i >= offset {
        padded_leaf(leaves, i - offset)
    } else {
        node_hash(node_at(leaves, offset, 2 * i + 1), node_at(leaves, offset, 2 * i + 2))
    }
}

/// Node `i` of the Merkle tree over the leaf hashes `leaves`.
pub open spec fn merkle_node(leaves: Seq<Seq<u8>>, i: nat) -> Seq<u8> {
    node_at(leaves, leaf_offset(leaves.len()), i)
}

/// The views of a sequence of hashes.
pub open spec fn hash_views(hs: Seq<NodeHash>) -> Seq<Seq<u8>> {
    hs.map_values(|h: NodeHash| h@)
}

// ---------------------------------------------------------------------------
// Facts about powers of two
// ---------------------------------------------------------------------------

proof fn lemma_double_until_ge(p: nat, n: nat)
    requires
        p >= 1,
    ensures
        double_until(p, n) >= p,
        double_until(p, n) >= n,
    decreases (if p < n { n - p } else { 0 }),
{
    if p < n {
        lemma_double_until_ge(2 * p, n);
    }
}

proof fn lemma_double_until_pow2(p: nat, n: nat)
    requires
        is_pow2(p),
    ensures
        is_pow2(double_until(p, n)),
    decreases (if p < n { n - p } else { 0 }),
{
    if p != 0 && p < n {
        assert((2 * p) / 2 == p);
        assert(is_pow2(2 * p));
        lemma_double_until_pow2(2 * p, n);
    }
}

proof fn lemma_pow2_ge_one(p: nat)
    requires
        is_pow2(p),
    ensures
        p >= 1,
    decreases p,
{
    if p != 1 {
        lemma_pow2_ge_one(p / 2);
    }
}

/// Between two powers of two `q < p`, `2q <= p`.
proof fn lemma_pow2_double_le(q: nat, p: nat)
    requires
        is_pow2(q),
        is_pow2(p),
        q < p,
    ensures
        2 * q <= p,
    decreases p,
{
    lemma_pow2_ge_one(q);
    if p != 1 {
        // p is even; p / 2 is a power of two
        if q == 1 {
            lemma_pow2_ge_one(p / 2);
        } else {
            lemma_pow2_double_le(q / 2, p / 2);
        }
    }
}

proof fn lemma_double_until_least(p: nat, n: nat, q: nat)
    requires
        is_pow2(p),
        is_pow2(q),
        p <= q,
        n <= q,
    ensures
        double_until(p, n) <= q,
    decreases (if p < n { n - p } else { 0 }),
{
    lemma_pow2_ge_one(p);
    if p < n {
        lemma_pow2_double_le(p, q);
        assert((2 * p) / 2 == p);
        lemma_double_until_least(2 * p, n, q);
    }
}

/// `next_pow2(n)` is the least power of two that is at least `n`: this is
/// what `usize::next_power_of_two` is documented to return.
pub proof fn lemma_next_pow2_is_least_power_at_least(n: nat)
    ensures
        is_pow2(next_pow2(n)),
        next_pow2(n) >= n,
        next_pow2(n) >= 1,
        forall|q: nat| is_pow2(q) && q >= n ==> next_pow2(n) <= q,
{
    lemma_double_until_ge(1, n);
    lemma_double_until_pow2(1, n);
    assert forall|q: nat| is_pow2(q) && q >= n implies next_pow2(n) <= q by {
        lemma_pow2_ge_one(q);
        lemma_double_until_least(1, n, q);
    }
}

// ---------------------------------------------------------------------------
// Building the tree
// ---------------------------------------------------------------------------

/// The smallest power of two that is at least `n`.
fn next_power_of_two(n: usize) -> (p: usize)
    requires
        next_pow2(n as nat) <= usize::MAX,
    ensures
        p as nat == next_pow2(n as nat),
{
    let mut p: usize = 1;
    while p < n
        invariant
            p >= 1,
            double_until(p as nat, n as nat) == next_pow2(n as nat),
            next_pow2(n as nat) <= usize::MAX,
        decreases (if p < n { n - p } else { 0 }),
    {
        proof {
            lemma_double_until_ge(2 * p as nat, n as nat);
        }
        p = p * 2;
    }
    p
}

/// Hash of one section: the leaf of the tree.
fn hash_section(data: &[u8]) -> (res: NodeHash)
    ensures
        res@ == sha3_256(data@),
{
    sha3_256_digest(data)
}

/// Hash of an inner node from its two children.
fn hash_pair(left: &NodeHash, right: &NodeHash) -> (res: NodeHash)
    ensures
        res@ == node_hash(left@, right@),
{
    let mut buf: Vec<u8> = Vec::with_capacity(64);
    for j in 0..32
        invariant
            buf@ == left@.subrange(0, j as int),
    {
        buf.push(left[j]);
    }
    for j in 0..32
        invariant
            buf@ == left@ + right@.subrange(0, j as int),
    {
        buf.push(right[j]);
    }
    assert(buf@ == left@ + right@);
    sha3_256_digest(buf.as_slice())
}


/// Lays out the Merkle tree over `leaves` in an array: node `i` has children
/// `2i+1` and `2i+2`, the bottom row starts at `next_pow2(len) - 1` and is
/// filled up to a power of two by repeating the last leaf, node 0 is the root.
fn build_tree(leaves: &[NodeHash]) -> (tree: Vec<NodeHash>)
    requires
        leaves@.len() > 0,
        2 * next_pow2(leaves@.len()) <= usize::MAX,
    ensures
        tree@.len() == tree_size(leaves@.len()),
        forall|k: int|
            0 <= k < tree@.len() ==> #[trigger] tree@[k]@ == merkle_node(
                hash_views(leaves@),
                k as nat,
            ),
{
    let ghost hs = hash_views(leaves@);
    proof {
        lemma_next_pow2_is_least_power_at_least(leaves@.len());
    }
    let len = leaves.len();
    let n = next_power_of_two(len);
    let size = 2 * n - 1;
    let offset = n - 1;
    let ghost off = offset as nat;
    assert(off == leaf_offset(hs.len()));

    let mut tree: Vec<NodeHash> = Vec::with_capacity(size);
    let mut k: usize = 0;
    while k < size
        invariant
            k <= size,
            tree@.len() == k,
        decreases size - k,
    {
        tree.push([0u8; 32]);
        k = k + 1;
    }

    // Bottom row: the leaves themselves.
    for i in 0..len
        invariant
            len == leaves@.len(),
            tree@.len() == size,
            size == 2 * n - 1,
            offset == n - 1,
            len <= n,
            hs == hash_views(leaves@),
            forall|j: int| 0 <= j < i ==> #[trigger] tree@[offset + j]@ == padded_leaf(hs, j),
    {
        tree[offset + i] = leaves[i];
    }

    // Fill the row up to a power of two by repeating the last leaf.
    for i in len..n
        invariant
            len == leaves@.len(),
            len >= 1,
            tree@.len() == size,
            size == 2 * n - 1,
            offset == n - 1,
            len <= n,
            hs == hash_views(leaves@),
            forall|j: int| 0 <= j < i ==> #[trigger] tree@[offset + j]@ == padded_leaf(hs, j),
    {
        let last = tree[offset + len - 1];
        assert(last@ == padded_leaf(hs, len - 1)) by {
            assert(tree@[offset + (len - 1)]@ == padded_leaf(hs, len - 1));
        }
        tree[offset + i] = last;
    }
    assert forall|k: int| offset <= k < size implies #[trigger] tree@[k]@ == node_at(
        hs,
        off,
        k as nat,
    ) by {
        assert(tree@[offset + (k - offset)]@ == padded_leaf(hs, k - offset));
    }

    // Inner nodes, bottom-up.
    let mut i = offset;
    while i > 0
        invariant
            i <= offset,
            tree@.len() == size,
            size == 2 * n - 1,
            offset == n - 1,
            off == offset,
            forall|k: int| i <= k < size ==> #[trigger] tree@[k]@ == node_at(hs, off, k as nat),
        decreases i,
    {
        i = i - 1;
        let left = tree[2 * i + 1];
        let right = tree[2 * i + 2];
        let h = hash_pair(&left, &right);
        assert(h@ == node_at(hs, off, i as nat));
        tree[i] = h;
    }
    proof {
        assert forall|k: int| 0 <= k < tree@.len() implies #[trigger] tree@[k]@ == merkle_node(
            hs,
            k as nat,
        ) by {
            if k >= offset {
                assert(tree@[offset + (k - offset)]@ == padded_leaf(hs, k - offset));
            }
        }
    }
    tree
}


// ---------------------------------------------------------------------------
// The tree and its verification
// ---------------------------------------------------------------------------

/// A Merkle tree over the sections of a replay: the hash of each section
/// (the leaves), the whole array-laid-out tree (the nodes), and its root.
#[derive(Debug, Clone)]
pub struct MerkleTree {
    pub leaves: Vec<NodeHash>,
    pub nodes: Vec<NodeHash>,
    pub root: NodeHash,
}

/// The outcome of checking sections against a tree's leaves.
#[derive(Debug, Clone, Copy)]
pub enum VerifyResult {
    Valid,
    Tampered { section_index: Option<usize> },
}

/// The views of a sequence of byte slices.
pub open spec fn section_views(sections: Seq<&[u8]>) -> Seq<Seq<u8>> {
    sections.map_values(|s: &[u8]| s@)
}

/// The leaf hashes of a tree over `sections`: SHA3-256 of each section.
pub open spec fn leaf_hashes_of(sections: Seq<Seq<u8>>) -> Seq<Seq<u8>> {
    sections.map_values(|s: Seq<u8>| sha3_256(s))
}

/// The first index at or after `i` where a section does not hash to its leaf.
pub open spec fn first_mismatch(leaves: Seq<Seq<u8>>, sections: Seq<Seq<u8>>, i: nat) -> Option<
    nat,
>
    decreases sections.len() - i,
{
    if i >= sections.len() {
        None
    } else if sha3_256(sections[i as int]) != leaves[i as int] {
        Some(i)
    } else {
        first_mismatch(leaves, sections, i + 1)
    }
}

/// What checking `sections` against the leaf hashes `leaves` yields: a
/// different number of sections is tampering at no particular section;
/// otherwise the first section whose hash differs from its leaf is reported.
pub open spec fn verify_outcome(leaves: Seq<Seq<u8>>, sections: Seq<Seq<u8>>) -> VerifyResult {
    if sections.len() != leaves.len() {
        VerifyResult::Tampered { section_index: None }
    } else {
        match first_mismatch(leaves, sections, 0) {
            None => VerifyResult::Valid,
            Some(i) => VerifyResult::Tampered { section_index: Some(i as usize) },
        }
    }
}

impl MerkleTree {
    /// The leaf hashes, as byte sequences.
    pub open spec fn leaf_views(&self) -> Seq<Seq<u8>> {
        hash_views(self.leaves@)
    }

    /// The nodes and the root are those of the Merkle tree over the leaves.
    pub open spec fn wf(&self) -> bool {
        &&& self.leaves@.len() > 0
        &&& self.nodes@.len() == tree_size(self.leaves@.len())
        &&& forall|k: int|
            0 <= k < self.nodes@.len() ==> #[trigger] self.nodes@[k]@ == merkle_node(
                self.leaf_views(),
                k as nat,
            )
        &&& self.root@ == merkle_node(self.leaf_views(), 0)
    }

    /// Builds the tree over `sections`: each leaf is the SHA3-256 hash of
    /// its section, and the root commits to all of them.
    pub fn new(sections: &[&[u8]]) -> (tree: Self)
        requires
            sections@.len() > 0,
            2 * next_pow2(sections@.len()) <= usize::MAX,
        ensures
            tree.wf(),
            tree.leaf_views() == leaf_hashes_of(section_views(sections@)),
    {
        let ghost secs = section_views(sections@);
        let mut leaves: Vec<NodeHash> = Vec::with_capacity(sections.len());
        for i in 0..sections.len()
            invariant
                secs == section_views(sections@),
                leaves@.len() == i,
                hash_views(leaves@) == leaf_hashes_of(secs).subrange(0, i as int),
        {
            let h = hash_section(sections[i]);
            assert(secs[i as int] == sections@[i as int]@);
            assert(leaf_hashes_of(secs)[i as int] == sha3_256(secs[i as int]));
            let ghost before = leaves@;
            leaves.push(h);
            proof {
                assert forall|j: int| 0 <= j < i + 1 implies #[trigger] hash_views(leaves@)[j]
                    == leaf_hashes_of(secs)[j] by {
                    if j < i {
                        assert(leaves@[j] == before[j]);
                        assert(hash_views(before)[j] == leaf_hashes_of(secs).subrange(0, i as int)[j]);
                    }
                }
                assert(hash_views(leaves@) =~= leaf_hashes_of(secs).subrange(0, i + 1));
            }
        }
        assert(hash_views(leaves@) =~= leaf_hashes_of(secs));
        let nodes = build_tree(leaves.as_slice());
        proof {
            lemma_next_pow2_is_least_power_at_least(leaves@.len());
        }
        let root = nodes[0];
        MerkleTree { leaves, nodes, root }
    }

    /// Checks `sections` against the leaves: `Valid` when there are as many
    /// sections as leaves and each hashes to its leaf; otherwise `Tampered`,
    /// naming the first section whose hash differs when the counts agree.
    pub fn verify(&self, sections: &[&[u8]]) -> (res: VerifyResult)
        ensures
            res == verify_outcome(self.leaf_views(), section_views(sections@)),
    {
        let ghost leaves = self.leaf_views();
        let ghost secs = section_views(sections@);
        if sections.len() != self.leaves.len() {
            return VerifyResult::Tampered { section_index: None };
        }
        for i in 0..sections.len()
            invariant
                leaves == self.leaf_views(),
                secs == section_views(sections@),
                secs.len() == leaves.len(),
                first_mismatch(leaves, secs, 0) == first_mismatch(leaves, secs, i as nat),
        {
            let hash = hash_section(sections[i]);
            if !hashes_equal(&hash, &self.leaves[i]) {
                return VerifyResult::Tampered { section_index: Some(i) };
            }
        }
        VerifyResult::Valid
    }
}

/// Byte-wise equality of two hashes.
fn hashes_equal(a: &NodeHash, b: &NodeHash) -> (eq: bool)
    ensures
        eq == (a@ == b@),
{
    let mut j: usize = 0;
    while j < 32
        invariant
            j <= 32,
            a@.subrange(0, j as int) == b@.subrange(0, j as int),
        decreases 32 - j,
    {
        if a[j] != b[j] {
            assert(a@[j as int] != b@[j as int]);
            return false;
        }
        assert(a@.subrange(0, j + 1) =~= a@.subrange(0, j as int).push(a@[j as int]));
        assert(b@.subrange(0, j + 1) =~= b@.subrange(0, j as int).push(b@[j as int]));
        j = j + 1;
    }
    assert(a@ =~= a@.subrange(0, 32));
    assert(b@ =~= b@.subrange(0, 32));
    true
}


// ---------------------------------------------------------------------------
// Laws of verification
// ---------------------------------------------------------------------------

proof fn lemma_first_mismatch_none(sections: Seq<Seq<u8>>, i: nat)
    ensures
        first_mismatch(leaf_hashes_of(sections), sections, i) is None,
    decreases sections.len() - i,
{
    if i < sections.len() {
        lemma_first_mismatch_none(sections, i + 1);
    }
}

proof fn lemma_first_mismatch_skips_agreeing_prefix(
    leaves: Seq<Seq<u8>>,
    sections: Seq<Seq<u8>>,
    i: nat,
    k: nat,
)
    requires
        i <= k < sections.len(),
        sections.len() == leaves.len(),
        forall|j: int| i <= j < k ==> sha3_256(#[trigger] sections[j]) == leaves[j],
        sha3_256(sections[k as int]) != leaves[k as int],
    ensures
        first_mismatch(leaves, sections, i) == Some(k),
    decreases k - i,
{
    if i < k {
        lemma_first_mismatch_skips_agreeing_prefix(leaves, sections, i + 1, k);
    }
}

proof fn lemma_first_mismatch_none_means_all_match(
    leaves: Seq<Seq<u8>>,
    sections: Seq<Seq<u8>>,
    i: nat,
)
    requires
        first_mismatch(leaves, sections, i) is None,
    ensures
        forall|j: int| i <= j < sections.len() ==> sha3_256(#[trigger] sections[j]) == leaves[j],
    decreases sections.len() - i,
{
    if i < sections.len() {
        lemma_first_mismatch_none_means_all_match(leaves, sections, i + 1);
    }
}

/// A tree accepts the very sections it was built from: checking them
/// against its leaves gives `Valid`.
pub proof fn law_tree_accepts_its_own_sections(sections: Seq<Seq<u8>>)
    ensures
        verify_outcome(leaf_hashes_of(sections), sections) == VerifyResult::Valid,
{
    lemma_first_mismatch_none(sections, 0);
}

/// A tree accepts the sections it was built from: when its leaves are the
/// hashes of `sections`, as `MerkleTree::new` makes them, checking those
/// same sections with `MerkleTree::verify` gives `Valid`.
pub proof fn law_built_tree_accepts_its_sections(tree: MerkleTree, sections: Seq<Seq<u8>>)
    requires
        tree.leaf_views() == leaf_hashes_of(sections),
    ensures
        verify_outcome(tree.leaf_views(), sections) == VerifyResult::Valid,
{
    law_tree_accepts_its_own_sections(sections);
}

/// Sections that pass verification are exactly those whose hashes are the
/// leaves: `Valid` means every section hashes to its leaf, and no more
/// or fewer sections than leaves.
pub proof fn law_valid_means_every_section_matches(leaves: Seq<Seq<u8>>, sections: Seq<Seq<u8>>)
    requires
        verify_outcome(leaves, sections) == VerifyResult::Valid,
    ensures
        leaves == leaf_hashes_of(sections),
{
    lemma_first_mismatch_none_means_all_match(leaves, sections, 0);
    assert(leaves =~= leaf_hashes_of(sections));
}

/// Changing the number of sections is reported as tampering at no
/// particular section.
pub proof fn law_section_count_change_is_tampering(leaves: Seq<Seq<u8>>, sections: Seq<Seq<u8>>)
    requires
        sections.len() != leaves.len(),
    ensures
        verify_outcome(leaves, sections) == (VerifyResult::Tampered { section_index: None }),
{
}

/// Verification pinpoints the first modified section: if `tampered` agrees
/// with the genuine sections before index `k` and section `k` now hashes
/// differently, the tree built from the genuine sections reports section `k`.
pub proof fn law_first_changed_section_is_reported(
    genuine: Seq<Seq<u8>>,
    tampered: Seq<Seq<u8>>,
    k: nat,
)
    requires
        tampered.len() == genuine.len(),
        k < genuine.len(),
        forall|j: int| 0 <= j < k ==> #[trigger] tampered[j] == genuine[j],
        sha3_256(tampered[k as int]) != sha3_256(genuine[k as int]),
    ensures
        verify_outcome(leaf_hashes_of(genuine), tampered) == (VerifyResult::Tampered {
            section_index: Some(k as usize),
        }),
{
    let leaves = leaf_hashes_of(genuine);
    assert forall|j: int| 0 <= j < k implies sha3_256(#[trigger] tampered[j]) == leaves[j] by {
        assert(tampered[j] == genuine[j]);
    }
    lemma_first_mismatch_skips_agreeing_prefix(leaves, tampered, 0, k);
}


// ---------------------------------------------------------------------------
// Signed sidecar
// ---------------------------------------------------------------------------

/// Names of the six replay sections, in leaf order.
pub const SECTION_LABELS: [&'static str; 6] = [
    "Header",
    "Match Metadata",
    "Goals",
    "Player Stats",
    "Network Frames",
    "Content & Indices",
];

/// Name of the signature scheme a sidecar carries.
pub open spec fn hybrid_algorithm_name() -> Seq<char> {
    "hybrid-ed25519-mldsa65"@
}

/// A sidecar file: the Merkle tree of a replay with its root signed under
/// both Ed25519 and ML-DSA-65. The ML-DSA key and signature are stored as
/// standard Base64 text.
pub struct SidecarFile {
    pub algorithm: String,
    pub ed25519_public_key: Vec<u8>,
    pub ed25519_signature: Vec<u8>,
    pub mldsa65_public_key: String,
    pub mldsa65_signature: String,
    pub merkle: MerkleTree,
}

/// Why a sidecar could not be created.
#[derive(Debug)]
pub enum SidecarError {
    /// The operating system's random source failed while drawing the
    /// Ed25519 key.
    Random(rand::Error),
    /// ML-DSA-65 key generation or signing failed, with the error text of
    /// `fips204`.
    MlDsa(&'static str),
}

/// The results of checking both signatures of a sidecar.
#[derive(Debug, Clone, Copy)]
pub struct HybridVerifyResult {
    pub ed25519_ok: bool,
    pub mldsa65_ok: bool,
}

impl HybridVerifyResult {
    /// Both signatures verified.
    pub fn both_valid(&self) -> (ok: bool)
        ensures
            ok == (self.ed25519_ok && self.mldsa65_ok),
    {
        self.ed25519_ok && self.mldsa65_ok
    }
}

impl SidecarFile {
    /// The Ed25519 check passes: key and signature have the right lengths
    /// and the signature is accepted on the Merkle root.
    pub open spec fn ed25519_valid(&self) -> bool {
        &&& self.ed25519_public_key@.len() == ED25519_PUBLIC_KEY_LEN
        &&& self.ed25519_signature@.len() == ED25519_SIGNATURE_LEN
        &&& ed25519_accepts(self.ed25519_public_key@, self.merkle.root@, self.ed25519_signature@)
    }

    /// The ML-DSA-65 check passes: both Base64 texts decode, to a key and a
    /// signature of the right lengths, and the signature is accepted on the
    /// Merkle root.
    pub open spec fn mldsa65_valid(&self) -> bool {
        match (base64_decoding(self.mldsa65_public_key@), base64_decoding(self.mldsa65_signature@)) {
            (Some(pk), Some(sig)) => {
                &&& pk.len() == MLDSA65_PUBLIC_KEY_LEN
                &&& sig.len() == MLDSA65_SIGNATURE_LEN
                &&& mldsa65_accepts(pk, self.merkle.root@, sig)
            },
            _ => false,
        }
    }

    /// Puts a sidecar together from the tree, its Ed25519 public key and
    /// signature, and the outcome of ML-DSA-65 key generation and signing:
    /// the fips204 error text when that failed, otherwise the public key
    /// and signature, which are stored as standard Base64 text.
    pub fn assemble(
        tree: MerkleTree,
        ed25519_public_key: Vec<u8>,
        ed25519_signature: Vec<u8>,
        mldsa65: Result<(Vec<u8>, Vec<u8>), &'static str>,
    ) -> (res: Result<SidecarFile, SidecarError>)
        ensures
            match mldsa65 {
                Err(e) => res == Err::<SidecarFile, SidecarError>(SidecarError::MlDsa(e)),
                Ok((pk, sig)) => res matches Ok(s) && {
                    &&& s.merkle == tree
                    &&& s.algorithm@ == hybrid_algorithm_name()
                    &&& s.ed25519_public_key@ == ed25519_public_key@
                    &&& s.ed25519_signature@ == ed25519_signature@
                    &&& s.mldsa65_public_key@ == base64_encoding(pk@)
                    &&& s.mldsa65_signature@ == base64_encoding(sig@)
                    &&& base64_decoding(s.mldsa65_public_key@) == Some(pk@)
                    &&& base64_decoding(s.mldsa65_signature@) == Some(sig@)
                },
            },
    {
        let (ml_pk, ml_sig) = match mldsa65 {
            Ok(pair) => pair,
            Err(e) => {
                return Err(SidecarError::MlDsa(e));
            },
        };
        let mldsa65_public_key = base64_encode(ml_pk.as_slice());
        let mldsa65_signature = base64_encode(ml_sig.as_slice());
        let algorithm = "hybrid-ed25519-mldsa65".to_string();
        proof {
            reveal_strlit("hybrid-ed25519-mldsa65");
        }
        Ok(
            SidecarFile {
                algorithm,
                ed25519_public_key,
                ed25519_signature,
                mldsa65_public_key,
                mldsa65_signature,
                merkle: tree,
            },
        )
    }

    /// Signs the root of `tree` with fresh Ed25519 and ML-DSA-65 key pairs.
    /// A sidecar that comes back carries the tree unchanged, names the
    /// hybrid algorithm, and passes both of its own signature checks. It
    /// fails only when the random source fails while drawing the Ed25519
    /// key, or when `fips204` reports an error while generating or signing
    /// (both depend on the random source).
    pub fn create(tree: MerkleTree) -> (res: Result<SidecarFile, SidecarError>)
        ensures
            res matches Ok(s) ==> {
                &&& s.merkle == tree
                &&& s.algorithm@ == hybrid_algorithm_name()
                &&& s.ed25519_valid()
                &&& s.mldsa65_valid()
            },
    {
        let root: &[u8] = tree.root.as_slice();
        let (ed_pk, ed_sig) = match ed25519_generate_and_sign(root) {
            Ok(pair) => pair,
            Err(e) => {
                return Err(SidecarError::Random(e));
            },
        };
        let mldsa65 = mldsa65_generate_and_sign(root);
        let res = Self::assemble(tree, ed_pk, ed_sig, mldsa65);
        res
    }

    /// Checks both signatures on the Merkle root.
    pub fn verify_signature(&self) -> (res: HybridVerifyResult)
        ensures
            res.ed25519_ok == self.ed25519_valid(),
            res.mldsa65_ok == self.mldsa65_valid(),
    {
        let ed25519_ok = self.verify_ed25519();
        let mldsa65_ok = self.verify_mldsa65();
        HybridVerifyResult { ed25519_ok, mldsa65_ok }
    }

    fn verify_ed25519(&self) -> (ok: bool)
        ensures
            ok == self.ed25519_valid(),
    {
        if self.ed25519_public_key.len() != ED25519_PUBLIC_KEY_LEN {
            return false;
        }
        if self.ed25519_signature.len() != ED25519_SIGNATURE_LEN {
            return false;
        }
        ed25519_verify(
            self.ed25519_public_key.as_slice(),
            self.merkle.root.as_slice(),
            self.ed25519_signature.as_slice(),
        )
    }

    fn verify_mldsa65(&self) -> (ok: bool)
        ensures
            ok == self.mldsa65_valid(),
    {
        let pk = match base64_decode(self.mldsa65_public_key.as_str()) {
            Some(pk) => pk,
            None => {
                return false;
            },
        };
        if pk.len() != MLDSA65_PUBLIC_KEY_LEN {
            return false;
        }
        let sig = match base64_decode(self.mldsa65_signature.as_str()) {
            Some(sig) => sig,
            None => {
                return false;
            },
        };
        if sig.len() != MLDSA65_SIGNATURE_LEN {
            return false;
        }
        mldsa65_verify(pk.as_slice(), self.merkle.root.as_slice(), sig.as_slice())
    }
}

} // verus!
