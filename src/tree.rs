//! The Merkle tree over WOTS public-key digests and its authentication
//! paths.
use crate::hash::{append_bytes, be_bytes, copy_bytes, sha256_of, u32_be_bytes, HashFunction, SHA256};
use crate::hypercube::power;
use vstd::prelude::*;

verus! {

/// H(0x01 ‖ public-seed ‖ be32(g) ‖ be32(p) ‖ left ‖ right): the node at
/// height g, position p, over its two children at height g - 1.
pub open spec fn node_hash(seed: Seq<u8>, g: nat, p: nat, left: Seq<u8>, right: Seq<u8>) -> Seq<u8> {
    sha256_of(seq![1u8] + seed + be_bytes(g, 4) + be_bytes(p, 4) + left + right)
}

/// The node at height g, position p, of the tree over `leaves`.
pub open spec fn tree_node(seed: Seq<u8>, leaves: Seq<Seq<u8>>, g: nat, p: nat) -> Seq<u8>
    decreases g,
{
    if g == 0 {
        leaves[p as int]
    } else {
        node_hash(
            seed,
            g,
            p,
            tree_node(seed, leaves, (g - 1) as nat, 2 * p),
            tree_node(seed, leaves, (g - 1) as nat, 2 * p + 1),
        )
    }
}

/// The sibling of position p on its level.
pub open spec fn sibling(p: nat) -> nat {
    if p % 2 == 0 {
        p + 1
    } else {
        (p - 1) as nat
    }
}

/// The authentication path of leaf k: the sibling at each height below h.
pub open spec fn auth_path_of(seed: Seq<u8>, leaves: Seq<Seq<u8>>, k: nat, h: nat) -> Seq<Seq<u8>> {
    Seq::new(h, |g: int| tree_node(seed, leaves, g as nat, sibling(k / power(2, g as nat) as nat)))
}

/// The root reached from `node` at height g, position `idx`, by the
/// siblings path[g..n].
pub open spec fn path_root(
    seed: Seq<u8>,
    node: Seq<u8>,
    idx: nat,
    path: Seq<Seq<u8>>,
    g: nat,
    n: nat,
) -> Seq<u8>
    decreases n - g,
{
    if g >= n {
        node
    } else {
        let parent = if idx % 2 == 0 {
            node_hash(seed, g + 1, idx / 2, node, path[g as int])
        } else {
            node_hash(seed, g + 1, idx / 2, path[g as int], node)
        };
        path_root(seed, parent, idx / 2, path, g + 1, n)
    }
}

proof fn lemma_path_root_top(seed: Seq<u8>, node: Seq<u8>, idx: nat, path: Seq<Seq<u8>>, n: nat)
    ensures
        path_root(seed, node, idx, path, n, n) == node,
{
}

proof fn lemma_div_pow2_step(k: nat, g: nat)
    ensures
        power(2, g + 1) == 2 * power(2, g),
        power(2, g) >= 1,
        k / power(2, g + 1) as nat == (k / power(2, g) as nat) / 2,
{
    crate::hypercube::lemma_power_monotone(2, 0, g);
    assert(power(2, g + 1) == 2 * power(2, g));
    vstd::arithmetic::div_mod::lemma_div_denominator(k as int, power(2, g), 2);
    assert(power(2, g) * 2 == 2 * power(2, g));
}

/// Climbing the authentication path of leaf k from the node on its path at
/// height g reaches the root.
pub proof fn lemma_path_root(seed: Seq<u8>, leaves: Seq<Seq<u8>>, k: nat, h: nat, g: nat)
    requires
        g <= h,
    ensures
        path_root(
            seed,
            tree_node(seed, leaves, g, k / power(2, g) as nat),
            k / power(2, g) as nat,
            auth_path_of(seed, leaves, k, h),
            g,
            h,
        ) == tree_node(seed, leaves, h, k / power(2, h) as nat),
    decreases h - g,
{
    if g < h {
        lemma_div_pow2_step(k, g);
        let idx = k / power(2, g) as nat;
        let path = auth_path_of(seed, leaves, k, h);
        assert(path[g as int] == tree_node(seed, leaves, g, sibling(idx)));
        let parent_idx = idx / 2;
        if idx % 2 == 0 {
            assert(2 * parent_idx == idx && sibling(idx) == 2 * parent_idx + 1);
        } else {
            assert(2 * parent_idx + 1 == idx && sibling(idx) == 2 * parent_idx);
        }
        assert(tree_node(seed, leaves, g + 1, parent_idx) == node_hash(
            seed,
            g + 1,
            parent_idx,
            tree_node(seed, leaves, g, 2 * parent_idx),
            tree_node(seed, leaves, g, 2 * parent_idx + 1),
        ));
        let node = tree_node(seed, leaves, g, idx);
        let parent = if idx % 2 == 0 {
            node_hash(seed, g + 1, idx / 2, node, path[g as int])
        } else {
            node_hash(seed, g + 1, idx / 2, path[g as int], node)
        };
        assert(parent == tree_node(seed, leaves, g + 1, parent_idx));
        assert(path_root(seed, node, idx, path, g, h) == path_root(
            seed,
            parent,
            parent_idx,
            path,
            g + 1,
            h,
        ));
        lemma_path_root(seed, leaves, k, h, g + 1);
        assert(k / power(2, (g + 1) as nat) as nat == parent_idx);
        assert(path_root(seed, parent, parent_idx, path, g + 1, h) == tree_node(
            seed,
            leaves,
            h,
            k / power(2, h) as nat,
        ));
    } else {
        let idx = k / power(2, g) as nat;
        assert(g == h);
        lemma_path_root_top(seed, tree_node(seed, leaves, g, idx), idx, auth_path_of(seed, leaves, k, h), h);
        assert(path_root(
            seed,
            tree_node(seed, leaves, g, idx),
            idx,
            auth_path_of(seed, leaves, k, h),
            g,
            h,
        ) == tree_node(seed, leaves, g, idx));
    }
}

/// A leaf's authentication path leads to the root of the tree.
pub proof fn lemma_auth_path_reaches_root(seed: Seq<u8>, leaves: Seq<Seq<u8>>, k: nat, h: nat)
    requires
        k < power(2, h),
    ensures
        path_root(seed, leaves[k as int], k, auth_path_of(seed, leaves, k, h), 0, h) == tree_node(
            seed,
            leaves,
            h,
            0,
        ),
{
    lemma_path_root(seed, leaves, k, h, 0);
    assert(power(2, 0) == 1);
    assert(k / 1 == k);
    vstd::arithmetic::div_mod::lemma_basic_div(k as int, power(2, h));
    assert(k / power(2, h) as nat == 0);
}

/// H(0x01 ‖ public-seed ‖ be32(height) ‖ be32(index) ‖ left ‖ right).
pub fn hash_tree_node(
    hasher: &SHA256,
    public_seed: &[u8],
    height: usize,
    index: usize,
    left: &[u8],
    right: &[u8],
) -> (r: Vec<u8>)
    requires
        height <= u32::MAX,
        index <= u32::MAX,
    ensures
        r@ == node_hash(public_seed@, height as nat, index as nat, left@, right@),
        r@.len() == 32,
{
    let mut data: Vec<u8> = Vec::new();
    data.push(1u8);
    append_bytes(&mut data, public_seed);
    let hb = u32_be_bytes(height as u32);
    append_bytes(&mut data, hb.as_slice());
    let ib = u32_be_bytes(index as u32);
    append_bytes(&mut data, ib.as_slice());
    append_bytes(&mut data, left);
    append_bytes(&mut data, right);
    assert(data@ =~= seq![1u8] + public_seed@ + be_bytes(height as nat, 4) + be_bytes(
        index as nat,
        4,
    ) + left@ + right@);
    hasher.hash(data.as_slice())
}

/// A Merkle tree: `nodes[g][p]` is the node at height g, position p.
#[derive(Debug, Clone)]
pub struct MerkleTree {
    pub nodes: Vec<Vec<Vec<u8>>>,
    pub height: usize,
}

/// The byte strings of a list of nodes.
pub open spec fn node_seqs(c: Seq<Vec<u8>>) -> Seq<Seq<u8>> {
    c.map_values(|x: Vec<u8>| x@)
}

impl MerkleTree {
    /// The tree holds the nodes of the tree over `leaves` with `seed`.
    pub open spec fn built_from(&self, seed: Seq<u8>, leaves: Seq<Seq<u8>>) -> bool {
        &&& self.height < 32
        &&& leaves.len() == power(2, self.height as nat)
        &&& self.nodes@.len() == self.height + 1
        &&& forall|g: int|
            0 <= g <= self.height ==> (#[trigger] self.nodes@[g])@.len() == power(
                2,
                (self.height - g) as nat,
            )
        &&& forall|g: int, p: int|
            0 <= g <= self.height && 0 <= p < self.nodes@[g]@.len() ==> (
            #[trigger] self.nodes@[g]@[p])@ == tree_node(seed, leaves, g as nat, p as nat)
        &&& forall|g: int, p: int|
            1 <= g <= self.height && 0 <= p < self.nodes@[g]@.len() ==> (
            #[trigger] self.nodes@[g]@[p])@.len() == 32
    }

    /// The tree over 2^h leaves, h < 32.
    pub fn build(leaves: &[Vec<u8>], public_seed: &[u8], hasher: &SHA256) -> (r: Self)
        requires
            exists|h: nat| h < 32 && leaves@.len() == power(2, h),
        ensures
            r.built_from(public_seed@, node_seqs(leaves@)),
    {
        let ghost lv = node_seqs(leaves@);
        let n = leaves.len();
        let mut height: usize = 0;
        let mut m: usize = 1;
        proof {
            let h = choose|h: nat| h < 32 && leaves@.len() == power(2, h);
            crate::hypercube::lemma_power_monotone(2, 0, h);
        }
        while m < n
            invariant
                m == power(2, height as nat),
                exists|h: nat| h < 32 && n == power(2, h) && height <= h,
                n == leaves@.len(),
            decreases n - m,
        {
            proof {
                let h = choose|h: nat| h < 32 && n == power(2, h) && height <= h;
                if height == h {
                    assert(false);
                }
                crate::hypercube::lemma_power_monotone(2, (height + 1) as nat, h);
                assert(power(2, (height + 1) as nat) == 2 * power(2, height as nat));
            }
            m = m * 2;
            height = height + 1;
        }
        proof {
            let h = choose|h: nat| h < 32 && n == power(2, h) && height <= h;
            if height < h {
                crate::hypercube::lemma_power_monotone(2, (height + 1) as nat, h);
                assert(power(2, (height + 1) as nat) == 2 * power(2, height as nat));
            }
            assert(height == h);
        }
        let mut level0: Vec<Vec<u8>> = Vec::new();
        let mut i: usize = 0;
        while i < n
            invariant
                i <= n,
                n == leaves@.len(),
                lv == node_seqs(leaves@),
                level0@.len() == i,
                forall|p: int| 0 <= p < i ==> (#[trigger] level0@[p])@ == tree_node(public_seed@, lv, 0, p as nat),
            decreases n - i,
        {
            level0.push(copy_bytes(leaves[i].as_slice()));
            i = i + 1;
        }
        let mut nodes: Vec<Vec<Vec<u8>>> = Vec::new();
        nodes.push(level0);
        let mut g: usize = 0;
        let mut width: usize = n;
        while g < height
            invariant
                g <= height,
                height < 32,
                n == power(2, height as nat),
                width == power(2, (height - g) as nat),
                nodes@.len() == g + 1,
                forall|q: int| 0 <= q <= g ==> (#[trigger] nodes@[q])@.len() == power(2, (height - q) as nat),
                forall|q: int, p: int|
                    0 <= q <= g && 0 <= p < nodes@[q]@.len() ==> (#[trigger] nodes@[q]@[p])@ == tree_node(
                        public_seed@,
                        lv,
                        q as nat,
                        p as nat,
                    ),
                forall|q: int, p: int|
                    1 <= q <= g && 0 <= p < nodes@[q]@.len() ==> (#[trigger] nodes@[q]@[p])@.len() == 32,
            decreases height - g,
        {
            proof {
                assert(power(2, (height - g) as nat) == 2 * power(2, (height - g - 1) as nat));
                crate::hypercube::lemma_power_monotone(2, (height - g - 1) as nat, 31);
                crate::hypercube::lemma_power2_values();
            }
            let half = width / 2;
            let mut next: Vec<Vec<u8>> = Vec::new();
            let mut p: usize = 0;
            while p < half
                invariant
                    p <= half,
                    half <= 0x8000_0000,
                    g < height,
                    height < 32,
                    half == power(2, (height - g - 1) as nat),
                    nodes@.len() == g + 1,
                    nodes@[g as int]@.len() == 2 * half,
                    forall|pp: int|
                        0 <= pp < nodes@[g as int]@.len() ==> (#[trigger] nodes@[g as int]@[pp])@
                            == tree_node(public_seed@, lv, g as nat, pp as nat),
                    next@.len() == p,
                    forall|pp: int|
                        0 <= pp < p ==> (#[trigger] next@[pp])@ == tree_node(
                            public_seed@,
                            lv,
                            (g + 1) as nat,
                            pp as nat,
                        ),
                    forall|pp: int| 0 <= pp < p ==> (#[trigger] next@[pp])@.len() == 32,
                decreases half - p,
            {
                let left = &nodes[g][2 * p];
                let right = &nodes[g][2 * p + 1];
                let parent = hash_tree_node(hasher, public_seed, g + 1, p, left.as_slice(), right.as_slice());
                next.push(parent);
                p = p + 1;
            }
            nodes.push(next);
            width = half;
            g = g + 1;
        }
        MerkleTree { nodes, height }
    }

    pub fn root(&self) -> (r: &[u8])
        requires
            exists|seed: Seq<u8>, leaves: Seq<Seq<u8>>| self.built_from(seed, leaves),
        ensures
            self.height >= 1 ==> r@.len() == 32,
            forall|seed: Seq<u8>, leaves: Seq<Seq<u8>>|
                #[trigger] self.built_from(seed, leaves) ==> r@ == tree_node(
                    seed,
                    leaves,
                    self.height as nat,
                    0,
                ),
    {
        let ghost pair = choose|seed: Seq<u8>, leaves: Seq<Seq<u8>>| self.built_from(seed, leaves);
        assert(power(2, 0) == 1);
        assert(self.nodes@[self.height as int]@.len() == power(2, (self.height - self.height) as nat));
        self.nodes[self.height][0].as_slice()
    }

    pub fn height(&self) -> (r: usize)
        ensures
            r == self.height,
    {
        self.height
    }

    /// The siblings of the nodes on the path from leaf `leaf_index` to the
    /// root, from the bottom up.
    pub fn authentication_path(&self, leaf_index: usize) -> (r: AuthPath)
        requires
            exists|seed: Seq<u8>, leaves: Seq<Seq<u8>>| self.built_from(seed, leaves),
            leaf_index < power(2, self.height as nat),
        ensures
            forall|seed: Seq<u8>, leaves: Seq<Seq<u8>>|
                #[trigger] self.built_from(seed, leaves) ==> node_seqs(r.nodes@) == auth_path_of(
                    seed,
                    leaves,
                    leaf_index as nat,
                    self.height as nat,
                ),
    {
        let mut auth: Vec<Vec<u8>> = Vec::new();
        let mut index: usize = leaf_index;
        assert(power(2, 0) == 1);
        assert(leaf_index as nat / 1 == leaf_index);
        assert(self.height - 0 == self.height);
        let mut g: usize = 0;
        while g < self.height
            invariant
                g <= self.height,
                exists|seed: Seq<u8>, leaves: Seq<Seq<u8>>| self.built_from(seed, leaves),
                index == leaf_index as nat / power(2, g as nat) as nat,
                index < power(2, (self.height - g) as nat),
                auth@.len() == g,
                forall|seed: Seq<u8>, leaves: Seq<Seq<u8>>|
                    #[trigger] self.built_from(seed, leaves) ==> forall|q: int|
                        0 <= q < g ==> (#[trigger] auth@[q])@ == tree_node(
                            seed,
                            leaves,
                            q as nat,
                            sibling(leaf_index as nat / power(2, q as nat) as nat),
                        ),
            decreases self.height - g,
        {
            let ghost pair = choose|seed: Seq<u8>, leaves: Seq<Seq<u8>>| self.built_from(seed, leaves);
            proof {
                lemma_div_pow2_step(leaf_index as nat, g as nat);
                assert(power(2, (self.height - g) as nat) == 2 * power(2, (self.height - g - 1) as nat));
                assert(self.nodes@[g as int]@.len() == power(2, (self.height - g) as nat));
            }
            let sib = if index % 2 == 0 {
                index + 1
            } else {
                index - 1
            };
            auth.push(copy_bytes(self.nodes[g][sib].as_slice()));
            index = index / 2;
            g = g + 1;
        }
        let r = AuthPath { nodes: auth };
        assert forall|seed: Seq<u8>, leaves: Seq<Seq<u8>>|
            #[trigger] self.built_from(seed, leaves) implies node_seqs(r.nodes@) =~= auth_path_of(
            seed,
            leaves,
            leaf_index as nat,
            self.height as nat,
        ) by {}
        r
    }
}

/// An authentication path: sibling nodes from the leaf level upwards.
#[derive(Debug, Clone)]
pub struct AuthPath {
    pub nodes: Vec<Vec<u8>>,
}

impl AuthPath {
    pub fn new(nodes: Vec<Vec<u8>>) -> (r: Self)
        ensures
            r.nodes@ == nodes@,
    {
        AuthPath { nodes }
    }

    pub fn nodes(&self) -> (r: &[Vec<u8>])
        ensures
            r@ == self.nodes@,
    {
        self.nodes.as_slice()
    }

    /// The root reached from `leaf` at position `leaf_index` by this path:
    /// at each height the bit of the index decides the side.
    pub fn compute_root(&self, leaf: &[u8], leaf_index: usize, public_seed: &[u8], hasher: &SHA256) -> (r: Vec<u8>)
        requires
            self.nodes@.len() < 32,
            leaf_index <= u32::MAX,
        ensures
            r@ == path_root(
                public_seed@,
                leaf@,
                leaf_index as nat,
                node_seqs(self.nodes@),
                0,
                self.nodes@.len() as nat,
            ),
    {
        let ghost path = node_seqs(self.nodes@);
        let n = self.nodes.len();
        let mut node = copy_bytes(leaf);
        let mut index: usize = leaf_index;
        let mut g: usize = 0;
        while g < n
            invariant
                g <= n,
                n == self.nodes@.len(),
                n < 32,
                path == node_seqs(self.nodes@),
                index <= u32::MAX,
                path_root(public_seed@, node@, index as nat, path, g as nat, n as nat) == path_root(
                    public_seed@,
                    leaf@,
                    leaf_index as nat,
                    path,
                    0,
                    n as nat,
                ),
            decreases n - g,
        {
            let auth = &self.nodes[g];
            assert(path[g as int] == auth@);
            let parent = if index % 2 == 0 {
                hash_tree_node(hasher, public_seed, g + 1, index / 2, node.as_slice(), auth.as_slice())
            } else {
                hash_tree_node(hasher, public_seed, g + 1, index / 2, auth.as_slice(), node.as_slice())
            };
            node = parent;
            index = index / 2;
            g = g + 1;
        }
        node
    }
}

} // verus!
