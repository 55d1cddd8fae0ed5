//! A complete binary Merkle tree over 256-bit leaves, stored level by level
//! from the leaves up.
use vstd::prelude::*;
use crate::hash::{default_hash, hash_bytes, hash_of};
use crate::primitives::H256;

verus! {

#[derive(Clone, Copy, Debug, PartialEq, Eq)]
pub enum MerkleTreeFormError {
    /// A tree needs at least one leaf; carries the number given.
    TooSmall(usize),
}

/// The parent of the nodes `a` (left) and `b` (right).
pub open spec fn combine_spec(a: H256, b: H256) -> H256 {
    hash_of(a.spec_bytes() + b.spec_bytes())
}

/// `n` halved `l` times, rounding down.
pub open spec fn halved(n: nat, l: nat) -> nat
    decreases l,
{
    if l == 0 {
        n
    } else {
        halved(n, (l - 1) as nat) / 2
    }
}

/// Where level `l` starts when the bottom level has `n` nodes.
pub open spec fn level_start(n: nat, l: nat) -> nat
    decreases l,
{
    if l == 0 {
        0
    } else {
        level_start(n, (l - 1) as nat) + halved(n, (l - 1) as nat)
    }
}

/// How many times `n` halves before it reaches one.
pub open spec fn depth_of(n: nat) -> nat
    decreases n,
{
    if n <= 1 {
        0
    } else {
        1 + depth_of(n / 2)
    }
}

pub open spec fn is_pow2(n: nat) -> bool
    decreases n,
{
    if n <= 1 {
        n == 1
    } else {
        n % 2 == 0 && is_pow2(n / 2)
    }
}

/// The smallest power of two at least `n`, searched upwards from `p`.
pub open spec fn pow2_at_least(n: nat, p: nat) -> nat
    decreases (if p == 0 || p >= n { 0 } else { n - p }),
{
    if p == 0 || p >= n {
        p
    } else {
        pow2_at_least(n, 2 * p)
    }
}

/// `s` extended, while shorter than `target`, by the hash of its last element.
pub open spec fn padded(s: Seq<H256>, target: nat) -> Seq<H256>
    decreases (if s.len() >= target { 0 } else { target - s.len() }),
{
    if s.len() == 0 || s.len() >= target {
        s
    } else {
        padded(s.push(hash_of(s.last().spec_bytes())), target)
    }
}

/// The level above `s`: each pair of neighbours combined.
pub open spec fn pairs(s: Seq<H256>) -> Seq<H256> {
    Seq::new(s.len() / 2, |i: int| combine_spec(s[2 * i], s[2 * i + 1]))
}

/// Level `l` of the tree whose bottom level is `s`.
pub open spec fn level(s: Seq<H256>, l: nat) -> Seq<H256>
    decreases l,
{
    if l == 0 {
        s
    } else {
        pairs(level(s, (l - 1) as nat))
    }
}

/// Levels `0..=d` of the tree whose bottom level is `s`, one after another.
pub open spec fn flat(s: Seq<H256>, d: nat) -> Seq<H256>
    decreases d,
{
    if d == 0 {
        s
    } else {
        flat(s, (d - 1) as nat) + level(s, d)
    }
}

proof fn lemma_level_len(s: Seq<H256>, l: nat)
    ensures
        level(s, l).len() == halved(s.len(), l),
    decreases l,
{
    if l > 0 {
        lemma_level_len(s, (l - 1) as nat);
    }
}

proof fn lemma_flat_len(s: Seq<H256>, d: nat)
    ensures
        flat(s, d).len() == level_start(s.len(), d + 1),
    decreases d,
{
    lemma_level_len(s, d);
    assert(level_start(s.len(), d + 1) == level_start(s.len(), d) + halved(s.len(), d));
    if d > 0 {
        lemma_flat_len(s, (d - 1) as nat);
    }
}

/// Node `j` of level `l` sits at `level_start(l) + j` in the flattened levels.
proof fn lemma_flat_index(s: Seq<H256>, d: nat, l: nat, j: nat)
    requires
        l <= d,
        j < halved(s.len(), l),
    ensures
        level_start(s.len(), l) + j < flat(s, d).len(),
        flat(s, d)[(level_start(s.len(), l) + j) as int] == level(s, l)[j as int],
    decreases d,
{
    lemma_flat_len(s, d);
    lemma_level_len(s, l);
    if d > 0 {
        let d1 = (d - 1) as nat;
        lemma_flat_len(s, d1);
        if l < d {
            lemma_flat_index(s, d1, l, j);
        }
    }
}

proof fn lemma_halved_shift(n: nat, l: nat)
    ensures
        halved(n, l + 1) == halved(n / 2, l),
    decreases l,
{
    assert(halved(n, l + 1) == halved(n, l) / 2);
    if l > 0 {
        lemma_halved_shift(n, (l - 1) as nat);
        assert(halved(n / 2, l) == halved(n / 2, (l - 1) as nat) / 2);
    }
}

proof fn lemma_halved_zero(l: nat)
    ensures
        halved(0, l) == 0,
    decreases l,
{
    if l > 0 {
        lemma_halved_zero((l - 1) as nat);
    }
}

proof fn lemma_halved_one(n: nat, l: nat)
    requires
        n >= 1,
        halved(n, l) == 1,
    ensures
        l == depth_of(n),
    decreases n,
{
    if n == 1 {
        if l > 0 {
            lemma_halved_shift(1, (l - 1) as nat);
            lemma_halved_zero((l - 1) as nat);
        }
    } else if l > 0 {
        lemma_halved_shift(n, (l - 1) as nat);
        lemma_halved_one(n / 2, (l - 1) as nat);
    }
}

proof fn lemma_halved_pos(n: nat, l: nat, d: nat)
    requires
        l <= d,
        halved(n, d) == 1,
    ensures
        halved(n, l) >= 1,
    decreases d - l,
{
    if l < d {
        lemma_halved_pos(n, l + 1, d);
    }
}

/// Appends to `nodes` the level above `nodes[start..]`.
fn append_pairs(nodes: &mut Vec<H256>, start: usize)
    requires
        start <= old(nodes)@.len(),
    ensures
        final(nodes)@ == old(nodes)@ + pairs(old(nodes)@.subrange(start as int, old(nodes)@.len() as int)),
{
    let ghost below = old(nodes)@.subrange(start as int, old(nodes)@.len() as int);
    let end = nodes.len();
    let half = (end - start) / 2;
    let mut i: usize = 0;
    while i < half
        invariant
            start <= end,
            end == old(nodes)@.len(),
            half == (end - start) / 2,
            below == old(nodes)@.subrange(start as int, end as int),
            i <= half,
            nodes@ == old(nodes)@ + pairs(below).take(i as int),
        decreases half - i,
    {
        let a = nodes[start + 2 * i];
        let b = nodes[start + 2 * i + 1];
        let c = MerkleTree::combine_pair(&a, &b);
        nodes.push(c);
        proof {
            assert(a == below[2 * i as int]);
            assert(b == below[2 * i + 1]);
            assert(nodes@ =~= old(nodes)@ + pairs(below).take(i + 1));
        }
        i = i + 1;
    }
    proof {
        assert(pairs(below).take(half as int) =~= pairs(below));
    }
}

/// A Merkle tree: the padded leaves at the bottom, each level above made of
/// the pairs of the one below, one root at the top.
pub struct MerkleTree {
    nodes: Vec<H256>,
    leaves_count: usize,
    depth: usize,
    leaves: Ghost<Seq<H256>>,
}

impl MerkleTree {
    /// The bottom level.
    pub closed spec fn spec_leaves(&self) -> Seq<H256> {
        self.leaves@
    }

    /// The number of levels above the bottom one.
    pub closed spec fn spec_depth(&self) -> nat {
        self.depth as nat
    }

    pub closed spec fn wf(&self) -> bool {
        let n = self.leaves_count as nat;
        &&& n >= 1
        &&& self.leaves@.len() == n
        &&& halved(n, self.depth as nat) == 1
        &&& self.depth as nat == depth_of(n)
        &&& self.nodes@ == flat(self.leaves@, self.depth as nat)
    }

    /// The parent of `left` and `right`: the hash of their 64 bytes.
    pub fn combine_pair(left: &H256, right: &H256) -> (r: H256)
        ensures
            r == combine_spec(*left, *right),
    {
        let mut data = left.to_bytes();
        right.write_bytes(&mut data);
        hash_bytes(&data)
    }

    /// The tree over `leaves`, padded to a power of two by hashing the last
    /// leaf again and again.
    pub fn from_leaves(leaves: Vec<H256>) -> (r: Result<MerkleTree, MerkleTreeFormError>)
        requires
            leaves@.len() <= usize::MAX / 4,
        ensures
            leaves@.len() == 0 ==> r == Err::<MerkleTree, MerkleTreeFormError>(
                MerkleTreeFormError::TooSmall(0),
            ),
            leaves@.len() > 0 ==> r is Ok && r->Ok_0.wf() && r->Ok_0.spec_leaves() == padded(
                leaves@,
                pow2_at_least(leaves@.len(), 1),
            ),
    {
        if leaves.len() == 0 {
            return Err(MerkleTreeFormError::TooSmall(0));
        }
        let len = leaves.len();
        let mut target: usize = 1;
        while target < len
            invariant
                1 <= target,
                target <= 2 * len,
                len <= usize::MAX / 4,
                pow2_at_least(len as nat, target as nat) == pow2_at_least(len as nat, 1),
            decreases 2 * len - target,
        {
            target = target * 2;
        }
        let ghost s0 = padded(leaves@, target as nat);
        let mut nodes = leaves;
        while nodes.len() < target
            invariant
                nodes@.len() >= 1,
                target <= 2 * len,
                len <= usize::MAX / 4,
                padded(nodes@, target as nat) == s0,
            decreases target - nodes@.len(),
        {
            let last = nodes[nodes.len() - 1];
            let h = default_hash(&last);
            nodes.push(h);
        }
        let p = nodes.len();
        let ghost n = p as nat;
        let mut start: usize = 0;
        let mut size: usize = p;
        let mut depth: usize = 0;
        while size > 1
            invariant
                n == p as nat,
                s0.len() == n,
                size >= 1,
                depth <= start,
                size as nat == halved(n, depth as nat),
                start as nat == level_start(n, depth as nat),
                nodes@ == flat(s0, depth as nat),
            decreases size,
        {
            proof {
                lemma_flat_len(s0, depth as nat);
                lemma_level_len(s0, depth as nat);
                let lvl = nodes@.subrange(start as int, nodes@.len() as int);
                assert forall|j: int| 0 <= j < size implies lvl[j] == level(s0, depth as nat)[j] by {
                    lemma_flat_index(s0, depth as nat, depth as nat, j as nat);
                }
                assert(lvl =~= level(s0, depth as nat));
            }
            proof {
                assert(level_start(n, (depth + 1) as nat) == start + size);
            }
            let cur_len = nodes.len();
            append_pairs(&mut nodes, start);
            start = cur_len;
            size = size / 2;
            depth = depth + 1;
        }
        proof {
            lemma_halved_one(n, depth as nat);
        }
        Ok(MerkleTree { nodes, leaves_count: p, depth, leaves: Ghost(s0) })
    }

    /// The top node.
    pub fn root(&self) -> (r: H256)
        requires
            self.wf(),
        ensures
            r == level(self.spec_leaves(), self.spec_depth())[0],
    {
        proof {
            let n = self.leaves_count as nat;
            lemma_flat_index(self.leaves@, self.depth as nat, self.depth as nat, 0);
            lemma_flat_len(self.leaves@, self.depth as nat);
        }
        self.nodes[self.nodes.len() - 1]
    }

    /// Node `index` of level `level_from_bottom`, counting the leaves as level 0.
    pub fn node_from_bottom(&self, level_from_bottom: usize, index: usize) -> (r: Option<H256>)
        requires
            self.wf(),
        ensures
            r == if level_from_bottom <= self.spec_depth() && index < halved(
                self.spec_leaves().len(),
                level_from_bottom as nat,
            ) {
                Some(level(self.spec_leaves(), level_from_bottom as nat)[index as int])
            } else {
                None::<H256>
            },
    {
        let ghost n = self.leaves_count as nat;
        if level_from_bottom > self.depth {
            return None;
        }
        let total = self.nodes.len();
        let mut start: usize = 0;
        let mut size: usize = self.leaves_count;
        let mut l: usize = 0;
        while l < level_from_bottom
            invariant
                self.wf(),
                total == self.nodes@.len(),
                n == self.leaves_count as nat,
                l <= level_from_bottom,
                level_from_bottom <= self.depth,
                start as nat == level_start(n, l as nat),
                size as nat == halved(n, l as nat),
            decreases level_from_bottom - l,
        {
            proof {
                lemma_halved_pos(n, (l + 1) as nat, self.depth as nat);
                lemma_flat_index(self.leaves@, self.depth as nat, (l + 1) as nat, 0);
                assert(level_start(n, (l + 1) as nat) == start + size);
            }
            start = start + size;
            size = size / 2;
            l = l + 1;
        }
        if index < size {
            proof {
                lemma_flat_index(self.leaves@, self.depth as nat, l as nat, index as nat);
            }
            Some(self.nodes[start + index])
        } else {
            None
        }
    }
    /// The number of leaves of a tree of `tree_size` nodes.
    pub fn leaves_count_from_tree_size(tree_size: usize) -> (r: usize)
        requires
            1 <= tree_size < usize::MAX,
            is_pow2((tree_size + 1) as nat),
        ensures
            r == (tree_size + 1) / 2,
            r >= 1,
            2 * r - 1 == tree_size,
    {
        (tree_size + 1) / 2
    }

    /// The level of node `index` of a tree of `tree_size` nodes (stored level
    /// by level from the leaves up), and its position within that level.
    pub fn position_from_index(tree_size: usize, index: usize) -> (r: (usize, usize))
        requires
            1 <= tree_size < usize::MAX,
            is_pow2((tree_size + 1) as nat),
            index < tree_size,
        ensures
            r.1 < halved(((tree_size + 1) / 2) as nat, r.0 as nat),
            level_start(((tree_size + 1) / 2) as nat, r.0 as nat) + r.1 == index,
    {
        let leaves = MerkleTree::leaves_count_from_tree_size(tree_size);
        let ghost n = leaves as nat;
        let mut level: usize = 0;
        let mut start: usize = 0;
        let mut size: usize = leaves;
        while index >= start + size
            invariant
                n == leaves as nat,
                1 <= tree_size < usize::MAX,
                index < tree_size,
                start as nat == level_start(n, level as nat),
                size as nat == halved(n, level as nat),
                start + 2 * size == tree_size + 1,
                size >= 1,
                is_pow2(size as nat),
                index >= start,
                level <= start,
            decreases size,
        {
            start = start + size;
            size = size / 2;
            level = level + 1;
        }
        (level, index - start)
    }
}

} // verus!
