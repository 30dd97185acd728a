//! Merkle ledger over the axioms in force.
//!
//! The ledger maps each axiom identifier to the content recorded for it. Its
//! root digest is computed over the leaves in canonical order of their
//! identifiers, so it depends on the recorded pairs alone and not on the
//! order in which they were recorded.

use crate::canonical::{
    canonical_entries, enumerates, id_lt, lemma_enumeration_is_canonical,
    lemma_insert_keeps_enumeration, lemma_replace_keeps_enumeration, place_id, Placement,
};
use crate::digest::{
    digest_eq, hex_encode, hex_lower, is_hex_digest, lemma_hex_lower_shape, sha256, sha256_digest,
};
use crate::lambda_core::constitutional_engine::ValidationError;
use vstd::prelude::*;
use vstd::utf8::*;

verus! {

/// The digest of a leaf that records `content`.
pub open spec fn leaf_digest(content: Seq<char>) -> Seq<u8> {
    sha256_digest(encode_utf8(content))
}

/// The digest of a parent over the digests of its two children.
pub open spec fn combine_digests(left: Seq<u8>, right: Seq<u8>) -> Seq<u8> {
    sha256_digest(left + right)
}

/// The next level up: adjacent digests are combined left to right, and an
/// unpaired last digest is carried up unchanged.
pub open spec fn pair_up(level: Seq<Seq<u8>>) -> Seq<Seq<u8>>
    decreases level.len(),
{
    if level.len() < 2 {
        level
    } else {
        seq![combine_digests(level[0], level[1])] + pair_up(level.skip(2))
    }
}

/// Pairing up a level of `n` digests leaves `(n + 1) / 2`.
pub proof fn lemma_pair_up_len(level: Seq<Seq<u8>>)
    ensures
        pair_up(level).len() == (level.len() + 1) / 2,
    decreases level.len(),
{
    if level.len() >= 2 {
        lemma_pair_up_len(level.skip(2));
    }
}

/// The digest at the top of the tree over a non-empty level of digests.
pub open spec fn merkle_root(level: Seq<Seq<u8>>) -> Seq<u8>
    decreases level.len(),
{
    if level.len() == 0 {
        Seq::empty()
    } else if level.len() == 1 {
        level[0]
    } else {
        proof {
            lemma_pair_up_len(level);
        }
        merkle_root(pair_up(level))
    }
}

/// The leaf digests of a sequence of `(identifier, content)` entries.
pub open spec fn entry_digests(entries: Seq<(Seq<char>, Seq<char>)>) -> Seq<Seq<u8>> {
    Seq::new(entries.len(), |i: int| leaf_digest(entries[i].1))
}

/// The root digest of a ledger that holds `contents`: none when it is empty,
/// else the top of the tree over its leaves in canonical order.
pub open spec fn root_digest(contents: Map<Seq<char>, Seq<char>>) -> Option<Seq<u8>> {
    let entries = canonical_entries(contents);
    if entries.len() == 0 {
        None
    } else {
        Some(merkle_root(entry_digests(entries)))
    }
}

/// Whether a ledger that holds `contents` vouches for `content` under
/// `axiom_id`: the identifier is recorded, and its leaf digest is the digest
/// of `content`.
pub open spec fn vouches_for(
    contents: Map<Seq<char>, Seq<char>>,
    axiom_id: Seq<char>,
    content: Seq<char>,
) -> bool {
    contents.contains_key(axiom_id) && leaf_digest(contents[axiom_id]) == leaf_digest(content)
}

/// The root digest of a ledger follows from any enumeration of its contents
/// in canonical order.
pub proof fn lemma_root_of_enumeration(
    entries: Seq<(Seq<char>, Seq<char>)>,
    contents: Map<Seq<char>, Seq<char>>,
)
    requires
        enumerates(entries, contents),
    ensures
        entries.len() == 0 ==> root_digest(contents) is None,
        entries.len() > 0 ==> root_digest(contents) == Some(merkle_root(entry_digests(entries))),
{
    lemma_enumeration_is_canonical(entries, contents);
}

/// An empty ledger has no root digest.
pub proof fn lemma_empty_ledger_has_no_root()
    ensures
        root_digest(Map::<Seq<char>, Seq<char>>::empty()) is None,
{
    lemma_root_of_enumeration(Seq::empty(), Map::empty());
}

/// The root digest of a ledger with one recorded axiom is the digest of that
/// axiom's leaf.
pub proof fn lemma_single_leaf_root(axiom_id: Seq<char>, content: Seq<char>)
    ensures
        root_digest(Map::<Seq<char>, Seq<char>>::empty().insert(axiom_id, content)) == Some(
            leaf_digest(content),
        ),
{
    let entries = seq![(axiom_id, content)];
    let contents = Map::<Seq<char>, Seq<char>>::empty().insert(axiom_id, content);
    assert(entries[0].0 == axiom_id);
    lemma_root_of_enumeration(entries, contents);
}

/// Recording two different axioms in either order leaves the same ledger,
/// and so the same root digest.
pub proof fn lemma_recording_order_irrelevant(
    contents: Map<Seq<char>, Seq<char>>,
    first_id: Seq<char>,
    first_content: Seq<char>,
    second_id: Seq<char>,
    second_content: Seq<char>,
)
    requires
        first_id != second_id,
    ensures
        contents.insert(first_id, first_content).insert(second_id, second_content)
            == contents.insert(second_id, second_content).insert(first_id, first_content),
        root_digest(contents.insert(first_id, first_content).insert(second_id, second_content))
            == root_digest(
            contents.insert(second_id, second_content).insert(first_id, first_content),
        ),
{
    assert(contents.insert(first_id, first_content).insert(second_id, second_content)
        =~= contents.insert(second_id, second_content).insert(first_id, first_content));
}

/// Recording again what is already recorded changes neither the ledger nor
/// its root digest.
pub proof fn lemma_recording_again_is_idle(
    contents: Map<Seq<char>, Seq<char>>,
    axiom_id: Seq<char>,
    content: Seq<char>,
)
    requires
        contents.contains_key(axiom_id),
        contents[axiom_id] == content,
    ensures
        contents.insert(axiom_id, content) == contents,
        root_digest(contents.insert(axiom_id, content)) == root_digest(contents),
{
    assert(contents.insert(axiom_id, content) =~= contents);
}

/// While the ledger records `recorded` under `axiom_id`, it vouches for
/// `recorded` and not for a `changed` content with another digest; once
/// `changed` is recorded in its place, it vouches for `changed` and no longer
/// for `recorded`.
pub proof fn lemma_tamper_detection(
    contents: Map<Seq<char>, Seq<char>>,
    axiom_id: Seq<char>,
    recorded: Seq<char>,
    changed: Seq<char>,
)
    requires
        contents.contains_key(axiom_id),
        contents[axiom_id] == recorded,
        leaf_digest(recorded) != leaf_digest(changed),
    ensures
        vouches_for(contents, axiom_id, recorded),
        !vouches_for(contents, axiom_id, changed),
        vouches_for(contents.insert(axiom_id, changed), axiom_id, changed),
        !vouches_for(contents.insert(axiom_id, changed), axiom_id, recorded),
{
}

/// Ledgers that record the same contents have the same root digest, however
/// each of them came to record them.
pub proof fn lemma_root_follows_contents(first: MerkleTree, second: MerkleTree)
    requires
        first@ == second@,
    ensures
        root_digest(first@) == root_digest(second@),
{
}

/// A ledger vouches for nothing under an identifier it has not recorded.
pub proof fn lemma_unrecorded_is_not_vouched(
    contents: Map<Seq<char>, Seq<char>>,
    axiom_id: Seq<char>,
    content: Seq<char>,
)
    requires
        !contents.contains_key(axiom_id),
    ensures
        !vouches_for(contents, axiom_id, content),
{
}

/// A node of the tree: a leaf that records one axiom's content, or a parent
/// over two children.
struct Node {
    hash: [u8; 32],
    left: Option<Box<Node>>,
    right: Option<Box<Node>>,
    data: Option<String>,
}

impl Node {
    /// A leaf whose digest is the digest of the content it records.
    spec fn is_leaf(self) -> bool {
        &&& self.left is None
        &&& self.right is None
        &&& self.data is Some
        &&& self.hash@ == leaf_digest(self.data->0@)
    }

    /// Every leaf below carries the digest of its content, and every parent
    /// the combined digest of its two children.
    spec fn well_formed(self) -> bool
        decreases self,
    {
        match (self.left, self.right) {
            (None, None) => self.is_leaf(),
            (Some(l), Some(r)) => {
                &&& self.data is None
                &&& l.well_formed()
                &&& r.well_formed()
                &&& self.hash@ == combine_digests(l.hash@, r.hash@)
            },
            _ => false,
        }
    }

    /// A copy of the node and of everything below it.
    fn duplicate(&self) -> (copy: Node)
        ensures
            copy == *self,
        decreases *self,
    {
        let left = match &self.left {
            Some(child) => Some(Box::new(child.duplicate())),
            None => None,
        };
        let right = match &self.right {
            Some(child) => Some(Box::new(child.duplicate())),
            None => None,
        };
        let data = match &self.data {
            Some(content) => Some(content.clone()),
            None => None,
        };
        Node { hash: self.hash, left, right, data }
    }
}

/// The digests of a level of nodes, in order.
spec fn level_hashes(level: Seq<Node>) -> Seq<Seq<u8>> {
    Seq::new(level.len(), |i: int| level[i].hash@)
}

/// One recorded axiom: its identifier and the leaf that holds its content.
struct Leaf {
    id: String,
    node: Node,
}

/// The `(identifier, content)` pairs of a sequence of leaves, in order.
spec fn leaf_entries(leaves: Seq<Leaf>) -> Seq<(Seq<char>, Seq<char>)> {
    Seq::new(leaves.len(), |i: int| (leaves[i].id@, leaves[i].node.data->0@))
}

/// Pairing up from position `at` of a level, where a pair starts.
proof fn lemma_pair_up_step(hashes: Seq<Seq<u8>>, at: int)
    requires
        0 <= at < hashes.len(),
    ensures
        at + 1 < hashes.len() ==> pair_up(hashes.skip(at)) == seq![
            combine_digests(hashes[at], hashes[at + 1]),
        ] + pair_up(hashes.skip(at + 2)),
        at + 1 == hashes.len() ==> pair_up(hashes.skip(at)) == seq![hashes[at]],
        pair_up(hashes.skip(hashes.len() as int)) == Seq::<Seq<u8>>::empty(),
{
    if at + 1 < hashes.len() {
        assert(hashes.skip(at).skip(2) =~= hashes.skip(at + 2));
    } else {
        assert(hashes.skip(at) =~= seq![hashes[at]]);
    }
    assert(hashes.skip(hashes.len() as int) =~= Seq::<Seq<u8>>::empty());
}

/// Merkle ledger of the axioms in force.
pub struct MerkleTree {
    root: Option<Node>,
    leaves: Vec<Leaf>,
    contents: Ghost<Map<Seq<char>, Seq<char>>>,
}

impl View for MerkleTree {
    type V = Map<Seq<char>, Seq<char>>;

    /// The content recorded under each identifier.
    closed spec fn view(&self) -> Map<Seq<char>, Seq<char>> {
        self.contents@
    }
}

/// The leaves are in canonical order, one per recorded identifier, and the
/// root is the top of the tree built over them.
spec fn ledger_inv(
    root: Option<Node>,
    leaves: Seq<Leaf>,
    contents: Map<Seq<char>, Seq<char>>,
) -> bool {
    &&& forall|i: int| 0 <= i < leaves.len() ==> (#[trigger] leaves[i]).node.is_leaf()
    &&& enumerates(leaf_entries(leaves), contents)
    &&& match root {
        None => leaves.len() == 0,
        Some(top) => {
            &&& leaves.len() > 0
            &&& top.well_formed()
            &&& top.hash@ == merkle_root(entry_digests(leaf_entries(leaves)))
        },
    }
}

impl MerkleTree {
    #[verifier::type_invariant]
    spec fn inv(self) -> bool {
        ledger_inv(self.root, self.leaves@, self.contents@)
    }

    /// An empty ledger.
    pub fn new() -> (tree: Self)
        ensures
            tree@ == Map::<Seq<char>, Seq<char>>::empty(),
    {
        Self { root: None, leaves: Vec::new(), contents: Ghost(Map::empty()) }
    }

    /// The digest of a parent over the digests of its two children.
    pub fn combine_hashes(left: &[u8; 32], right: &[u8; 32]) -> (parent: [u8; 32])
        ensures
            parent@ == combine_digests(left@, right@),
    {
        let mut joined: Vec<u8> = Vec::with_capacity(64);
        let mut i: usize = 0;
        while i < 32
            invariant
                i <= 32,
                joined@ == left@.subrange(0, i as int),
            decreases 32 - i,
        {
            joined.push(left[i]);
            i += 1;
            assert(joined@ =~= left@.subrange(0, i as int));
        }
        assert(joined@ =~= left@);
        let mut j: usize = 0;
        while j < 32
            invariant
                j <= 32,
                joined@ == left@ + right@.subrange(0, j as int),
            decreases 32 - j,
        {
            joined.push(right[j]);
            j += 1;
            assert(joined@ =~= left@ + right@.subrange(0, j as int));
        }
        assert(joined@ =~= left@ + right@);
        sha256(joined.as_slice())
    }

    /// Records `content` under `axiom_id`, replacing what was recorded under
    /// that identifier before, and rebuilds the tree.
    pub fn add_axiom(&mut self, axiom_id: &str, content: &str)
        ensures
            final(self)@ == old(self)@.insert(axiom_id@, content@),
    {
        // The ledger is taken apart and put together again whole: it is never
        // seen with its leaves and its root out of step.
        let mut taken = MerkleTree::new();
        core::mem::swap(self, &mut taken);
        proof {
            use_type_invariant(&taken);
        }
        let ghost before = taken.contents@;
        let ghost after = before.insert(axiom_id@, content@);
        let MerkleTree { root: _, leaves: mut leaves, contents: _ } = taken;
        let ghost old_leaves = leaves@;

        let node = Node {
            hash: sha256(content.as_bytes()),
            left: None,
            right: None,
            data: Some(content.to_owned()),
        };
        let leaf = Leaf { id: axiom_id.to_owned(), node };

        let mut at: usize = 0;
        let mut replace = false;
        let mut searching = true;
        while searching && at < leaves.len()
            invariant
                at <= leaves.len(),
                leaves@ == old_leaves,
                forall|k: int| 0 <= k < at ==> id_lt(#[trigger] leaves@[k].id@, axiom_id@),
                searching ==> !replace,
                !searching ==> at < leaves.len(),
                !searching && replace ==> leaves@[at as int].id@ == axiom_id@,
                !searching && !replace ==> id_lt(axiom_id@, leaves@[at as int].id@),
            decreases leaves.len() - at + (if searching { 1int } else { 0int }),
        {
            match place_id(leaves[at].id.as_str(), axiom_id) {
                Placement::Before => {
                    at += 1;
                },
                Placement::Same => {
                    replace = true;
                    searching = false;
                },
                Placement::After => {
                    searching = false;
                },
            }
        }
        let ghost old_entries = leaf_entries(old_leaves);
        if replace {
            leaves[at] = leaf;
            proof {
                lemma_replace_keeps_enumeration(old_entries, before, at as int, content@);
                assert(leaf_entries(leaves@) =~= old_entries.update(
                    at as int,
                    (axiom_id@, content@),
                ));
            }
        } else {
            leaves.insert(at, leaf);
            proof {
                lemma_insert_keeps_enumeration(
                    old_entries,
                    before,
                    at as int,
                    axiom_id@,
                    content@,
                );
                assert(leaf_entries(leaves@) =~= old_entries.insert(
                    at as int,
                    (axiom_id@, content@),
                ));
            }
        }
        let root = MerkleTree::rebuild_root(&leaves);
        *self = MerkleTree { root, leaves, contents: Ghost(after) };
    }

    /// The root digest in lower-case hexadecimal, or none while the ledger
    /// is empty.
    pub fn get_root_hash(&self) -> (digest: Option<String>)
        ensures
            match root_digest(self@) {
                None => digest is None,
                Some(root) => digest is Some && digest->0@ == hex_lower(root),
            },
            digest is Some ==> is_hex_digest(digest->0@),
    {
        proof {
            use_type_invariant(self);
            lemma_enumeration_is_canonical(leaf_entries(self.leaves@), self.contents@);
        }
        match &self.root {
            Some(node) => {
                proof {
                    lemma_hex_lower_shape(node.hash@);
                }
                Some(hex_encode(node.hash.as_slice()))
            },
            None => None,
        }
    }

    /// Whether the ledger vouches for `content` under `axiom_id`: the leaf
    /// digest is recomputed from `content` and compared with the one stored.
    pub fn verify_axiom(&self, axiom_id: &str, content: &str) -> (vouched: bool)
        ensures
            vouched == vouches_for(self@, axiom_id@, content@),
    {
        proof {
            use_type_invariant(self);
        }
        let ghost entries = leaf_entries(self.leaves@);
        let mut at: usize = 0;
        while at < self.leaves.len()
            invariant
                at <= self.leaves.len(),
                entries == leaf_entries(self.leaves@),
                ledger_inv(self.root, self.leaves@, self.contents@),
                forall|k: int| 0 <= k < at ==> (#[trigger] self.leaves@[k]).id@ != axiom_id@,
            decreases self.leaves.len() - at,
        {
            if place_id(self.leaves[at].id.as_str(), axiom_id) == Placement::Same {
                assert(self.leaves@[at as int].node.is_leaf());
                assert(entries[at as int].0 == axiom_id@);
                assert(self.contents@[entries[at as int].0] == entries[at as int].1);
                let hash = sha256(content.as_bytes());
                return digest_eq(&self.leaves[at].node.hash, &hash);
            }
            at += 1;
        }
        proof {
            if self.contents@.contains_key(axiom_id@) {
                let i = choose|i: int| 0 <= i < entries.len() && #[trigger] entries[i].0 == axiom_id@;
                assert(self.leaves@[i].id@ == axiom_id@);
            }
        }
        false
    }

    /// The root digest in lower-case hexadecimal; `NoPolicyLoaded` while the
    /// ledger is empty.
    pub fn get_state_hash(&self) -> (digest: Result<String, ValidationError>)
        ensures
            match root_digest(self@) {
                None => digest == Err::<String, ValidationError>(ValidationError::NoPolicyLoaded),
                Some(root) => digest is Ok && digest->Ok_0@ == hex_lower(root),
            },
            digest is Ok ==> is_hex_digest(digest->Ok_0@),
    {
        match self.get_root_hash() {
            Some(digest) => Ok(digest),
            None => Err(ValidationError::NoPolicyLoaded),
        }
    }

    /// Builds the tree over `leaves`, taken in the order given: while more
    /// than one node remains, adjacent nodes are paired left to right under a
    /// new parent, and an unpaired last node moves up unchanged.
    fn rebuild_root(leaves: &Vec<Leaf>) -> (root: Option<Node>)
        requires
            forall|i: int| 0 <= i < leaves.len() ==> (#[trigger] leaves@[i]).node.is_leaf(),
        ensures
            leaves.len() == 0 ==> root is None,
            leaves.len() > 0 ==> root is Some && root->0.well_formed() && root->0.hash@
                == merkle_root(entry_digests(leaf_entries(leaves@))),
    {
        if leaves.len() == 0 {
            return None;
        }
        let ghost target = entry_digests(leaf_entries(leaves@));
        let mut current_level: Vec<Node> = Vec::new();
        let mut i: usize = 0;
        while i < leaves.len()
            invariant
                i <= leaves.len(),
                current_level.len() == i,
                forall|k: int| 0 <= k < leaves.len() ==> (#[trigger] leaves@[k]).node.is_leaf(),
                forall|k: int| 0 <= k < i ==> current_level@[k] == leaves@[k].node,
            decreases leaves.len() - i,
        {
            current_level.push(leaves[i].node.duplicate());
            i += 1;
        }
        assert(level_hashes(current_level@) =~= target);

        while current_level.len() > 1
            invariant
                current_level.len() >= 1,
                forall|k: int|
                    0 <= k < current_level.len() ==> (#[trigger] current_level@[k]).well_formed(),
                merkle_root(level_hashes(current_level@)) == merkle_root(target),
            decreases current_level.len(),
        {
            let ghost hashes = level_hashes(current_level@);
            let mut next_level: Vec<Node> = Vec::new();
            let mut j: usize = 0;
            assert(level_hashes(next_level@) + pair_up(hashes.skip(0)) =~= pair_up(hashes)) by {
                assert(hashes.skip(0) =~= hashes);
            }
            while j < current_level.len()
                invariant
                    j <= current_level.len(),
                    j % 2 == 0 || j == current_level.len(),
                    hashes == level_hashes(current_level@),
                    next_level.len() == (j + 1) / 2,
                    forall|k: int|
                        0 <= k < current_level.len() ==> (
                        #[trigger] current_level@[k]).well_formed(),
                    forall|k: int|
                        0 <= k < next_level.len() ==> (#[trigger] next_level@[k]).well_formed(),
                    level_hashes(next_level@) + pair_up(hashes.skip(j as int)) == pair_up(hashes),
                decreases current_level.len() - j,
            {
                let ghost before = level_hashes(next_level@);
                proof {
                    lemma_pair_up_step(hashes, j as int);
                }
                if j + 1 < current_level.len() {
                    let left = current_level[j].duplicate();
                    let right = current_level[j + 1].duplicate();
                    let combined_hash = MerkleTree::combine_hashes(&left.hash, &right.hash);
                    let parent = Node {
                        hash: combined_hash,
                        left: Some(Box::new(left)),
                        right: Some(Box::new(right)),
                        data: None,
                    };
                    assert(parent.well_formed());
                    next_level.push(parent);
                    assert(level_hashes(next_level@) =~= before + seq![
                        combine_digests(hashes[j as int], hashes[j + 1]),
                    ]);
                    assert(level_hashes(next_level@) + pair_up(hashes.skip(j + 2)) =~= before + (
                    seq![combine_digests(hashes[j as int], hashes[j + 1])] + pair_up(
                        hashes.skip(j + 2),
                    )));
                    j += 2;
                } else {
                    let single = current_level[j].duplicate();
                    next_level.push(single);
                    assert(level_hashes(next_level@) =~= before + seq![hashes[j as int]]);
                    assert(level_hashes(next_level@) + pair_up(hashes.skip(j + 1)) =~= before
                        + seq![hashes[j as int]]);
                    j += 1;
                }
            }
            proof {
                lemma_pair_up_step(hashes, 0);
                assert(level_hashes(next_level@) =~= pair_up(hashes));
            }
            current_level = next_level;
        }
        assert(level_hashes(current_level@)[0] == current_level@[0].hash@);
        Some(current_level[0].duplicate())
    }
}

impl Default for MerkleTree {
    fn default() -> (tree: Self)
        ensures
            tree@ == Map::<Seq<char>, Seq<char>>::empty(),
    {
        Self::new()
    }
}

} // verus!
