use crate::digest::{sha256, sha256_of};
use vstd::prelude::*;

verus! {

/// Lexicographic order on byte strings: for two strings of one length, the
/// order of the big-endian unsigned integers they spell.
pub open spec fn lex_le(a: Seq<u8>, b: Seq<u8>) -> bool
    decreases a.len(),
{
    if a.len() == 0 || b.len() == 0 {
        a.len() <= b.len()
    } else if a[0] != b[0] {
        a[0] < b[0]
    } else {
        lex_le(a.drop_first(), b.drop_first())
    }
}

/// The parent of two nodes: the digest of the smaller followed by the larger.
pub open spec fn hash_pair(a: Seq<u8>, b: Seq<u8>) -> Seq<u8> {
    if lex_le(a, b) {
        sha256_of(a + b)
    } else {
        sha256_of(b + a)
    }
}

/// The node reached from `leaf` by combining it with each sibling of `proof`
/// in turn.
pub open spec fn fold_proof(leaf: Seq<u8>, proof: Seq<[u8; 32]>) -> Seq<u8>
    decreases proof.len(),
{
    if proof.len() == 0 {
        leaf
    } else {
        hash_pair(fold_proof(leaf, proof.drop_last()), proof.last()@)
    }
}

/// Whether `proof` leads from `leaf` to `root`.
pub open spec fn proof_reaches(leaf: Seq<u8>, root: Seq<u8>, proof: Seq<[u8; 32]>) -> bool {
    fold_proof(leaf, proof) == root
}

/// Lexicographic order is total and antisymmetric on strings of one length.
pub proof fn lemma_lex_le_total(a: Seq<u8>, b: Seq<u8>)
    requires
        a.len() == b.len(),
    ensures
        lex_le(a, b) || lex_le(b, a),
        lex_le(a, b) && lex_le(b, a) ==> a == b,
    decreases a.len(),
{
    if a.len() == 0 {
        assert(a =~= b);
    } else if a[0] != b[0] {
    } else {
        lemma_lex_le_total(a.drop_first(), b.drop_first());
        if lex_le(a, b) && lex_le(b, a) {
            assert(forall|i: int| 0 < i < a.len() ==> a[i] == a.drop_first()[i - 1]);
            assert(forall|i: int| 0 < i < b.len() ==> b[i] == b.drop_first()[i - 1]);
            assert(a =~= b);
        }
    }
}

/// The parent of two nodes of one length does not depend on which is named
/// first.
pub proof fn lemma_hash_pair_commutes(a: Seq<u8>, b: Seq<u8>)
    requires
        a.len() == b.len(),
    ensures
        hash_pair(a, b) == hash_pair(b, a),
{
    lemma_lex_le_total(a, b);
}

/// An empty proof verifies exactly when the leaf is the root.
pub proof fn lemma_empty_proof(leaf: [u8; 32], root: [u8; 32])
    ensures
        proof_reaches(leaf@, root@, Seq::<[u8; 32]>::empty()) == (leaf == root),
{
    if leaf@ == root@ {
        assert(leaf =~= root);
    }
}

/// In a tree of two leaves, whose root is the parent of the two, the proof of
/// each leaf is the other leaf, whatever their order.
pub proof fn lemma_two_leaf_tree(l1: [u8; 32], l2: [u8; 32])
    ensures
        proof_reaches(l1@, hash_pair(l1@, l2@), seq![l2]),
        proof_reaches(l2@, hash_pair(l1@, l2@), seq![l1]),
{
    assert(seq![l2].drop_last() =~= Seq::<[u8; 32]>::empty());
    assert(seq![l1].drop_last() =~= Seq::<[u8; 32]>::empty());
    assert(fold_proof(l1@, Seq::<[u8; 32]>::empty()) == l1@);
    assert(fold_proof(l2@, Seq::<[u8; 32]>::empty()) == l2@);
    assert(seq![l2].last() == l2 && seq![l1].last() == l1);
    lemma_hash_pair_commutes(l1@, l2@);
}

/// SHA-256 modelled as ideal on the strings a proof hashes: 64-byte inputs
/// give 32-byte digests, and no two of them share a digest.
pub open spec fn digest_collision_free() -> bool {
    &&& forall|a: Seq<u8>| a.len() == 64 ==> (#[trigger] sha256_of(a)).len() == 32
    &&& forall|a: Seq<u8>, b: Seq<u8>|
        a.len() == 64 && b.len() == 64 && #[trigger] sha256_of(a) == #[trigger] sha256_of(b)
            ==> a == b
}

/// Every node on a path from a 32-byte leaf is 32 bytes long.
pub proof fn lemma_fold_len(leaf: Seq<u8>, siblings: Seq<[u8; 32]>)
    requires
        digest_collision_free(),
        leaf.len() == 32,
    ensures
        fold_proof(leaf, siblings).len() == 32,
    decreases siblings.len(),
{
    if siblings.len() > 0 {
        lemma_fold_len(leaf, siblings.drop_last());
        let x = fold_proof(leaf, siblings.drop_last());
        let y = siblings.last()@;
        assert((x + y).len() == 64 && (y + x).len() == 64);
    }
}

/// Under the model, two parents are equal only when their children are the
/// same two nodes.
pub proof fn lemma_hash_pair_injective(a: Seq<u8>, b: Seq<u8>, c: Seq<u8>, d: Seq<u8>)
    requires
        digest_collision_free(),
        a.len() == 32,
        b.len() == 32,
        c.len() == 32,
        d.len() == 32,
        hash_pair(a, b) == hash_pair(c, d),
    ensures
        (a == c && b == d) || (a == d && b == c),
{
    let lo = if lex_le(a, b) { a } else { b };
    let hi = if lex_le(a, b) { b } else { a };
    let lo2 = if lex_le(c, d) { c } else { d };
    let hi2 = if lex_le(c, d) { d } else { c };
    assert(sha256_of(lo + hi) == sha256_of(lo2 + hi2));
    assert((lo + hi).len() == 64 && (lo2 + hi2).len() == 64);
    assert(lo + hi == lo2 + hi2);
    assert((lo + hi).subrange(0, 32) =~= lo);
    assert((lo2 + hi2).subrange(0, 32) =~= lo2);
    assert((lo + hi).subrange(32, 64) =~= hi);
    assert((lo2 + hi2).subrange(32, 64) =~= hi2);
}

proof fn lemma_paths_diverge(
    leaf: Seq<u8>,
    p: Seq<[u8; 32]>,
    q: Seq<[u8; 32]>,
    i: int,
    n: int,
)
    requires
        digest_collision_free(),
        leaf.len() == 32,
        q.len() == p.len(),
        0 <= i < n <= p.len(),
        q[i]@ != p[i]@,
        forall|k: int| 0 <= k < p.len() && k != i ==> q[k] == p[k],
    ensures
        fold_proof(leaf, p.subrange(0, n)) != fold_proof(leaf, q.subrange(0, n)),
    decreases n,
{
    let pn = p.subrange(0, n);
    let qn = q.subrange(0, n);
    assert(pn.drop_last() =~= p.subrange(0, n - 1));
    assert(qn.drop_last() =~= q.subrange(0, n - 1));
    let x = fold_proof(leaf, p.subrange(0, n - 1));
    let y = fold_proof(leaf, q.subrange(0, n - 1));
    lemma_fold_len(leaf, p.subrange(0, n - 1));
    lemma_fold_len(leaf, q.subrange(0, n - 1));
    if n == i + 1 {
        assert(p.subrange(0, n - 1) =~= q.subrange(0, n - 1));
    } else {
        lemma_paths_diverge(leaf, p, q, i, n - 1);
        assert(q[n - 1] == p[n - 1]);
    }
    if fold_proof(leaf, pn) == fold_proof(leaf, qn) {
        lemma_hash_pair_injective(x, p[n - 1]@, y, q[n - 1]@);
    }
}

/// A verifying proof with one byte of one sibling changed no longer
/// verifies, with SHA-256 modelled as free of collisions.
pub proof fn lemma_corrupted_proof_fails(
    leaf: [u8; 32],
    root: [u8; 32],
    p: Seq<[u8; 32]>,
    q: Seq<[u8; 32]>,
    i: int,
    j: int,
    b: u8,
)
    requires
        digest_collision_free(),
        proof_reaches(leaf@, root@, p),
        0 <= i < p.len(),
        0 <= j < 32,
        b != p[i]@[j],
        q.len() == p.len(),
        q[i]@ == p[i]@.update(j, b),
        forall|k: int| 0 <= k < p.len() && k != i ==> q[k] == p[k],
    ensures
        !proof_reaches(leaf@, root@, q),
{
    assert(q[i]@[j] != p[i]@[j]);
    lemma_paths_diverge(leaf@, p, q, i, p.len() as int);
    assert(p.subrange(0, p.len() as int) =~= p);
    assert(q.subrange(0, q.len() as int) =~= q);
}

/// Byte-wise equality of two 32-byte values.
pub fn bytes_eq(a: &[u8; 32], b: &[u8; 32]) -> (r: bool)
    ensures
        r == (a@ == b@),
        r == (*a == *b),
{
    let mut i: usize = 0;
    while i < 32
        invariant
            0 <= i <= 32,
            a@.len() == 32,
            b@.len() == 32,
            forall|j: int| 0 <= j < i ==> a@[j] == b@[j],
        decreases 32 - i,
    {
        if a[i] != b[i] {
            assert(a@[i as int] != b@[i as int]);
            assert(a@ != b@);
            return false;
        }
        i += 1;
    }
    assert(a@ =~= b@);
    assert(*a =~= *b);
    true
}

/// Whether `a` comes no later than `b` in lexicographic byte order.
pub fn bytes_le(a: &[u8; 32], b: &[u8; 32]) -> (r: bool)
    ensures
        r == lex_le(a@, b@),
{
    let mut i: usize = 0;
    assert(a@.subrange(0, 32) =~= a@);
    assert(b@.subrange(0, 32) =~= b@);
    while i < 32
        invariant
            0 <= i <= 32,
            a@.len() == 32,
            b@.len() == 32,
            lex_le(a@, b@) == lex_le(a@.subrange(i as int, 32), b@.subrange(i as int, 32)),
        decreases 32 - i,
    {
        let ghost sa = a@.subrange(i as int, 32);
        let ghost sb = b@.subrange(i as int, 32);
        assert(sa[0] == a@[i as int] && sb[0] == b@[i as int]);
        if a[i] != b[i] {
            return a[i] < b[i];
        }
        assert(sa.drop_first() =~= a@.subrange(i + 1, 32));
        assert(sb.drop_first() =~= b@.subrange(i + 1, 32));
        i += 1;
    }
    true
}

fn push_bytes(buf: &mut Vec<u8>, x: &[u8; 32])
    ensures
        final(buf)@ == old(buf)@ + x@,
{
    let mut i: usize = 0;
    while i < 32
        invariant
            0 <= i <= 32,
            x@.len() == 32,
            buf@ == old(buf)@ + x@.subrange(0, i as int),
        decreases 32 - i,
    {
        buf.push(x[i]);
        assert(x@.subrange(0, i + 1) =~= x@.subrange(0, i as int).push(x@[i as int]));
        i += 1;
    }
    assert(x@.subrange(0, 32) =~= x@);
}

/// The parent of two nodes: SHA-256 over the smaller, then the larger.
pub fn hash_sorted_pair(a: &[u8; 32], b: &[u8; 32]) -> (r: [u8; 32])
    ensures
        r@ == hash_pair(a@, b@),
{
    let mut buf: Vec<u8> = Vec::new();
    if bytes_le(a, b) {
        push_bytes(&mut buf, a);
        push_bytes(&mut buf, b);
    } else {
        push_bytes(&mut buf, b);
        push_bytes(&mut buf, a);
    }
    sha256(buf.as_slice())
}

/// Verifies that `leaf` belongs to the set committed to by `root`, given the
/// siblings on the path from the leaf up.
pub fn verify_merkle_proof(leaf: &[u8; 32], root: &[u8; 32], proof: &Vec<[u8; 32]>) -> (r: bool)
    ensures
        r == proof_reaches(leaf@, root@, proof@),
{
    let mut computed: [u8; 32] = *leaf;
    let mut i: usize = 0;
    while i < proof.len()
        invariant
            0 <= i <= proof@.len(),
            computed@ == fold_proof(leaf@, proof@.subrange(0, i as int)),
        decreases proof@.len() - i,
    {
        let ghost before = proof@.subrange(0, i as int);
        computed = hash_sorted_pair(&computed, &proof[i]);
        assert(proof@.subrange(0, i + 1).drop_last() =~= before);
        i += 1;
    }
    assert(proof@.subrange(0, proof@.len() as int) =~= proof@);
    bytes_eq(&computed, root)
}

} // verus!
