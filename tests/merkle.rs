use sha2::{Digest, Sha256};
use solavote::merkle_proof::{bytes_le, hash_sorted_pair, verify_merkle_proof};

fn hash(data: &[u8]) -> [u8; 32] {
    let mut hasher = Sha256::new();
    hasher.update(data);
    hasher.finalize().as_slice().try_into().unwrap()
}

fn parent(a: &[u8; 32], b: &[u8; 32]) -> [u8; 32] {
    let mut hasher = Sha256::new();
    if a <= b {
        hasher.update(a);
        hasher.update(b);
    } else {
        hasher.update(b);
        hasher.update(a);
    }
    hasher.finalize().as_slice().try_into().unwrap()
}

fn build_merkle_tree() -> ([u8; 32], [u8; 32], Vec<[u8; 32]>) {
    let leaf1 = hash(b"leaf one");
    let leaf2 = hash(b"leaf two");
    let leaf3 = hash(b"leaf three");
    let leaf4 = hash(b"leaf four");
    let hash12 = parent(&leaf1, &leaf2);
    let hash34 = parent(&leaf3, &leaf4);
    let root = parent(&hash12, &hash34);
    (leaf1, root, vec![leaf2, hash34])
}

#[test]
fn test_valid_merkle_proof() {
    let (leaf, root, proof) = build_merkle_tree();
    assert!(verify_merkle_proof(&leaf, &root, &proof));
}

#[test]
fn test_invalid_merkle_proof() {
    let (leaf, root, mut proof) = build_merkle_tree();
    proof[0][0] ^= 0xFF;
    assert!(!verify_merkle_proof(&leaf, &root, &proof));
}

#[test]
fn test_empty_proof() {
    let leaf = hash(b"lonely leaf");
    let root = leaf;
    let proof: Vec<[u8; 32]> = vec![];
    assert!(verify_merkle_proof(&leaf, &root, &proof));
}

#[test]
fn test_single_proof_element() {
    let leaf1 = hash(b"l1");
    let leaf2 = hash(b"l2");
    let root = parent(&leaf1, &leaf2);
    let proof = vec![leaf2];
    assert!(verify_merkle_proof(&leaf1, &root, &proof));
    assert!(!verify_merkle_proof(&leaf2, &root, &proof));
}

#[test]
fn test_verify_merkle_proof() {
    let leaf: [u8; 32] = [0u8; 32];
    let root: [u8; 32] = leaf;
    let proof: Vec<[u8; 32]> = vec![];
    assert!(verify_merkle_proof(&leaf, &root, &proof));
}

#[test]
fn empty_proof_with_other_root_fails() {
    let leaf = hash(b"a");
    let root = hash(b"b");
    assert!(!verify_merkle_proof(&leaf, &root, &vec![]));
}

#[test]
fn two_leaf_tree_either_order() {
    let l1 = hash(b"first");
    let l2 = hash(b"second");
    let root = parent(&l1, &l2);
    assert!(verify_merkle_proof(&l1, &root, &vec![l2]));
    assert!(verify_merkle_proof(&l2, &root, &vec![l1]));
    assert!(!verify_merkle_proof(&l2, &root, &vec![l2]));
}

#[test]
fn corrupting_any_byte_of_a_proof_fails() {
    let (leaf, root, proof) = build_merkle_tree();
    for k in 0..proof.len() {
        for byte in 0..32 {
            let mut bad = proof.clone();
            bad[k][byte] ^= 0x01;
            assert!(!verify_merkle_proof(&leaf, &root, &bad));
        }
    }
}

#[test]
fn sorted_pair_is_the_digest_of_the_concatenation() {
    let a = [1u8; 32];
    let b = [2u8; 32];
    let mut joined = a.to_vec();
    joined.extend_from_slice(&b);
    let expected = hash(&joined);
    assert_eq!(hash_sorted_pair(&a, &b), expected);
    assert_eq!(hash_sorted_pair(&b, &a), expected);
    assert_ne!(hash_sorted_pair(&a, &b), a);
}

#[test]
fn byte_order_is_big_endian() {
    let mut a = [0u8; 32];
    let mut b = [0u8; 32];
    a[0] = 1;
    b[31] = 255;
    assert!(!bytes_le(&a, &b));
    assert!(bytes_le(&b, &a));
    assert!(bytes_le(&a, &a));
}
