use rlr_tools::merkle::{MerkleTree, SidecarError, SidecarFile, VerifyResult, SECTION_LABELS};
use base64::Engine;
use sha3::{Digest, Sha3_256};

fn sha3(data: &[u8]) -> [u8; 32] {
    let mut out = [0u8; 32];
    out.copy_from_slice(&Sha3_256::digest(data));
    out
}

fn pair(a: &[u8; 32], b: &[u8; 32]) -> [u8; 32] {
    let mut buf = Vec::with_capacity(64);
    buf.extend_from_slice(a);
    buf.extend_from_slice(b);
    sha3(&buf)
}

fn six_sections() -> Vec<Vec<u8>> {
    vec![
        b"{\"header\":1}".to_vec(),
        b"{\"meta\":2}".to_vec(),
        b"[\"goal\"]".to_vec(),
        b"[\"stats\"]".to_vec(),
        b"{\"frames\":[]}".to_vec(),
        b"{\"content\":0}".to_vec(),
    ]
}

fn slices(sections: &[Vec<u8>]) -> Vec<&[u8]> {
    sections.iter().map(|s| s.as_slice()).collect()
}

#[test]
fn tree_leaves_are_section_hashes() {
    let sections = six_sections();
    let tree = MerkleTree::new(&slices(&sections));
    assert_eq!(tree.leaves.len(), 6);
    for (leaf, section) in tree.leaves.iter().zip(sections.iter()) {
        assert_eq!(*leaf, sha3(section));
    }
}

#[test]
fn tree_of_six_leaves_is_padded_with_the_last_leaf() {
    let sections = six_sections();
    let tree = MerkleTree::new(&slices(&sections));
    // 8 leaf slots below 7 inner nodes
    assert_eq!(tree.nodes.len(), 15);
    let l: Vec<[u8; 32]> = sections.iter().map(|s| sha3(s)).collect();
    let n3 = pair(&l[0], &l[1]);
    let n4 = pair(&l[2], &l[3]);
    let n5 = pair(&l[4], &l[5]);
    let n6 = pair(&l[5], &l[5]);
    let n1 = pair(&n3, &n4);
    let n2 = pair(&n5, &n6);
    let root = pair(&n1, &n2);
    assert_eq!(tree.root, root);
    assert_eq!(tree.nodes[0], root);
    assert_eq!(tree.nodes[6], n6);
    assert_eq!(tree.nodes[7], l[0]);
    assert_eq!(tree.nodes[13], l[5]);
    assert_eq!(tree.nodes[14], l[5]);
}

#[test]
fn tree_of_one_section_has_its_hash_as_root() {
    let tree = MerkleTree::new(&[b"only".as_slice()]);
    assert_eq!(tree.nodes.len(), 1);
    assert_eq!(tree.root, sha3(b"only"));
}

#[test]
fn tree_of_two_sections_hashes_the_pair() {
    let tree = MerkleTree::new(&[b"a".as_slice(), b"b".as_slice()]);
    assert_eq!(tree.root, pair(&sha3(b"a"), &sha3(b"b")));
}

#[test]
fn same_sections_give_same_root() {
    let sections = six_sections();
    let a = MerkleTree::new(&slices(&sections));
    let b = MerkleTree::new(&slices(&sections));
    assert_eq!(a.root, b.root);
}

#[test]
fn tree_accepts_its_own_sections() {
    let sections = six_sections();
    let tree = MerkleTree::new(&slices(&sections));
    assert!(matches!(tree.verify(&slices(&sections)), VerifyResult::Valid));
}

#[test]
fn changed_section_is_pinpointed() {
    let sections = six_sections();
    let tree = MerkleTree::new(&slices(&sections));
    let mut changed = sections.clone();
    changed[3] = b"[\"forged\"]".to_vec();
    match tree.verify(&slices(&changed)) {
        VerifyResult::Tampered { section_index } => assert_eq!(section_index, Some(3)),
        VerifyResult::Valid => panic!("tampering not detected"),
    }
}

#[test]
fn first_of_several_changed_sections_is_reported() {
    let sections = six_sections();
    let tree = MerkleTree::new(&slices(&sections));
    let mut changed = sections.clone();
    changed[4].push(b' ');
    changed[1].push(b' ');
    match tree.verify(&slices(&changed)) {
        VerifyResult::Tampered { section_index } => assert_eq!(section_index, Some(1)),
        VerifyResult::Valid => panic!("tampering not detected"),
    }
}

#[test]
fn different_section_count_is_tampering_without_index() {
    let sections = six_sections();
    let tree = MerkleTree::new(&slices(&sections));
    let fewer = &sections[..5];
    match tree.verify(&slices(fewer)) {
        VerifyResult::Tampered { section_index } => assert_eq!(section_index, None),
        VerifyResult::Valid => panic!("missing section not detected"),
    }
}

#[test]
fn section_labels_name_six_sections() {
    assert_eq!(SECTION_LABELS.len(), 6);
    assert_eq!(SECTION_LABELS[0], "Header");
    assert_eq!(SECTION_LABELS[4], "Network Frames");
}

#[test]
fn signed_sidecar_verifies() {
    let sections = six_sections();
    let tree = MerkleTree::new(&slices(&sections));
    let root = tree.root;
    let sidecar = SidecarFile::create(tree).expect("signing succeeds");
    assert_eq!(sidecar.algorithm, "hybrid-ed25519-mldsa65");
    assert_eq!(sidecar.merkle.root, root);
    assert_eq!(sidecar.ed25519_public_key.len(), 32);
    assert_eq!(sidecar.ed25519_signature.len(), 64);
    let result = sidecar.verify_signature();
    assert!(result.ed25519_ok);
    assert!(result.mldsa65_ok);
    assert!(result.both_valid());
}

#[test]
fn sidecar_with_forged_root_fails_both_checks() {
    let sections = six_sections();
    let tree = MerkleTree::new(&slices(&sections));
    let mut sidecar = SidecarFile::create(tree).expect("signing succeeds");
    sidecar.merkle.root[0] ^= 0xff;
    let result = sidecar.verify_signature();
    assert!(!result.ed25519_ok);
    assert!(!result.mldsa65_ok);
    assert!(!result.both_valid());
}

#[test]
fn sidecar_with_bad_key_text_fails_mldsa_check() {
    let sections = six_sections();
    let tree = MerkleTree::new(&slices(&sections));
    let mut sidecar = SidecarFile::create(tree).expect("signing succeeds");
    sidecar.mldsa65_public_key = "not base64 at all!".to_string();
    sidecar.ed25519_signature.pop();
    let result = sidecar.verify_signature();
    assert!(!result.ed25519_ok);
    assert!(!result.mldsa65_ok);
}

#[test]
fn sidecar_keys_are_base64_of_the_right_lengths() {
    let tree = MerkleTree::new(&[b"x".as_slice()]);
    let sidecar = SidecarFile::create(tree).expect("signing succeeds");
    let engine = base64::engine::general_purpose::STANDARD;
    let pk = engine.decode(sidecar.mldsa65_public_key.as_bytes()).unwrap();
    let sig = engine.decode(sidecar.mldsa65_signature.as_bytes()).unwrap();
    assert_eq!(pk.len(), 1952);
    assert_eq!(sig.len(), 3309);
}

#[test]
fn assembled_sidecar_passes_on_the_mldsa_failure() {
    let tree = MerkleTree::new(&[b"x".as_slice()]);
    match SidecarFile::assemble(tree, vec![1; 32], vec![2; 64], Err("keygen failed")) {
        Err(SidecarError::MlDsa(msg)) => assert_eq!(msg, "keygen failed"),
        _ => panic!("expected the ML-DSA error"),
    }
}

#[test]
fn assembled_sidecar_stores_keys_as_base64() {
    let tree = MerkleTree::new(&[b"x".as_slice()]);
    let root = tree.root;
    let s = SidecarFile::assemble(tree, vec![1; 32], vec![2; 64], Ok((vec![0xff, 0x00], vec![1, 2, 3])))
        .expect("assembled");
    assert_eq!(s.algorithm, "hybrid-ed25519-mldsa65");
    assert_eq!(s.ed25519_public_key, vec![1; 32]);
    assert_eq!(s.ed25519_signature, vec![2; 64]);
    assert_eq!(s.mldsa65_public_key, "/wA=");
    assert_eq!(s.mldsa65_signature, "AQID");
    assert_eq!(s.merkle.root, root);
    // keys of the wrong length fail the ML-DSA check
    assert!(!s.verify_signature().mldsa65_ok);
}
