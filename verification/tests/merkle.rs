use merkle_tree::util::pow2;
use merkle_tree::MerkleTree;
use sha2::{Digest, Sha256};

fn hex(text: &str) -> Vec<u8> {
    let digits: Vec<u8> = text
        .bytes()
        .map(|c| match c {
            b'0'..=b'9' => c - b'0',
            b'a'..=b'f' => c - b'a' + 10,
            _ => panic!("not a hex digit"),
        })
        .collect();
    digits.chunks(2).map(|pair| pair[0] * 16 + pair[1]).collect()
}

fn blocks(words: &[&str]) -> Vec<Vec<u8>> {
    words.iter().map(|s| s.as_bytes().to_vec()).collect()
}

fn numbered(count: usize) -> Vec<Vec<u8>> {
    (0..count).map(|i| format!("block {}", i).into_bytes()).collect()
}

#[test]
fn it_works() {
    let data: Vec<Vec<u8>> = vec!["protein", "powder", "is", "great"]
        .iter()
        .map(|s| s.as_bytes().to_vec())
        .collect();

    let mt = MerkleTree::build(data.clone());
    assert_eq!(&mt.nodes()[0], mt.root());
    assert!(MerkleTree::verify(mt.root(), data));
    assert_eq!(&mt.nodes().len(), &7usize);
}

#[test]
fn four_leaves_give_these_seven_nodes() {
    let mt = MerkleTree::build(blocks(&["protein", "powder", "is", "great"]));
    let expected: Vec<Vec<u8>> = vec![
        hex("232dca296d12c52030b96a05a2efc0ddc2c2956822c05c8e046685a0f69ff656"),
        hex("0869052faaf34f65cd93255bb9232f42495f0ebf216580155372361c6a968b4c"),
        hex("fcc241a4b4f175bf34466194036aa37cc7d0885eb0752c49193938972bc63a4a"),
        hex("ec871480d85b1756d8afd04cdc76ac6edf875f1d8a4192f74193a362dc7ec180"),
        hex("e8eb8741d3daa5579df543903d9312e47f5b15a66af1c25a14f817c82763787a"),
        hex("fa51fd49abf67705d6a35d18218c115ff5633aec1f9ebfdc9d5d4956416f57f6"),
        hex("87765da6ccf0668238c1d27c35692e11b4cee9c0e5cd5713a3f6e462d48e9730"),
    ];
    assert_eq!(mt.nodes(), &expected);
    assert_eq!(mt.root(), &expected[0]);
}

#[test]
fn single_leaf_is_root_and_leaf() {
    let mt = MerkleTree::build(blocks(&["protein"]));
    let digest = hex("ec871480d85b1756d8afd04cdc76ac6edf875f1d8a4192f74193a362dc7ec180");
    assert_eq!(mt.nodes().len(), 1);
    assert_eq!(mt.nodes()[0], digest);
    assert_eq!(mt.root(), &digest);
    assert!(MerkleTree::verify(&digest, blocks(&["protein"])));
}

#[test]
fn leaf_digest_is_not_the_leaf() {
    let leaf: Vec<u8> = hex("ec871480d85b1756d8afd04cdc76ac6edf875f1d8a4192f74193a362dc7ec180");
    let mt = MerkleTree::build(vec![leaf.clone()]);
    assert_eq!(mt.root().len(), 32);
    assert_ne!(mt.root(), &leaf);
    assert_eq!(mt.root(), &Sha256::digest(&leaf).to_vec());
}

#[test]
fn empty_block_is_hashed_like_any_other() {
    let mt = MerkleTree::build(vec![Vec::new()]);
    assert_eq!(
        mt.root(),
        &hex("e3b0c44298fc1c149afbf4c8996fb92427ae41e4649b934ca495991b7852b855")
    );
}

#[test]
fn two_leaves_give_the_digest_of_their_digests() {
    let mt = MerkleTree::build(blocks(&["protein", "powder"]));
    let left = hex("ec871480d85b1756d8afd04cdc76ac6edf875f1d8a4192f74193a362dc7ec180");
    let right = hex("e8eb8741d3daa5579df543903d9312e47f5b15a66af1c25a14f817c82763787a");
    let root = hex("0869052faaf34f65cd93255bb9232f42495f0ebf216580155372361c6a968b4c");
    assert_eq!(mt.nodes(), &vec![root.clone(), left.clone(), right.clone()]);
    let mut joined = left;
    joined.extend_from_slice(&right);
    assert_eq!(joined.len(), 64);
    assert_eq!(Sha256::digest(&joined).to_vec(), root);
}

#[test]
fn root_is_the_first_node() {
    for count in [1usize, 2, 4, 8, 16, 32] {
        let mt = MerkleTree::build(numbered(count));
        assert_eq!(mt.root(), &mt.nodes()[0]);
    }
}

#[test]
fn node_count_is_twice_the_leaves_less_one() {
    for count in [1usize, 2, 4, 8, 16, 32, 64, 128] {
        let mt = MerkleTree::build(numbered(count));
        assert_eq!(mt.nodes().len(), 2 * count - 1);
    }
}

#[test]
fn every_node_has_thirty_two_bytes() {
    let mt = MerkleTree::build(numbered(16));
    for node in mt.nodes() {
        assert_eq!(node.len(), 32);
    }
}

#[test]
fn leaves_and_parents_are_digests() {
    let count: usize = 16;
    let leaves = numbered(count);
    let mt = MerkleTree::build(leaves.clone());
    let nodes = mt.nodes();
    for j in 0..count {
        assert_eq!(nodes[count - 1 + j], Sha256::digest(&leaves[j]).to_vec());
    }
    for i in 0..count - 1 {
        let mut joined = nodes[2 * i + 1].clone();
        joined.extend_from_slice(&nodes[2 * i + 2]);
        assert_eq!(nodes[i], Sha256::digest(&joined).to_vec());
    }
}

#[test]
fn built_root_verifies() {
    for count in [1usize, 2, 4, 8, 16] {
        let leaves = numbered(count);
        let mt = MerkleTree::build(leaves.clone());
        assert!(MerkleTree::verify(mt.root(), leaves));
    }
}

#[test]
fn altered_byte_is_rejected() {
    let mt = MerkleTree::build(blocks(&["protein", "powder", "is", "great"]));
    let altered = blocks(&["protein", "powder", "is", "greau"]);
    assert!(!MerkleTree::verify(mt.root(), altered.clone()));
    assert_eq!(
        MerkleTree::build(altered).root(),
        &hex("e3a7b3d63d1579a23f43c1ca7b721416a44469ef63c1d76b98716c46ed918eb6")
    );
}

#[test]
fn every_altered_byte_is_rejected() {
    let leaves = blocks(&["protein", "powder", "is", "great"]);
    let mt = MerkleTree::build(leaves.clone());
    for i in 0..leaves.len() {
        for k in 0..leaves[i].len() {
            let mut altered = leaves.clone();
            altered[i][k] ^= 1;
            assert!(!MerkleTree::verify(mt.root(), altered));
        }
    }
}

#[test]
fn swapped_leaves_are_rejected() {
    let mt = MerkleTree::build(blocks(&["protein", "powder", "is", "great"]));
    let swapped = blocks(&["powder", "protein", "is", "great"]);
    assert!(!MerkleTree::verify(mt.root(), swapped.clone()));
    assert_eq!(
        MerkleTree::build(swapped).root(),
        &hex("7b76ac4936239ad63b047fc341157a69612c1c864b2be5ce9194f18195a3f930")
    );
}

#[test]
fn swapped_pair_of_two_is_rejected() {
    let mt = MerkleTree::build(blocks(&["protein", "powder"]));
    assert!(!MerkleTree::verify(mt.root(), blocks(&["powder", "protein"])));
}

#[test]
fn swapping_equal_leaves_changes_nothing() {
    let mt = MerkleTree::build(blocks(&["is", "is", "great", "great"]));
    assert!(MerkleTree::verify(mt.root(), blocks(&["is", "is", "great", "great"])));
}

#[test]
fn root_of_another_length_is_rejected() {
    let leaves = blocks(&["protein", "powder"]);
    let mt = MerkleTree::build(leaves.clone());
    let mut longer = mt.root().clone();
    longer.push(0);
    assert!(!MerkleTree::verify(&longer, leaves.clone()));
    let shorter: Vec<u8> = mt.root()[..31].to_vec();
    assert!(!MerkleTree::verify(&shorter, leaves.clone()));
    assert!(!MerkleTree::verify(&Vec::new(), leaves));
}

#[test]
fn other_leaf_count_is_rejected() {
    let mt = MerkleTree::build(blocks(&["protein", "powder", "is", "great"]));
    assert!(!MerkleTree::verify(mt.root(), blocks(&["protein", "powder"])));
    assert!(!MerkleTree::verify(mt.root(), blocks(&["protein"])));
}

#[test]
fn powers_of_two_are_told_apart() {
    assert!(!pow2(0));
    assert!(pow2(1));
    assert!(pow2(2));
    assert!(!pow2(3));
    assert!(pow2(4));
    assert!(!pow2(5));
    assert!(!pow2(6));
    assert!(!pow2(7));
    assert!(pow2(8));
    assert!(!pow2(12));
    assert!(pow2(1024));
    assert!(!pow2(1023));
    assert!(!pow2(1025));
    assert!(pow2(1usize << (usize::BITS - 1)));
    assert!(!pow2(usize::MAX));
}

#[test]
fn three_leaves_are_no_valid_count() {
    let leaves = blocks(&["protein", "powder", "is"]);
    assert!(!pow2(leaves.len()));
}
