use miden_core::crypto_ops::{mtree_cwm, mtree_get, mtree_set};
use miden_core::errors::{AdviceSetError, InputError};
use miden_core::hasher::merge;
use miden_core::merkle::{compute_path_root, MerkleTree};
use miden_core::operations::Operation;
use miden_core::processor::{AdviceProvider, ExecutionError, Process};
use miden_core::{Felt, Word};

// HELPER FUNCTIONS
// ================================================================================================

fn word(a: u64, b: u64, c: u64, d: u64) -> Word {
    [Felt::new(a), Felt::new(b), Felt::new(c), Felt::new(d)]
}

fn leaves4() -> Vec<Word> {
    vec![
        word(1, 2, 3, 4),
        word(5, 6, 7, 8),
        word(9, 10, 11, 12),
        word(13, 14, 15, 16),
    ]
}

/// The root of a four-leaf tree, by repeated merging.
fn root4(leaves: &[Word]) -> Word {
    let left = merge(&[leaves[0], leaves[1]]);
    let right = merge(&[leaves[2], leaves[3]]);
    merge(&[left, right])
}

/// Pushes a word so that its first element ends up shallowest.
fn push_word(process: &mut Process, w: &Word) {
    for k in [3, 2, 1, 0] {
        process.execute_op(Operation::Push(w[k])).unwrap();
    }
}

/// Runs every operation of the sequence, unwrapping failures.
fn run(process: &mut Process, ops: &[Operation]) {
    for &op in ops.iter() {
        process.execute_op(op).unwrap();
    }
}

// TREE CONSTRUCTION
// ================================================================================================

#[test]
fn tree_construction_and_root() {
    let tree = MerkleTree::new(leaves4()).unwrap();
    assert_eq!(tree.depth(), 2);
    // the committed root is the repeated 2-to-1 merge of the leaves
    assert_eq!(tree.root(), root4(&leaves4()));

    // a single leaf is a tree of depth zero whose root is the leaf
    let single = MerkleTree::new(vec![word(7, 7, 7, 7)]).unwrap();
    assert_eq!(single.depth(), 0);
    assert_eq!(single.root(), word(7, 7, 7, 7));
}

#[test]
fn tree_construction_errors() {
    assert!(matches!(
        MerkleTree::new(Vec::new()),
        Err(AdviceSetError::DepthTooSmall)
    ));
    assert!(matches!(
        MerkleTree::new(vec![word(1, 0, 0, 0), word(2, 0, 0, 0), word(3, 0, 0, 0)]),
        Err(AdviceSetError::NumLeavesNotPowerOfTwo(3))
    ));
}

#[test]
fn tree_lookup_errors() {
    let tree = MerkleTree::new(leaves4()).unwrap();
    assert!(matches!(
        tree.get_node(3, 0),
        Err(AdviceSetError::InvalidDepth(2, 3))
    ));
    assert!(matches!(
        tree.get_node(2, 4),
        Err(AdviceSetError::InvalidIndex(2, 4))
    ));
    assert!(matches!(
        tree.get_path(1, 0),
        Err(AdviceSetError::InvalidDepth(2, 1))
    ));
    assert!(matches!(
        tree.get_path(2, 9),
        Err(AdviceSetError::InvalidIndex(2, 9))
    ));
}

#[test]
fn path_folds_back_to_root() {
    // the honest sibling path of every leaf recomputes the root
    let tree = MerkleTree::new(leaves4()).unwrap();
    let root = tree.root();
    for i in 0..4u64 {
        let leaf = tree.get_leaf(i).unwrap();
        let path = tree.get_path(2, i).unwrap();
        assert_eq!(path.len(), 2);
        assert_eq!(compute_path_root(&leaf, i, &path), root);
    }

    // the maximum index for the depth is handled without an off-by-one
    let last = tree.get_leaf(3).unwrap();
    assert_eq!(last, word(13, 14, 15, 16));

    // a depth-zero path leaves the node untouched: root equals leaf
    let single = MerkleTree::new(vec![word(9, 9, 9, 9)]).unwrap();
    let path = single.get_path(0, 0).unwrap();
    assert_eq!(path.len(), 0);
    assert_eq!(compute_path_root(&word(9, 9, 9, 9), 0, &path), single.root());
}

#[test]
fn update_leaf_moves_root() {
    let mut tree = MerkleTree::new(leaves4()).unwrap();
    let new_leaf = word(21, 22, 23, 24);
    tree.update_leaf(1, new_leaf).unwrap();

    let mut expected_leaves = leaves4();
    expected_leaves[1] = new_leaf;
    assert_eq!(tree.root(), root4(&expected_leaves));

    assert!(matches!(
        tree.update_leaf(4, new_leaf),
        Err(AdviceSetError::InvalidIndex(2, 4))
    ));
}

#[test]
fn duplicate_advice_roots_are_refused() {
    let t1 = MerkleTree::new(leaves4()).unwrap();
    let t2 = MerkleTree::new(leaves4()).unwrap();
    assert!(matches!(
        AdviceProvider::new(Vec::new(), vec![t1, t2]),
        Err(InputError::DuplicateAdviceRoot(_))
    ));
}

// END-TO-END MERKLE INSTRUCTIONS
// ================================================================================================

/// Builds a process whose advice provider tracks the standard four-leaf
/// tree, with the given stack pushed on top (deepest first).
fn process_with_tree(tape: Vec<Felt>) -> (Process, Word) {
    let tree = MerkleTree::new(leaves4()).unwrap();
    let root = tree.root();
    let advice = AdviceProvider::new(tape, vec![tree]).unwrap();
    (Process::new(advice), root)
}

#[test]
fn mtree_get_returns_leaf_and_keeps_root() {
    // build a depth-2 tree with 4 known leaves, commit to its root, and
    // ask for the last leaf
    let (mut process, root) = process_with_tree(Vec::new());
    assert_eq!(root, root4(&leaves4()));

    push_word(&mut process, &root);
    process.execute_op(Operation::Push(Felt::new(3))).unwrap();
    process.execute_op(Operation::Push(Felt::new(2))).unwrap();
    // stack from the top: [depth, index, root]

    let mut ops: Vec<Operation> = Vec::new();
    mtree_get(&mut ops);
    run(&mut process, &ops);

    // the leaf comes back on top and the root stays
    assert_eq!(process.stack.get_word(0), word(13, 14, 15, 16));
    assert_eq!(process.stack.get_word(4), root);
}

#[test]
fn mtree_set_updates_the_tree() {
    let (mut process, root) = process_with_tree(Vec::new());
    let new_leaf = word(31, 32, 33, 34);

    push_word(&mut process, &root);
    push_word(&mut process, &new_leaf);
    process.execute_op(Operation::Push(Felt::new(0))).unwrap();
    process.execute_op(Operation::Push(Felt::new(2))).unwrap();
    // stack from the top: [depth, index, new_leaf, root]

    let mut ops: Vec<Operation> = Vec::new();
    mtree_set(&mut ops);
    run(&mut process, &ops);

    // independently recompute the expected new root
    let mut updated = leaves4();
    updated[0] = new_leaf;
    let expected_root = root4(&updated);

    assert_eq!(process.stack.get_word(0), new_leaf);
    assert_eq!(process.stack.get_word(4), expected_root);

    // the updated tree replaced the old one: a get under the new root
    // returns the new leaf
    let advice = process.advice;
    let mut second = Process::new(advice);
    push_word(&mut second, &expected_root);
    second.execute_op(Operation::Push(Felt::new(0))).unwrap();
    second.execute_op(Operation::Push(Felt::new(2))).unwrap();
    let mut get_ops: Vec<Operation> = Vec::new();
    mtree_get(&mut get_ops);
    run(&mut second, &get_ops);
    assert_eq!(second.stack.get_word(0), new_leaf);
}

#[test]
fn mtree_cwm_preserves_the_old_tree() {
    let (mut process, root) = process_with_tree(Vec::new());
    let new_leaf = word(41, 42, 43, 44);

    push_word(&mut process, &root);
    push_word(&mut process, &new_leaf);
    process.execute_op(Operation::Push(Felt::new(2))).unwrap();
    process.execute_op(Operation::Push(Felt::new(2))).unwrap();
    // stack from the top: [depth, index, new_leaf, root]

    let mut ops: Vec<Operation> = Vec::new();
    mtree_cwm(&mut ops);
    run(&mut process, &ops);

    let mut updated = leaves4();
    updated[2] = new_leaf;
    let expected_root = root4(&updated);

    assert_eq!(process.stack.get_word(0), new_leaf);
    assert_eq!(process.stack.get_word(4), expected_root);
    assert_eq!(process.stack.get_word(8), root);

    // the original tree is still tracked: a get under the old root still
    // returns the original leaf
    let advice = process.advice;
    let mut second = Process::new(advice);
    push_word(&mut second, &root);
    second.execute_op(Operation::Push(Felt::new(2))).unwrap();
    second.execute_op(Operation::Push(Felt::new(2))).unwrap();
    let mut get_ops: Vec<Operation> = Vec::new();
    mtree_get(&mut get_ops);
    run(&mut second, &get_ops);
    assert_eq!(second.stack.get_word(0), word(9, 10, 11, 12));
}

#[test]
fn tampered_node_fails_the_root_check() {
    // load the tape with a tampered node value instead of letting the
    // injector supply the true one; the recomputed root then disagrees
    // with the committed root and the assertion aborts the run
    let tampered = word(99, 99, 99, 99);
    let (mut process, root) = process_with_tree(tampered.to_vec());

    push_word(&mut process, &root);
    process.execute_op(Operation::Push(Felt::new(3))).unwrap();
    process.execute_op(Operation::Push(Felt::new(2))).unwrap();

    let mut ops: Vec<Operation> = Vec::new();
    mtree_get(&mut ops);

    // skip the injector: the tape already holds the (tampered) node
    let mut outcome = Ok(());
    for &op in ops.iter().skip(1) {
        outcome = process.execute_op(op);
        if outcome.is_err() {
            break;
        }
    }
    assert!(matches!(outcome, Err(ExecutionError::FailedAssertion(_))));
}

#[test]
fn missing_tree_is_advice_unavailability() {
    // a committed root no tracked tree matches is reported before any
    // hashing work happens
    let (mut process, _root) = process_with_tree(Vec::new());
    let wrong_root = word(1, 1, 1, 1);

    push_word(&mut process, &wrong_root);
    process.execute_op(Operation::Push(Felt::new(3))).unwrap();
    process.execute_op(Operation::Push(Felt::new(2))).unwrap();

    let mut ops: Vec<Operation> = Vec::new();
    mtree_get(&mut ops);
    let outcome = process.execute_op(ops[0]);
    assert!(matches!(
        outcome,
        Err(ExecutionError::AdviceSetNotFound(_))
    ));
}

#[test]
fn depth_zero_operations_use_the_leaf_as_root() {
    // a single-leaf tree: the committed root is the leaf itself, and a
    // get at depth zero returns it unchanged
    let leaf = word(5, 5, 5, 5);
    let tree = MerkleTree::new(vec![leaf]).unwrap();
    let root = tree.root();
    assert_eq!(root, leaf);

    let advice = AdviceProvider::new(Vec::new(), vec![tree]).unwrap();
    let mut process = Process::new(advice);
    push_word(&mut process, &root);
    process.execute_op(Operation::Push(Felt::new(0))).unwrap();
    process.execute_op(Operation::Push(Felt::new(0))).unwrap();

    let mut ops: Vec<Operation> = Vec::new();
    mtree_get(&mut ops);
    run(&mut process, &ops);

    assert_eq!(process.stack.get_word(0), leaf);
    assert_eq!(process.stack.get_word(4), leaf);
}

#[test]
fn transition_functions_match_the_expansions() {
    // the composed transition functions walk the same operation
    // sequences the parser emits, so they land on the same stacks
    let (mut process, root) = process_with_tree(Vec::new());
    push_word(&mut process, &root);
    process.execute_op(Operation::Push(Felt::new(1))).unwrap();
    process.execute_op(Operation::Push(Felt::new(2))).unwrap();
    process.mtree_get_transition().unwrap();
    assert_eq!(process.stack.get_word(0), word(5, 6, 7, 8));
    assert_eq!(process.stack.get_word(4), root);

    let (mut process, root) = process_with_tree(Vec::new());
    let new_leaf = word(51, 52, 53, 54);
    push_word(&mut process, &root);
    push_word(&mut process, &new_leaf);
    process.execute_op(Operation::Push(Felt::new(1))).unwrap();
    process.execute_op(Operation::Push(Felt::new(2))).unwrap();
    process.mtree_set_transition().unwrap();
    let mut updated = leaves4();
    updated[1] = new_leaf;
    assert_eq!(process.stack.get_word(0), new_leaf);
    assert_eq!(process.stack.get_word(4), root4(&updated));

    let (mut process, root) = process_with_tree(Vec::new());
    push_word(&mut process, &root);
    push_word(&mut process, &new_leaf);
    process.execute_op(Operation::Push(Felt::new(3))).unwrap();
    process.execute_op(Operation::Push(Felt::new(2))).unwrap();
    process.mtree_cwm_transition().unwrap();
    let mut updated = leaves4();
    updated[3] = new_leaf;
    assert_eq!(process.stack.get_word(0), new_leaf);
    assert_eq!(process.stack.get_word(4), root4(&updated));
    assert_eq!(process.stack.get_word(8), root);
}
