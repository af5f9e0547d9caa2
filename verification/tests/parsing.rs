use miden_core::crypto_ops::{parse_mtree, parse_rphash, parse_rpperm};
use miden_core::mem_ops::{parse_pop_mem, parse_push_mem, parse_read_mem, parse_write_mem};
use miden_core::operations::{AdviceInjector, Operation};
use miden_core::token::{AssemblyError, Token};
use miden_core::Felt;

#[test]
fn rpperm() {
    let mut span_ops: Vec<Operation> = Vec::new();
    let op = Token::new("rpperm", 0);
    let expected = vec![Operation::RpPerm];

    parse_rpperm(&mut span_ops, &op).expect("Failed to parse rpperm");

    assert_eq!(span_ops, expected);
}

#[test]
fn rpperm_invalid() {
    // parse_rpperm should return an error if called with an invalid or incorrect operation
    let mut span_ops: Vec<Operation> = Vec::new();
    let op_pos = 0;

    let op_too_long = Token::new("rpperm.12", op_pos);
    let expected = AssemblyError::extra_param(&op_too_long);
    assert_eq!(
        parse_rpperm(&mut span_ops, &op_too_long).unwrap_err(),
        expected
    );

    let op_mismatch = Token::new("rphash", op_pos);
    let expected = AssemblyError::unexpected_token(&op_mismatch, "rpperm");
    assert_eq!(
        parse_rpperm(&mut span_ops, &op_mismatch).unwrap_err(),
        expected
    );
}

#[test]
fn rphash() {
    // adds a word to the stack specifying the number of elements to be hashed (8)
    // does a sponge permutation
    // keeps the top word as the result but drops the other 8 elements
    let mut span_ops: Vec<Operation> = Vec::new();
    let op = Token::new("rphash", 0);

    // state of stack before permutation
    let mut expected = vec![
        Operation::Pad,
        Operation::Pad,
        Operation::Pad,
        Operation::Push(Felt::new(8)),
    ];
    // the permutation leaves the result word on top
    expected.push(Operation::RpPerm);
    // swap the result word down so the scratch words can be dropped
    expected.push(Operation::SwapW2);
    // drop the scratch words
    let drop8 = vec![Operation::Drop; 8];
    expected.extend_from_slice(&drop8);

    parse_rphash(&mut span_ops, &op).expect("Failed to parse rphash");
    assert_eq!(span_ops, expected);
}

#[test]
fn rphash_invalid() {
    // parse_rphash should return an error if called with an invalid or incorrect operation
    let mut span_ops: Vec<Operation> = Vec::new();
    let op_pos = 0;

    let op_too_long = Token::new("rphash.12", op_pos);
    let expected = AssemblyError::extra_param(&op_too_long);
    assert_eq!(
        parse_rphash(&mut span_ops, &op_too_long).unwrap_err(),
        expected
    );

    let op_mismatch = Token::new("rpperm", op_pos);
    let expected = AssemblyError::unexpected_token(&op_mismatch, "rphash");
    assert_eq!(
        parse_rphash(&mut span_ops, &op_mismatch).unwrap_err(),
        expected
    );
}

#[test]
fn mtree_invalid() {
    // parse_mtree should return an error if called with an invalid or incorrect operation
    let mut span_ops: Vec<Operation> = Vec::new();
    let op_pos = 0;

    let op_too_short = Token::new("mtree", op_pos);
    let expected = AssemblyError::invalid_op(&op_too_short);
    assert_eq!(
        parse_mtree(&mut span_ops, &op_too_short).unwrap_err(),
        expected
    );

    let op_too_long = Token::new("mtree.get.12", op_pos);
    let expected = AssemblyError::extra_param(&op_too_long);
    assert_eq!(
        parse_mtree(&mut span_ops, &op_too_long).unwrap_err(),
        expected
    );

    let op_mismatch = Token::new("rpperm.get", op_pos);
    let expected = AssemblyError::unexpected_token(&op_mismatch, "mtree.{get|set|cwm}");
    assert_eq!(
        parse_mtree(&mut span_ops, &op_mismatch).unwrap_err(),
        expected
    );
}

#[test]
fn mtree_get_expansion() {
    // the get variant reads the node from the advice channel, keeps a
    // copy, verifies the path and asserts root equality
    let mut span_ops: Vec<Operation> = Vec::new();
    let op = Token::new("mtree.get", 0);
    parse_mtree(&mut span_ops, &op).expect("Failed to parse mtree.get");

    let mut expected = vec![
        Operation::Advice(AdviceInjector::MerkleNode),
        Operation::MovDn5,
        Operation::MovDn5,
        Operation::Read,
        Operation::Read,
        Operation::Read,
        Operation::Read,
        Operation::SwapW,
        Operation::Dup7,
        Operation::Dup7,
        Operation::Dup7,
        Operation::Dup7,
        Operation::MovUp13,
        Operation::MovUp13,
        Operation::MpVerify,
        Operation::Drop,
        Operation::Drop,
    ];
    expected.extend_from_slice(&[
        Operation::Eqw,
        Operation::Assert,
        Operation::Drop,
        Operation::Drop,
        Operation::Drop,
        Operation::Drop,
    ]);
    expected.push(Operation::SwapW);
    assert_eq!(span_ops, expected);
}

#[test]
fn mtree_set_and_cwm_expansion() {
    let mut set_ops: Vec<Operation> = Vec::new();
    parse_mtree(&mut set_ops, &Token::new("mtree.set", 0)).expect("Failed to parse mtree.set");

    let mut cwm_ops: Vec<Operation> = Vec::new();
    parse_mtree(&mut cwm_ops, &Token::new("mtree.cwm", 0)).expect("Failed to parse mtree.cwm");

    let prep = vec![
        Operation::MovDn9,
        Operation::MovDn9,
        Operation::SwapW,
        Operation::MovUp9,
        Operation::MovUp9,
        Operation::Advice(AdviceInjector::MerkleNode),
        Operation::Dup9,
        Operation::Dup9,
        Operation::Dup9,
        Operation::Dup9,
        Operation::Read,
        Operation::Read,
        Operation::Read,
        Operation::Read,
        Operation::MovUp9,
        Operation::MovUp9,
    ];
    let validate_after = vec![
        Operation::Drop,
        Operation::Drop,
        Operation::SwapW,
        Operation::SwapW2,
        Operation::Eqw,
        Operation::Assert,
        Operation::Drop,
        Operation::Drop,
        Operation::Drop,
        Operation::Drop,
    ];

    let mut expected_set = prep.clone();
    expected_set.push(Operation::MrUpdate(false));
    expected_set.extend_from_slice(&validate_after);
    expected_set.extend_from_slice(&[
        Operation::Drop,
        Operation::Drop,
        Operation::Drop,
        Operation::Drop,
        Operation::SwapW,
    ]);
    assert_eq!(set_ops, expected_set);

    let mut expected_cwm = prep;
    expected_cwm.push(Operation::MrUpdate(true));
    expected_cwm.extend_from_slice(&validate_after);
    expected_cwm.push(Operation::SwapW2);
    assert_eq!(cwm_ops, expected_cwm);
}

#[test]
fn push_mem() {
    // reads the first element of the word from memory and pushes it onto the stack

    // test push with memory address on top of stack
    let mut span_ops: Vec<Operation> = Vec::new();
    let op_push = Token::new("push.mem", 0);
    let expected = vec![Operation::MLoad];

    parse_push_mem(&mut span_ops, &op_push).expect("Failed to parse push.mem");

    assert_eq!(&span_ops, &expected);

    // test push with memory address provided directly (address 0)
    let mut span_ops_addr: Vec<Operation> = Vec::new();
    let op_push_addr = Token::new("push.mem.0", 0);
    let expected_addr = vec![Operation::Pad, Operation::MLoad];

    parse_push_mem(&mut span_ops_addr, &op_push_addr)
        .expect("Failed to parse push.mem.0 (address provided by op)");

    assert_eq!(&span_ops_addr, &expected_addr);

    // test push with memory address provided directly (address 2)
    let mut span_ops_addr: Vec<Operation> = Vec::new();
    let op_push_addr = Token::new("push.mem.2", 0);
    let expected_addr = vec![Operation::Push(Felt::new(2)), Operation::MLoad];

    parse_push_mem(&mut span_ops_addr, &op_push_addr)
        .expect("Failed to parse push.mem.2 (address provided by op)");

    assert_eq!(&span_ops_addr, &expected_addr);
}

fn test_parse_mem<F>(parse: F)
where
    F: Fn(&mut Vec<Operation>, &Token) -> Result<(), AssemblyError>,
{
    // fails when immediate values to a memory operation are invalid or missing
    let pos = 0;

    // invalid value provided to mem variant
    let op_val_invalid = Token::new("x.mem.abc", pos);
    let expected = AssemblyError::invalid_param(&op_val_invalid, 2);
    let mut span_ops: Vec<Operation> = Vec::new();
    assert_eq!(parse(&mut span_ops, &op_val_invalid).unwrap_err(), expected);

    // extra value provided to mem variant
    let op_extra_val = Token::new("x.mem.0.1", pos);
    let expected = AssemblyError::extra_param(&op_extra_val);
    let mut span_ops: Vec<Operation> = Vec::new();
    assert_eq!(parse(&mut span_ops, &op_extra_val).unwrap_err(), expected);
}

#[test]
fn push_mem_invalid() {
    let pos = 0;
    let op_val_invalid = Token::new("push.mem.abc", pos);
    let expected = AssemblyError::invalid_param(&op_val_invalid, 2);
    let mut span_ops: Vec<Operation> = Vec::new();
    assert_eq!(
        parse_push_mem(&mut span_ops, &op_val_invalid).unwrap_err(),
        expected
    );

    let op_extra_val = Token::new("push.mem.0.1", pos);
    let expected = AssemblyError::extra_param(&op_extra_val);
    let mut span_ops: Vec<Operation> = Vec::new();
    assert_eq!(
        parse_push_mem(&mut span_ops, &op_extra_val).unwrap_err(),
        expected
    );
}

#[test]
fn pushw_mem() {
    // reads a word from memory and pushes it onto the stack

    // test push with memory address on top of stack
    let mut span_ops: Vec<Operation> = Vec::new();
    let op_push = Token::new("pushw.mem", 0);
    let expected = vec![
        Operation::Pad,
        Operation::Pad,
        Operation::Pad,
        Operation::Pad,
        Operation::MovUp4,
        Operation::MLoadW,
    ];

    parse_read_mem(&mut span_ops, &op_push, false).expect("Failed to parse pushw.mem");

    assert_eq!(&span_ops, &expected);

    // test push with memory address provided directly (address 0)
    let mut span_ops_addr: Vec<Operation> = Vec::new();
    let op_push_addr = Token::new("pushw.mem.0", 0);
    let expected_addr = vec![
        Operation::Pad,
        Operation::Pad,
        Operation::Pad,
        Operation::Pad,
        Operation::Pad,
        Operation::MLoadW,
    ];

    parse_read_mem(&mut span_ops_addr, &op_push_addr, false)
        .expect("Failed to parse pushw.mem.0 (address provided by op)");

    assert_eq!(&span_ops_addr, &expected_addr);

    // test push with memory address provided directly (address 2)
    let mut span_ops_addr: Vec<Operation> = Vec::new();
    let op_push_addr = Token::new("pushw.mem.2", 0);
    let expected_addr = vec![
        Operation::Pad,
        Operation::Pad,
        Operation::Pad,
        Operation::Pad,
        Operation::Push(Felt::new(2)),
        Operation::MLoadW,
    ];

    parse_read_mem(&mut span_ops_addr, &op_push_addr, false)
        .expect("Failed to parse pushw.mem.2 (address provided by op)");

    assert_eq!(&span_ops_addr, &expected_addr);
}

#[test]
fn pushw_mem_invalid() {
    test_parse_mem(|ops, op| parse_read_mem(ops, op, false));
}

#[test]
fn pop_mem_invalid() {
    let pos = 0;
    let op_val_invalid = Token::new("pop.mem.abc", pos);
    let expected = AssemblyError::invalid_param(&op_val_invalid, 2);
    let mut span_ops: Vec<Operation> = Vec::new();
    assert_eq!(
        parse_pop_mem(&mut span_ops, &op_val_invalid).unwrap_err(),
        expected
    );

    let op_extra_val = Token::new("pop.mem.0.1", pos);
    let expected = AssemblyError::extra_param(&op_extra_val);
    let mut span_ops: Vec<Operation> = Vec::new();
    assert_eq!(
        parse_pop_mem(&mut span_ops, &op_extra_val).unwrap_err(),
        expected
    );
}

#[test]
fn pop_mem() {
    // stores top element of the stack in memory
    // then removes this element from the top of the stack

    // test pop with memory address on top of the stack
    let mut span_ops: Vec<Operation> = Vec::new();
    let op_mem_pop = Token::new("pop.mem", 0);
    let expected = vec![Operation::MStore, Operation::Drop];
    parse_pop_mem(&mut span_ops, &op_mem_pop).expect("Failed to parse pop.mem");
    assert_eq!(&span_ops, &expected);

    // test pop with memory address provided directly (address 0)
    let mut span_ops_addr: Vec<Operation> = Vec::new();
    let op_pop_addr = Token::new("pop.mem.0", 0);
    let expected_addr = vec![Operation::Pad, Operation::MStore, Operation::Drop];

    parse_pop_mem(&mut span_ops_addr, &op_pop_addr).expect("Failed to parse pop.mem.0");

    assert_eq!(&span_ops_addr, &expected_addr);

    // test pop with memory address provided directly (address 2)
    let mut span_ops_addr: Vec<Operation> = Vec::new();
    let op_pop_addr = Token::new("pop.mem.2", 0);
    let expected_addr = vec![
        Operation::Push(Felt::new(2)),
        Operation::MStore,
        Operation::Drop,
    ];

    parse_pop_mem(&mut span_ops_addr, &op_pop_addr).expect("Failed to parse pop.mem.2");

    assert_eq!(&span_ops_addr, &expected_addr);
}

#[test]
fn popw_mem() {
    // stores the top 4 elements of the stack in memory
    // then removes those 4 elements from the top of the stack

    // test pop with memory address on top of the stack
    let mut span_ops: Vec<Operation> = Vec::new();
    let op_mem_pop = Token::new("popw.mem", 0);
    let expected = vec![
        Operation::MStoreW,
        Operation::Drop,
        Operation::Drop,
        Operation::Drop,
        Operation::Drop,
    ];
    parse_write_mem(&mut span_ops, &op_mem_pop, false).expect("Failed to parse popw.mem");
    assert_eq!(&span_ops, &expected);

    // test pop with memory address provided directly (address 0)
    let mut span_ops_addr: Vec<Operation> = Vec::new();
    let op_pop_addr = Token::new("popw.mem.0", 0);
    let expected_addr = vec![
        Operation::Pad,
        Operation::MStoreW,
        Operation::Drop,
        Operation::Drop,
        Operation::Drop,
        Operation::Drop,
    ];

    parse_write_mem(&mut span_ops_addr, &op_pop_addr, false).expect("Failed to parse popw.mem.0");

    assert_eq!(&span_ops_addr, &expected_addr);

    // test pop with memory address provided directly (address 2)
    let mut span_ops_addr: Vec<Operation> = Vec::new();
    let op_pop_addr = Token::new("popw.mem.2", 0);
    let expected_addr = vec![
        Operation::Push(Felt::new(2)),
        Operation::MStoreW,
        Operation::Drop,
        Operation::Drop,
        Operation::Drop,
        Operation::Drop,
    ];

    parse_write_mem(&mut span_ops_addr, &op_pop_addr, false).expect("Failed to parse popw.mem.2");

    assert_eq!(&span_ops_addr, &expected_addr);
}

#[test]
fn popw_mem_invalid() {
    test_parse_mem(|ops, op| parse_write_mem(ops, op, false));
}

#[test]
fn loadw_mem() {
    // reads a word from memory and overwrites the top 4 stack elements

    // test load with memory address on top of stack
    let mut span_ops: Vec<Operation> = Vec::new();
    let op_push = Token::new("loadw.mem", 0);
    let expected = vec![Operation::MLoadW];

    parse_read_mem(&mut span_ops, &op_push, true).expect("Failed to parse loadw.mem");

    assert_eq!(&span_ops, &expected);

    // test load with memory address provided directly (address 0)
    let mut span_ops_addr: Vec<Operation> = Vec::new();
    let op_load_addr = Token::new("loadw.mem.0", 0);
    let expected_addr = vec![Operation::Pad, Operation::MLoadW];

    parse_read_mem(&mut span_ops_addr, &op_load_addr, true)
        .expect("Failed to parse loadw.mem.0 (address provided by op)");

    assert_eq!(&span_ops_addr, &expected_addr);

    // test load with memory address provided directly (address 2)
    let mut span_ops_addr: Vec<Operation> = Vec::new();
    let op_load_addr = Token::new("loadw.mem.2", 0);
    let expected_addr = vec![Operation::Push(Felt::new(2)), Operation::MLoadW];

    parse_read_mem(&mut span_ops_addr, &op_load_addr, true)
        .expect("Failed to parse loadw.mem.2 (address provided by op)");

    assert_eq!(&span_ops_addr, &expected_addr);
}

#[test]
fn loadw_mem_invalid() {
    test_parse_mem(|ops, op| parse_read_mem(ops, op, true));
}

#[test]
fn storew_mem() {
    // stores the top 4 elements of the stack in memory

    // test store with memory address on top of the stack
    let mut span_ops: Vec<Operation> = Vec::new();
    let op_store = Token::new("storew.mem", 0);
    let expected = vec![Operation::MStoreW];

    parse_write_mem(&mut span_ops, &op_store, true).expect("Failed to parse storew.mem");

    assert_eq!(&span_ops, &expected);

    // test store with memory address provided directly (address 0)
    let mut span_ops_addr: Vec<Operation> = Vec::new();
    let op_store_addr = Token::new("storew.mem.0", 0);
    let expected_addr = vec![Operation::Pad, Operation::MStoreW];

    parse_write_mem(&mut span_ops_addr, &op_store_addr, true)
        .expect("Failed to parse storew.mem.0 with adddress (address provided by op)");

    assert_eq!(&span_ops_addr, &expected_addr);

    // test store with memory address provided directly (address 2)
    let mut span_ops_addr: Vec<Operation> = Vec::new();
    let op_store_addr = Token::new("storew.mem.2", 0);
    let expected_addr = vec![Operation::Push(Felt::new(2)), Operation::MStoreW];

    parse_write_mem(&mut span_ops_addr, &op_store_addr, true)
        .expect("Failed to parse storew.mem.2 with adddress (address provided by op)");

    assert_eq!(&span_ops_addr, &expected_addr);
}

#[test]
fn storew_mem_invalid() {
    test_parse_mem(|ops, op| parse_write_mem(ops, op, true));
}

#[test]
fn token_splits_on_dots() {
    let t = Token::new("mtree.get", 3);
    assert_eq!(t.num_parts(), 2);
    assert_eq!(t.parts()[0], "mtree");
    assert_eq!(t.parts()[1], "get");

    let bare = Token::new("rpperm", 0);
    assert_eq!(bare.num_parts(), 1);
    assert_eq!(bare.parts()[0], "rpperm");

    let trailing = Token::new("push.mem.", 0);
    assert_eq!(trailing.num_parts(), 3);
    assert_eq!(trailing.parts()[2], "");
}
