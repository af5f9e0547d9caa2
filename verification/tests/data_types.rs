use miden_core::blocks::{CodeBlock, Join, Span, Split};
use miden_core::data::{HashParseError, InputFile, OutputFile, ProgramHash};
use miden_core::operations::{AdviceInjector, Decorator, Operation};
use miden_core::utils::{IntoBytes, PushMany, ToElements};
use miden_core::{Felt, FIELD_MODULUS};

// OPERATIONS
// ================================================================================================

#[test]
fn opcodes_are_exact_and_distinct() {
    // spot checks against the opcode table
    assert_eq!(Operation::Noop.op_code(), 0);
    assert_eq!(Operation::Assert.op_code(), 1);
    assert_eq!(Operation::Push(Felt::new(3)).op_code(), 4);
    assert_eq!(Operation::Eq.op_code(), 0x49);
    assert_eq!(Operation::Add.op_code(), 0x48);
    assert_eq!(Operation::U32add.op_code(), 0x40);
    assert_eq!(Operation::RpPerm.op_code(), 57);
    assert_eq!(Operation::MpVerify.op_code(), 58);
    assert_eq!(Operation::MrUpdate(false).op_code(), 59);
    assert_eq!(Operation::MrUpdate(true).op_code(), 59);
    assert_eq!(Operation::Halt.op_code(), 83);

    // the table is collision-free across every executable operation
    let ops = [
        Operation::Noop,
        Operation::Assert,
        Operation::FmpAdd,
        Operation::FmpUpdate,
        Operation::Join,
        Operation::Split,
        Operation::Loop,
        Operation::Span,
        Operation::End,
        Operation::Repeat,
        Operation::Respan,
        Operation::Halt,
        Operation::Add,
        Operation::Neg,
        Operation::Mul,
        Operation::Inv,
        Operation::Incr,
        Operation::And,
        Operation::Or,
        Operation::Not,
        Operation::Eq,
        Operation::Eqz,
        Operation::Eqw,
        Operation::BinAcc,
        Operation::U32split,
        Operation::U32add,
        Operation::U32assert2,
        Operation::U32add3,
        Operation::U32sub,
        Operation::U32mul,
        Operation::U32madd,
        Operation::U32div,
        Operation::U32and,
        Operation::U32or,
        Operation::U32xor,
        Operation::Pad,
        Operation::Drop,
        Operation::Dup0,
        Operation::Dup1,
        Operation::Dup2,
        Operation::Dup3,
        Operation::Dup4,
        Operation::Dup5,
        Operation::Dup6,
        Operation::Dup7,
        Operation::Dup9,
        Operation::Dup11,
        Operation::Dup13,
        Operation::Dup15,
        Operation::Swap,
        Operation::SwapW,
        Operation::SwapW2,
        Operation::SwapW3,
        Operation::SwapDW,
        Operation::MovUp2,
        Operation::MovUp3,
        Operation::MovUp4,
        Operation::MovUp5,
        Operation::MovUp6,
        Operation::MovUp7,
        Operation::MovUp8,
        Operation::MovUp9,
        Operation::MovUp13,
        Operation::MovDn2,
        Operation::MovDn3,
        Operation::MovDn4,
        Operation::MovDn5,
        Operation::MovDn6,
        Operation::MovDn7,
        Operation::MovDn8,
        Operation::MovDn9,
        Operation::CSwap,
        Operation::CSwapW,
        Operation::Push(Felt::new(0)),
        Operation::Read,
        Operation::ReadW,
        Operation::MLoadW,
        Operation::MStoreW,
        Operation::MLoad,
        Operation::MStore,
        Operation::SDepth,
        Operation::RpPerm,
        Operation::MpVerify,
        Operation::MrUpdate(false),
    ];
    let mut seen: Vec<u8> = Vec::new();
    for op in ops {
        let code = op.op_code();
        assert!(!seen.contains(&code), "opcode collision at {}", code);
        seen.push(code);
    }
}

#[test]
fn operation_names_match_the_surface_syntax() {
    assert_eq!(Operation::Noop.op_str(), "noop");
    assert_eq!(Operation::RpPerm.op_str(), "rpperm");
    assert_eq!(Operation::MpVerify.op_str(), "mpverify");
    assert_eq!(Operation::MrUpdate(true).op_str(), "mrupdate(copy)");
    assert_eq!(Operation::MrUpdate(false).op_str(), "mrupdate(move)");
    // the name is static: the pushed value travels in imm_value instead
    assert_eq!(Operation::Push(Felt::new(9)).op_str(), "push");
}

#[test]
fn imm_value_and_predicates() {
    assert_eq!(
        Operation::Push(Felt::new(9)).imm_value(),
        Some(Felt::new(9))
    );
    assert_eq!(Operation::Add.imm_value(), None);

    assert!(Operation::Join.is_control_op());
    assert!(Operation::Halt.is_control_op());
    assert!(!Operation::Add.is_control_op());

    assert!(Operation::Advice(AdviceInjector::MerkleNode).is_annotation());
    assert!(!Operation::Read.is_annotation());
}

// CODE BLOCKS
// ================================================================================================

#[test]
fn block_hashes_commit_to_children() {
    let span_a = Span::new(vec![Operation::Add, Operation::Drop]);
    let span_b = Span::new(vec![Operation::Mul]);
    let hash_a = span_a.hash();
    let hash_b = span_b.hash();

    let join = Join::new(CodeBlock::Span(span_a), CodeBlock::Span(span_b));
    let join_hash = join.hash();
    assert_eq!(
        join_hash,
        miden_core::hasher::merge(&[hash_a, hash_b])
    );

    // a split of the same children carries the same merge of digests
    let span_a2 = Span::new(vec![Operation::Add, Operation::Drop]);
    let span_b2 = Span::new(vec![Operation::Mul]);
    let split = Split::new(CodeBlock::Span(span_a2), CodeBlock::Span(span_b2));
    assert_eq!(split.hash(), join_hash);
}

#[test]
fn markers_never_touch_the_hash() {
    let span_a = Span::new(vec![Operation::Incr]);
    let span_b = Span::new(vec![Operation::Neg]);
    let mut join = Join::new(CodeBlock::Span(span_a), CodeBlock::Span(span_b));
    let before = join.hash();
    join.append_proc_marker(Decorator::ProcMarker(String::from("main")));
    assert_eq!(join.hash(), before);
    assert_eq!(join.proc_markers().len(), 1);

    let span_c = Span::new(vec![Operation::Incr]);
    let span_d = Span::new(vec![Operation::Neg]);
    let mut split = Split::new(CodeBlock::Span(span_c), CodeBlock::Span(span_d));
    let before = split.hash();
    split.append_proc_marker(Decorator::ProcMarker(String::from("aux")));
    assert_eq!(split.hash(), before);
    assert_eq!(split.proc_markers().len(), 1);
}

#[test]
fn annotations_stay_out_of_the_span_encoding() {
    // an advice injector costs nothing and never enters the hash
    let plain = Span::new(vec![Operation::Add, Operation::Drop]);
    let annotated = Span::new(vec![
        Operation::Advice(AdviceInjector::MerkleNode),
        Operation::Add,
        Operation::Drop,
    ]);
    assert_eq!(plain.hash(), annotated.hash());
}

// PROGRAM HASH PARSING
// ================================================================================================

#[test]
fn program_hash_parses_little_endian_words() {
    // 32 bytes: 01 00 .. 00 | 02 00 .. 00 | 03 00 .. 00 | 04 00 .. 00
    let hex = "0100000000000000020000000000000003000000000000000400000000000000";
    let w = ProgramHash::read(&String::from(hex)).unwrap();
    assert_eq!(
        w,
        [Felt::new(1), Felt::new(2), Felt::new(3), Felt::new(4)]
    );

    // values are reduced into the field: eight ff bytes wrap around
    let hex = "ffffffffffffffff000000000000000000000000000000000000000000000000";
    let w = ProgramHash::read(&String::from(hex)).unwrap();
    assert_eq!(w[0], Felt::new(u64::MAX));
    assert_eq!(w[0].as_int(), u64::MAX % FIELD_MODULUS);
}

#[test]
fn program_hash_rejects_bad_strings() {
    assert!(matches!(
        ProgramHash::read(&String::from("abc")),
        Err(HashParseError::OddLength)
    ));
    assert!(matches!(
        ProgramHash::read(&String::from("zz00")),
        Err(HashParseError::InvalidHexCharacter('z', 0))
    ));
    assert!(matches!(
        ProgramHash::read(&String::from("0102")),
        Err(HashParseError::TooShort(2))
    ));
}

// INPUT AND OUTPUT DATA
// ================================================================================================

#[test]
fn input_file_lifts_values_into_the_field() {
    let input = InputFile { stack_inputs: vec![1, 2, FIELD_MODULUS] };
    let elements = input.stack_elements();
    assert_eq!(
        elements,
        vec![Felt::new(1), Felt::new(2), Felt::new(0)]
    );
}

#[test]
fn output_file_reverses_for_the_verifier() {
    let output = OutputFile { outputs: vec![1, 2, 3] };
    assert_eq!(output.reversed().outputs, vec![3, 2, 1]);
}

// CONVERSION HELPERS
// ================================================================================================

#[test]
fn to_elements_reduces_each_value() {
    let arr: [u64; 3] = [1, FIELD_MODULUS, FIELD_MODULUS + 5];
    assert_eq!(
        arr.to_elements(),
        vec![Felt::new(1), Felt::new(0), Felt::new(5)]
    );
    let vector: Vec<u64> = vec![7, 8];
    assert_eq!(vector.to_elements(), vec![Felt::new(7), Felt::new(8)]);
}

#[test]
fn into_bytes_is_little_endian() {
    let w = [
        Felt::new(0x0102030405060708),
        Felt::new(9),
        Felt::new(0),
        Felt::new(u64::MAX % FIELD_MODULUS),
    ];
    let bytes = w.into_bytes();
    assert_eq!(bytes[0], 0x08);
    assert_eq!(bytes[7], 0x01);
    assert_eq!(bytes[8], 9);
    assert_eq!(bytes[16], 0);
    assert_eq!(
        u64::from_le_bytes(bytes[24..32].try_into().unwrap()),
        u64::MAX % FIELD_MODULUS
    );
}

#[test]
fn push_many_appends_copies() {
    let mut ops: Vec<Operation> = vec![Operation::Noop];
    ops.push_many(Operation::Pad, 3);
    assert_eq!(
        ops,
        vec![Operation::Noop, Operation::Pad, Operation::Pad, Operation::Pad]
    );
}
