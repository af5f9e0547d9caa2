use miden_core::operations::Operation;
use miden_core::processor::{ExecutionError, Process, MIN_STACK_DEPTH};
use miden_core::Felt;
use winter_rand_utils::rand_value;

// HELPER FUNCTIONS
// ================================================================================================

fn init_stack_with(process: &mut Process, values: &[u64]) {
    for &value in values.iter() {
        process
            .execute_op(Operation::Push(Felt::new(value)))
            .unwrap();
    }
}

fn init_stack_rand(process: &mut Process) -> (Felt, Felt, Felt) {
    // push values a and b onto the stack
    let a: u64 = rand_value();
    let b: u64 = rand_value();
    let c: u64 = rand_value();
    init_stack_with(process, &[a, b, c]);
    (Felt::new(c), Felt::new(b), Felt::new(a))
}

fn build_expected(values: &[Felt]) -> [Felt; 16] {
    let mut expected = [Felt::new(0); 16];
    for (&value, result) in values.iter().zip(expected.iter_mut()) {
        *result = value;
    }
    expected
}

fn build_expected_from_ints(values: &[u64]) -> [Felt; 16] {
    let mut expected = [Felt::new(0); 16];
    for (&value, result) in values.iter().zip(expected.iter_mut()) {
        *result = Felt::new(value);
    }
    expected
}

// ARITHMETIC OPERATIONS
// ================================================================================================

#[test]
fn op_add() {
    // initialize the stack with a few values
    let mut process = Process::new_dummy();
    let (a, b, c) = init_stack_rand(&mut process);

    // add the top two values
    process.execute_op(Operation::Add).unwrap();
    let expected = build_expected(&[a.add(b), c]);

    assert_eq!(MIN_STACK_DEPTH + 2, process.stack.depth());
    assert_eq!(4, process.stack.current_clk());
    assert_eq!(expected, process.stack.trace_state());

    // calling add with a stack of minimum depth is ok
    let mut process = Process::new_dummy();
    assert!(process.execute_op(Operation::Add).is_ok());
}

#[test]
fn op_neg() {
    // initialize the stack with a few values
    let mut process = Process::new_dummy();
    let (a, b, c) = init_stack_rand(&mut process);

    // negate the top value
    process.execute_op(Operation::Neg).unwrap();
    let expected = build_expected(&[a.neg(), b, c]);

    assert_eq!(expected, process.stack.trace_state());
    assert_eq!(MIN_STACK_DEPTH + 3, process.stack.depth());
    assert_eq!(4, process.stack.current_clk());
}

#[test]
fn op_mul() {
    // initialize the stack with a few values
    let mut process = Process::new_dummy();
    let (a, b, c) = init_stack_rand(&mut process);

    // multiply the top two values
    process.execute_op(Operation::Mul).unwrap();
    let expected = build_expected(&[a.mul(b), c]);

    assert_eq!(MIN_STACK_DEPTH + 2, process.stack.depth());
    assert_eq!(4, process.stack.current_clk());
    assert_eq!(expected, process.stack.trace_state());

    // calling mul with a stack of minimum depth is ok
    let mut process = Process::new_dummy();
    assert!(process.execute_op(Operation::Mul).is_ok());
}

#[test]
fn op_inv() {
    // initialize the stack with a few values
    let mut process = Process::new_dummy();
    let (a, b, c) = init_stack_rand(&mut process);

    // invert the top value
    if b.as_int() != 0 {
        process.execute_op(Operation::Inv).unwrap();
        let expected = build_expected(&[a.inv(), b, c]);

        assert_eq!(MIN_STACK_DEPTH + 3, process.stack.depth());
        assert_eq!(4, process.stack.current_clk());
        assert_eq!(expected, process.stack.trace_state());
    }

    // inverting zero should be an error
    process.execute_op(Operation::Pad).unwrap();
    assert!(process.execute_op(Operation::Inv).is_err());
}

#[test]
fn op_incr() {
    // initialize the stack with a few values
    let mut process = Process::new_dummy();
    let (a, b, c) = init_stack_rand(&mut process);

    // increment the top value
    process.execute_op(Operation::Incr).unwrap();
    let expected = build_expected(&[a.add(Felt::new(1)), b, c]);

    assert_eq!(MIN_STACK_DEPTH + 3, process.stack.depth());
    assert_eq!(4, process.stack.current_clk());
    assert_eq!(expected, process.stack.trace_state());
}

// BOOLEAN OPERATIONS
// ================================================================================================

#[test]
fn op_and() {
    // --- test 0 AND 0 ---------------------------------------------------
    let mut process = Process::new_dummy();
    init_stack_with(&mut process, &[2, 0, 0]);

    process.execute_op(Operation::And).unwrap();
    let expected = build_expected(&[Felt::new(0), Felt::new(2)]);
    assert_eq!(expected, process.stack.trace_state());

    // --- test 1 AND 0 ---------------------------------------------------
    let mut process = Process::new_dummy();
    init_stack_with(&mut process, &[2, 0, 1]);

    process.execute_op(Operation::And).unwrap();
    let expected = build_expected(&[Felt::new(0), Felt::new(2)]);
    assert_eq!(expected, process.stack.trace_state());

    // --- test 0 AND 1 ---------------------------------------------------
    let mut process = Process::new_dummy();
    init_stack_with(&mut process, &[2, 1, 0]);

    process.execute_op(Operation::And).unwrap();
    let expected = build_expected(&[Felt::new(0), Felt::new(2)]);
    assert_eq!(expected, process.stack.trace_state());

    // --- test 1 AND 1 ---------------------------------------------------
    let mut process = Process::new_dummy();
    init_stack_with(&mut process, &[2, 1, 1]);

    process.execute_op(Operation::And).unwrap();
    let expected = build_expected(&[Felt::new(1), Felt::new(2)]);
    assert_eq!(expected, process.stack.trace_state());

    // --- first operand is not binary ------------------------------------
    let mut process = Process::new_dummy();
    init_stack_with(&mut process, &[2, 1, 2]);
    assert!(process.execute_op(Operation::And).is_err());

    // --- second operand is not binary -----------------------------------
    let mut process = Process::new_dummy();
    init_stack_with(&mut process, &[2, 2, 1]);
    assert!(process.execute_op(Operation::And).is_err());

    // --- calling AND with a stack of minimum depth is ok ----------------
    let mut process = Process::new_dummy();
    assert!(process.execute_op(Operation::And).is_ok());
}

#[test]
fn op_or() {
    // --- test 0 OR 0 ---------------------------------------------------
    let mut process = Process::new_dummy();
    init_stack_with(&mut process, &[2, 0, 0]);

    process.execute_op(Operation::Or).unwrap();
    let expected = build_expected(&[Felt::new(0), Felt::new(2)]);
    assert_eq!(expected, process.stack.trace_state());

    // --- test 1 OR 0 ---------------------------------------------------
    let mut process = Process::new_dummy();
    init_stack_with(&mut process, &[2, 0, 1]);

    process.execute_op(Operation::Or).unwrap();
    let expected = build_expected(&[Felt::new(1), Felt::new(2)]);
    assert_eq!(expected, process.stack.trace_state());

    // --- test 0 OR 1 ---------------------------------------------------
    let mut process = Process::new_dummy();
    init_stack_with(&mut process, &[2, 1, 0]);

    process.execute_op(Operation::Or).unwrap();
    let expected = build_expected(&[Felt::new(1), Felt::new(2)]);
    assert_eq!(expected, process.stack.trace_state());

    // --- test 1 OR 1 ---------------------------------------------------
    let mut process = Process::new_dummy();
    init_stack_with(&mut process, &[2, 1, 1]);

    process.execute_op(Operation::Or).unwrap();
    let expected = build_expected(&[Felt::new(1), Felt::new(2)]);
    assert_eq!(expected, process.stack.trace_state());

    // --- first operand is not binary ------------------------------------
    let mut process = Process::new_dummy();
    init_stack_with(&mut process, &[2, 1, 2]);
    assert!(process.execute_op(Operation::Or).is_err());

    // --- second operand is not binary -----------------------------------
    let mut process = Process::new_dummy();
    init_stack_with(&mut process, &[2, 2, 1]);
    assert!(process.execute_op(Operation::Or).is_err());

    // --- calling OR with a stack of minimum depth is a ok ----------------
    let mut process = Process::new_dummy();
    assert!(process.execute_op(Operation::Or).is_ok());
}

#[test]
fn op_not() {
    // --- test NOT 0 -----------------------------------------------------
    let mut process = Process::new_dummy();
    init_stack_with(&mut process, &[2, 0]);

    process.execute_op(Operation::Not).unwrap();
    let expected = build_expected(&[Felt::new(1), Felt::new(2)]);
    assert_eq!(expected, process.stack.trace_state());

    // --- test NOT 1 ----------------------------------------------------
    let mut process = Process::new_dummy();
    init_stack_with(&mut process, &[2, 1]);

    process.execute_op(Operation::Not).unwrap();
    let expected = build_expected(&[Felt::new(0), Felt::new(2)]);
    assert_eq!(expected, process.stack.trace_state());

    // --- operand is not binary ------------------------------------------
    let mut process = Process::new_dummy();
    init_stack_with(&mut process, &[2, 2]);
    assert!(process.execute_op(Operation::Not).is_err());
}

// COMPARISON OPERATIONS
// ================================================================================================

#[test]
fn op_eq() {
    // --- test when top two values are equal -----------------------------
    let mut process = Process::new_dummy();
    init_stack_with(&mut process, &[3, 7, 7]);

    process.execute_op(Operation::Eq).unwrap();
    let expected = build_expected(&[Felt::new(1), Felt::new(3)]);
    assert_eq!(expected, process.stack.trace_state());

    // --- test when top two values are not equal -------------------------
    let mut process = Process::new_dummy();
    init_stack_with(&mut process, &[3, 5, 7]);

    process.execute_op(Operation::Eq).unwrap();
    let expected = build_expected(&[Felt::new(0), Felt::new(3)]);
    assert_eq!(expected, process.stack.trace_state());

    // --- calling EQ with a stack of minimum depth is a ok ---------------
    let mut process = Process::new_dummy();
    assert!(process.execute_op(Operation::Eq).is_ok());
}

#[test]
fn op_eqz() {
    // --- test when top is zero ------------------------------------------
    let mut process = Process::new_dummy();
    init_stack_with(&mut process, &[3, 0]);

    process.execute_op(Operation::Eqz).unwrap();
    let expected = build_expected(&[Felt::new(1), Felt::new(3)]);
    assert_eq!(expected, process.stack.trace_state());

    // --- test when top is not zero --------------------------------------
    let mut process = Process::new_dummy();
    init_stack_with(&mut process, &[3, 4]);

    process.execute_op(Operation::Eqz).unwrap();
    let expected = build_expected(&[Felt::new(0), Felt::new(3)]);
    assert_eq!(expected, process.stack.trace_state());
}

#[test]
fn op_eqw() {
    // --- test when top two words are equal ------------------------------
    let mut process = Process::new_dummy();
    let mut values = vec![1, 2, 3, 4, 5, 2, 3, 4, 5];
    init_stack_with(&mut process, &values);

    process.execute_op(Operation::Eqw).unwrap();
    values.reverse();
    values.insert(0, 1);
    let expected = build_expected_from_ints(&values);
    assert_eq!(expected, process.stack.trace_state());

    // --- test when top two words are not equal --------------------------
    let mut process = Process::new_dummy();
    let mut values = vec![1, 2, 3, 4, 5, 6, 7, 8, 9];
    init_stack_with(&mut process, &values);

    process.execute_op(Operation::Eqw).unwrap();
    values.reverse();
    values.insert(0, 0);
    let expected = build_expected_from_ints(&values);
    assert_eq!(expected, process.stack.trace_state());
}

#[test]
fn op_binacc() {
    // --- test when b become 0 --------------------------------------------
    let mut process = Process::new_dummy();
    let a = 0;
    let b = 32;
    let c = 4;
    init_stack_with(&mut process, &[a, b, c]);

    process.execute_op(Operation::BinAcc).unwrap();
    let expected = build_expected(&[Felt::new(16), Felt::new(32), Felt::new(a >> 1)]);
    assert_eq!(expected, process.stack.trace_state());

    // --- test when bit from b is 1 ----------------------------------------
    let mut process = Process::new_dummy();
    let a = 3;
    let b = 1;
    let c = 16;
    init_stack_with(&mut process, &[a, b, c]);

    process.execute_op(Operation::BinAcc).unwrap();
    let expected = build_expected(&[Felt::new(256), Felt::new(16), Felt::new(a >> 1)]);
    assert_eq!(expected, process.stack.trace_state());

    // --- test when bit from b is 1 & exp is 2**32; exp overflows the field --
    let mut process = Process::new_dummy();
    let a = 1;
    let b = 16;
    let c = 2u64.pow(32);
    init_stack_with(&mut process, &[a, b, c]);

    process.execute_op(Operation::BinAcc).unwrap();
    let expected = build_expected(&[
        Felt::new(2u64.pow(32)).mul(Felt::new(2u64.pow(32))),
        Felt::new(2u64.pow(36)),
        Felt::new(a >> 1),
    ]);
    assert_eq!(expected, process.stack.trace_state());

    // --- test fails, exp not pow of 2 --------------------------------------
    let mut process = Process::new_dummy();
    let a = 3;
    let b = 1;
    let c = 15;
    init_stack_with(&mut process, &[a, b, c]);
    assert!(process.execute_op(Operation::BinAcc).is_err());

    // --- test fails, acc not pow of 2 --------------------------------------
    let mut process = Process::new_dummy();
    let a = 2;
    let b = 45;
    let c = 4;
    init_stack_with(&mut process, &[a, b, c]);
    assert!(process.execute_op(Operation::BinAcc).is_err());

    // --- test fails, both acc & exp not pow of 2 ----------------------------
    let mut process = Process::new_dummy();
    let a = 2;
    let b = 47;
    let c = 5;
    init_stack_with(&mut process, &[a, b, c]);
    assert!(process.execute_op(Operation::BinAcc).is_err());
}

// OTHER OPERATIONS AND ERRORS
// ================================================================================================

#[test]
fn op_assert_checks_the_top() {
    let mut process = Process::new_dummy();
    init_stack_with(&mut process, &[7, 1]);
    process.execute_op(Operation::Assert).unwrap();
    let expected = build_expected(&[Felt::new(7)]);
    assert_eq!(expected, process.stack.trace_state());

    let mut process = Process::new_dummy();
    init_stack_with(&mut process, &[7, 0]);
    assert!(matches!(
        process.execute_op(Operation::Assert),
        Err(ExecutionError::FailedAssertion(_))
    ));
}

#[test]
fn op_read_fails_on_empty_tape() {
    let mut process = Process::new_dummy();
    assert!(matches!(
        process.execute_op(Operation::Read),
        Err(ExecutionError::AdviceTapeReadFailed(_))
    ));
}

#[test]
fn control_flow_is_not_executable() {
    let mut process = Process::new_dummy();
    assert!(matches!(
        process.execute_op(Operation::Join),
        Err(ExecutionError::UnexecutableOperation(Operation::Join))
    ));
    assert!(matches!(
        process.execute_op(Operation::Halt),
        Err(ExecutionError::UnexecutableOperation(Operation::Halt))
    ));
}

#[test]
fn stack_shuffles() {
    // dup, swap and moves keep the expected shape
    let mut process = Process::new_dummy();
    init_stack_with(&mut process, &[1, 2, 3]);
    // stack from the top: [3, 2, 1]
    process.execute_op(Operation::Dup1).unwrap();
    // [2, 3, 2, 1]
    let expected = build_expected_from_ints(&[2, 3, 2, 1]);
    assert_eq!(expected, process.stack.trace_state());

    process.execute_op(Operation::Swap).unwrap();
    // [3, 2, 2, 1]
    let expected = build_expected_from_ints(&[3, 2, 2, 1]);
    assert_eq!(expected, process.stack.trace_state());

    process.execute_op(Operation::MovDn3).unwrap();
    // [2, 2, 1, 3]
    let expected = build_expected_from_ints(&[2, 2, 1, 3]);
    assert_eq!(expected, process.stack.trace_state());

    process.execute_op(Operation::MovUp3).unwrap();
    // [3, 2, 2, 1]
    let expected = build_expected_from_ints(&[3, 2, 2, 1]);
    assert_eq!(expected, process.stack.trace_state());

    process.execute_op(Operation::Drop).unwrap();
    // [2, 2, 1]
    let expected = build_expected_from_ints(&[2, 2, 1]);
    assert_eq!(expected, process.stack.trace_state());
}
