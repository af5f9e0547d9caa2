use miden_core::hasher::{
    absorb_into_state, apply_permutation, apply_round, get_digest, hash_elements, init_state,
    init_state_from_words, linear_hash, linear_hash_label, merge, mp_verify, mp_verify_label,
    mr_update_new, mr_update_new_label, mr_update_old, mr_update_old_label, return_hash,
    return_hash_label, return_state, return_state_label, NUM_ROUNDS,
};
use miden_core::op_sponge;
use miden_core::{Felt, Word, FIELD_MODULUS};

fn word(a: u64, b: u64, c: u64, d: u64) -> Word {
    [Felt::new(a), Felt::new(b), Felt::new(c), Felt::new(d)]
}

// FIELD ARITHMETIC
// ================================================================================================

#[test]
fn field_arithmetic() {
    let p = FIELD_MODULUS;
    assert_eq!(Felt::new(p).as_int(), 0);
    assert_eq!(Felt::new(p - 1).add(Felt::new(1)).as_int(), 0);
    assert_eq!(Felt::new(3).sub(Felt::new(5)).as_int(), p - 2);
    assert_eq!(Felt::new(0).neg().as_int(), 0);
    assert_eq!(Felt::new(1).neg().as_int(), p - 1);
    // two to the 64th reduces to two to the 32nd less one in this field
    assert_eq!(Felt::new(1 << 32).mul(Felt::new(1 << 32)).as_int(), (1 << 32) - 1);
    // the inverse really inverts
    let x = Felt::new(123456789);
    assert_eq!(x.mul(x.inv()).as_int(), 1);
    assert_eq!(Felt::new(0).inv().as_int(), 0);
}

// MERGING AND HASHING
// ================================================================================================

#[test]
fn merge_is_deterministic_and_sensitive() {
    let a = word(1, 2, 3, 4);
    let b = word(5, 6, 7, 8);

    // same inputs give identical outputs across repeated calls
    let first = merge(&[a, b]);
    let second = merge(&[a, b]);
    assert_eq!(first, second);

    // changing either input changes the output
    let a2 = word(1, 2, 3, 5);
    let b2 = word(5, 6, 7, 9);
    assert_ne!(merge(&[a2, b]), first);
    assert_ne!(merge(&[a, b2]), first);
    assert_ne!(merge(&[b, a]), first);
}

#[test]
fn merge_matches_permutation_of_word_state() {
    // merging two digests is exactly: seed the capacity with 8, put the
    // words in the rate, permute, read the digest window
    let a = word(1, 2, 3, 4);
    let b = word(5, 6, 7, 8);
    let mut state = init_state_from_words(&a, &b);
    apply_permutation(&mut state);
    assert_eq!(get_digest(&state), merge(&[a, b]));
}

#[test]
fn merge_matches_hash_of_eight_elements() {
    // hashing the eight elements of two digests gives the digests' merge
    let a = word(1, 2, 3, 4);
    let b = word(5, 6, 7, 8);
    let elements = [a[0], a[1], a[2], a[3], b[0], b[1], b[2], b[3]];
    assert_eq!(hash_elements(&elements), merge(&[a, b]));
}

#[test]
fn permutation_is_seven_rounds() {
    let a = word(9, 8, 7, 6);
    let b = word(1, 1, 2, 2);
    let mut by_rounds = init_state_from_words(&a, &b);
    for round in 0..NUM_ROUNDS {
        apply_round(&mut by_rounds, round);
    }
    let mut at_once = init_state_from_words(&a, &b);
    apply_permutation(&mut at_once);
    assert_eq!(by_rounds, at_once);
}

#[test]
fn state_initialization_and_absorption() {
    let values = [
        Felt::new(1),
        Felt::new(2),
        Felt::new(3),
        Felt::new(4),
        Felt::new(5),
        Felt::new(6),
        Felt::new(7),
        Felt::new(8),
    ];
    let state = init_state(&values, 11);
    assert_eq!(state[0].as_int(), 11);
    assert_eq!(state[1].as_int(), 0);
    assert_eq!(state[2].as_int(), 0);
    assert_eq!(state[3].as_int(), 0);
    for k in 0..8 {
        assert_eq!(state[4 + k], values[k]);
    }

    // absorbing adds into the rate and leaves the capacity alone
    let mut state = init_state(&values, 8);
    let more = [
        Felt::new(10),
        Felt::new(20),
        Felt::new(FIELD_MODULUS - 1),
        Felt::new(0),
        Felt::new(1),
        Felt::new(2),
        Felt::new(3),
        Felt::new(4),
    ];
    absorb_into_state(&mut state, &more);
    assert_eq!(state[0].as_int(), 8);
    assert_eq!(state[4].as_int(), 11);
    assert_eq!(state[5].as_int(), 22);
    // addition wraps in the field
    assert_eq!(state[6].as_int(), 2);
    assert_eq!(state[7].as_int(), 4);

    let digest = get_digest(&state);
    assert_eq!(digest, [state[4], state[5], state[6], state[7]]);
}

// SELECTORS AND LABELS
// ================================================================================================

#[test]
fn selector_labels_encode_the_bits() {
    // each label is one more than the binary value of its selector bits
    let cases = [
        (linear_hash(), linear_hash_label(), 3),
        (mp_verify(), mp_verify_label(), 11),
        (mr_update_old(), mr_update_old_label(), 7),
        (mr_update_new(), mr_update_new_label(), 15),
        (return_hash(), return_hash_label(), 1),
        (return_state(), return_state_label(), 9),
    ];
    let mut seen: Vec<u64> = Vec::new();
    for (selectors, label, expected) in cases {
        let bits = selectors[0].as_int() * 2 + selectors[1].as_int() * 4 + selectors[2].as_int()
            * 8;
        assert_eq!(label.as_int(), 1 + bits);
        assert_eq!(label.as_int(), expected);
        // no two modes share a label
        assert!(!seen.contains(&label.as_int()));
        seen.push(label.as_int());
    }
}

// THE CONSTRAINT SPONGE
// ================================================================================================

fn sample_state() -> [Felt; 12] {
    let mut state = [Felt::new(0); 12];
    for (k, slot) in state.iter_mut().enumerate() {
        *slot = Felt::new((k as u64 + 1) * 1_000_003);
    }
    state
}

#[test]
fn backward_half_round_meets_forward_half_round() {
    // advance a state by one full round, reconstruct backward through
    // the second half, and compare against the forward half-round
    let state = sample_state();
    for round in 0..op_sponge::NUM_ROUNDS {
        let (advanced, reconstructed) = op_sponge::round_reversal(&state, round);

        // recompute the forward half directly
        let ark = op_sponge::round_constants(round);
        let mut fwd = state;
        op_sponge::add_constants(&mut fwd, &ark, 0);
        op_sponge::apply_sbox(&mut fwd);
        op_sponge::apply_mds(&mut fwd);
        assert_eq!(reconstructed, fwd);

        // and the full round output differs from the half-round state
        assert_ne!(advanced, fwd);
    }
}

#[test]
fn full_permutation_reverses_to_the_original_state() {
    // the permutation run forward and reconstructed backward layer by
    // layer, re-deriving every round's constants, returns the exact
    // starting state
    let state = sample_state();
    let (permuted, reconstructed) = op_sponge::permutation_reversal(&state);
    assert_ne!(permuted, state);
    assert_eq!(reconstructed, state);

    // and the forward component matches the plain permutation
    let mut forward = state;
    for round in 0..op_sponge::NUM_ROUNDS {
        op_sponge::apply_round(&mut forward, round);
    }
    assert_eq!(permuted, forward);
}

#[test]
fn mixing_layer_inverts() {
    let mut state = sample_state();
    let original = state;
    op_sponge::apply_mds(&mut state);
    assert_ne!(state, original);
    op_sponge::apply_inv_mds(&mut state);
    assert_eq!(state, original);
}

#[test]
fn sbox_is_an_involution() {
    let mut state = sample_state();
    let original = state;
    op_sponge::apply_sbox(&mut state);
    assert_ne!(state, original);
    op_sponge::apply_inv_sbox(&mut state);
    assert_eq!(state, original);
}

#[test]
fn constraint_accepts_a_genuine_transition() {
    // over a genuine round transition with no injections the residues
    // vanish: the accumulator keeps its value even with the flag set
    let current = sample_state();
    for round in 0..op_sponge::NUM_ROUNDS {
        let (next, _) = op_sponge::round_reversal(&current, round);
        let ark = op_sponge::round_constants(round);
        let mut result = vec![Felt::new(0); 12];
        op_sponge::enforce_hacc(
            &mut result,
            &current,
            &next,
            &ark,
            Felt::new(1),
            Felt::new(0),
            Felt::new(0),
            Felt::new(0),
        );
        assert_eq!(result, vec![Felt::new(0); 12]);
    }
}

#[test]
fn constraint_rejects_a_forged_transition() {
    // a next row that is not the round function of the current row
    // leaves a non-zero residue somewhere
    let current = sample_state();
    let mut forged = current;
    forged[0] = forged[0].add(Felt::new(1));
    let ark = op_sponge::round_constants(0);
    let mut result = vec![Felt::new(0); 12];
    op_sponge::enforce_hacc(
        &mut result,
        &current,
        &forged,
        &ark,
        Felt::new(1),
        Felt::new(0),
        Felt::new(0),
        Felt::new(0),
    );
    assert_ne!(result, vec![Felt::new(0); 12]);
}

#[test]
fn constraint_is_vacuous_without_the_flag() {
    // with the activation flag at zero the constraint never moves the
    // accumulator, whatever the rows hold
    let current = sample_state();
    let mut forged = current;
    forged[3] = forged[3].add(Felt::new(17));
    let ark = op_sponge::round_constants(2);
    let seed: Vec<Felt> = (0..12).map(|k| Felt::new(900 + k)).collect();
    let mut result = seed.clone();
    op_sponge::enforce_hacc(
        &mut result,
        &current,
        &forged,
        &ark,
        Felt::new(0),
        Felt::new(5),
        Felt::new(6),
        Felt::new(1),
    );
    assert_eq!(result, seed);
}

#[test]
fn constraint_sees_the_injected_operation() {
    // the opcode and operand injections shift the first two residues and
    // nothing else
    let current = sample_state();
    for round in 0..1 {
        let (next, _) = op_sponge::round_reversal(&current, round);
        let ark = op_sponge::round_constants(round);
        let mut result = vec![Felt::new(0); 12];
        op_sponge::enforce_hacc(
            &mut result,
            &current,
            &next,
            &ark,
            Felt::new(1),
            Felt::new(57),
            Felt::new(42),
            Felt::new(1),
        );
        assert_eq!(result[0], Felt::new(57));
        assert_eq!(result[1], Felt::new(42));
        for k in 2..12 {
            assert_eq!(result[k], Felt::new(0));
        }
    }
}
