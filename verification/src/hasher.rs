//! The hashing chiplet core: a sponge over twelve field elements whose
//! permutation is the Rescue-XLIX construction of the `winter_crypto`
//! crate. One permutation serves plain hashing, Merkle-path verification
//! and Merkle-root updates; the selector vectors and their integer labels
//! identify which of these modes a hasher trace row belongs to.
use vstd::prelude::*;
use crate::field::{all_valid, f_add, fp, vals, Felt};
use winter_crypto::hashers::Rp64_256;
use winter_crypto::{ElementHasher, Hasher as WinterHasher};
use winter_math::fields::f64::BaseElement;
use winter_math::StarkField;

verus! {

/// A word: four field elements, the unit in which digests and stack
/// slices travel.
pub type Word = [Felt; 4];

/// The output of the hash function: four field elements.
pub type Digest = Word;

/// A hasher trace selector: the bit vector that identifies which
/// transition function applies at a row of the hasher execution trace.
pub type Selectors = [Felt; 3];

/// Number of field elements in the sponge state: 8 rate elements and 4
/// capacity elements, so that a 2-to-1 hash fits in one permutation.
pub const STATE_WIDTH: usize = 12;

/// Number of field elements in the rate portion of the hasher's state.
pub const RATE_LEN: usize = 8;

/// Number of field elements in the capacity portion of the hasher's state.
pub const CAPACITY_LEN: usize = 4;

/// The length of the output portion of the hash state.
pub const DIGEST_LEN: usize = 4;

/// First state element of the digest window (elements 4 through 7).
pub const DIGEST_RANGE_START: usize = 4;

/// One past the last state element of the digest window.
pub const DIGEST_RANGE_END: usize = 8;

/// Number of rounds in one permutation: 7, targeting a 128-bit security
/// level with a 40% margin.
pub const NUM_ROUNDS: usize = 7;

/// Number of selector columns in the hasher trace.
pub const NUM_SELECTORS: usize = 3;

/// Number of trace rows needed to compute one permutation: the number of
/// rounds padded to the next power of two.
pub const HASH_CYCLE_LEN: usize = 8;

/// Number of columns in the hasher execution trace: selectors, the state,
/// and two more columns for row address and node index.
pub const TRACE_WIDTH: usize = 17;

// NAMED PERMUTATION RESULTS
// ================================================================================================

/// What one Rescue-XLIX round of the outside hash function returns for a
/// given sponge state (as canonical values) and round number.
pub uninterp spec fn rp_round_of(state: Seq<int>, round: int) -> Seq<int>;

/// The given number of rounds applied in sequence, starting from round 0.
pub open spec fn rp_rounds(state: Seq<int>, n: nat) -> Seq<int>
    decreases n,
{
    if n == 0 {
        state
    } else {
        rp_round_of(rp_rounds(state, (n - 1) as nat), n - 1)
    }
}

/// The full permutation: all seven rounds applied in sequence.
pub open spec fn rp_permuted(state: Seq<int>) -> Seq<int> {
    rp_rounds(state, NUM_ROUNDS as nat)
}

/// The sponge state from which a 2-to-1 merge starts: the first capacity
/// element holds the number of elements to hash (eight), and the two
/// digests fill the rate.
pub open spec fn merge_initial_state(a: Seq<int>, b: Seq<int>) -> Seq<int> {
    seq![8int, 0int, 0int, 0int] + a + b
}

/// The digest of merging two digests: the digest window of the permuted
/// merge state.
pub open spec fn rp_merged(a: Seq<int>, b: Seq<int>) -> Seq<int> {
    rp_permuted(merge_initial_state(a, b)).subrange(
        DIGEST_RANGE_START as int,
        DIGEST_RANGE_END as int,
    )
}

/// One block of up to eight elements absorbed into the rate portion of a
/// state by field addition.
pub open spec fn absorbed_block(state: Seq<int>, block: Seq<int>) -> Seq<int> {
    Seq::new(state.len(), |i: int|
        if DIGEST_RANGE_START <= i < DIGEST_RANGE_START + block.len() {
            f_add(state[i], block[i - DIGEST_RANGE_START])
        } else {
            state[i]
        })
}

/// All elements absorbed into the state, one rate-sized block at a time,
/// with a permutation after every block (the trailing partial block
/// included).
pub open spec fn absorb_all(state: Seq<int>, elements: Seq<int>) -> Seq<int>
    decreases elements.len(),
{
    if elements.len() <= RATE_LEN {
        rp_permuted(absorbed_block(state, elements))
    } else {
        absorb_all(
            rp_permuted(absorbed_block(state, elements.take(RATE_LEN as int))),
            elements.skip(RATE_LEN as int),
        )
    }
}

/// The digest of hashing a list of field elements: the capacity is seeded
/// with the element count, the elements are absorbed block by block, and
/// the digest window of the final state is returned. An empty list is not
/// absorbed at all, so its digest is the digest window of the initial
/// state.
pub open spec fn rp_hashed(elements: Seq<int>) -> Seq<int> {
    let initial = seq![elements.len() as int % fp(), 0int, 0int, 0int]
        + Seq::new(RATE_LEN as nat, |i: int| 0int);
    if elements.len() == 0 {
        initial.subrange(DIGEST_RANGE_START as int, DIGEST_RANGE_END as int)
    } else {
        absorb_all(initial, elements).subrange(
            DIGEST_RANGE_START as int,
            DIGEST_RANGE_END as int,
        )
    }
}

// PASS-THROUGH FUNCTIONS
// ================================================================================================

/// Returns a hash of two digests, as used to build Merkle trees.
///
/// Relies on winter_crypto's Rp64_256::merge: its source seeds the first
/// capacity element with 8, copies the two digests into the rate, applies
/// the permutation, and returns the digest window.
#[verifier::external_body]
pub fn merge(values: &[Digest; 2]) -> (r: Digest)
    requires
        all_valid(values[0]@),
        all_valid(values[1]@),
    ensures
        all_valid(r@),
        vals(r@) == rp_merged(vals(values[0]@), vals(values[1]@)),
{
    let a = values[0].map(|f| BaseElement::new(f.value));
    let b = values[1].map(|f| BaseElement::new(f.value));
    let digest = Rp64_256::merge(&[a.into(), b.into()]);
    let e = digest.as_elements();
    [
        Felt { value: e[0].as_int() },
        Felt { value: e[1].as_int() },
        Felt { value: e[2].as_int() },
        Felt { value: e[3].as_int() },
    ]
}

/// Returns a hash of the provided list of field elements.
///
/// Relies on winter_crypto's Rp64_256::hash_elements: its source seeds the
/// first capacity element with the element count, absorbs the elements
/// into the rate eight at a time with a permutation after every block,
/// and returns the digest window.
#[verifier::external_body]
pub fn hash_elements(elements: &[Felt]) -> (r: Digest)
    requires
        all_valid(elements@),
    ensures
        all_valid(r@),
        vals(r@) == rp_hashed(vals(elements@)),
{
    let converted: Vec<BaseElement> =
        elements.iter().map(|f| BaseElement::new(f.value)).collect();
    let digest = Rp64_256::hash_elements(&converted);
    let e = digest.as_elements();
    [
        Felt { value: e[0].as_int() },
        Felt { value: e[1].as_int() },
        Felt { value: e[2].as_int() },
        Felt { value: e[3].as_int() },
    ]
}

/// Applies a single Rescue-XLIX round to the provided sponge state. The
/// round number must be below the number of rounds.
///
/// Relies on winter_crypto's Rp64_256::apply_round; the name `rp_round_of`
/// stands for its result, which depends on the state and round alone.
#[verifier::external_body]
pub fn apply_round(state: &mut [Felt; 12], round: usize)
    requires
        all_valid(old(state)@),
        round < NUM_ROUNDS,
    ensures
        all_valid(final(state)@),
        vals(final(state)@) == rp_round_of(vals(old(state)@), round as int),
{
    let mut s = state.map(|f| BaseElement::new(f.value));
    Rp64_256::apply_round(&mut s, round);
    for i in 0..12 {
        state[i] = Felt { value: s[i].as_int() };
    }
}

/// Applies the full Rescue-XLIX permutation (7 rounds) to the provided
/// sponge state.
///
/// Relies on winter_crypto's Rp64_256::apply_permutation: its source
/// applies the seven rounds in sequence, which is exactly `rp_permuted`.
#[verifier::external_body]
pub fn apply_permutation(state: &mut [Felt; 12])
    requires
        all_valid(old(state)@),
    ensures
        all_valid(final(state)@),
        vals(final(state)@) == rp_permuted(vals(old(state)@)),
{
    let mut s = state.map(|f| BaseElement::new(f.value));
    Rp64_256::apply_permutation(&mut s);
    for i in 0..12 {
        state[i] = Felt { value: s[i].as_int() };
    }
}

// HASHER STATE MUTATORS
// ================================================================================================

/// Initializes a hasher state with the first 8 elements to be absorbed and
/// the specified total number of elements to be absorbed.
pub fn init_state(init_values: &[Felt; 8], num_elements: usize) -> (r: [Felt; 12])
    requires
        all_valid(init_values@),
    ensures
        all_valid(r@),
        r@.len() == STATE_WIDTH,
        r[0].value == num_elements as int % fp(),
        r[1].value == 0 && r[2].value == 0 && r[3].value == 0,
        forall|i: int| 0 <= i < 8 ==> r@[i + 4] == init_values@[i],
{
    [
        Felt::new(num_elements as u64),
        Felt { value: 0 },
        Felt { value: 0 },
        Felt { value: 0 },
        init_values[0],
        init_values[1],
        init_values[2],
        init_values[3],
        init_values[4],
        init_values[5],
        init_values[6],
        init_values[7],
    ]
}

/// Initializes a hasher state with the elements of the two provided words;
/// the number of elements to be hashed is set to 8. Permuting this state
/// and reading the digest window computes exactly the 2-to-1 merge of the
/// two words.
pub fn init_state_from_words(w1: &Word, w2: &Word) -> (r: [Felt; 12])
    requires
        all_valid(w1@),
        all_valid(w2@),
    ensures
        all_valid(r@),
        vals(r@) == merge_initial_state(vals(w1@), vals(w2@)),
{
    let r = [
        Felt { value: 8 },
        Felt { value: 0 },
        Felt { value: 0 },
        Felt { value: 0 },
        w1[0],
        w1[1],
        w1[2],
        w1[3],
        w2[0],
        w2[1],
        w2[2],
        w2[3],
    ];
    proof {
        assert(vals(r@) =~= merge_initial_state(vals(w1@), vals(w2@)));
    }
    r
}

/// Absorbs the specified values into the provided state by adding them to
/// the corresponding elements of the rate portion of the state.
pub fn absorb_into_state(state: &mut [Felt; 12], values: &[Felt; 8])
    requires
        all_valid(old(state)@),
        all_valid(values@),
    ensures
        all_valid(final(state)@),
        vals(final(state)@) == absorbed_block(vals(old(state)@), vals(values@)),
{
    state[4] = state[4].add(values[0]);
    state[5] = state[5].add(values[1]);
    state[6] = state[6].add(values[2]);
    state[7] = state[7].add(values[3]);
    state[8] = state[8].add(values[4]);
    state[9] = state[9].add(values[5]);
    state[10] = state[10].add(values[6]);
    state[11] = state[11].add(values[7]);
    proof {
        assert(vals(state@) =~= absorbed_block(vals(old(state)@), vals(values@)));
    }
}

/// Returns the digest portion of the provided hasher state.
pub fn get_digest(state: &[Felt; 12]) -> (r: [Felt; 4])
    ensures
        r@ == state@.subrange(DIGEST_RANGE_START as int, DIGEST_RANGE_END as int),
{
    let r = [state[4], state[5], state[6], state[7]];
    proof {
        assert(r@ =~= state@.subrange(DIGEST_RANGE_START as int, DIGEST_RANGE_END as int));
    }
    r
}

// TRANSITION SELECTORS
// ================================================================================================

/// The unique integer label of a selector vector: one more than the binary
/// value of the selector bits, the chiplet bit (zero here) included.
pub open spec fn selector_label(s: Seq<int>) -> int {
    1 + s[0] * 2 + s[1] * 4 + s[2] * 8
}

/// Selectors of a row starting a new linear hash computation, or absorbing
/// new elements into one; also used for a plain 2-to-1 hash.
pub fn linear_hash() -> (r: Selectors)
    ensures
        vals(r@) == seq![1int, 0int, 0int],
{
    let r = [Felt { value: 1 }, Felt { value: 0 }, Felt { value: 0 }];
    proof {
        assert(vals(r@) =~= seq![1int, 0int, 0int]);
    }
    r
}

/// Unique label of the linear hash operation.
pub fn linear_hash_label() -> (r: Felt)
    ensures
        r.value == selector_label(seq![1int, 0int, 0int]),
        r.value == 3,
{
    Felt { value: 3 }
}

/// Selectors of a row starting a Merkle path verification, or absorbing a
/// new path node into the hasher state.
pub fn mp_verify() -> (r: Selectors)
    ensures
        vals(r@) == seq![1int, 0int, 1int],
{
    let r = [Felt { value: 1 }, Felt { value: 0 }, Felt { value: 1 }];
    proof {
        assert(vals(r@) =~= seq![1int, 0int, 1int]);
    }
    r
}

/// Unique label of the Merkle path verification operation.
pub fn mp_verify_label() -> (r: Felt)
    ensures
        r.value == selector_label(seq![1int, 0int, 1int]),
        r.value == 11,
{
    Felt { value: 11 }
}

/// Selectors of a row verifying the path of the "old" node value during a
/// Merkle root update.
pub fn mr_update_old() -> (r: Selectors)
    ensures
        vals(r@) == seq![1int, 1int, 0int],
{
    let r = [Felt { value: 1 }, Felt { value: 1 }, Felt { value: 0 }];
    proof {
        assert(vals(r@) =~= seq![1int, 1int, 0int]);
    }
    r
}

/// Unique label of the Merkle root update operation for an "old" node.
pub fn mr_update_old_label() -> (r: Felt)
    ensures
        r.value == selector_label(seq![1int, 1int, 0int]),
        r.value == 7,
{
    Felt { value: 7 }
}

/// Selectors of a row verifying the path of the "new" node value during a
/// Merkle root update.
pub fn mr_update_new() -> (r: Selectors)
    ensures
        vals(r@) == seq![1int, 1int, 1int],
{
    let r = [Felt { value: 1 }, Felt { value: 1 }, Felt { value: 1 }];
    proof {
        assert(vals(r@) =~= seq![1int, 1int, 1int]);
    }
    r
}

/// Unique label of the Merkle root update operation for a "new" node.
pub fn mr_update_new_label() -> (r: Felt)
    ensures
        r.value == selector_label(seq![1int, 1int, 1int]),
        r.value == 15,
{
    Felt { value: 15 }
}

/// Selectors of a row completing a computation and returning the hash
/// result alone (the digest window).
pub fn return_hash() -> (r: Selectors)
    ensures
        vals(r@) == seq![0int, 0int, 0int],
{
    let r = [Felt { value: 0 }, Felt { value: 0 }, Felt { value: 0 }];
    proof {
        assert(vals(r@) =~= seq![0int, 0int, 0int]);
    }
    r
}

/// Unique label for returning a hash result.
pub fn return_hash_label() -> (r: Felt)
    ensures
        r.value == selector_label(seq![0int, 0int, 0int]),
        r.value == 1,
{
    Felt { value: 1 }
}

/// Selectors of a row completing a computation and returning the entire
/// hasher state.
pub fn return_state() -> (r: Selectors)
    ensures
        vals(r@) == seq![0int, 0int, 1int],
{
    let r = [Felt { value: 0 }, Felt { value: 0 }, Felt { value: 1 }];
    proof {
        assert(vals(r@) =~= seq![0int, 0int, 1int]);
    }
    r
}

/// Unique label for returning the entire hasher state.
pub fn return_state_label() -> (r: Felt)
    ensures
        r.value == selector_label(seq![0int, 0int, 1int]),
        r.value == 9,
{
    Felt { value: 9 }
}

// LAWS
// ================================================================================================

/// Merging two digests is deterministic: the result is a pure function of
/// the eight canonical values of the inputs, so two calls on equal inputs
/// give identical digests.
pub proof fn lemma_merge_deterministic(a1: Digest, b1: Digest, a2: Digest, b2: Digest)
    requires
        vals(a1@) == vals(a2@),
        vals(b1@) == vals(b2@),
    ensures
        rp_merged(vals(a1@), vals(b1@)) == rp_merged(vals(a2@), vals(b2@)),
{
}

} // verus!
