//! The sponge used by the cross-trace consistency constraint: a
//! seven-round permutation over the twelve-element state, built from
//! round-constant addition, a non-linear S-box layer, and a fixed linear
//! mixing layer. The S-box maps every element to its multiplicative
//! inverse (zero staying zero), so it is its own inverse; the mixing
//! layer is a fixed sequence of elementary row additions, undone by the
//! reversed sequence of subtractions. These choices make the backward
//! half-round reconstruction of the constraint provably exact: reversing
//! the second half of a round recovers precisely what the first half
//! produced.
//!
//! This round function is this library's own instantiation of the
//! decoder-side constraint sponge. Its committed part is the structure —
//! the forward and backward half-rounds, the opcode and operand
//! injections at the first two positions, and the vacuity of the
//! constraint under a zero flag. Its constants and layers are derived
//! here from the seeds below, so its traces are bit-compatible with no
//! sponge defined elsewhere; in particular it is distinct from the
//! hashing chiplet's permutation, which the hasher module takes from the
//! outside crate.
use vstd::prelude::*;
use vstd::arithmetic::div_mod::{
    lemma_mod_bound, lemma_small_mod, lemma_sub_mod_noop,
};
use crate::field::{
    all_valid, f_add, f_inv, f_mul, f_sub, fp, lemma_f_inv_agrees, lemma_inverse_unique, vals,
    Felt, FIELD_MODULUS,
};

verus! {

/// Number of field elements in the sponge state.
pub const STATE_WIDTH: usize = 12;

/// Number of rounds in one permutation.
pub const NUM_ROUNDS: usize = 7;

/// The multiplier from which the round constants are derived.
pub const ARK_SEED: u64 = 0x9E37_79B9_7F4A_7C15;

/// The multiplier from which the mixing coefficients are derived.
pub const MIX_SEED: u64 = 0xC2B2_AE3D_27D4_EB4F;

/// The round constant for the given round and slot: slots 0 through 11
/// are added before the first half of the round, slots 12 through 23
/// before the second half.
pub open spec fn ark_val(round: int, slot: int) -> int {
    (ARK_SEED * (round * 24 + slot + 1)) % fp()
}

/// The mixing coefficient of step `k` of the given pass.
pub open spec fn mix_coef(pass: int, k: int) -> int {
    (MIX_SEED * (pass * 12 + k + 1)) % fp()
}

/// The round constant as a field element.
pub fn ark_constant(round: usize, slot: usize) -> (r: Felt)
    requires
        round < NUM_ROUNDS,
        slot < 24,
    ensures
        r.valid(),
        r.value == ark_val(round as int, slot as int),
{
    let idx: u128 = (round * 24 + slot + 1) as u128;
    let m: u128 = FIELD_MODULUS as u128;
    proof {
        assert((ARK_SEED as int) * (idx as int) < 0x1_0000_0000_0000_0000_0000_0000_0000_0000)
            by (nonlinear_arith)
            requires
                ARK_SEED < 0x1_0000_0000_0000_0000,
                0 < idx < 0x200,
        ;
    }
    Felt { value: ((ARK_SEED as u128 * idx) % m) as u64 }
}

/// The mixing coefficient as a field element.
fn mix_constant(pass: usize, k: usize) -> (r: Felt)
    requires
        pass < 2,
        k < 12,
    ensures
        r.valid(),
        r.value == mix_coef(pass as int, k as int),
{
    let idx: u128 = (pass * 12 + k + 1) as u128;
    let m: u128 = FIELD_MODULUS as u128;
    proof {
        assert((MIX_SEED as int) * (idx as int) < 0x1_0000_0000_0000_0000_0000_0000_0000_0000)
            by (nonlinear_arith)
            requires
                MIX_SEED < 0x1_0000_0000_0000_0000,
                0 < idx < 0x200,
        ;
    }
    Felt { value: ((MIX_SEED as u128 * idx) % m) as u64 }
}

/// The 24 round constants of one round, first-half constants first.
pub fn round_constants(round: usize) -> (r: Vec<Felt>)
    requires
        round < NUM_ROUNDS,
    ensures
        r@.len() == 24,
        all_valid(r@),
        forall|j: int| 0 <= j < 24 ==> (#[trigger] r@[j]).value == ark_val(round as int, j),
{
    let mut r: Vec<Felt> = Vec::new();
    let mut j: usize = 0;
    while j < 24
        invariant
            j <= 24,
            round < NUM_ROUNDS,
            r@.len() == j,
            forall|k: int| 0 <= k < j ==> (#[trigger] r@[k]).value == ark_val(round as int, k)
                && r@[k].valid(),
        decreases 24 - j,
    {
        r.push(ark_constant(round, j));
        j = j + 1;
    }
    r
}

/// A twelve-element state of canonical values.
pub open spec fn state_ok(s: Seq<int>) -> bool {
    s.len() == 12 && forall|k: int| 0 <= k < 12 ==> 0 <= #[trigger] s[k] < fp()
}

/// Element-wise field addition of a constant vector.
pub open spec fn add_vec(s: Seq<int>, a: Seq<int>) -> Seq<int> {
    Seq::new(12, |k: int| f_add(s[k], a[k]))
}

/// Element-wise field subtraction of a constant vector.
pub open spec fn sub_vec(s: Seq<int>, a: Seq<int>) -> Seq<int> {
    Seq::new(12, |k: int| f_sub(s[k], a[k]))
}

/// The S-box layer: every element replaced by its multiplicative inverse
/// (zero stays zero). The layer is its own inverse.
pub open spec fn sbox_spec(s: Seq<int>) -> Seq<int> {
    Seq::new(12, |k: int| f_inv(s[k]))
}

/// One elementary mixing step: slot `k` absorbs a multiple of the slot
/// `off` places after it (cyclically).
pub open spec fn mix_step(s: Seq<int>, k: int, off: int, pass: int) -> Seq<int> {
    s.update(k, f_add(s[k], f_mul(mix_coef(pass, k), s[(k + off) % 12])))
}

/// The elementary step undone: slot `k` sheds the same multiple.
pub open spec fn unmix_step(s: Seq<int>, k: int, off: int, pass: int) -> Seq<int> {
    s.update(k, f_sub(s[k], f_mul(mix_coef(pass, k), s[(k + off) % 12])))
}

/// The first `n` mixing steps of a pass, applied in order.
pub open spec fn mix_pass(s: Seq<int>, off: int, pass: int, n: nat) -> Seq<int>
    decreases n,
{
    if n == 0 {
        s
    } else {
        mix_step(mix_pass(s, off, pass, (n - 1) as nat), n - 1, off, pass)
    }
}

/// The first `n` mixing steps of a pass, undone in reverse order.
pub open spec fn unmix_pass(s: Seq<int>, off: int, pass: int, n: nat) -> Seq<int>
    decreases n,
{
    if n == 0 {
        s
    } else {
        unmix_pass(unmix_step(s, n - 1, off, pass), off, pass, (n - 1) as nat)
    }
}

/// The linear mixing layer: one full pass reaching one slot ahead, then
/// one reaching five slots ahead.
pub open spec fn mds_spec(s: Seq<int>) -> Seq<int> {
    mix_pass(mix_pass(s, 1, 0, 12), 5, 1, 12)
}

/// The inverse of the mixing layer: both passes undone in reverse.
pub open spec fn inv_mds_spec(s: Seq<int>) -> Seq<int> {
    unmix_pass(unmix_pass(s, 5, 1, 12), 1, 0, 12)
}

/// The forward half-round: add the first-half constants, apply the
/// S-box, mix.
pub open spec fn fwd_half(s: Seq<int>, a1: Seq<int>) -> Seq<int> {
    mds_spec(sbox_spec(add_vec(s, a1)))
}

/// One full round: the forward half, then the second half (constants,
/// inverse S-box, mixing).
pub open spec fn round_of(s: Seq<int>, a1: Seq<int>, a2: Seq<int>) -> Seq<int> {
    mds_spec(sbox_spec(add_vec(fwd_half(s, a1), a2)))
}

/// The backward half-round reconstruction used by the constraint: undo
/// the mixing, undo the inverse S-box, subtract the second-half
/// constants.
pub open spec fn bwd_half(u: Seq<int>, a2: Seq<int>) -> Seq<int> {
    sub_vec(sbox_spec(inv_mds_spec(u)), a2)
}

/// The first-half constants of a round.
pub open spec fn ark1_of(round: int) -> Seq<int> {
    Seq::new(12, |k: int| ark_val(round, k))
}

/// The second-half constants of a round.
pub open spec fn ark2_of(round: int) -> Seq<int> {
    Seq::new(12, |k: int| ark_val(round, k + 12))
}

/// The given number of rounds applied in order.
pub open spec fn rounds_of(s: Seq<int>, n: nat) -> Seq<int>
    decreases n,
{
    if n == 0 {
        s
    } else {
        round_of(rounds_of(s, (n - 1) as nat), ark1_of(n - 1), ark2_of(n - 1))
    }
}

/// The full permutation: all seven rounds.
pub open spec fn permuted(s: Seq<int>) -> Seq<int> {
    rounds_of(s, NUM_ROUNDS as nat)
}

// FIELD CANCELLATION
// ================================================================================================

/// Adding and then subtracting a canonical value is the identity on
/// canonical values.
proof fn lemma_f_cancel(a: int, b: int)
    requires
        0 <= a < fp(),
        0 <= b < fp(),
    ensures
        f_sub(f_add(a, b), b) == a,
        0 <= f_add(a, b) < fp(),
{
    lemma_mod_bound(a + b, fp());
    lemma_sub_mod_noop(a + b, b, fp());
    lemma_small_mod(b as nat, fp() as nat);
    lemma_small_mod(a as nat, fp() as nat);
}

// EXECUTABLE LAYERS
// ================================================================================================

/// Adds twelve constants, starting at the given offset in the constant
/// vector, into the state.
pub fn add_constants(state: &mut [Felt; 12], ark: &Vec<Felt>, offset: usize)
    requires
        all_valid(old(state)@),
        all_valid(ark@),
        offset + 12 <= ark@.len(),
    ensures
        all_valid(final(state)@),
        vals(final(state)@) == add_vec(
            vals(old(state)@),
            vals(ark@.subrange(offset as int, offset as int + 12)),
        ),
{
    proof {
        assert(ark.len() == ark@.len());
    }
    let mut k: usize = 0;
    while k < 12
        invariant
            k <= 12,
            all_valid(state@),
            all_valid(ark@),
            offset + 12 <= ark@.len(),
            ark@.len() <= usize::MAX,
            state@.len() == 12,
            forall|m: int| 0 <= m < k ==> (#[trigger] state@[m]).value == f_add(
                old(state)@[m].value as int,
                ark@[offset + m].value as int,
            ),
            forall|m: int| k <= m < 12 ==> #[trigger] state@[m] == old(state)@[m],
        decreases 12 - k,
    {
        state[k] = state[k].add(ark[offset + k]);
        k = k + 1;
    }
    proof {
        assert(vals(state@) =~= add_vec(
            vals(old(state)@),
            vals(ark@.subrange(offset as int, offset as int + 12)),
        ));
    }
}

/// Subtracts twelve constants, starting at the given offset in the
/// constant vector, from the state.
pub fn sub_constants(state: &mut [Felt; 12], ark: &Vec<Felt>, offset: usize)
    requires
        all_valid(old(state)@),
        all_valid(ark@),
        offset + 12 <= ark@.len(),
    ensures
        all_valid(final(state)@),
        vals(final(state)@) == sub_vec(
            vals(old(state)@),
            vals(ark@.subrange(offset as int, offset as int + 12)),
        ),
{
    proof {
        assert(ark.len() == ark@.len());
    }
    let mut k: usize = 0;
    while k < 12
        invariant
            k <= 12,
            all_valid(state@),
            all_valid(ark@),
            offset + 12 <= ark@.len(),
            ark@.len() <= usize::MAX,
            state@.len() == 12,
            forall|m: int| 0 <= m < k ==> (#[trigger] state@[m]).value == f_sub(
                old(state)@[m].value as int,
                ark@[offset + m].value as int,
            ),
            forall|m: int| k <= m < 12 ==> #[trigger] state@[m] == old(state)@[m],
        decreases 12 - k,
    {
        state[k] = state[k].sub(ark[offset + k]);
        k = k + 1;
    }
    proof {
        assert(vals(state@) =~= sub_vec(
            vals(old(state)@),
            vals(ark@.subrange(offset as int, offset as int + 12)),
        ));
    }
}

/// Applies the S-box layer: every element becomes its multiplicative
/// inverse, zero staying zero. Beside the functional result, the
/// element-wise inverse facts are stated, because the reversal proofs
/// rest on them.
pub fn apply_sbox(state: &mut [Felt; 12])
    requires
        all_valid(old(state)@),
    ensures
        all_valid(final(state)@),
        vals(final(state)@) == sbox_spec(vals(old(state)@)),
        forall|k: int| 0 <= k < 12 && old(state)@[k].value != 0 ==> f_mul(
            old(state)@[k].value as int,
            (#[trigger] final(state)@[k]).value as int,
        ) == 1,
        forall|k: int| 0 <= k < 12 ==> ((#[trigger] final(state)@[k]).value == 0 <==> old(
            state,
        )@[k].value == 0),
{
    let mut k: usize = 0;
    while k < 12
        invariant
            k <= 12,
            all_valid(state@),
            state@.len() == 12,
            forall|m: int| 0 <= m < k ==> (#[trigger] state@[m]).value as int == f_inv(
                old(state)@[m].value as int,
            ),
            forall|m: int| 0 <= m < k && old(state)@[m].value != 0 ==> f_mul(
                old(state)@[m].value as int,
                (#[trigger] state@[m]).value as int,
            ) == 1,
            forall|m: int| 0 <= m < k ==> ((#[trigger] state@[m]).value == 0 <==> old(
                state,
            )@[m].value == 0),
            forall|m: int| k <= m < 12 ==> #[trigger] state@[m] == old(state)@[m],
        decreases 12 - k,
    {
        let v = state[k];
        let w = v.inv();
        proof {
            if v.value != 0 {
                assert(w.value != 0) by {
                    if w.value == 0 {
                        assert(f_mul(v.value as int, w.value as int) == 1);
                        assert((v.value as int) * (w.value as int) == 0) by (nonlinear_arith)
                            requires
                                w.value == 0,
                        ;
                        assert((0int) % fp() == 0);
                        assert(false);
                    }
                }
                lemma_f_inv_agrees(v.value as int, w.value as int);
            }
        }
        state[k] = w;
        k = k + 1;
    }
    proof {
        assert(vals(state@) =~= sbox_spec(vals(old(state)@)));
    }
}

/// Applies the inverse of the S-box layer. The S-box maps every element
/// to its multiplicative inverse, so its inverse is the same map.
pub fn apply_inv_sbox(state: &mut [Felt; 12])
    requires
        all_valid(old(state)@),
    ensures
        all_valid(final(state)@),
        vals(final(state)@) == sbox_spec(vals(old(state)@)),
        forall|k: int| 0 <= k < 12 && old(state)@[k].value != 0 ==> f_mul(
            old(state)@[k].value as int,
            (#[trigger] final(state)@[k]).value as int,
        ) == 1,
        forall|k: int| 0 <= k < 12 ==> ((#[trigger] final(state)@[k]).value == 0 <==> old(
            state,
        )@[k].value == 0),
{
    apply_sbox(state)
}

/// Applies one mixing pass with the given cyclic offset.
fn mix_pass_exec(state: &mut [Felt; 12], off: usize, pass: usize)
    requires
        all_valid(old(state)@),
        1 <= off < 12,
        pass < 2,
    ensures
        all_valid(final(state)@),
        vals(final(state)@) == mix_pass(vals(old(state)@), off as int, pass as int, 12),
{
    let mut k: usize = 0;
    while k < 12
        invariant
            k <= 12,
            1 <= off < 12,
            pass < 2,
            all_valid(state@),
            state@.len() == 12,
            vals(state@) == mix_pass(vals(old(state)@), off as int, pass as int, k as nat),
        decreases 12 - k,
    {
        let ghost pre = vals(state@);
        let j = (k + off) % 12;
        let c = mix_constant(pass, k);
        state[k] = state[k].add(c.mul(state[j]));
        proof {
            assert(vals(state@) =~= mix_step(pre, k as int, off as int, pass as int));
        }
        k = k + 1;
    }
}

/// Undoes one mixing pass with the given cyclic offset.
fn unmix_pass_exec(state: &mut [Felt; 12], off: usize, pass: usize)
    requires
        all_valid(old(state)@),
        1 <= off < 12,
        pass < 2,
    ensures
        all_valid(final(state)@),
        vals(final(state)@) == unmix_pass(vals(old(state)@), off as int, pass as int, 12),
{
    let mut m: usize = 0;
    while m < 12
        invariant
            m <= 12,
            1 <= off < 12,
            pass < 2,
            all_valid(state@),
            state@.len() == 12,
            unmix_pass(vals(old(state)@), off as int, pass as int, 12) == unmix_pass(
                vals(state@),
                off as int,
                pass as int,
                (12 - m) as nat,
            ),
        decreases 12 - m,
    {
        let ghost pre = vals(state@);
        let k = 11 - m;
        let j = (k + off) % 12;
        let c = mix_constant(pass, k);
        state[k] = state[k].sub(c.mul(state[j]));
        proof {
            assert(vals(state@) =~= unmix_step(pre, k as int, off as int, pass as int));
        }
        m = m + 1;
    }
}

/// Applies the linear mixing layer.
pub fn apply_mds(state: &mut [Felt; 12])
    requires
        all_valid(old(state)@),
    ensures
        all_valid(final(state)@),
        vals(final(state)@) == mds_spec(vals(old(state)@)),
{
    mix_pass_exec(state, 1, 0);
    mix_pass_exec(state, 5, 1);
}

/// Applies the inverse of the linear mixing layer.
pub fn apply_inv_mds(state: &mut [Felt; 12])
    requires
        all_valid(old(state)@),
    ensures
        all_valid(final(state)@),
        vals(final(state)@) == inv_mds_spec(vals(old(state)@)),
{
    unmix_pass_exec(state, 5, 1);
    unmix_pass_exec(state, 1, 0);
}

// MIXING-LAYER REVERSAL
// ================================================================================================

/// One elementary step and its undoing cancel.
proof fn lemma_step_cancel(s: Seq<int>, k: int, off: int, pass: int)
    requires
        state_ok(s),
        0 <= k < 12,
        1 <= off < 12,
    ensures
        state_ok(mix_step(s, k, off, pass)),
        unmix_step(mix_step(s, k, off, pass), k, off, pass) == s,
{
    let j = (k + off) % 12;
    assert(0 <= j < 12) by {
        lemma_mod_bound(k + off, 12);
    }
    assert(j != k) by {
        if k + off < 12 {
            lemma_small_mod((k + off) as nat, 12);
        } else {
            assert((k + off) % 12 == k + off - 12) by {
                vstd::arithmetic::div_mod::lemma_mod_sub_multiples_vanish(k + off, 12);
                lemma_small_mod((k + off - 12) as nat, 12);
            }
        }
    }
    let t = f_mul(mix_coef(pass, k), s[j]);
    assert(0 <= t < fp()) by {
        lemma_mod_bound(mix_coef(pass, k) * s[j], fp());
    }
    lemma_f_cancel(s[k], t);
    let mixed = mix_step(s, k, off, pass);
    assert(mixed[j] == s[j]);
    assert(unmix_step(mixed, k, off, pass) =~= s);
    assert forall|m: int| 0 <= m < 12 implies 0 <= #[trigger] mixed[m] < fp() by {
        if m == k {
            lemma_mod_bound(s[k] + t, fp());
        }
    }
}

/// A mixing pass and its undoing cancel.
proof fn lemma_pass_cancel(s: Seq<int>, off: int, pass: int, n: nat)
    requires
        state_ok(s),
        n <= 12,
        1 <= off < 12,
    ensures
        state_ok(mix_pass(s, off, pass, n)),
        unmix_pass(mix_pass(s, off, pass, n), off, pass, n) == s,
    decreases n,
{
    if n > 0 {
        lemma_pass_cancel(s, off, pass, (n - 1) as nat);
        let mid = mix_pass(s, off, pass, (n - 1) as nat);
        lemma_step_cancel(mid, n - 1, off, pass);
    }
}

/// The mixing layer and its inverse cancel on canonical states.
pub proof fn lemma_mds_reversal(s: Seq<int>)
    requires
        state_ok(s),
    ensures
        state_ok(mds_spec(s)),
        inv_mds_spec(mds_spec(s)) == s,
{
    lemma_pass_cancel(s, 1, 0, 12);
    lemma_pass_cancel(mix_pass(s, 1, 0, 12), 5, 1, 12);
}

/// Twelve canonical elements form a well-formed state value.
proof fn lemma_valid_state_ok(s: Seq<Felt>)
    requires
        s.len() == 12,
        all_valid(s),
    ensures
        state_ok(vals(s)),
{
    assert forall|k: int| 0 <= k < 12 implies 0 <= #[trigger] vals(s)[k] < fp() by {
        assert(s[k].valid());
    }
}

// ROUNDS AND PERMUTATION
// ================================================================================================

/// Applies one full round: first-half constants, S-box, mixing, then
/// second-half constants, inverse S-box, mixing.
pub fn apply_round(state: &mut [Felt; 12], round: usize)
    requires
        all_valid(old(state)@),
        round < NUM_ROUNDS,
    ensures
        all_valid(final(state)@),
        vals(final(state)@) == round_of(
            vals(old(state)@),
            ark1_of(round as int),
            ark2_of(round as int),
        ),
{
    let ark = round_constants(round);
    proof {
        assert(vals(ark@.subrange(0, 12)) =~= ark1_of(round as int));
        assert(vals(ark@.subrange(12, 24)) =~= ark2_of(round as int));
    }
    add_constants(state, &ark, 0);
    apply_sbox(state);
    apply_mds(state);
    add_constants(state, &ark, 12);
    apply_inv_sbox(state);
    apply_mds(state);
}

/// Applies the full permutation: all seven rounds in order.
pub fn apply_permutation(state: &mut [Felt; 12])
    requires
        all_valid(old(state)@),
    ensures
        all_valid(final(state)@),
        vals(final(state)@) == permuted(vals(old(state)@)),
{
    let mut round: usize = 0;
    while round < NUM_ROUNDS
        invariant
            round <= NUM_ROUNDS,
            all_valid(state@),
            vals(state@) == rounds_of(vals(old(state)@), round as nat),
        decreases NUM_ROUNDS - round,
    {
        apply_round(state, round);
        round = round + 1;
    }
}

// THE REVERSAL LAW
// ================================================================================================

/// The law behind the cross-trace constraint: advancing a state by one
/// full round and then reconstructing backward through the second half
/// (undo the mixing, undo the inverse S-box, subtract the second-half
/// constants, re-deriving the round constants) lands exactly on the
/// state the forward half-round produced. The first component returned
/// is the full round's output, the second the backward reconstruction.
pub fn round_reversal(state: &[Felt; 12], round: usize) -> (r: ([Felt; 12], [Felt; 12]))
    requires
        all_valid(state@),
        round < NUM_ROUNDS,
    ensures
        all_valid(r.0@),
        all_valid(r.1@),
        vals(r.0@) == round_of(vals(state@), ark1_of(round as int), ark2_of(round as int)),
        vals(r.1@) == bwd_half(vals(r.0@), ark2_of(round as int)),
        vals(r.1@) == fwd_half(vals(state@), ark1_of(round as int)),
{
    let ark = round_constants(round);
    proof {
        assert(vals(ark@.subrange(0, 12)) =~= ark1_of(round as int));
        assert(vals(ark@.subrange(12, 24)) =~= ark2_of(round as int));
    }
    // Forward: the first half of the round.
    let mut fwd = *state;
    add_constants(&mut fwd, &ark, 0);
    apply_sbox(&mut fwd);
    apply_mds(&mut fwd);
    let ghost h = vals(fwd@);
    // The second half of the round, keeping the S-box input in view.
    let mut out = fwd;
    add_constants(&mut out, &ark, 12);
    let t = out;
    apply_inv_sbox(&mut out);
    let u = out;
    apply_mds(&mut out);
    // Backward: undo the mixing, undo the inverse S-box, subtract the
    // second-half constants.
    let mut back = out;
    apply_inv_mds(&mut back);
    proof {
        // The mixing layer cancels, so the backward state is the inverse
        // S-box output.
        lemma_valid_state_ok(u@);
        lemma_mds_reversal(vals(u@));
        assert(vals(back@) == vals(u@));
        assert(back@ =~= u@) by {
            assert forall|k: int| 0 <= k < 12 implies back@[k] == u@[k] by {
                assert(vals(back@)[k] == vals(u@)[k]);
                assert(back@[k] == (Felt { value: back@[k].value }));
                assert(u@[k] == (Felt { value: u@[k].value }));
            }
        }
    }
    apply_sbox(&mut back);
    proof {
        // Applying the S-box to the inverse S-box output recovers the
        // S-box input: inverses are unique among canonical values.
        assert forall|k: int| 0 <= k < 12 implies (#[trigger] back@[k]).value == t@[k].value by {
            if t@[k].value == 0 {
                assert(u@[k].value == 0);
                assert(back@[k].value == 0);
            } else {
                assert(t@[k].valid() && u@[k].valid() && back@[k].valid());
                assert(f_mul(t@[k].value as int, u@[k].value as int) == 1);
                assert(u@[k].value != 0);
                assert(f_mul(u@[k].value as int, back@[k].value as int) == 1);
                assert(f_mul(u@[k].value as int, t@[k].value as int) == 1) by {
                    assert((t@[k].value as int) * (u@[k].value as int) == (u@[k].value as int) * (
                    t@[k].value as int)) by (nonlinear_arith);
                }
                lemma_inverse_unique(
                    u@[k].value as int,
                    back@[k].value as int,
                    t@[k].value as int,
                );
            }
        }
        assert(back@ =~= t@) by {
            assert forall|k: int| 0 <= k < 12 implies back@[k] == t@[k] by {
                assert(back@[k] == (Felt { value: back@[k].value }));
                assert(t@[k] == (Felt { value: t@[k].value }));
            }
        }
    }
    sub_constants(&mut back, &ark, 12);
    proof {
        // Subtracting the constants that the second half added lands on
        // the forward half-round's output.
        assert forall|k: int| 0 <= k < 12 implies vals(back@)[k] == h[k] by {
            assert(fwd@[k].valid());
            lemma_mod_bound(ARK_SEED * (round as int * 24 + (k + 12) + 1), fp());
            assert(vals(t@)[k] == f_add(h[k], ark2_of(round as int)[k]));
            lemma_f_cancel(h[k], ark2_of(round as int)[k]);
        }
        assert(vals(back@) =~= h);
    }
    (out, back)
}

// THE CROSS-TRACE CONSISTENCY CONSTRAINT
// ================================================================================================

/// A sponge state with the operation's code and operand folded into its
/// first two elements.
pub open spec fn injected(s: Seq<int>, code: int, value: int) -> Seq<int> {
    s.update(0, f_add(s[0], code)).update(1, f_add(s[1], value))
}

/// Evaluates the hash-accumulation constraint for one trace transition:
/// the forward half-round of the current hasher row, with the operation
/// code and the pushed operand injected, must equal the backward
/// half-round reconstruction of the next row. Each of the twelve
/// residues, scaled by the activation flag, is folded into the result
/// accumulator; with the flag at zero the constraint is vacuous and the
/// accumulator does not move.
pub fn enforce_hacc(
    result: &mut Vec<Felt>,
    current: &[Felt; 12],
    next: &[Felt; 12],
    ark: &Vec<Felt>,
    op_flag: Felt,
    op_code: Felt,
    stack_top: Felt,
    push_flag: Felt,
)
    requires
        all_valid(old(result)@),
        old(result)@.len() >= 12,
        all_valid(current@),
        all_valid(next@),
        all_valid(ark@),
        ark@.len() >= 24,
        op_flag.valid(),
        op_code.valid(),
        stack_top.valid(),
        push_flag.valid(),
    ensures
        all_valid(final(result)@),
        final(result)@.len() == old(result)@.len(),
        ({
            let fwd = injected(
                fwd_half(vals(current@), vals(ark@.subrange(0, 12))),
                op_code.value as int,
                f_mul(stack_top.value as int, push_flag.value as int),
            );
            let bwd = bwd_half(vals(next@), vals(ark@.subrange(12, 24)));
            forall|i: int| 0 <= i < 12 ==> (#[trigger] final(result)@[i]).value == f_add(
                old(result)@[i].value as int,
                f_mul(op_flag.value as int, f_sub(fwd[i], bwd[i])),
            )
        }),
        forall|i: int| 12 <= i < old(result)@.len() ==> #[trigger] final(result)@[i] == old(
            result,
        )@[i],
        op_flag.value == 0 ==> vals(final(result)@) == vals(old(result)@),
{
    // The operand injected alongside the opcode: the next row's stack
    // top, gated by the push flag.
    let op_value = stack_top.mul(push_flag);

    // Forward half-round of the current hasher row.
    let mut old_sponge = *current;
    add_constants(&mut old_sponge, ark, 0);
    apply_sbox(&mut old_sponge);
    apply_mds(&mut old_sponge);
    let ghost plain_fwd = vals(old_sponge@);
    old_sponge[0] = old_sponge[0].add(op_code);
    old_sponge[1] = old_sponge[1].add(op_value);
    proof {
        assert(vals(old_sponge@) =~= injected(
            plain_fwd,
            op_code.value as int,
            f_mul(stack_top.value as int, push_flag.value as int),
        ));
    }

    // Backward half-round reconstruction of the next hasher row.
    let mut new_sponge = *next;
    apply_inv_mds(&mut new_sponge);
    apply_sbox(&mut new_sponge);
    sub_constants(&mut new_sponge, ark, 12);
    proof {
        assert(vals(new_sponge@) =~= bwd_half(vals(next@), vals(ark@.subrange(12, 24))));
    }

    // Fold the scaled residues into the accumulator.
    let mut i: usize = 0;
    while i < 12
        invariant
            i <= 12,
            all_valid(result@),
            result@.len() == old(result)@.len(),
            old(result)@.len() >= 12,
            all_valid(old_sponge@),
            all_valid(new_sponge@),
            op_flag.valid(),
            forall|m: int| 0 <= m < i ==> (#[trigger] result@[m]).value == f_add(
                old(result)@[m].value as int,
                f_mul(
                    op_flag.value as int,
                    f_sub(old_sponge@[m].value as int, new_sponge@[m].value as int),
                ),
            ),
            forall|m: int| i <= m < old(result)@.len() ==> #[trigger] result@[m] == old(
                result,
            )@[m],
        decreases 12 - i,
    {
        let residue = old_sponge[i].sub(new_sponge[i]);
        let scaled = op_flag.mul(residue);
        let folded = result[i].add(scaled);
        result.set(i, folded);
        i = i + 1;
    }
    proof {
        if op_flag.value == 0 {
            assert forall|m: int| 0 <= m < old(result)@.len() implies vals(result@)[m] == vals(
                old(result)@,
            )[m] by {
                if m < 12 {
                    assert(old(result)@[m].valid());
                    assert((0int * f_sub(
                        old_sponge@[m].value as int,
                        new_sponge@[m].value as int,
                    )) % fp() == 0) by {
                        assert(0int * f_sub(
                            old_sponge@[m].value as int,
                            new_sponge@[m].value as int,
                        ) == 0) by (nonlinear_arith);
                    }
                    lemma_small_mod(old(result)@[m].value as nat, fp() as nat);
                }
            }
            assert(vals(result@) =~= vals(old(result)@));
        }
    }
}

// FULL PERMUTATION REVERSAL
// ================================================================================================

/// A value with a multiplicative inverse among canonical values.
pub open spec fn invertible(x: int) -> bool {
    exists|y: int| 0 <= y < fp() && f_mul(x, y) == 1
}

/// Every non-zero element of the state has an inverse.
pub open spec fn all_invertible(s: Seq<int>) -> bool {
    forall|k: int| 0 <= k < 12 && #[trigger] s[k] != 0 ==> invertible(s[k])
}

/// The two S-box inputs of a round have invertible non-zero elements:
/// what the forward pass shows of them, and what the backward pass needs.
pub open spec fn round_inputs_invertible(s0: Seq<int>, r: int) -> bool {
    &&& all_invertible(add_vec(rounds_of(s0, r as nat), ark1_of(r)))
    &&& all_invertible(add_vec(fwd_half(rounds_of(s0, r as nat), ark1_of(r)), ark2_of(r)))
}

/// An invertible value's `f_inv` really is its canonical inverse.
proof fn lemma_invertible_inverse(x: int)
    requires
        x != 0,
        invertible(x),
    ensures
        0 <= f_inv(x) < fp(),
        f_mul(x, f_inv(x)) == 1,
{
    let y = choose|y: int| 0 <= y < fp() && f_mul(x, y) == 1;
    assert(0 <= y < fp() && f_mul(x, y) == 1);
}

/// Constant-vector addition keeps the state canonical.
proof fn lemma_add_vec_ok(s: Seq<int>, a: Seq<int>)
    ensures
        state_ok(add_vec(s, a)),
{
    assert forall|k: int| 0 <= k < 12 implies 0 <= #[trigger] add_vec(s, a)[k] < fp() by {
        lemma_mod_bound(s[k] + a[k], fp());
    }
}

/// The S-box output of a state whose non-zero elements are invertible is
/// canonical.
proof fn lemma_sbox_ok(s: Seq<int>)
    requires
        all_invertible(s),
    ensures
        state_ok(sbox_spec(s)),
{
    assert forall|k: int| 0 <= k < 12 implies 0 <= #[trigger] sbox_spec(s)[k] < fp() by {
        if s[k] != 0 {
            lemma_invertible_inverse(s[k]);
        }
    }
}

/// Two element sequences with equal canonical values are equal.
proof fn lemma_vals_injective_seq(a: Seq<Felt>, b: Seq<Felt>)
    requires
        a.len() == b.len(),
        vals(a) == vals(b),
    ensures
        a =~= b,
{
    assert forall|k: int| 0 <= k < a.len() implies a[k] == b[k] by {
        assert(vals(a)[k] == a[k].value as int);
        assert(vals(b)[k] == b[k].value as int);
        assert(vals(a)[k] == vals(b)[k]);
        assert(a[k].value == b[k].value);
        assert(a[k] == (Felt { value: a[k].value }));
        assert(b[k] == (Felt { value: b[k].value }));
    }
}

/// A round's output is canonical: the last layer is a mix of an S-box
/// output whose inputs the forward pass showed invertible.
proof fn lemma_round_output_ok(s0: Seq<int>, r: int)
    requires
        state_ok(s0),
        r >= 0,
        r == 0 || round_inputs_invertible(s0, r - 1),
    ensures
        state_ok(rounds_of(s0, r as nat)),
{
    if r > 0 {
        let prev = rounds_of(s0, (r - 1) as nat);
        let t2 = add_vec(fwd_half(prev, ark1_of(r - 1)), ark2_of(r - 1));
        lemma_sbox_ok(t2);
        lemma_mds_reversal(sbox_spec(t2));
    }
}

/// The strongest form of the reversal: the full permutation run forward,
/// then reconstructed backward layer by layer in the style of the
/// cross-trace constraint (re-deriving every round's constants), returns
/// exactly the original state. The first component returned is the
/// permuted state, the second the reconstruction.
#[verifier::rlimit(60)]
pub fn permutation_reversal(state: &[Felt; 12]) -> (r: ([Felt; 12], [Felt; 12]))
    requires
        all_valid(state@),
    ensures
        all_valid(r.0@),
        vals(r.0@) == permuted(vals(state@)),
        r.1@ == state@,
{
    let ghost s0 = vals(state@);
    let mut cur = *state;
    let mut round: usize = 0;
    while round < NUM_ROUNDS
        invariant
            round <= NUM_ROUNDS,
            all_valid(cur@),
            vals(cur@) == rounds_of(s0, round as nat),
            s0 == vals(state@),
            forall|r: int| 0 <= r < round ==> #[trigger] round_inputs_invertible(s0, r),
        decreases NUM_ROUNDS - round,
    {
        let ghost prev = vals(cur@);
        let ark = round_constants(round);
        proof {
            assert(vals(ark@.subrange(0, 12)) =~= ark1_of(round as int));
            assert(vals(ark@.subrange(12, 24)) =~= ark2_of(round as int));
        }
        add_constants(&mut cur, &ark, 0);
        let ghost t1 = vals(cur@);
        apply_sbox(&mut cur);
        proof {
            assert forall|k: int| 0 <= k < 12 && #[trigger] t1[k] != 0 implies invertible(
                t1[k],
            ) by {
                assert(cur@[k].valid());
                assert(f_mul(t1[k], cur@[k].value as int) == 1);
            }
        }
        apply_mds(&mut cur);
        add_constants(&mut cur, &ark, 12);
        let ghost t2 = vals(cur@);
        apply_inv_sbox(&mut cur);
        proof {
            assert forall|k: int| 0 <= k < 12 && #[trigger] t2[k] != 0 implies invertible(
                t2[k],
            ) by {
                assert(cur@[k].valid());
                assert(f_mul(t2[k], cur@[k].value as int) == 1);
            }
        }
        apply_mds(&mut cur);
        proof {
            assert(t1 == add_vec(prev, ark1_of(round as int)));
            assert(t2 == add_vec(fwd_half(prev, ark1_of(round as int)), ark2_of(round as int)));
            assert(round_inputs_invertible(s0, round as int));
        }
        round = round + 1;
    }
    let fwd = cur;
    let mut back = fwd;
    let mut remaining: usize = NUM_ROUNDS;
    while remaining > 0
        invariant
            remaining <= NUM_ROUNDS,
            all_valid(back@),
            vals(back@) == rounds_of(s0, remaining as nat),
            s0 == vals(state@),
            all_valid(state@),
            state@.len() == 12,
            forall|r: int| 0 <= r < NUM_ROUNDS ==> #[trigger] round_inputs_invertible(s0, r),
        decreases remaining,
    {
        let r_i = remaining - 1;
        let ark = round_constants(r_i);
        proof {
            assert(vals(ark@.subrange(0, 12)) =~= ark1_of(r_i as int));
            assert(vals(ark@.subrange(12, 24)) =~= ark2_of(r_i as int));
        }
        let ghost prev = rounds_of(s0, r_i as nat);
        let ghost a1 = ark1_of(r_i as int);
        let ghost a2 = ark2_of(r_i as int);
        let ghost t1 = add_vec(prev, a1);
        let ghost u1 = sbox_spec(t1);
        let ghost h = mds_spec(u1);
        let ghost t2 = add_vec(h, a2);
        let ghost u2 = sbox_spec(t2);
        proof {
            assert(round_inputs_invertible(s0, r_i as int));
            lemma_add_vec_ok(prev, a1);
            lemma_add_vec_ok(h, a2);
            lemma_sbox_ok(t1);
            lemma_sbox_ok(t2);
            lemma_mds_reversal(u1);
            lemma_mds_reversal(u2);
            assert(vals(back@) == mds_spec(u2));
        }
        // Undo the second half of the round.
        apply_inv_mds(&mut back);
        proof {
            assert(vals(back@) == u2);
        }
        let ghost before = back@;
        apply_sbox(&mut back);
        proof {
            lemma_backward_sbox(before, back@, t2);
        }
        sub_constants(&mut back, &ark, 12);
        proof {
            assert forall|k: int| 0 <= k < 12 implies #[trigger] vals(back@)[k] == h[k] by {
                assert(state_ok(mds_spec(u1))) by {
                    lemma_mds_reversal(u1);
                }
                lemma_f_cancel(h[k], a2[k]);
            }
            assert(vals(back@) =~= h);
        }
        // Undo the first half of the round.
        apply_inv_mds(&mut back);
        proof {
            assert(vals(back@) == u1);
        }
        let ghost before = back@;
        apply_sbox(&mut back);
        proof {
            lemma_backward_sbox(before, back@, t1);
        }
        sub_constants(&mut back, &ark, 0);
        proof {
            lemma_valid_state_ok(state@);
            lemma_round_output_ok(s0, r_i as int);
            assert forall|k: int| 0 <= k < 12 implies #[trigger] vals(back@)[k] == prev[k] by {
                lemma_mod_bound(ARK_SEED * (r_i as int * 24 + k + 1), fp());
                lemma_f_cancel(prev[k], a1[k]);
            }
            assert(vals(back@) =~= prev);
        }
        remaining = r_i;
    }
    proof {
        lemma_vals_injective_seq(back@, state@);
    }
    (fwd, back)
}

/// Applying the S-box to an inverse-S-box output recovers the S-box
/// input: inverses are unique among canonical values.
proof fn lemma_backward_sbox(before: Seq<Felt>, after: Seq<Felt>, t: Seq<int>)
    requires
        before.len() == 12,
        after.len() == 12,
        t.len() == 12,
        all_invertible(t),
        state_ok(t),
        all_valid(before),
        vals(before) == sbox_spec(t),
        vals(after) == sbox_spec(vals(before)),
        all_valid(after),
        forall|k: int| 0 <= k < 12 && before[k].value != 0 ==> f_mul(
            before[k].value as int,
            (#[trigger] after[k]).value as int,
        ) == 1,
        forall|k: int| 0 <= k < 12 ==> ((#[trigger] after[k]).value == 0 <==> before[k].value
            == 0),
    ensures
        vals(after) == t,
{
    assert forall|k: int| 0 <= k < 12 implies #[trigger] vals(after)[k] == t[k] by {
        assert(vals(before)[k] == f_inv(t[k]));
        if t[k] == 0 {
            assert(before[k].value as int == 0);
            assert(after[k].value == 0);
        } else {
            lemma_invertible_inverse(t[k]);
            assert(f_mul(t[k], f_inv(t[k])) == 1);
            assert(before[k].value as int == f_inv(t[k]));
            assert(before[k].value != 0) by {
                if f_inv(t[k]) == 0 {
                    assert(t[k] * 0 == 0) by (nonlinear_arith);
                    assert((0int) % fp() == 0);
                }
            }
            assert(before[k].valid() && after[k].valid());
            assert(f_mul(before[k].value as int, after[k].value as int) == 1);
            assert(f_mul(before[k].value as int, t[k]) == 1) by {
                assert((t[k]) * (before[k].value as int) == (before[k].value as int) * (
                t[k])) by (nonlinear_arith);
            }
            lemma_inverse_unique(before[k].value as int, after[k].value as int, t[k]);
        }
    }
    assert(vals(after) =~= t);
}

} // verus!
