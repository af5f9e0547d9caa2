//! The processor: per-cycle execution of primitive operations against the
//! operand stack and the advice provider.
//!
//! Conventions. The operand stack keeps its top at index 0 and never
//! shrinks below 16 elements: left shifts pull a zero in at the bottom. A
//! word occupies four adjacent slots with its first element shallowest.
//! The advice tape is read from its end: reading pops the last value, and
//! the Merkle-node injector appends the node's elements in order, so four
//! reads leave the node as the top word of the stack. The sponge state of
//! the permutation operation lies on the stack with its rate on top (rate
//! element `j` at slot `j`) and its capacity deepest (capacity element
//! `k` at slot `8 + k`); the digest window therefore comes back as the
//! top word.
use vstd::prelude::*;
use vstd::arithmetic::power2::pow2;
use crate::errors::{AdviceSetError, InputError};
use crate::field::{all_valid, f_add, f_mul, f_neg, f_sub, vals, Felt};
use crate::hasher::{apply_permutation, rp_permuted, Word};
use crate::merkle::{path_root, sibling_path, MerkleTree, MAX_TREE_DEPTH};
use crate::operations::{AdviceInjector, Operation};
use crate::utils::IntoBytes;

verus! {

/// The stack never holds fewer than this many elements.
pub const MIN_STACK_DEPTH: usize = 16;

/// An error raised while executing an operation. Every error is fatal to
/// the run that raised it.
#[derive(Clone, Debug)]
pub enum ExecutionError {
    /// A multiplicative inverse of zero was requested.
    DivideByZero(u64),
    /// A boolean operation met an operand that is neither 0 nor 1.
    NotBinaryValue(Felt),
    /// A binary-accumulation operand is not a power of two.
    InvalidPowerOfTwo(Felt),
    /// An asserted value was not 1.
    FailedAssertion(u64),
    /// The advice tape was read past its end.
    AdviceTapeReadFailed(u64),
    /// No advice set with the given root is tracked.
    AdviceSetNotFound(Word),
    /// An advice set refused a lookup.
    AdviceSetLookupFailed(AdviceSetError),
    /// An advice set refused an update.
    AdviceSetUpdateFailed(AdviceSetError),
    /// The operation cannot be executed directly (flow control belongs to
    /// the decoder).
    UnexecutableOperation(Operation),
}

// ADVICE PROVIDER
// ================================================================================================

/// The index of the first tree whose root equals the given value, or -1.
pub open spec fn tree_index_for(trees: Seq<MerkleTree>, root: Seq<int>) -> int
    decreases trees.len(),
{
    if trees.len() == 0 {
        -1
    } else if trees[0].root_val() == root {
        0
    } else {
        let rest = tree_index_for(trees.skip(1), root);
        if rest < 0 {
            -1
        } else {
            rest + 1
        }
    }
}

/// A found first-match index lies in range and lands on a matching tree.
proof fn lemma_tree_index_bounds(trees: Seq<MerkleTree>, root: Seq<int>)
    ensures
        tree_index_for(trees, root) >= 0 ==> 0 <= tree_index_for(trees, root) < trees.len()
            && trees[tree_index_for(trees, root)].root_val() == root,
    decreases trees.len(),
{
    if trees.len() > 0 && trees[0].root_val() != root {
        lemma_tree_index_bounds(trees.skip(1), root);
        let rest = tree_index_for(trees.skip(1), root);
        if rest >= 0 {
            assert(trees.skip(1)[rest] == trees[rest + 1]);
        }
    }
}

/// The non-deterministic input channel: an advice tape of field elements
/// (read from its end) and a set of Merkle trees keyed by their roots.
pub struct AdviceProvider {
    tape: Vec<Felt>,
    trees: Vec<MerkleTree>,
}

impl AdviceProvider {
    /// The tape contents; the next value to read sits at the end.
    pub closed spec fn tape_spec(&self) -> Seq<Felt> {
        self.tape@
    }

    /// The tracked trees.
    pub closed spec fn trees_spec(&self) -> Seq<MerkleTree> {
        self.trees@
    }

    /// Every tape value is canonical and every tree well-formed.
    pub closed spec fn wf(&self) -> bool {
        &&& all_valid(self.tape@)
        &&& forall|i: int| 0 <= i < self.trees@.len() ==> (#[trigger] self.trees@[i]).wf()
    }

    /// Returns a provider over the given tape and trees. Two trees with
    /// the same root cannot both be tracked: that is a duplicate advice
    /// root, reported with the root's byte representation.
    pub fn new(tape: Vec<Felt>, trees: Vec<MerkleTree>) -> (r: Result<AdviceProvider, InputError>)
        requires
            all_valid(tape@),
            forall|i: int| 0 <= i < trees@.len() ==> (#[trigger] trees@[i]).wf(),
        ensures
            r matches Ok(p) ==> p.wf() && p.tape_spec() == tape@ && p.trees_spec() == trees@,
            r is Ok <==> forall|i: int, j: int| 0 <= i < j < trees@.len() ==> (#[trigger] trees@[
                i
            ]).root_val() != (#[trigger] trees@[j]).root_val(),
            r matches Err(e) ==> e is DuplicateAdviceRoot,
    {
        let n = trees.len();
        let mut i: usize = 0;
        while i < n
            invariant
                i <= n,
                n == trees@.len(),
                all_valid(tape@),
                forall|k: int| 0 <= k < trees@.len() ==> (#[trigger] trees@[k]).wf(),
                forall|a: int, b: int| 0 <= a < b < trees@.len() && a < i ==> (#[trigger] trees@[
                    a
                ]).root_val() != (#[trigger] trees@[b]).root_val(),
            decreases n - i,
        {
            let root_i = trees[i].root();
            let mut j: usize = i + 1;
            while j < n
                invariant
                    i < j <= n,
                    i < n,
                    n == trees@.len(),
                    forall|k: int| 0 <= k < trees@.len() ==> (#[trigger] trees@[k]).wf(),
                    all_valid(root_i@),
                    vals(root_i@) == trees@[i as int].root_val(),
                    forall|b: int| i < b < j ==> (#[trigger] trees@[b]).root_val() != trees@[
                        i as int
                    ].root_val(),
                decreases n - j,
            {
                let root_j = trees[j].root();
                if word_eq(&root_i, &root_j) {
                    return Err(InputError::DuplicateAdviceRoot(root_i.into_bytes()));
                }
                proof {
                    lemma_word_vals_injective(root_i, root_j);
                }
                j = j + 1;
            }
            i = i + 1;
        }
        Ok(AdviceProvider { tape, trees })
    }

    /// Reads the next value from the advice tape.
    fn read_tape(&mut self) -> (r: Option<Felt>)
        requires
            old(self).wf(),
        ensures
            final(self).wf(),
            final(self).trees_spec() == old(self).trees_spec(),
            old(self).tape_spec().len() == 0 ==> r is None && final(self).tape_spec() == old(self).tape_spec(),
            old(self).tape_spec().len() > 0 ==> r == Some(old(self).tape_spec().last()) && final(self).tape_spec() == old(self).tape_spec().drop_last(),
    {
        self.tape.pop()
    }

    /// Appends values to the advice tape.
    fn write_tape_word(&mut self, w: &Word)
        requires
            old(self).wf(),
            all_valid(w@),
        ensures
            final(self).wf(),
            final(self).trees_spec() == old(self).trees_spec(),
            final(self).tape_spec() == old(self).tape_spec() + w@,
    {
        self.tape.push(w[0]);
        self.tape.push(w[1]);
        self.tape.push(w[2]);
        self.tape.push(w[3]);
        proof {
            assert(self.tape@ =~= old(self).tape@ + w@);
        }
    }

    /// Finds the first tracked tree whose root is the given word.
    fn find_tree(&self, root: &Word) -> (r: Option<usize>)
        requires
            self.wf(),
            all_valid(root@),
        ensures
            r matches Some(i) ==> i < self.trees_spec().len() && i as int == tree_index_for(
                self.trees_spec(),
                vals(root@),
            ),
            r is None <==> tree_index_for(self.trees_spec(), vals(root@)) < 0,
    {
        let n = self.trees.len();
        let mut i: usize = 0;
        while i < n
            invariant
                i <= n,
                n == self.trees@.len(),
                self.wf(),
                all_valid(root@),
                forall|k: int| 0 <= k < i ==> (#[trigger] self.trees@[k]).root_val() != vals(
                    root@,
                ),
            decreases n - i,
        {
            let t_root = self.trees[i].root();
            if word_eq(&t_root, root) {
                proof {
                    lemma_tree_index_found(self.trees_spec(), vals(root@), i as int);
                }
                return Some(i);
            }
            proof {
                lemma_word_vals_injective(t_root, *root);
            }
            i = i + 1;
        }
        proof {
            lemma_tree_index_none(self.trees_spec(), vals(root@));
        }
        None
    }
}

/// Two words with the same canonical values are the same word.
proof fn lemma_word_vals_injective(a: Word, b: Word)
    ensures
        vals(a@) == vals(b@) ==> a@ =~= b@,
{
    if vals(a@) == vals(b@) {
        assert forall|k: int| 0 <= k < 4 implies a@[k] == b@[k] by {
            assert(vals(a@)[k] == vals(b@)[k]);
            assert(a@[k].value == b@[k].value);
            assert(a@[k] == (Felt { value: a@[k].value }));
            assert(b@[k] == (Felt { value: b@[k].value }));
        }
    }
}

/// The first-match index is the position of a match preceded only by
/// misses.
proof fn lemma_tree_index_found(trees: Seq<MerkleTree>, root: Seq<int>, i: int)
    requires
        0 <= i < trees.len(),
        trees[i].root_val() == root,
        forall|k: int| 0 <= k < i ==> (#[trigger] trees[k]).root_val() != root,
    ensures
        tree_index_for(trees, root) == i,
    decreases i,
{
    if i == 0 {
    } else {
        assert(trees[0].root_val() != root);
        let rest = trees.skip(1);
        assert forall|k: int| 0 <= k < i - 1 implies (#[trigger] rest[k]).root_val() != root by {
            assert(rest[k] == trees[k + 1]);
        }
        assert(rest[i - 1] == trees[i]);
        lemma_tree_index_found(rest, root, i - 1);
    }
}

/// When no tree matches, the first-match index is negative.
proof fn lemma_tree_index_none(trees: Seq<MerkleTree>, root: Seq<int>)
    requires
        forall|k: int| 0 <= k < trees.len() ==> (#[trigger] trees[k]).root_val() != root,
    ensures
        tree_index_for(trees, root) < 0,
    decreases trees.len(),
{
    if trees.len() > 0 {
        let rest = trees.skip(1);
        assert forall|k: int| 0 <= k < rest.len() implies (#[trigger] rest[k]).root_val()
            != root by {
            assert(rest[k] == trees[k + 1]);
        }
        lemma_tree_index_none(rest, root);
    }
}

/// Compares two words element by element.
pub fn word_eq(a: &Word, b: &Word) -> (r: bool)
    ensures
        r == (a@ =~= b@),
{
    let r = a[0].value == b[0].value && a[1].value == b[1].value && a[2].value == b[2].value
        && a[3].value == b[3].value;
    proof {
        if r {
            assert(a@ =~= b@);
        }
    }
    r
}

// STACK
// ================================================================================================

/// The operand stack: the top lives at index 0, and at least 16 elements
/// are always present. The clock counts the cycles spent so far.
pub struct Stack {
    elements: Vec<Felt>,
    clk: u64,
}

/// A zero element, for padding.
pub open spec fn zero_felt() -> Felt {
    Felt { value: 0 }
}

/// A left shift from `start`: the element at `start - 1` leaves, and a
/// zero fills the bottom if the stack would drop below its minimum depth.
pub open spec fn shifted_left(s: Seq<Felt>, start: int) -> Seq<Felt> {
    let t = s.remove(start - 1);
    if t.len() < MIN_STACK_DEPTH {
        t.push(zero_felt())
    } else {
        t
    }
}

impl Stack {
    /// The stack's elements, top first.
    pub closed spec fn felts(&self) -> Seq<Felt> {
        self.elements@
    }

    /// The clock value, as a specification value.
    pub closed spec fn clk_spec(&self) -> nat {
        self.clk as nat
    }

    /// A well-formed stack: at least the minimum depth, canonical values.
    pub closed spec fn wf(&self) -> bool {
        &&& self.elements@.len() >= MIN_STACK_DEPTH
        &&& all_valid(self.elements@)
    }

    /// A fresh stack of the minimum depth, all zeros, at clock zero.
    pub fn new() -> (r: Stack)
        ensures
            r.wf(),
            r.felts() == Seq::new(MIN_STACK_DEPTH as nat, |i: int| zero_felt()),
            r.clk_spec() == 0,
    {
        let mut elements: Vec<Felt> = Vec::new();
        let mut i: usize = 0;
        while i < MIN_STACK_DEPTH
            invariant
                i <= MIN_STACK_DEPTH,
                elements@ == Seq::new(i as nat, |j: int| zero_felt()),
            decreases MIN_STACK_DEPTH - i,
        {
            elements.push(Felt { value: 0 });
            i = i + 1;
            proof {
                assert(elements@ =~= Seq::new(i as nat, |j: int| zero_felt()));
            }
        }
        Stack { elements, clk: 0 }
    }

    /// The current depth of the stack.
    pub fn depth(&self) -> (r: usize)
        ensures
            r == self.felts().len(),
    {
        self.elements.len()
    }

    /// The clock: how many cycles have run.
    pub fn current_clk(&self) -> (r: u64)
        ensures
            r == self.clk_spec(),
    {
        self.clk
    }

    /// Advances the clock by one cycle.
    pub(crate) fn advance_clk(&mut self)
        requires
            old(self).clk_spec() < u64::MAX,
        ensures
            final(self).felts() == old(self).felts(),
            final(self).clk_spec() == old(self).clk_spec() + 1,
            final(self).wf() == old(self).wf(),
    {
        self.clk = self.clk + 1;
    }

    /// The element at the given position from the top.
    pub fn get(&self, pos: usize) -> (r: Felt)
        requires
            pos < self.felts().len(),
        ensures
            r == self.felts()[pos as int],
    {
        self.elements[pos]
    }

    /// Replaces the element at the given position from the top.
    pub fn set(&mut self, pos: usize, value: Felt)
        requires
            pos < old(self).felts().len(),
        ensures
            final(self).felts() == old(self).felts().update(pos as int, value),
            final(self).clk_spec() == old(self).clk_spec(),
    {
        self.elements.set(pos, value);
    }

    /// Pushes a new element onto the top of the stack.
    pub fn push(&mut self, value: Felt)
        ensures
            final(self).felts() == old(self).felts().insert(0, value),
            final(self).clk_spec() == old(self).clk_spec(),
    {
        self.elements.insert(0, value);
    }

    /// Shifts the stack left from `start`: the element at `start - 1`
    /// leaves, and a zero fills the bottom when the stack is at its
    /// minimum depth.
    pub fn shift_left(&mut self, start: usize)
        requires
            1 <= start <= old(self).felts().len(),
            old(self).wf(),
        ensures
            final(self).felts() == shifted_left(old(self).felts(), start as int),
            final(self).clk_spec() == old(self).clk_spec(),
            final(self).wf(),
    {
        self.elements.remove(start - 1);
        if self.elements.len() < MIN_STACK_DEPTH {
            self.elements.push(Felt { value: 0 });
        }
    }

    /// Shifts the stack right from `start`: a zero enters at `start` and
    /// everything below moves down.
    pub fn shift_right(&mut self, start: usize)
        requires
            start <= old(self).felts().len(),
        ensures
            final(self).felts() == old(self).felts().insert(start as int, zero_felt()),
            final(self).clk_spec() == old(self).clk_spec(),
    {
        self.elements.insert(start, Felt { value: 0 });
    }

    /// The top 16 elements: the part of the stack a trace row shows.
    pub fn trace_state(&self) -> (r: [Felt; 16])
        requires
            self.wf(),
        ensures
            r@ == self.felts().take(16),
    {
        let r = [
            self.elements[0],
            self.elements[1],
            self.elements[2],
            self.elements[3],
            self.elements[4],
            self.elements[5],
            self.elements[6],
            self.elements[7],
            self.elements[8],
            self.elements[9],
            self.elements[10],
            self.elements[11],
            self.elements[12],
            self.elements[13],
            self.elements[14],
            self.elements[15],
        ];
        proof {
            assert(r@ =~= self.felts().take(16));
        }
        r
    }

    /// The word whose first element sits at the given position.
    pub fn get_word(&self, pos: usize) -> (r: Word)
        requires
            pos + 4 <= self.felts().len(),
        ensures
            r@ == self.felts().subrange(pos as int, pos as int + 4),
    {
        proof {
            assert(self.elements.len() == self.elements@.len());
        }
        let r = [
            self.elements[pos],
            self.elements[pos + 1],
            self.elements[pos + 2],
            self.elements[pos + 3],
        ];
        proof {
            assert(r@ =~= self.felts().subrange(pos as int, pos as int + 4));
        }
        r
    }

    /// Replaces the word whose first element sits at the given position.
    pub fn set_word(&mut self, pos: usize, w: &Word)
        requires
            pos + 4 <= old(self).felts().len(),
        ensures
            final(self).felts() == old(self).felts().update(pos as int, w@[0]).update(
                pos as int + 1,
                w@[1],
            ).update(pos as int + 2, w@[2]).update(pos as int + 3, w@[3]),
            final(self).clk_spec() == old(self).clk_spec(),
    {
        proof {
            assert(self.elements.len() == self.elements@.len());
        }
        self.elements.set(pos, w[0]);
        self.elements.set(pos + 1, w[1]);
        self.elements.set(pos + 2, w[2]);
        self.elements.set(pos + 3, w[3]);
    }
}

// PROCESS
// ================================================================================================

/// The executing machine: an operand stack and an advice provider, driven
/// one primitive operation per cycle.
pub struct Process {
    /// The operand stack.
    pub stack: Stack,
    /// The non-deterministic input channel.
    pub advice: AdviceProvider,
}

impl Process {
    /// A well-formed process.
    pub open spec fn wf(&self) -> bool {
        self.stack.wf() && self.advice.wf()
    }

    /// A process over the given advice provider, with a fresh zeroed
    /// stack.
    pub fn new(advice: AdviceProvider) -> (r: Process)
        requires
            advice.wf(),
        ensures
            r.wf(),
            r.advice == advice,
            r.stack.clk_spec() == 0,
            r.stack.felts() == Seq::new(MIN_STACK_DEPTH as nat, |i: int| zero_felt()),
    {
        Process { stack: Stack::new(), advice }
    }

    /// A process with an empty advice provider, for exercising single
    /// operations.
    pub fn new_dummy() -> (r: Process)
        ensures
            r.wf(),
            r.stack.clk_spec() == 0,
            r.stack.felts() == Seq::new(MIN_STACK_DEPTH as nat, |i: int| zero_felt()),
            r.advice.tape_spec() == Seq::<Felt>::empty(),
            r.advice.trees_spec() == Seq::<MerkleTree>::empty(),
    {
        Process { stack: Stack::new(), advice: AdviceProvider { tape: Vec::new(), trees: Vec::new() } }
    }

    // ARITHMETIC OPERATIONS
    // --------------------------------------------------------------------------------------------

    /// Pops two elements off the stack, adds them, and pushes the result.
    pub fn op_add(&mut self) -> (r: Result<(), ExecutionError>)
        requires
            old(self).wf(),
            old(self).stack.clk_spec() < u64::MAX,
        ensures
            final(self).wf(),
            add_post(*old(self), *final(self), r),
    {
        let b = self.stack.get(0);
        let a = self.stack.get(1);
        self.stack.set(0, a.add(b));
        self.stack.shift_left(2);
        self.stack.advance_clk();
        Ok(())
    }

    /// Pops an element off the stack, computes its additive inverse, and
    /// pushes the result.
    pub fn op_neg(&mut self) -> (r: Result<(), ExecutionError>)
        requires
            old(self).wf(),
            old(self).stack.clk_spec() < u64::MAX,
        ensures
            final(self).wf(),
            neg_post(*old(self), *final(self), r),
    {
        let a = self.stack.get(0);
        self.stack.set(0, a.neg());
        self.stack.advance_clk();
        Ok(())
    }

    /// Pops two elements off the stack, multiplies them, and pushes the
    /// result.
    pub fn op_mul(&mut self) -> (r: Result<(), ExecutionError>)
        requires
            old(self).wf(),
            old(self).stack.clk_spec() < u64::MAX,
        ensures
            final(self).wf(),
            mul_post(*old(self), *final(self), r),
    {
        let b = self.stack.get(0);
        let a = self.stack.get(1);
        self.stack.set(0, a.mul(b));
        self.stack.shift_left(2);
        self.stack.advance_clk();
        Ok(())
    }

    /// Pops an element off the stack, computes its multiplicative
    /// inverse, and pushes the result. Fails exactly on zero.
    pub fn op_inv(&mut self) -> (r: Result<(), ExecutionError>)
        requires
            old(self).wf(),
            old(self).stack.clk_spec() < u64::MAX,
        ensures
            final(self).wf(),
            inv_post(*old(self), *final(self), r),
    {
        let a = self.stack.get(0);
        if a.as_int() == 0 {
            return Err(ExecutionError::DivideByZero(self.stack.current_clk()));
        }
        self.stack.set(0, a.inv());
        self.stack.advance_clk();
        Ok(())
    }

    /// Pops an element off the stack, adds one, and pushes the result.
    pub fn op_incr(&mut self) -> (r: Result<(), ExecutionError>)
        requires
            old(self).wf(),
            old(self).stack.clk_spec() < u64::MAX,
        ensures
            final(self).wf(),
            incr_post(*old(self), *final(self), r),
    {
        let a = self.stack.get(0);
        self.stack.set(0, a.add(Felt { value: 1 }));
        self.stack.advance_clk();
        Ok(())
    }

    // BOOLEAN OPERATIONS
    // --------------------------------------------------------------------------------------------

    /// Pops two binary elements off the stack and pushes their
    /// conjunction. Fails exactly when one of them is not binary.
    pub fn op_and(&mut self) -> (r: Result<(), ExecutionError>)
        requires
            old(self).wf(),
            old(self).stack.clk_spec() < u64::MAX,
        ensures
            final(self).wf(),
            and_post(*old(self), *final(self), r),
    {
        let b = match assert_binary(self.stack.get(0)) {
            Ok(v) => v,
            Err(e) => {
                return Err(e);
            },
        };
        let a = match assert_binary(self.stack.get(1)) {
            Ok(v) => v,
            Err(e) => {
                return Err(e);
            },
        };
        if a.as_int() == 1 && b.as_int() == 1 {
            self.stack.set(0, Felt { value: 1 });
        } else {
            self.stack.set(0, Felt { value: 0 });
        }
        self.stack.shift_left(2);
        self.stack.advance_clk();
        Ok(())
    }

    /// Pops two binary elements off the stack and pushes their
    /// disjunction. Fails exactly when one of them is not binary.
    pub fn op_or(&mut self) -> (r: Result<(), ExecutionError>)
        requires
            old(self).wf(),
            old(self).stack.clk_spec() < u64::MAX,
        ensures
            final(self).wf(),
            or_post(*old(self), *final(self), r),
    {
        let b = match assert_binary(self.stack.get(0)) {
            Ok(v) => v,
            Err(e) => {
                return Err(e);
            },
        };
        let a = match assert_binary(self.stack.get(1)) {
            Ok(v) => v,
            Err(e) => {
                return Err(e);
            },
        };
        if a.as_int() == 1 || b.as_int() == 1 {
            self.stack.set(0, Felt { value: 1 });
        } else {
            self.stack.set(0, Felt { value: 0 });
        }
        self.stack.shift_left(2);
        self.stack.advance_clk();
        Ok(())
    }

    /// Pops a binary element off the stack and pushes its negation.
    /// Fails exactly when it is not binary.
    pub fn op_not(&mut self) -> (r: Result<(), ExecutionError>)
        requires
            old(self).wf(),
            old(self).stack.clk_spec() < u64::MAX,
        ensures
            final(self).wf(),
            not_post(*old(self), *final(self), r),
    {
        let a = match assert_binary(self.stack.get(0)) {
            Ok(v) => v,
            Err(e) => {
                return Err(e);
            },
        };
        self.stack.set(0, Felt { value: 1 }.sub(a));
        self.stack.advance_clk();
        Ok(())
    }

    // COMPARISON OPERATIONS
    // --------------------------------------------------------------------------------------------

    /// Pops two elements off the stack and pushes 1 when they are equal,
    /// else 0.
    pub fn op_eq(&mut self) -> (r: Result<(), ExecutionError>)
        requires
            old(self).wf(),
            old(self).stack.clk_spec() < u64::MAX,
        ensures
            final(self).wf(),
            eq_post(*old(self), *final(self), r),
    {
        let b = self.stack.get(0);
        let a = self.stack.get(1);
        if a.as_int() == b.as_int() {
            self.stack.set(0, Felt { value: 1 });
        } else {
            self.stack.set(0, Felt { value: 0 });
        }
        self.stack.shift_left(2);
        self.stack.advance_clk();
        Ok(())
    }

    /// Pops an element off the stack and pushes 1 when it is zero, else
    /// 0.
    pub fn op_eqz(&mut self) -> (r: Result<(), ExecutionError>)
        requires
            old(self).wf(),
            old(self).stack.clk_spec() < u64::MAX,
        ensures
            final(self).wf(),
            eqz_post(*old(self), *final(self), r),
    {
        let a = self.stack.get(0);
        if a.as_int() == 0 {
            self.stack.set(0, Felt { value: 1 });
        } else {
            self.stack.set(0, Felt { value: 0 });
        }
        self.stack.advance_clk();
        Ok(())
    }

    /// Compares the top two words of the stack and pushes 1 when they are
    /// equal, else 0; the words themselves stay.
    pub fn op_eqw(&mut self) -> (r: Result<(), ExecutionError>)
        requires
            old(self).wf(),
            old(self).stack.clk_spec() < u64::MAX,
        ensures
            final(self).wf(),
            eqw_post(*old(self), *final(self), r),
    {
        let b = self.stack.get_word(0);
        let a = self.stack.get_word(4);
        let flag = if word_eq(&a, &b) {
            Felt { value: 1 }
        } else {
            Felt { value: 0 }
        };
        proof {
            assert(old(self).stack.felts().subrange(0, 4) == b@);
            assert(old(self).stack.felts().subrange(4, 8) == a@);
        }
        self.stack.shift_right(0);
        self.stack.set(0, flag);
        proof {
            assert(self.stack.felts() =~= old(self).stack.felts().insert(0, flag));
        }
        self.stack.advance_clk();
        Ok(())
    }

    /// One turn of binary accumulation: splits the lowest bit off the
    /// number, folds the current power of two into the accumulator when
    /// that bit is set, squares the power, and halves the number. Fails
    /// exactly when the exponent or the accumulator is not a power of
    /// two.
    pub fn op_binacc(&mut self) -> (r: Result<(), ExecutionError>)
        requires
            old(self).wf(),
            old(self).stack.clk_spec() < u64::MAX,
        ensures
            final(self).wf(),
            binacc_post(*old(self), *final(self), r),
    {
        let exp = self.stack.get(0);
        let acc = self.stack.get(1);
        let b = self.stack.get(2);

        if !is_power_of_two(exp.as_int()) {
            return Err(ExecutionError::InvalidPowerOfTwo(exp));
        }
        if !is_power_of_two(acc.as_int()) {
            return Err(ExecutionError::InvalidPowerOfTwo(exp));
        }
        // The lowest bit of the number decides whether this turn's power
        // of two enters the accumulator.
        let bit = b.as_int() % 2;
        proof {
            assert(exp.value >= 1) by {
                if exp.value == 0 {
                    assert(!is_pow2_int(0int));
                }
            }
            assert((exp.value - 1) * bit <= exp.value - 1) by (nonlinear_arith)
                requires
                    0 <= bit <= 1,
                    exp.value >= 1,
            ;
            assert(exp.valid() && acc.valid() && b.valid());
            assert((exp.value - 1) * bit + 1 <= exp.value);
        }
        let factor = Felt { value: (exp.as_int() - 1) * bit + 1 };
        let new_acc = acc.mul(factor);
        let new_b = Felt { value: b.as_int() / 2 };
        let new_exp = exp.mul(exp);

        self.stack.set(0, new_exp);
        self.stack.set(1, new_acc);
        self.stack.set(2, new_b);
        self.stack.advance_clk();
        Ok(())
    }
}

/// Returns the given element if it is binary, and the not-binary error
/// otherwise.
pub fn assert_binary(v: Felt) -> (r: Result<Felt, ExecutionError>)
    ensures
        r is Ok <==> v.value <= 1,
        r matches Ok(w) ==> w == v,
        r matches Err(e) ==> e matches ExecutionError::NotBinaryValue(w) && w == v,
{
    if v.value > 1 {
        Err(ExecutionError::NotBinaryValue(v))
    } else {
        Ok(v)
    }
}


/// True exactly when the integer is a power of two.
pub open spec fn is_pow2_int(n: int) -> bool
    decreases n,
{
    if n <= 0 {
        false
    } else if n == 1 {
        true
    } else {
        n % 2 == 0 && is_pow2_int(n / 2)
    }
}

/// True exactly when the value is a power of two.
pub fn is_power_of_two(v: u64) -> (r: bool)
    ensures
        r == is_pow2_int(v as int),
{
    let mut x = v;
    if x == 0 {
        return false;
    }
    while x > 1
        invariant
            x >= 1,
            is_pow2_int(v as int) == is_pow2_int(x as int),
        decreases x,
    {
        if x % 2 != 0 {
            return false;
        }
        proof {
            assert((x / 2) as int == x as int / 2);
            assert(is_pow2_int(x as int) == (x as int % 2 == 0 && is_pow2_int(x as int / 2)));
        }
        x = x / 2;
    }
    true
}

impl Stack {
    /// Moves the element at the given position to the top.
    pub fn movup(&mut self, n: usize)
        requires
            1 <= n < old(self).felts().len(),
        ensures
            final(self).felts() == old(self).felts().remove(n as int).insert(
                0,
                old(self).felts()[n as int],
            ),
            final(self).clk_spec() == old(self).clk_spec(),
    {
        let v = self.elements.remove(n);
        self.elements.insert(0, v);
    }

    /// Moves the top element to the given position.
    pub fn movdn(&mut self, n: usize)
        requires
            1 <= n < old(self).felts().len(),
        ensures
            final(self).felts() == old(self).felts().remove(0).insert(
                n as int,
                old(self).felts()[0],
            ),
            final(self).clk_spec() == old(self).clk_spec(),
    {
        let v = self.elements.remove(0);
        self.elements.insert(n, v);
    }
}

/// The payload of a depth-too-big refusal: the offending depth, held to
/// the payload's width.
pub open spec fn depth_error_payload(d: int) -> int {
    if d > u32::MAX {
        u32::MAX as int
    } else {
        d
    }
}

/// The sponge state held in the top 12 stack slots: the rate on top
/// (rate element `j` at slot `j`), the capacity deepest (capacity
/// element `k` at slot `8 + k`).
pub open spec fn sponge_of(s: Seq<Felt>) -> Seq<int> {
    Seq::new(12, |k: int|
        if k < 4 {
            s[8 + k].value as int
        } else {
            s[k - 4].value as int
        })
}

impl Process {
    // SYSTEM AND STACK OPERATIONS
    // --------------------------------------------------------------------------------------------

    /// Advances the cycle counter without touching the stack.
    pub fn op_noop(&mut self) -> (r: Result<(), ExecutionError>)
        requires
            old(self).wf(),
            old(self).stack.clk_spec() < u64::MAX,
        ensures
            final(self).wf(),
            noop_post(*old(self), *final(self), r),
    {
        self.stack.advance_clk();
        Ok(())
    }

    /// Pops the top of the stack; fails exactly when the popped value is
    /// not 1. This is the machine's only tamper check: a root mismatch
    /// left as 0 by a word comparison aborts the run here.
    pub fn op_assert(&mut self) -> (r: Result<(), ExecutionError>)
        requires
            old(self).wf(),
            old(self).stack.clk_spec() < u64::MAX,
        ensures
            final(self).wf(),
            assert_post(*old(self), *final(self), r),
    {
        if self.stack.get(0).as_int() != 1 {
            return Err(ExecutionError::FailedAssertion(self.stack.current_clk()));
        }
        self.stack.shift_left(1);
        self.stack.advance_clk();
        Ok(())
    }

    /// Pushes a zero onto the stack.
    pub fn op_pad(&mut self) -> (r: Result<(), ExecutionError>)
        requires
            old(self).wf(),
            old(self).stack.clk_spec() < u64::MAX,
        ensures
            final(self).wf(),
            pad_post(*old(self), *final(self), r),
    {
        self.stack.push(Felt { value: 0 });
        self.stack.advance_clk();
        Ok(())
    }

    /// Pushes the given immediate value onto the stack.
    pub fn op_push(&mut self, imm: Felt) -> (r: Result<(), ExecutionError>)
        requires
            old(self).wf(),
            imm.valid(),
            old(self).stack.clk_spec() < u64::MAX,
        ensures
            final(self).wf(),
            push_post(*old(self), *final(self), r, imm),
    {
        self.stack.push(imm);
        self.stack.advance_clk();
        Ok(())
    }

    /// Removes the top element from the stack.
    pub fn op_drop(&mut self) -> (r: Result<(), ExecutionError>)
        requires
            old(self).wf(),
            old(self).stack.clk_spec() < u64::MAX,
        ensures
            final(self).wf(),
            drop_post(*old(self), *final(self), r),
    {
        self.stack.shift_left(1);
        self.stack.advance_clk();
        Ok(())
    }

    /// Pushes a copy of the element at the given position.
    pub fn op_dup(&mut self, n: usize) -> (r: Result<(), ExecutionError>)
        requires
            old(self).wf(),
            n < MIN_STACK_DEPTH,
            old(self).stack.clk_spec() < u64::MAX,
        ensures
            final(self).wf(),
            dup_post(*old(self), *final(self), r, n as int),
    {
        let v = self.stack.get(n);
        self.stack.push(v);
        self.stack.advance_clk();
        Ok(())
    }

    /// Swaps the top two elements of the stack.
    pub fn op_swap(&mut self) -> (r: Result<(), ExecutionError>)
        requires
            old(self).wf(),
            old(self).stack.clk_spec() < u64::MAX,
        ensures
            final(self).wf(),
            swap_post(*old(self), *final(self), r),
    {
        let a = self.stack.get(0);
        let b = self.stack.get(1);
        self.stack.set(0, b);
        self.stack.set(1, a);
        self.stack.advance_clk();
        Ok(())
    }

    /// Swaps the top word with the word whose first element sits at the
    /// given position.
    pub fn op_swap_word(&mut self, pos: usize) -> (r: Result<(), ExecutionError>)
        requires
            old(self).wf(),
            4 <= pos && pos + 4 <= MIN_STACK_DEPTH,
            old(self).stack.clk_spec() < u64::MAX,
        ensures
            final(self).wf(),
            swap_word_post(*old(self), *final(self), r, pos as int),
    {
        let a = self.stack.get_word(0);
        let b = self.stack.get_word(pos);
        self.stack.set_word(0, &b);
        self.stack.set_word(pos, &a);
        self.stack.advance_clk();
        Ok(())
    }

    /// Swaps the top two words with the two words below them.
    pub fn op_swapdw(&mut self) -> (r: Result<(), ExecutionError>)
        requires
            old(self).wf(),
            old(self).stack.clk_spec() < u64::MAX,
        ensures
            final(self).wf(),
            swapdw_post(*old(self), *final(self), r),
    {
        let a = self.stack.get_word(0);
        let b = self.stack.get_word(4);
        let c = self.stack.get_word(8);
        let d = self.stack.get_word(12);
        self.stack.set_word(0, &c);
        self.stack.set_word(4, &d);
        self.stack.set_word(8, &a);
        self.stack.set_word(12, &b);
        self.stack.advance_clk();
        Ok(())
    }

    /// Moves the element at the given position to the top of the stack.
    pub fn op_movup(&mut self, n: usize) -> (r: Result<(), ExecutionError>)
        requires
            old(self).wf(),
            1 <= n < MIN_STACK_DEPTH,
            old(self).stack.clk_spec() < u64::MAX,
        ensures
            final(self).wf(),
            movup_post(*old(self), *final(self), r, n as int),
    {
        self.stack.movup(n);
        self.stack.advance_clk();
        Ok(())
    }

    /// Moves the top element of the stack to the given position.
    pub fn op_movdn(&mut self, n: usize) -> (r: Result<(), ExecutionError>)
        requires
            old(self).wf(),
            1 <= n < MIN_STACK_DEPTH,
            old(self).stack.clk_spec() < u64::MAX,
        ensures
            final(self).wf(),
            movdn_post(*old(self), *final(self), r, n as int),
    {
        self.stack.movdn(n);
        self.stack.advance_clk();
        Ok(())
    }

    /// Pops a binary element; when it is 1 the next two elements swap.
    /// Fails exactly when the popped element is not binary.
    pub fn op_cswap(&mut self) -> (r: Result<(), ExecutionError>)
        requires
            old(self).wf(),
            old(self).stack.clk_spec() < u64::MAX,
        ensures
            final(self).wf(),
            cswap_post(*old(self), *final(self), r),
    {
        let c = match assert_binary(self.stack.get(0)) {
            Ok(v) => v,
            Err(e) => {
                return Err(e);
            },
        };
        if c.as_int() == 1 {
            let a = self.stack.get(1);
            let b = self.stack.get(2);
            self.stack.set(1, b);
            self.stack.set(2, a);
        }
        self.stack.shift_left(1);
        self.stack.advance_clk();
        Ok(())
    }

    /// Pops a binary element; when it is 1 the next two words swap.
    /// Fails exactly when the popped element is not binary.
    pub fn op_cswapw(&mut self) -> (r: Result<(), ExecutionError>)
        requires
            old(self).wf(),
            old(self).stack.clk_spec() < u64::MAX,
        ensures
            final(self).wf(),
            cswapw_post(*old(self), *final(self), r),
    {
        let c = match assert_binary(self.stack.get(0)) {
            Ok(v) => v,
            Err(e) => {
                return Err(e);
            },
        };
        if c.as_int() == 1 {
            let a = self.stack.get_word(1);
            let b = self.stack.get_word(5);
            self.stack.set_word(1, &b);
            self.stack.set_word(5, &a);
        }
        self.stack.shift_left(1);
        self.stack.advance_clk();
        Ok(())
    }

    // INPUT / OUTPUT OPERATIONS
    // --------------------------------------------------------------------------------------------

    /// Removes the next element from the advice tape and pushes it onto
    /// the stack. Fails exactly when the tape is empty.
    pub fn op_read(&mut self) -> (r: Result<(), ExecutionError>)
        requires
            old(self).wf(),
            old(self).stack.clk_spec() < u64::MAX,
        ensures
            final(self).wf(),
            read_post(*old(self), *final(self), r),
    {
        let v = match self.advice.read_tape() {
            Some(v) => v,
            None => {
                return Err(ExecutionError::AdviceTapeReadFailed(self.stack.current_clk()));
            },
        };
        self.stack.push(v);
        self.stack.advance_clk();
        Ok(())
    }

    /// Pushes the current stack depth onto the stack.
    pub fn op_sdepth(&mut self) -> (r: Result<(), ExecutionError>)
        requires
            old(self).wf(),
            old(self).stack.clk_spec() < u64::MAX,
        ensures
            final(self).wf(),
            sdepth_post(*old(self), *final(self), r),
    {
        let d = self.stack.depth();
        let v = Felt::new(d as u64);
        self.stack.push(v);
        self.stack.advance_clk();
        Ok(())
    }

    // CRYPTOGRAPHIC OPERATIONS
    // --------------------------------------------------------------------------------------------

    /// Applies the sponge permutation to the top 12 stack elements: the
    /// rate sits on top and the capacity deepest, so the digest window of
    /// the permuted state comes back as the top word.
    pub fn op_rpperm(&mut self) -> (r: Result<(), ExecutionError>)
        requires
            old(self).wf(),
            old(self).stack.clk_spec() < u64::MAX,
        ensures
            final(self).wf(),
            rpperm_post(*old(self), *final(self), r),
    {
        let mut state: [Felt; 12] = [
            self.stack.get(8),
            self.stack.get(9),
            self.stack.get(10),
            self.stack.get(11),
            self.stack.get(0),
            self.stack.get(1),
            self.stack.get(2),
            self.stack.get(3),
            self.stack.get(4),
            self.stack.get(5),
            self.stack.get(6),
            self.stack.get(7),
        ];
        proof {
            assert(vals(state@) =~= sponge_of(old(self).stack.felts()));
        }
        apply_permutation(&mut state);
        self.stack.set(0, state[4]);
        self.stack.set(1, state[5]);
        self.stack.set(2, state[6]);
        self.stack.set(3, state[7]);
        self.stack.set(4, state[8]);
        self.stack.set(5, state[9]);
        self.stack.set(6, state[10]);
        self.stack.set(7, state[11]);
        self.stack.set(8, state[0]);
        self.stack.set(9, state[1]);
        self.stack.set(10, state[2]);
        self.stack.set(11, state[3]);
        self.stack.advance_clk();
        Ok(())
    }

    /// Handles an advice injection: for a Merkle-node request, the stack
    /// addresses a node as `[depth, index, root, ..]`, and the node's
    /// value is appended to the advice tape. An annotation costs no
    /// cycle. Fails exactly when no tree with the given root is tracked
    /// or the depth or index does not fit the tree.
    pub fn op_advice(&mut self, injector: AdviceInjector) -> (r: Result<(), ExecutionError>)
        requires
            old(self).wf(),
        ensures
            final(self).wf(),
            advice_post(*old(self), *final(self), r),
    {
        match injector {
            AdviceInjector::MerkleNode => {
                let d = self.stack.get(0);
                let i = self.stack.get(1);
                let root = self.stack.get_word(2);
                let ti = match self.advice.find_tree(&root) {
                    Some(ti) => ti,
                    None => {
                        return Err(ExecutionError::AdviceSetNotFound(root));
                    },
                };
                if d.as_int() > MAX_TREE_DEPTH as u64 {
                    let too_big = if d.as_int() > u32::MAX as u64 {
                        u32::MAX
                    } else {
                        d.as_int() as u32
                    };
                    return Err(ExecutionError::AdviceSetLookupFailed(
                        AdviceSetError::DepthTooBig(too_big),
                    ));
                }
                let node = match self.advice.trees[ti].get_node(d.as_int() as u32, i.as_int()) {
                    Ok(n) => n,
                    Err(e) => {
                        return Err(ExecutionError::AdviceSetLookupFailed(e));
                    },
                };
                self.advice.write_tape_word(&node);
                proof {
                    assert(self.advice.tape_spec().take(
                        old(self).advice.tape_spec().len() as int,
                    ) =~= old(self).advice.tape_spec());
                    let root0 = vals(old(self).stack.felts().subrange(2, 6));
                    let t = old(self).advice.trees_spec()[tree_index_for(
                        old(self).advice.trees_spec(),
                        root0,
                    )];
                    let d0 = old(self).stack.felts()[0].value;
                    let i0 = old(self).stack.felts()[1].value;
                    assert(vals(self.advice.tape_spec()) =~= vals(old(self).advice.tape_spec())
                        + crate::merkle::subtree_root(
                        t.leaves_vals(),
                        i0 as int * pow2((t.depth_val() - d0) as nat) as int,
                        (t.depth_val() - d0) as nat,
                    ));
                }
                Ok(())
            },
        }
    }
}

impl Process {
    /// Removes a word from the advice tape and overwrites the top word of
    /// the stack with it: the last tape value becomes the deepest element
    /// of the word. Fails exactly when fewer than four values remain.
    pub fn op_readw(&mut self) -> (r: Result<(), ExecutionError>)
        requires
            old(self).wf(),
            old(self).stack.clk_spec() < u64::MAX,
        ensures
            final(self).wf(),
            readw_post(*old(self), *final(self), r),
    {
        if self.advice.tape.len() < 4 {
            return Err(ExecutionError::AdviceTapeReadFailed(self.stack.current_clk()));
        }
        let w0 = self.advice.read_tape().unwrap();
        let w1 = self.advice.read_tape().unwrap();
        let w2 = self.advice.read_tape().unwrap();
        let w3 = self.advice.read_tape().unwrap();
        self.stack.set(0, w0);
        self.stack.set(1, w1);
        self.stack.set(2, w2);
        self.stack.set(3, w3);
        proof {
            assert(self.advice.tape_spec() =~= old(self).advice.tape_spec().take(
                old(self).advice.tape_spec().len() - 4,
            ));
        }
        self.stack.advance_clk();
        Ok(())
    }

    /// Computes the root of a Merkle path for the node addressed by the
    /// stack `[depth, index, node, root, ..]`: the sibling path comes
    /// from the tracked tree with the committed root, and the node word
    /// is replaced by the root recomputed from the node up that path.
    /// Everything else stays; the caller compares the two roots. Fails
    /// exactly when no tree with the committed root is tracked, or the
    /// depth is not the tree's depth, or the index is out of range.
    pub fn op_mpverify(&mut self) -> (r: Result<(), ExecutionError>)
        requires
            old(self).wf(),
            old(self).stack.clk_spec() < u64::MAX,
        ensures
            final(self).wf(),
            mpverify_post(*old(self), *final(self), r),
    {
        let d = self.stack.get(0);
        let i = self.stack.get(1);
        let node = self.stack.get_word(2);
        let root = self.stack.get_word(6);
        let ti = match self.advice.find_tree(&root) {
            Some(ti) => ti,
            None => {
                return Err(ExecutionError::AdviceSetNotFound(root));
            },
        };
        if d.as_int() > MAX_TREE_DEPTH as u64 {
            let too_big = if d.as_int() > u32::MAX as u64 {
                u32::MAX
            } else {
                d.as_int() as u32
            };
            return Err(ExecutionError::AdviceSetLookupFailed(AdviceSetError::DepthTooBig(
                too_big,
            )));
        }
        let path = match self.advice.trees[ti].get_path(d.as_int() as u32, i.as_int()) {
            Ok(p) => p,
            Err(e) => {
                return Err(ExecutionError::AdviceSetLookupFailed(e));
            },
        };
        let computed = crate::merkle::compute_path_root(&node, i.as_int(), &path);
        self.stack.set_word(2, &computed);
        proof {
            assert(vals(self.stack.felts().subrange(2, 6)) =~= vals(computed@));
        }
        self.stack.advance_clk();
        Ok(())
    }

    /// Computes the old and new roots of a Merkle tree in which the node
    /// addressed by the stack `[depth, index, old_node, new_node, root,
    /// ..]` changes to the new value. The old node word is replaced by
    /// the root recomputed from the old node up the sibling path, and
    /// the new node word by the updated tree's root. The advice provider
    /// tracks the updated tree: in place of the old one when `copy` is
    /// false, next to it when `copy` is true. Fails exactly when no tree
    /// with the committed root is tracked, or the depth is not the
    /// tree's depth, or the index is out of range.
    pub fn op_mrupdate(&mut self, copy: bool) -> (r: Result<(), ExecutionError>)
        requires
            old(self).wf(),
            old(self).stack.clk_spec() < u64::MAX,
        ensures
            final(self).wf(),
            mrupdate_post(*old(self), *final(self), r, copy),
    {
        let d = self.stack.get(0);
        let i = self.stack.get(1);
        let old_node = self.stack.get_word(2);
        let new_node = self.stack.get_word(6);
        let root = self.stack.get_word(10);
        let ti = match self.advice.find_tree(&root) {
            Some(ti) => ti,
            None => {
                return Err(ExecutionError::AdviceSetNotFound(root));
            },
        };
        if d.as_int() > MAX_TREE_DEPTH as u64 {
            let too_big = if d.as_int() > u32::MAX as u64 {
                u32::MAX
            } else {
                d.as_int() as u32
            };
            return Err(ExecutionError::AdviceSetLookupFailed(AdviceSetError::DepthTooBig(
                too_big,
            )));
        }
        let path = match self.advice.trees[ti].get_path(d.as_int() as u32, i.as_int()) {
            Ok(p) => p,
            Err(e) => {
                return Err(ExecutionError::AdviceSetLookupFailed(e));
            },
        };
        let computed_old = crate::merkle::compute_path_root(&old_node, i.as_int(), &path);
        let updated = match self.advice.trees[ti].updated(i.as_int(), new_node) {
            Ok(t) => t,
            Err(e) => {
                return Err(ExecutionError::AdviceSetUpdateFailed(e));
            },
        };
        let new_root = updated.root();
        if copy {
            self.advice.trees.push(updated);
        } else {
            // The old tree leaves the tracked set; the updated one takes
            // its place.
            self.advice.trees.set(ti, updated);
        }
        self.stack.set_word(2, &computed_old);
        self.stack.set_word(6, &new_root);
        proof {
            assert(vals(self.stack.felts().subrange(2, 6)) =~= vals(computed_old@));
            assert(vals(self.stack.felts().subrange(6, 10)) =~= vals(new_root@));
        }
        self.stack.advance_clk();
        Ok(())
    }

    /// Executes the given operation for one cycle: the result and the
    /// machine's next state are fixed, case by case, by the step
    /// predicate of the dispatched operation. Flow-control operations,
    /// memory operations and the 32-bit integer operations are not
    /// executed here — the former belong to the decoder, the latter to
    /// co-processors outside this core — and are refused unchanged.
    pub fn execute_op(&mut self, op: Operation) -> (r: Result<(), ExecutionError>)
        requires
            old(self).wf(),
            old(self).stack.clk_spec() < u64::MAX,
        ensures
            final(self).wf(),
            op is Noop ==> noop_post(*old(self), *final(self), r),
            op is Assert ==> assert_post(*old(self), *final(self), r),
            op is Add ==> add_post(*old(self), *final(self), r),
            op is Neg ==> neg_post(*old(self), *final(self), r),
            op is Mul ==> mul_post(*old(self), *final(self), r),
            op is Inv ==> inv_post(*old(self), *final(self), r),
            op is Incr ==> incr_post(*old(self), *final(self), r),
            op is And ==> and_post(*old(self), *final(self), r),
            op is Or ==> or_post(*old(self), *final(self), r),
            op is Not ==> not_post(*old(self), *final(self), r),
            op is Eq ==> eq_post(*old(self), *final(self), r),
            op is Eqz ==> eqz_post(*old(self), *final(self), r),
            op is Eqw ==> eqw_post(*old(self), *final(self), r),
            op is BinAcc ==> binacc_post(*old(self), *final(self), r),
            op is Pad ==> pad_post(*old(self), *final(self), r),
            op is Drop ==> drop_post(*old(self), *final(self), r),
            op is Swap ==> swap_post(*old(self), *final(self), r),
            op is SwapDW ==> swapdw_post(*old(self), *final(self), r),
            op is CSwap ==> cswap_post(*old(self), *final(self), r),
            op is CSwapW ==> cswapw_post(*old(self), *final(self), r),
            op is Read ==> read_post(*old(self), *final(self), r),
            op is ReadW ==> readw_post(*old(self), *final(self), r),
            op is SDepth ==> sdepth_post(*old(self), *final(self), r),
            op is RpPerm ==> rpperm_post(*old(self), *final(self), r),
            op is MpVerify ==> mpverify_post(*old(self), *final(self), r),
            op is Dup0 ==> dup_post(*old(self), *final(self), r, 0),
            op is Dup1 ==> dup_post(*old(self), *final(self), r, 1),
            op is Dup2 ==> dup_post(*old(self), *final(self), r, 2),
            op is Dup3 ==> dup_post(*old(self), *final(self), r, 3),
            op is Dup4 ==> dup_post(*old(self), *final(self), r, 4),
            op is Dup5 ==> dup_post(*old(self), *final(self), r, 5),
            op is Dup6 ==> dup_post(*old(self), *final(self), r, 6),
            op is Dup7 ==> dup_post(*old(self), *final(self), r, 7),
            op is Dup9 ==> dup_post(*old(self), *final(self), r, 9),
            op is Dup11 ==> dup_post(*old(self), *final(self), r, 11),
            op is Dup13 ==> dup_post(*old(self), *final(self), r, 13),
            op is Dup15 ==> dup_post(*old(self), *final(self), r, 15),
            op is MovUp2 ==> movup_post(*old(self), *final(self), r, 2),
            op is MovUp3 ==> movup_post(*old(self), *final(self), r, 3),
            op is MovUp4 ==> movup_post(*old(self), *final(self), r, 4),
            op is MovUp5 ==> movup_post(*old(self), *final(self), r, 5),
            op is MovUp6 ==> movup_post(*old(self), *final(self), r, 6),
            op is MovUp7 ==> movup_post(*old(self), *final(self), r, 7),
            op is MovUp8 ==> movup_post(*old(self), *final(self), r, 8),
            op is MovUp9 ==> movup_post(*old(self), *final(self), r, 9),
            op is MovUp13 ==> movup_post(*old(self), *final(self), r, 13),
            op is MovDn2 ==> movdn_post(*old(self), *final(self), r, 2),
            op is MovDn3 ==> movdn_post(*old(self), *final(self), r, 3),
            op is MovDn4 ==> movdn_post(*old(self), *final(self), r, 4),
            op is MovDn5 ==> movdn_post(*old(self), *final(self), r, 5),
            op is MovDn6 ==> movdn_post(*old(self), *final(self), r, 6),
            op is MovDn7 ==> movdn_post(*old(self), *final(self), r, 7),
            op is MovDn8 ==> movdn_post(*old(self), *final(self), r, 8),
            op is MovDn9 ==> movdn_post(*old(self), *final(self), r, 9),
            op is SwapW ==> swap_word_post(*old(self), *final(self), r, 4),
            op is SwapW2 ==> swap_word_post(*old(self), *final(self), r, 8),
            op is SwapW3 ==> swap_word_post(*old(self), *final(self), r, 12),
            op matches Operation::Push(imm) ==> (if imm.valid() {
                push_post(*old(self), *final(self), r, imm)
            } else {
                r is Err && *final(self) == *old(self)
            }),
            op is Advice ==> advice_post(*old(self), *final(self), r),
            op matches Operation::MrUpdate(copy) ==> mrupdate_post(*old(self), *final(self), r, copy),
            is_unsupported_op(op) ==> (r matches Err(e)
                && e matches ExecutionError::UnexecutableOperation(rejected) && rejected == op
                && *final(self) == *old(self)),
    {
        match op {
            Operation::Noop => self.op_noop(),
            Operation::Assert => self.op_assert(),
            Operation::Add => self.op_add(),
            Operation::Neg => self.op_neg(),
            Operation::Mul => self.op_mul(),
            Operation::Inv => self.op_inv(),
            Operation::Incr => self.op_incr(),
            Operation::And => self.op_and(),
            Operation::Or => self.op_or(),
            Operation::Not => self.op_not(),
            Operation::Eq => self.op_eq(),
            Operation::Eqz => self.op_eqz(),
            Operation::Eqw => self.op_eqw(),
            Operation::BinAcc => self.op_binacc(),
            Operation::Pad => self.op_pad(),
            Operation::Drop => self.op_drop(),
            Operation::Dup0 => self.op_dup(0),
            Operation::Dup1 => self.op_dup(1),
            Operation::Dup2 => self.op_dup(2),
            Operation::Dup3 => self.op_dup(3),
            Operation::Dup4 => self.op_dup(4),
            Operation::Dup5 => self.op_dup(5),
            Operation::Dup6 => self.op_dup(6),
            Operation::Dup7 => self.op_dup(7),
            Operation::Dup9 => self.op_dup(9),
            Operation::Dup11 => self.op_dup(11),
            Operation::Dup13 => self.op_dup(13),
            Operation::Dup15 => self.op_dup(15),
            Operation::Swap => self.op_swap(),
            Operation::SwapW => self.op_swap_word(4),
            Operation::SwapW2 => self.op_swap_word(8),
            Operation::SwapW3 => self.op_swap_word(12),
            Operation::SwapDW => self.op_swapdw(),
            Operation::MovUp2 => self.op_movup(2),
            Operation::MovUp3 => self.op_movup(3),
            Operation::MovUp4 => self.op_movup(4),
            Operation::MovUp5 => self.op_movup(5),
            Operation::MovUp6 => self.op_movup(6),
            Operation::MovUp7 => self.op_movup(7),
            Operation::MovUp8 => self.op_movup(8),
            Operation::MovUp9 => self.op_movup(9),
            Operation::MovUp13 => self.op_movup(13),
            Operation::MovDn2 => self.op_movdn(2),
            Operation::MovDn3 => self.op_movdn(3),
            Operation::MovDn4 => self.op_movdn(4),
            Operation::MovDn5 => self.op_movdn(5),
            Operation::MovDn6 => self.op_movdn(6),
            Operation::MovDn7 => self.op_movdn(7),
            Operation::MovDn8 => self.op_movdn(8),
            Operation::MovDn9 => self.op_movdn(9),
            Operation::CSwap => self.op_cswap(),
            Operation::CSwapW => self.op_cswapw(),
            Operation::Push(imm) => {
                if imm.value >= crate::field::FIELD_MODULUS {
                    return Err(ExecutionError::UnexecutableOperation(op));
                }
                self.op_push(imm)
            },
            Operation::Read => self.op_read(),
            Operation::ReadW => self.op_readw(),
            Operation::SDepth => self.op_sdepth(),
            Operation::Advice(injector) => self.op_advice(injector),
            Operation::RpPerm => self.op_rpperm(),
            Operation::MpVerify => self.op_mpverify(),
            Operation::MrUpdate(copy) => self.op_mrupdate(copy),
            _ => Err(ExecutionError::UnexecutableOperation(op)),
        }
    }
}

/// The operations the per-cycle dispatcher refuses: flow control (run by
/// the decoder), the frame-pointer and memory operations, and the 32-bit
/// integer operations (run by co-processors outside this core).
pub open spec fn is_unsupported_op(op: Operation) -> bool {
    match op {
        Operation::FmpAdd
        | Operation::FmpUpdate
        | Operation::Join
        | Operation::Split
        | Operation::Loop
        | Operation::Span
        | Operation::End
        | Operation::Repeat
        | Operation::Respan
        | Operation::Halt
        | Operation::U32split
        | Operation::U32add
        | Operation::U32assert2
        | Operation::U32add3
        | Operation::U32sub
        | Operation::U32mul
        | Operation::U32madd
        | Operation::U32div
        | Operation::U32and
        | Operation::U32or
        | Operation::U32xor
        | Operation::MLoadW
        | Operation::MStoreW
        | Operation::MLoad
        | Operation::MStore => true,
        _ => false,
    }
}

// STEP PREDICATES
// ================================================================================================

/// What `op_add` guarantees of the step it takes.
pub open spec fn add_post(pre: Process, post: Process, r: Result<(), ExecutionError>) -> bool {
    &&& (r is Ok)
    &&& (post.advice == pre.advice)
    &&& (post.stack.clk_spec() == pre.stack.clk_spec() + 1)
    &&& (post.stack.felts() == shifted_left(
        pre.stack.felts().update(
            0,
            (Felt {
                value: f_add(
                    pre.stack.felts()[1].value as int,
                    pre.stack.felts()[0].value as int,
                ) as u64,
            }),
        ),
        2,
    ))
}

/// What `op_neg` guarantees of the step it takes.
pub open spec fn neg_post(pre: Process, post: Process, r: Result<(), ExecutionError>) -> bool {
    &&& (r is Ok)
    &&& (post.advice == pre.advice)
    &&& (post.stack.clk_spec() == pre.stack.clk_spec() + 1)
    &&& (post.stack.felts() == pre.stack.felts().update(
        0,
        (Felt { value: f_neg(pre.stack.felts()[0].value as int) as u64 }),
    ))
}

/// What `op_mul` guarantees of the step it takes.
pub open spec fn mul_post(pre: Process, post: Process, r: Result<(), ExecutionError>) -> bool {
    &&& (r is Ok)
    &&& (post.advice == pre.advice)
    &&& (post.stack.clk_spec() == pre.stack.clk_spec() + 1)
    &&& (post.stack.felts() == shifted_left(
        pre.stack.felts().update(
            0,
            (Felt {
                value: f_mul(
                    pre.stack.felts()[1].value as int,
                    pre.stack.felts()[0].value as int,
                ) as u64,
            }),
        ),
        2,
    ))
}

/// What `op_inv` guarantees of the step it takes.
pub open spec fn inv_post(pre: Process, post: Process, r: Result<(), ExecutionError>) -> bool {
    &&& (r is Ok <==> pre.stack.felts()[0].value != 0)
    &&& (r matches Err(e) ==> e matches ExecutionError::DivideByZero(c) && c == pre.stack.clk_spec() && post == pre)
    &&& (r is Ok ==> post.advice == pre.advice && post.stack.clk_spec()
        == pre.stack.clk_spec() + 1 && post.stack.felts() == pre.stack.felts().update(0, post.stack.felts()[0]) && f_mul(
        post.stack.felts()[0].value as int,
        pre.stack.felts()[0].value as int,
    ) == 1)
}

/// What `op_incr` guarantees of the step it takes.
pub open spec fn incr_post(pre: Process, post: Process, r: Result<(), ExecutionError>) -> bool {
    &&& (r is Ok)
    &&& (post.advice == pre.advice)
    &&& (post.stack.clk_spec() == pre.stack.clk_spec() + 1)
    &&& (post.stack.felts() == pre.stack.felts().update(
        0,
        (Felt { value: f_add(pre.stack.felts()[0].value as int, 1) as u64 }),
    ))
}

/// What `op_and` guarantees of the step it takes.
pub open spec fn and_post(pre: Process, post: Process, r: Result<(), ExecutionError>) -> bool {
    &&& (r is Ok <==> pre.stack.felts()[0].value <= 1 && pre.stack.felts()[1].value
        <= 1)
    &&& (r is Err ==> post == pre)
    &&& (r matches Err(e) ==> e is NotBinaryValue)
    &&& (r is Ok ==> post.advice == pre.advice && post.stack.clk_spec()
        == pre.stack.clk_spec() + 1 && post.stack.felts() == shifted_left(
        pre.stack.felts().update(
            0,
            (Felt {
                value: if pre.stack.felts()[0].value == 1 && pre.stack.felts()[1].value == 1 {
                    1u64
                } else {
                    0u64
                },
            }),
        ),
        2,
    ))
}

/// What `op_or` guarantees of the step it takes.
pub open spec fn or_post(pre: Process, post: Process, r: Result<(), ExecutionError>) -> bool {
    &&& (r is Ok <==> pre.stack.felts()[0].value <= 1 && pre.stack.felts()[1].value
        <= 1)
    &&& (r is Err ==> post == pre)
    &&& (r matches Err(e) ==> e is NotBinaryValue)
    &&& (r is Ok ==> post.advice == pre.advice && post.stack.clk_spec()
        == pre.stack.clk_spec() + 1 && post.stack.felts() == shifted_left(
        pre.stack.felts().update(
            0,
            (Felt {
                value: if pre.stack.felts()[0].value == 1 || pre.stack.felts()[1].value == 1 {
                    1u64
                } else {
                    0u64
                },
            }),
        ),
        2,
    ))
}

/// What `op_not` guarantees of the step it takes.
pub open spec fn not_post(pre: Process, post: Process, r: Result<(), ExecutionError>) -> bool {
    &&& (r is Ok <==> pre.stack.felts()[0].value <= 1)
    &&& (r is Err ==> post == pre)
    &&& (r matches Err(e) ==> e is NotBinaryValue)
    &&& (r is Ok ==> post.advice == pre.advice && post.stack.clk_spec()
        == pre.stack.clk_spec() + 1 && post.stack.felts() == pre.stack.felts().update(
        0,
        (Felt { value: f_sub(1, pre.stack.felts()[0].value as int) as u64 }),
    ))
}

/// What `op_eq` guarantees of the step it takes.
pub open spec fn eq_post(pre: Process, post: Process, r: Result<(), ExecutionError>) -> bool {
    &&& (r is Ok)
    &&& (post.advice == pre.advice)
    &&& (post.stack.clk_spec() == pre.stack.clk_spec() + 1)
    &&& (post.stack.felts() == shifted_left(
        pre.stack.felts().update(
            0,
            (Felt {
                value: if pre.stack.felts()[0].value == pre.stack.felts()[1].value {
                    1u64
                } else {
                    0u64
                },
            }),
        ),
        2,
    ))
}

/// What `op_eqz` guarantees of the step it takes.
pub open spec fn eqz_post(pre: Process, post: Process, r: Result<(), ExecutionError>) -> bool {
    &&& (r is Ok)
    &&& (post.advice == pre.advice)
    &&& (post.stack.clk_spec() == pre.stack.clk_spec() + 1)
    &&& (post.stack.felts() == pre.stack.felts().update(
        0,
        (Felt {
            value: if pre.stack.felts()[0].value == 0 {
                1u64
            } else {
                0u64
            },
        }),
    ))
}

/// What `op_eqw` guarantees of the step it takes.
pub open spec fn eqw_post(pre: Process, post: Process, r: Result<(), ExecutionError>) -> bool {
    &&& (r is Ok)
    &&& (post.advice == pre.advice)
    &&& (post.stack.clk_spec() == pre.stack.clk_spec() + 1)
    &&& (post.stack.felts() == pre.stack.felts().insert(
        0,
        (Felt {
            value: if pre.stack.felts().subrange(0, 4) =~= pre.stack.felts().subrange(4, 8) {
                1u64
            } else {
                0u64
            },
        }),
    ))
}

/// What `op_binacc` guarantees of the step it takes.
pub open spec fn binacc_post(pre: Process, post: Process, r: Result<(), ExecutionError>) -> bool {
    &&& (r is Ok <==> is_pow2_int(pre.stack.felts()[0].value as int) && is_pow2_int(pre.stack.felts()[1].value as int))
    &&& (r is Err ==> post == pre)
    &&& (r matches Err(e) ==> e matches ExecutionError::InvalidPowerOfTwo(v) && v == pre.stack.felts()[0])
    &&& (r is Ok ==> post.advice == pre.advice && post.stack.clk_spec()
        == pre.stack.clk_spec() + 1 && post.stack.felts() == pre.stack.felts().update(
        0,
        (Felt {
            value: f_mul(
                pre.stack.felts()[0].value as int,
                pre.stack.felts()[0].value as int,
            ) as u64,
        }),
    ).update(
        1,
        (Felt {
            value: f_mul(
                pre.stack.felts()[1].value as int,
                (pre.stack.felts()[0].value - 1) * (pre.stack.felts()[2].value as int % 2) + 1,
            ) as u64,
        }),
    ).update(2, (Felt { value: (pre.stack.felts()[2].value / 2) as u64 })))
}

/// What `op_noop` guarantees of the step it takes.
pub open spec fn noop_post(pre: Process, post: Process, r: Result<(), ExecutionError>) -> bool {
    &&& (r is Ok)
    &&& (post.advice == pre.advice)
    &&& (post.stack.clk_spec() == pre.stack.clk_spec() + 1)
    &&& (post.stack.felts() == pre.stack.felts())
}

/// What `op_assert` guarantees of the step it takes.
pub open spec fn assert_post(pre: Process, post: Process, r: Result<(), ExecutionError>) -> bool {
    &&& (r is Ok <==> pre.stack.felts()[0].value == 1)
    &&& (r matches Err(e) ==> e matches ExecutionError::FailedAssertion(c) && c == pre.stack.clk_spec() && post == pre)
    &&& (r is Ok ==> post.advice == pre.advice && post.stack.clk_spec()
        == pre.stack.clk_spec() + 1 && post.stack.felts() == shifted_left(
        pre.stack.felts(),
        1,
    ))
}

/// What `op_pad` guarantees of the step it takes.
pub open spec fn pad_post(pre: Process, post: Process, r: Result<(), ExecutionError>) -> bool {
    &&& (r is Ok)
    &&& (post.advice == pre.advice)
    &&& (post.stack.clk_spec() == pre.stack.clk_spec() + 1)
    &&& (post.stack.felts() == pre.stack.felts().insert(0, zero_felt()))
}

/// What `op_push` guarantees of the step it takes.
pub open spec fn push_post(pre: Process, post: Process, r: Result<(), ExecutionError>, imm: Felt) -> bool {
    &&& (r is Ok)
    &&& (post.advice == pre.advice)
    &&& (post.stack.clk_spec() == pre.stack.clk_spec() + 1)
    &&& (post.stack.felts() == pre.stack.felts().insert(0, imm))
}

/// What `op_drop` guarantees of the step it takes.
pub open spec fn drop_post(pre: Process, post: Process, r: Result<(), ExecutionError>) -> bool {
    &&& (r is Ok)
    &&& (post.advice == pre.advice)
    &&& (post.stack.clk_spec() == pre.stack.clk_spec() + 1)
    &&& (post.stack.felts() == shifted_left(pre.stack.felts(), 1))
}

/// What `op_dup` guarantees of the step it takes.
pub open spec fn dup_post(pre: Process, post: Process, r: Result<(), ExecutionError>, n: int) -> bool {
    &&& (r is Ok)
    &&& (post.advice == pre.advice)
    &&& (post.stack.clk_spec() == pre.stack.clk_spec() + 1)
    &&& (post.stack.felts() == pre.stack.felts().insert(
        0,
        pre.stack.felts()[n as int],
    ))
}

/// What `op_swap` guarantees of the step it takes.
pub open spec fn swap_post(pre: Process, post: Process, r: Result<(), ExecutionError>) -> bool {
    &&& (r is Ok)
    &&& (post.advice == pre.advice)
    &&& (post.stack.clk_spec() == pre.stack.clk_spec() + 1)
    &&& (post.stack.felts() == pre.stack.felts().update(
        0,
        pre.stack.felts()[1],
    ).update(1, pre.stack.felts()[0]))
}

/// What `op_swap_word` guarantees of the step it takes.
pub open spec fn swap_word_post(pre: Process, post: Process, r: Result<(), ExecutionError>, pos: int) -> bool {
    &&& (r is Ok)
    &&& (post.advice == pre.advice)
    &&& (post.stack.clk_spec() == pre.stack.clk_spec() + 1)
    &&& (post.stack.felts().len() == pre.stack.felts().len())
    &&& (forall|m: int| 0 <= m < pre.stack.felts().len() ==> #[trigger] post.stack.felts()[m] == (if 0 <= m < 4 {
        pre.stack.felts()[m + pos]
    } else if pos <= m < pos + 4 {
        pre.stack.felts()[m - pos]
    } else {
        pre.stack.felts()[m]
    }))
}

/// What `op_swapdw` guarantees of the step it takes.
pub open spec fn swapdw_post(pre: Process, post: Process, r: Result<(), ExecutionError>) -> bool {
    &&& (r is Ok)
    &&& (post.advice == pre.advice)
    &&& (post.stack.clk_spec() == pre.stack.clk_spec() + 1)
    &&& (post.stack.felts().len() == pre.stack.felts().len())
    &&& (forall|m: int| 0 <= m < pre.stack.felts().len() ==> #[trigger] post.stack.felts()[m] == (if 0 <= m < 8 {
        pre.stack.felts()[m + 8]
    } else if 8 <= m < 16 {
        pre.stack.felts()[m - 8]
    } else {
        pre.stack.felts()[m]
    }))
}

/// What `op_movup` guarantees of the step it takes.
pub open spec fn movup_post(pre: Process, post: Process, r: Result<(), ExecutionError>, n: int) -> bool {
    &&& (r is Ok)
    &&& (post.advice == pre.advice)
    &&& (post.stack.clk_spec() == pre.stack.clk_spec() + 1)
    &&& (post.stack.felts() == pre.stack.felts().remove(n as int).insert(
        0,
        pre.stack.felts()[n as int],
    ))
}

/// What `op_movdn` guarantees of the step it takes.
pub open spec fn movdn_post(pre: Process, post: Process, r: Result<(), ExecutionError>, n: int) -> bool {
    &&& (r is Ok)
    &&& (post.advice == pre.advice)
    &&& (post.stack.clk_spec() == pre.stack.clk_spec() + 1)
    &&& (post.stack.felts() == pre.stack.felts().remove(0).insert(
        n as int,
        pre.stack.felts()[0],
    ))
}

/// What `op_cswap` guarantees of the step it takes.
pub open spec fn cswap_post(pre: Process, post: Process, r: Result<(), ExecutionError>) -> bool {
    &&& (r is Ok <==> pre.stack.felts()[0].value <= 1)
    &&& (r is Err ==> post == pre)
    &&& (r matches Err(e) ==> e is NotBinaryValue)
    &&& (r is Ok ==> post.advice == pre.advice && post.stack.clk_spec()
        == pre.stack.clk_spec() + 1 && post.stack.felts() == shifted_left(
        (if pre.stack.felts()[0].value == 1 {
            pre.stack.felts().update(1, pre.stack.felts()[2]).update(
                2,
                pre.stack.felts()[1],
            )
        } else {
            pre.stack.felts()
        }),
        1,
    ))
}

/// What `op_cswapw` guarantees of the step it takes.
pub open spec fn cswapw_post(pre: Process, post: Process, r: Result<(), ExecutionError>) -> bool {
    &&& (r is Ok <==> pre.stack.felts()[0].value <= 1)
    &&& (r is Err ==> post == pre)
    &&& (r matches Err(e) ==> e is NotBinaryValue)
    &&& (r is Ok ==> post.advice == pre.advice && post.stack.clk_spec()
        == pre.stack.clk_spec() + 1 && post.stack.felts() == shifted_left(
        (if pre.stack.felts()[0].value == 1 {
            pre.stack.felts().update(1, pre.stack.felts()[5]).update(
                2,
                pre.stack.felts()[6],
            ).update(3, pre.stack.felts()[7]).update(
                4,
                pre.stack.felts()[8],
            ).update(5, pre.stack.felts()[1]).update(
                6,
                pre.stack.felts()[2],
            ).update(7, pre.stack.felts()[3]).update(8, pre.stack.felts()[4])
        } else {
            pre.stack.felts()
        }),
        1,
    ))
}

/// What `op_read` guarantees of the step it takes.
pub open spec fn read_post(pre: Process, post: Process, r: Result<(), ExecutionError>) -> bool {
    &&& (r is Ok <==> pre.advice.tape_spec().len() > 0)
    &&& (r matches Err(e) ==> e matches ExecutionError::AdviceTapeReadFailed(c) && c == pre.stack.clk_spec() && post.stack == pre.stack && post.advice.tape_spec() == pre.advice.tape_spec() && post.advice.trees_spec() == pre.advice.trees_spec())
    &&& (r is Ok ==> post.advice.trees_spec() == pre.advice.trees_spec() && post.advice.tape_spec() == pre.advice.tape_spec().drop_last() && post.stack.clk_spec() == pre.stack.clk_spec() + 1 && post.stack.felts()
        == pre.stack.felts().insert(0, pre.advice.tape_spec().last()))
}

/// What `op_sdepth` guarantees of the step it takes.
pub open spec fn sdepth_post(pre: Process, post: Process, r: Result<(), ExecutionError>) -> bool {
    &&& (r is Ok)
    &&& (post.advice == pre.advice)
    &&& (post.stack.clk_spec() == pre.stack.clk_spec() + 1)
    &&& (post.stack.felts() == pre.stack.felts().insert(
        0,
        (Felt { value: (pre.stack.felts().len() as int % crate::field::fp()) as u64 }),
    ))
}

/// What `op_rpperm` guarantees of the step it takes.
pub open spec fn rpperm_post(pre: Process, post: Process, r: Result<(), ExecutionError>) -> bool {
    &&& (r is Ok)
    &&& (post.advice == pre.advice)
    &&& (post.stack.clk_spec() == pre.stack.clk_spec() + 1)
    &&& (post.stack.felts().len() == pre.stack.felts().len())
    &&& (forall|j: int| 0 <= j < 8 ==> (#[trigger] post.stack.felts()[j]).value
        == rp_permuted(sponge_of(pre.stack.felts()))[j + 4])
    &&& (forall|k: int| 8 <= k < 12 ==> (#[trigger] post.stack.felts()[k]).value
        == rp_permuted(sponge_of(pre.stack.felts()))[k - 8])
    &&& (forall|m: int| 12 <= m < pre.stack.felts().len() ==> #[trigger] post.stack.felts()[m] == pre.stack.felts()[m])
}

/// What `op_advice` guarantees of the step it takes.
pub open spec fn advice_post(pre: Process, post: Process, r: Result<(), ExecutionError>) -> bool {
    &&& (r matches Err(e) ==> (e matches ExecutionError::AdviceSetLookupFailed(ae) ==> (
    ae matches AdviceSetError::DepthTooBig(x) ==> x as int == depth_error_payload(
        pre.stack.felts()[0].value as int,
    ))))
    &&& (post.stack == pre.stack)
    &&& (post.advice.trees_spec() == pre.advice.trees_spec())
    &&& (({
        let d = pre.stack.felts()[0].value;
        let i = pre.stack.felts()[1].value;
        let root = vals(pre.stack.felts().subrange(2, 6));
        let ti = tree_index_for(pre.advice.trees_spec(), root);
        &&& (r is Ok <==> ti >= 0 && d <= MAX_TREE_DEPTH && d <= pre.advice.trees_spec()[ti].depth_val() && i < pow2(d as nat))
        &&& (r is Err ==> post.advice.tape_spec() == pre.advice.tape_spec())
        &&& (r is Ok ==> post.advice.tape_spec().len() == pre.advice.tape_spec().len() + 4
            && post.advice.tape_spec().take(pre.advice.tape_spec().len() as int)
            == pre.advice.tape_spec())
        &&& (r is Ok ==> {
            let t = pre.advice.trees_spec()[ti];
            vals(post.advice.tape_spec()) == vals(pre.advice.tape_spec())
                + crate::merkle::subtree_root(
                t.leaves_vals(),
                i as int * pow2((t.depth_val() - d) as nat) as int,
                (t.depth_val() - d) as nat,
            )
        })
    }))
}

/// What `op_readw` guarantees of the step it takes.
pub open spec fn readw_post(pre: Process, post: Process, r: Result<(), ExecutionError>) -> bool {
    &&& (r is Ok <==> pre.advice.tape_spec().len() >= 4)
    &&& (r matches Err(e) ==> e is AdviceTapeReadFailed && post.stack.felts() == pre.stack.felts() && post.advice.trees_spec() == pre.advice.trees_spec())
    &&& (r is Ok ==> post.advice.trees_spec() == pre.advice.trees_spec() && post.advice.tape_spec() == pre.advice.tape_spec().take(
        pre.advice.tape_spec().len() - 4,
    ) && post.stack.clk_spec() == pre.stack.clk_spec() + 1 && post.stack.felts() == pre.stack.felts().update(
        0,
        pre.advice.tape_spec()[pre.advice.tape_spec().len() - 1],
    ).update(1, pre.advice.tape_spec()[pre.advice.tape_spec().len() - 2]).update(
        2,
        pre.advice.tape_spec()[pre.advice.tape_spec().len() - 3],
    ).update(3, pre.advice.tape_spec()[pre.advice.tape_spec().len() - 4]))
}

/// What `op_mpverify` guarantees of the step it takes.
pub open spec fn mpverify_post(pre: Process, post: Process, r: Result<(), ExecutionError>) -> bool {
    &&& (r matches Err(e) ==> (e matches ExecutionError::AdviceSetLookupFailed(ae) ==> (
    ae matches AdviceSetError::DepthTooBig(x) ==> x as int == depth_error_payload(
        pre.stack.felts()[0].value as int,
    ))))
    &&& (post.advice.tape_spec() == pre.advice.tape_spec())
    &&& (post.advice.trees_spec() == pre.advice.trees_spec())
    &&& (({
        let d = pre.stack.felts()[0].value;
        let i = pre.stack.felts()[1].value;
        let node = vals(pre.stack.felts().subrange(2, 6));
        let root = vals(pre.stack.felts().subrange(6, 10));
        let ti = tree_index_for(pre.advice.trees_spec(), root);
        &&& (r is Ok <==> ti >= 0 && d <= MAX_TREE_DEPTH && d == pre.advice.trees_spec()[ti].depth_val() && i < pow2(d as nat))
        &&& (r is Err ==> post.stack.felts() == pre.stack.felts()
            && post.stack.clk_spec() == pre.stack.clk_spec())
        &&& (r matches Err(e) ==> (e matches ExecutionError::AdviceSetNotFound(w) && vals(
            w@,
        ) == root && ti < 0) || (e is AdviceSetLookupFailed && ti >= 0))
        &&& (r is Ok ==> {
            let t = pre.advice.trees_spec()[ti];
            let computed = path_root(
                node,
                i as int,
                sibling_path(t.leaves_vals(), 0, t.depth_val(), i as int),
            );
            &&& post.stack.clk_spec() == pre.stack.clk_spec() + 1
            &&& post.stack.felts().len() == pre.stack.felts().len()
            &&& vals(post.stack.felts().subrange(2, 6)) == computed
            &&& forall|m: int| 0 <= m < pre.stack.felts().len() && !(2 <= m < 6)
                ==> #[trigger] post.stack.felts()[m] == pre.stack.felts()[m]
        })
    }))
}

/// What `op_mrupdate` guarantees of the step it takes.
pub open spec fn mrupdate_post(pre: Process, post: Process, r: Result<(), ExecutionError>, copy: bool) -> bool {
    &&& (r matches Err(e) ==> (e matches ExecutionError::AdviceSetLookupFailed(ae) ==> (
    ae matches AdviceSetError::DepthTooBig(x) ==> x as int == depth_error_payload(
        pre.stack.felts()[0].value as int,
    ))))
    &&& (post.advice.tape_spec() == pre.advice.tape_spec())
    &&& (({
        let d = pre.stack.felts()[0].value;
        let i = pre.stack.felts()[1].value;
        let old_node = vals(pre.stack.felts().subrange(2, 6));
        let new_node = pre.stack.felts().subrange(6, 10);
        let root = vals(pre.stack.felts().subrange(10, 14));
        let ti = tree_index_for(pre.advice.trees_spec(), root);
        &&& (r is Ok <==> ti >= 0 && d <= MAX_TREE_DEPTH && d == pre.advice.trees_spec()[ti].depth_val() && i < pow2(d as nat))
        &&& (r is Err ==> post.stack.felts() == pre.stack.felts()
            && post.stack.clk_spec() == pre.stack.clk_spec()
            && post.advice.trees_spec() == pre.advice.trees_spec())
        &&& (r matches Err(e) ==> (e matches ExecutionError::AdviceSetNotFound(w) && vals(
            w@,
        ) == root && ti < 0) || ((e is AdviceSetLookupFailed || e is AdviceSetUpdateFailed)
            && ti >= 0))
        &&& (r is Ok ==> {
            let t = pre.advice.trees_spec()[ti];
            let updated = if copy {
                post.advice.trees_spec().last()
            } else {
                post.advice.trees_spec()[ti]
            };
            let computed_old = path_root(
                old_node,
                i as int,
                sibling_path(t.leaves_vals(), 0, t.depth_val(), i as int),
            );
            &&& post.stack.clk_spec() == pre.stack.clk_spec() + 1
            &&& post.stack.felts().len() == pre.stack.felts().len()
            &&& vals(post.stack.felts().subrange(2, 6)) == computed_old
            &&& forall|m: int| 0 <= m < pre.stack.felts().len() && !(2 <= m < 10)
                ==> #[trigger] post.stack.felts()[m] == pre.stack.felts()[m]
            &&& updated.wf()
            &&& updated.depth_val() == t.depth_val()
            &&& updated.leaves_vals() == t.leaves_vals().update(i as int, vals(new_node))
            &&& vals(post.stack.felts().subrange(6, 10)) == updated.root_val()
            &&& (copy ==> post.advice.trees_spec() == pre.advice.trees_spec().push(updated))
            &&& (!copy ==> post.advice.trees_spec() == pre.advice.trees_spec().update(ti, updated))
        })
    }))
}

impl Process {
    /// The composed law of the Merkle read instruction: executing the
    /// `mtree.get` expansion, operation by operation in its emitted
    /// order, on a stack `[depth, index, root, rest]` whose root commits
    /// a tracked tree, succeeds — the root recomputed from the injected
    /// node meets the committed one, so the assertion passes — and the
    /// stack ends as `[node, root, rest]`: the tree's leaf at the index
    /// on top, the root unchanged below it. The advice tape ends as it
    /// began, the injected node consumed by the four reads.
    #[verifier::rlimit(80)]
    pub fn mtree_get_transition(&mut self) -> (r: Result<(), ExecutionError>)
        requires
            old(self).wf(),
            old(self).stack.clk_spec() + 32 < u64::MAX,
            ({
                let pre = old(self).stack.felts();
                let ti = tree_index_for(
                    old(self).advice.trees_spec(),
                    vals(pre.subrange(2, 6)),
                );
                &&& ti >= 0
                &&& pre[0].value == old(self).advice.trees_spec()[ti].depth_val()
                &&& pre[1].value < pow2(old(self).advice.trees_spec()[ti].depth_val())
            }),
        ensures
            final(self).wf(),
            r is Ok,
            final(self).advice.trees_spec() == old(self).advice.trees_spec(),
            final(self).advice.tape_spec() == old(self).advice.tape_spec(),
            final(self).stack.felts().len() == old(self).stack.felts().len() + 2,
            ({
                let pre = old(self).stack.felts();
                let t = old(self).advice.trees_spec()[tree_index_for(
                    old(self).advice.trees_spec(),
                    vals(pre.subrange(2, 6)),
                )];
                &&& vals(final(self).stack.felts().subrange(0, 4)) == t.leaves_vals()[
                    pre[1].value as int
                ]
                &&& final(self).stack.felts().subrange(4, 8) == pre.subrange(2, 6)
                &&& final(self).stack.felts().skip(8) == pre.skip(6)
            }),
    {
        let ghost pre = self.stack.felts();
        let ghost trees = self.advice.trees_spec();
        let ghost tape0 = self.advice.tape_spec();
        let ghost root = vals(pre.subrange(2, 6));
        let ghost ti = tree_index_for(trees, root);
        let ghost t = trees[ti];
        let ghost ix = pre[1].value as int;
        let ghost leaf = t.leaves_vals()[ix];
        let ghost len0 = pre.len() as int;
        proof {
            lemma_tree_index_bounds(trees, root);
            assert(t.wf());
            assert(t.root_val() == root);
            crate::merkle::lemma_tree_leaf_shape(&t);
            assert(leaf.len() == 4);
        }

        // Ask the advice provider for the node under the committed root.
        if let Err(e) = self.op_advice(AdviceInjector::MerkleNode) {
            return Err(e);
        }
        proof {
            assert(pow2(0) == 1) by {
                vstd::arithmetic::power2::lemma2_to64();
            }
            assert(ix * pow2(0) as int == ix) by (nonlinear_arith)
                requires
                    pow2(0) as int == 1,
            ;
            assert(crate::merkle::subtree_root(t.leaves_vals(), ix * pow2(0) as int, 0)
                == leaf);
        }
        let ghost tape1 = self.advice.tape_spec();

        // Set the depth and index aside.
        if let Err(e) = self.op_movdn(5) {
            return Err(e);
        }
        if let Err(e) = self.op_movdn(5) {
            return Err(e);
        }
        let ghost stage_a = self.stack.felts();
        proof {
            assert forall|m: int| 0 <= m < len0 implies #[trigger] stage_a[m] == (if m < 4 {
                pre[m + 2]
            } else if m == 4 {
                pre[0]
            } else if m == 5 {
                pre[1]
            } else {
                pre[m]
            }) by {}
            assert(stage_a.len() == len0);
        }

        // Read the node from the advice tape.
        if let Err(e) = self.op_read() {
            return Err(e);
        }
        if let Err(e) = self.op_read() {
            return Err(e);
        }
        if let Err(e) = self.op_read() {
            return Err(e);
        }
        if let Err(e) = self.op_read() {
            return Err(e);
        }
        let ghost stage_b = self.stack.felts();
        proof {
            // The four reads consume exactly the injected node, so the
            // tape is back where it started and the node word is on top.
            assert(self.advice.tape_spec() =~= tape0);
            assert(stage_b.len() == len0 + 4);
            assert forall|m: int| 0 <= m < len0 + 4 implies #[trigger] stage_b[m] == (if m < 4 {
                tape1[tape1.len() - 4 + m]
            } else {
                stage_a[m - 4]
            }) by {}
            assert forall|m: int| 0 <= m < 4 implies vals(stage_b)[m] == leaf[m] by {
                assert(vals(tape1) == vals(tape0) + leaf);
                assert(vals(tape0).len() == tape0.len());
                assert((vals(tape0) + leaf)[vals(tape0).len() + m] == leaf[m]);
                assert(vals(tape1)[tape1.len() - 4 + m] == leaf[m]);
            }
        }

        // Keep a copy of the node below the root.
        if let Err(e) = self.op_swap_word(4) {
            return Err(e);
        }
        if let Err(e) = self.op_dup(7) {
            return Err(e);
        }
        if let Err(e) = self.op_dup(7) {
            return Err(e);
        }
        if let Err(e) = self.op_dup(7) {
            return Err(e);
        }
        if let Err(e) = self.op_dup(7) {
            return Err(e);
        }

        // Bring the depth and index back to the top.
        if let Err(e) = self.op_movup(13) {
            return Err(e);
        }
        if let Err(e) = self.op_movup(13) {
            return Err(e);
        }
        let ghost stage_c = self.stack.felts();
        proof {
            assert(stage_c.len() == len0 + 8);
            assert forall|m: int| 0 <= m < len0 + 8 implies #[trigger] stage_c[m] == (if m == 0 {
                pre[0]
            } else if m == 1 {
                pre[1]
            } else if 2 <= m < 6 {
                stage_b[m - 2]
            } else if 6 <= m < 10 {
                pre[m - 4]
            } else if 10 <= m < 14 {
                stage_b[m - 10]
            } else {
                pre[m - 8]
            }) by {}
            assert(vals(stage_c.subrange(2, 6)) =~= leaf);
            assert(vals(stage_c.subrange(6, 10)) =~= root);
        }

        // Recompute a root from the node along the tree's sibling path.
        if let Err(e) = self.op_mpverify() {
            return Err(e);
        }
        let ghost stage_m = self.stack.felts();
        proof {
            crate::merkle::lemma_tree_authentication(&t, ix);
            assert(vals(stage_m.subrange(2, 6)) == t.root_val());
            assert(stage_m.len() == len0 + 8);
            assert forall|m: int| 0 <= m < len0 + 8 && !(2 <= m < 6) implies #[trigger] stage_m[
                m
            ] == stage_c[m] by {}
        }

        // Drop the depth and index.
        if let Err(e) = self.op_drop() {
            return Err(e);
        }
        if let Err(e) = self.op_drop() {
            return Err(e);
        }
        let ghost stage_d = self.stack.felts();
        proof {
            assert(stage_d.len() == len0 + 6);
            assert forall|m: int| 0 <= m < len0 + 6 implies #[trigger] stage_d[m] == stage_m[m
                + 2] by {}
            // The recomputed root leads, the committed one follows: the
            // same canonical values, hence the same elements.
            assert forall|m: int| 0 <= m < 4 implies #[trigger] stage_d[m] == stage_d[m
                + 4] by {
                assert(stage_d[m] == stage_m[m + 2]);
                assert(stage_d[m].value as int == vals(stage_m.subrange(2, 6))[m]);
                assert(stage_d[m].value as int == root[m]);
                assert(stage_d[m + 4] == stage_c[m + 6]);
                assert(stage_d[m + 4] == pre[m + 2]);
                assert(stage_d[m + 4].value as int == vals(pre.subrange(2, 6))[m]);
                assert(stage_d[m].value == stage_d[m + 4].value);
                assert(stage_d[m] == (Felt { value: stage_d[m].value }));
                assert(stage_d[m + 4] == (Felt { value: stage_d[m + 4].value }));
            }
            assert(stage_d.subrange(0, 4) =~= stage_d.subrange(4, 8));
        }

        // The recomputed root must equal the committed one.
        if let Err(e) = self.op_eqw() {
            return Err(e);
        }
        if let Err(e) = self.op_assert() {
            return Err(e);
        }
        proof {
            assert(self.stack.felts() =~= stage_d);
        }

        // Drop the recomputed root and leave the node on top of the root.
        if let Err(e) = self.op_drop() {
            return Err(e);
        }
        if let Err(e) = self.op_drop() {
            return Err(e);
        }
        if let Err(e) = self.op_drop() {
            return Err(e);
        }
        if let Err(e) = self.op_drop() {
            return Err(e);
        }
        if let Err(e) = self.op_swap_word(4) {
            return Err(e);
        }
        proof {
            let fin = self.stack.felts();
            assert(fin.len() == len0 + 2);
            assert forall|m: int| 0 <= m < len0 + 2 implies #[trigger] fin[m] == (if m < 4 {
                stage_d[m + 8]
            } else if 4 <= m < 8 {
                stage_d[m]
            } else {
                stage_d[m + 4]
            }) by {}
            assert(vals(fin.subrange(0, 4)) =~= leaf);
            assert(fin.subrange(4, 8) =~= pre.subrange(2, 6));
            assert(fin.skip(8) =~= pre.skip(6));
        }
        Ok(())
    }
}

impl Process {
    /// The composed law of the Merkle update instruction in move mode:
    /// executing the `mtree.set` expansion, operation by operation in its
    /// emitted order, on a stack `[depth, index, new_value, root, rest]`
    /// whose root commits a tracked tree, succeeds — the old root
    /// recomputed from the injected old node meets the committed one —
    /// and the stack ends as `[new_value, new_root, rest]`, with the new
    /// root committing the tree with that one leaf replaced. The updated
    /// tree takes the old one's place among the tracked trees, and the
    /// advice tape ends as it began. Two stack slots beyond the floor
    /// must be free, because the expansion returns two elements fewer
    /// than it consumes.
    #[verifier::rlimit(80)]
    pub fn mtree_set_transition(&mut self) -> (r: Result<(), ExecutionError>)
        requires
            old(self).wf(),
            old(self).stack.felts().len() >= MIN_STACK_DEPTH + 2,
            old(self).stack.clk_spec() + 40 < u64::MAX,
            ({
                let pre = old(self).stack.felts();
                let ti = tree_index_for(
                    old(self).advice.trees_spec(),
                    vals(pre.subrange(6, 10)),
                );
                &&& ti >= 0
                &&& pre[0].value == old(self).advice.trees_spec()[ti].depth_val()
                &&& pre[1].value < pow2(old(self).advice.trees_spec()[ti].depth_val())
            }),
        ensures
            final(self).wf(),
            r is Ok,
            final(self).advice.tape_spec() == old(self).advice.tape_spec(),
            final(self).stack.felts().len() == old(self).stack.felts().len() - 2,
            ({
                let pre = old(self).stack.felts();
                let ti = tree_index_for(
                    old(self).advice.trees_spec(),
                    vals(pre.subrange(6, 10)),
                );
                let t = old(self).advice.trees_spec()[ti];
                let ix = pre[1].value as int;
                let updated = final(self).advice.trees_spec()[ti];
                &&& final(self).advice.trees_spec() == old(self).advice.trees_spec().update(
                    ti,
                    updated,
                )
                &&& updated.wf()
                &&& updated.depth_val() == t.depth_val()
                &&& updated.leaves_vals() == t.leaves_vals().update(
                    ix,
                    vals(pre.subrange(2, 6)),
                )
                &&& final(self).stack.felts().subrange(0, 4) == pre.subrange(2, 6)
                &&& vals(final(self).stack.felts().subrange(4, 8)) == updated.root_val()
                &&& vals(final(self).stack.felts().subrange(4, 8)) == path_root(
                    vals(pre.subrange(2, 6)),
                    ix,
                    sibling_path(t.leaves_vals(), 0, t.depth_val(), ix),
                )
                &&& final(self).stack.felts().skip(8) == pre.skip(10)
            }),
    {
        let ghost pre = self.stack.felts();
        let ghost trees = self.advice.trees_spec();
        let ghost tape0 = self.advice.tape_spec();
        let ghost root = vals(pre.subrange(6, 10));
        let ghost ti = tree_index_for(trees, root);
        let ghost t = trees[ti];
        let ghost ix = pre[1].value as int;
        let ghost leaf = t.leaves_vals()[ix];
        let ghost len0 = pre.len() as int;
        proof {
            lemma_tree_index_bounds(trees, root);
            assert(t.wf());
            assert(t.root_val() == root);
            crate::merkle::lemma_tree_leaf_shape(&t);
            assert(leaf.len() == 4);
        }

        // Set the depth and index aside, and bring the root up for the
        // advice request.
        if let Err(e) = self.op_movdn(9) {
            return Err(e);
        }
        if let Err(e) = self.op_movdn(9) {
            return Err(e);
        }
        if let Err(e) = self.op_swap_word(4) {
            return Err(e);
        }
        if let Err(e) = self.op_movup(9) {
            return Err(e);
        }
        if let Err(e) = self.op_movup(9) {
            return Err(e);
        }
        let ghost stage_b = self.stack.felts();
        proof {
            assert(stage_b.len() == len0);
            assert forall|m: int| 0 <= m < len0 implies #[trigger] stage_b[m] == (if m == 0 {
                pre[0]
            } else if m == 1 {
                pre[1]
            } else if 2 <= m < 6 {
                pre[m + 4]
            } else if 6 <= m < 10 {
                pre[m - 4]
            } else {
                pre[m]
            }) by {}
            assert(vals(stage_b.subrange(2, 6)) =~= root);
        }

        // Ask the advice provider for the old node under the root.
        if let Err(e) = self.op_advice(AdviceInjector::MerkleNode) {
            return Err(e);
        }
        proof {
            assert(pow2(0) == 1) by {
                vstd::arithmetic::power2::lemma2_to64();
            }
            assert(ix * pow2(0) as int == ix) by (nonlinear_arith)
                requires
                    pow2(0) as int == 1,
            ;
            assert(crate::merkle::subtree_root(t.leaves_vals(), ix * pow2(0) as int, 0)
                == leaf);
        }
        let ghost tape1 = self.advice.tape_spec();

        // Copy the new value so it can stay on the stack.
        if let Err(e) = self.op_dup(9) {
            return Err(e);
        }
        if let Err(e) = self.op_dup(9) {
            return Err(e);
        }
        if let Err(e) = self.op_dup(9) {
            return Err(e);
        }
        if let Err(e) = self.op_dup(9) {
            return Err(e);
        }
        let ghost stage_c = self.stack.felts();
        proof {
            assert(stage_c.len() == len0 + 4);
            assert forall|m: int| 0 <= m < len0 + 4 implies #[trigger] stage_c[m] == (if m < 4 {
                pre[m + 2]
            } else {
                stage_b[m - 4]
            }) by {}
        }

        // Read the old node from the advice tape.
        if let Err(e) = self.op_read() {
            return Err(e);
        }
        if let Err(e) = self.op_read() {
            return Err(e);
        }
        if let Err(e) = self.op_read() {
            return Err(e);
        }
        if let Err(e) = self.op_read() {
            return Err(e);
        }
        let ghost stage_d = self.stack.felts();
        proof {
            assert(self.advice.tape_spec() =~= tape0);
            assert(stage_d.len() == len0 + 8);
            assert forall|m: int| 0 <= m < len0 + 8 implies #[trigger] stage_d[m] == (if m < 4 {
                tape1[tape1.len() - 4 + m]
            } else {
                stage_c[m - 4]
            }) by {}
            assert forall|m: int| 0 <= m < 4 implies vals(stage_d)[m] == leaf[m] by {
                assert(vals(tape1) == vals(tape0) + leaf);
                assert(vals(tape0).len() == tape0.len());
                assert((vals(tape0) + leaf)[vals(tape0).len() + m] == leaf[m]);
                assert(vals(tape1)[tape1.len() - 4 + m] == leaf[m]);
            }
        }

        // Bring the depth and index back to the top.
        if let Err(e) = self.op_movup(9) {
            return Err(e);
        }
        if let Err(e) = self.op_movup(9) {
            return Err(e);
        }
        let ghost stage_e = self.stack.felts();
        proof {
            assert(stage_e.len() == len0 + 8);
            assert forall|m: int| 0 <= m < len0 + 8 implies #[trigger] stage_e[m] == (if m == 0 {
                pre[0]
            } else if m == 1 {
                pre[1]
            } else if 2 <= m < 6 {
                stage_d[m - 2]
            } else if 6 <= m < 14 {
                pre[m - 4]
            } else if 14 <= m < 18 {
                pre[m - 12]
            } else {
                pre[m - 8]
            }) by {}
            assert(vals(stage_e.subrange(2, 6)) =~= leaf);
            assert(vals(stage_e.subrange(10, 14)) =~= root);
            assert(stage_e.subrange(6, 10) =~= pre.subrange(2, 6));
        }

        // Update the tree: the old node's root and the new root replace
        // the two node words.
        if let Err(e) = self.op_mrupdate(false) {
            return Err(e);
        }
        let ghost stage_f = self.stack.felts();
        let ghost updated = self.advice.trees_spec()[ti];
        proof {
            crate::merkle::lemma_tree_authentication(&t, ix);
            assert(vals(stage_f.subrange(2, 6)) == t.root_val());
            assert(vals(stage_f.subrange(6, 10)) == updated.root_val());
            assert(updated.leaves_vals() == t.leaves_vals().update(ix, vals(pre.subrange(2, 6))));
            crate::merkle::lemma_update_then_get(&t, &updated, ix, vals(pre.subrange(2, 6)));
            assert(stage_f.len() == len0 + 8);
            assert forall|m: int| 0 <= m < len0 + 8 && !(2 <= m < 10) implies #[trigger] stage_f[
                m
            ] == stage_e[m] by {}
        }

        // Drop the depth and index, reorder the roots, and check the
        // recomputed old root against the committed one.
        if let Err(e) = self.op_drop() {
            return Err(e);
        }
        if let Err(e) = self.op_drop() {
            return Err(e);
        }
        let ghost stage_g = self.stack.felts();
        proof {
            assert(stage_g.len() == len0 + 6);
            assert forall|m: int| 0 <= m < len0 + 6 implies #[trigger] stage_g[m] == stage_f[m
                + 2] by {}
        }
        if let Err(e) = self.op_swap_word(4) {
            return Err(e);
        }
        if let Err(e) = self.op_swap_word(8) {
            return Err(e);
        }
        let ghost stage_i = self.stack.felts();
        proof {
            assert(stage_i.len() == len0 + 6);
            assert forall|m: int| 0 <= m < len0 + 6 implies #[trigger] stage_i[m] == (if m < 4 {
                stage_g[m + 8]
            } else if 4 <= m < 12 {
                stage_g[m - 4]
            } else {
                stage_g[m]
            }) by {}
            // The committed root leads, the recomputed one follows: the
            // same canonical values, hence the same elements.
            assert forall|m: int| 0 <= m < 4 implies #[trigger] stage_i[m] == stage_i[m
                + 4] by {
                assert(stage_i[m] == stage_g[m + 8]);
                assert(stage_i[m] == stage_f[m + 10]);
                assert(stage_i[m] == stage_e[m + 10]);
                assert(stage_i[m] == pre[m + 6]);
                assert(stage_i[m].value as int == vals(pre.subrange(6, 10))[m]);
                assert(stage_i[m + 4] == stage_g[m]);
                assert(stage_i[m + 4].value as int == vals(stage_f.subrange(2, 6))[m]);
                assert(stage_i[m + 4].value as int == vals(stage_f.subrange(2, 6))[m]);
                assert(stage_i[m].value == stage_i[m + 4].value);
                assert(stage_i[m] == (Felt { value: stage_i[m].value }));
                assert(stage_i[m + 4] == (Felt { value: stage_i[m + 4].value }));
            }
            assert(stage_i.subrange(0, 4) =~= stage_i.subrange(4, 8));
        }
        if let Err(e) = self.op_eqw() {
            return Err(e);
        }
        if let Err(e) = self.op_assert() {
            return Err(e);
        }
        proof {
            assert(self.stack.felts() =~= stage_i);
        }
        if let Err(e) = self.op_drop() {
            return Err(e);
        }
        if let Err(e) = self.op_drop() {
            return Err(e);
        }
        if let Err(e) = self.op_drop() {
            return Err(e);
        }
        if let Err(e) = self.op_drop() {
            return Err(e);
        }

        // Drop the old root and leave the new value on top of the new
        // root.
        if let Err(e) = self.op_drop() {
            return Err(e);
        }
        if let Err(e) = self.op_drop() {
            return Err(e);
        }
        if let Err(e) = self.op_drop() {
            return Err(e);
        }
        if let Err(e) = self.op_drop() {
            return Err(e);
        }
        if let Err(e) = self.op_swap_word(4) {
            return Err(e);
        }
        proof {
            let fin = self.stack.felts();
            assert(fin.len() == len0 - 2);
            assert forall|m: int| 0 <= m < len0 - 2 implies #[trigger] fin[m] == (if m < 4 {
                stage_i[m + 12]
            } else if 4 <= m < 8 {
                stage_i[m + 4]
            } else {
                stage_i[m + 8]
            }) by {}
            assert(fin.subrange(0, 4) =~= pre.subrange(2, 6));
            assert forall|m: int| 0 <= m < 4 implies vals(fin.subrange(4, 8))[m]
                == updated.root_val()[m] by {
                assert(fin[m + 4] == stage_i[m + 8]);
                assert(stage_i[m + 8] == stage_g[m + 4]);
                assert(stage_g[m + 4] == stage_f[m + 6]);
                assert(vals(fin.subrange(4, 8))[m] == vals(stage_f.subrange(6, 10))[m]);
            }
            assert(vals(fin.subrange(4, 8)) =~= updated.root_val());
            assert(fin.skip(8) =~= pre.skip(10));
        }
        Ok(())
    }
}

impl Process {
    /// The composed law of the Merkle update instruction in copy mode:
    /// executing the `mtree.cwm` expansion, operation by operation in its
    /// emitted order, on a stack `[depth, index, new_value, root, rest]`
    /// whose root commits a tracked tree, succeeds and ends as
    /// `[new_value, new_root, old_root, rest]`: the new root commits the
    /// tree with that one leaf replaced, the old root stays on the
    /// stack, and the advice provider keeps both trees — the old one
    /// untouched, the updated one appended. The advice tape ends as it
    /// began.
    #[verifier::rlimit(80)]
    pub fn mtree_cwm_transition(&mut self) -> (r: Result<(), ExecutionError>)
        requires
            old(self).wf(),
            old(self).stack.clk_spec() + 40 < u64::MAX,
            ({
                let pre = old(self).stack.felts();
                let ti = tree_index_for(
                    old(self).advice.trees_spec(),
                    vals(pre.subrange(6, 10)),
                );
                &&& ti >= 0
                &&& pre[0].value == old(self).advice.trees_spec()[ti].depth_val()
                &&& pre[1].value < pow2(old(self).advice.trees_spec()[ti].depth_val())
            }),
        ensures
            final(self).wf(),
            r is Ok,
            final(self).advice.tape_spec() == old(self).advice.tape_spec(),
            final(self).stack.felts().len() == old(self).stack.felts().len() + 2,
            ({
                let pre = old(self).stack.felts();
                let ti = tree_index_for(
                    old(self).advice.trees_spec(),
                    vals(pre.subrange(6, 10)),
                );
                let t = old(self).advice.trees_spec()[ti];
                let ix = pre[1].value as int;
                let updated = final(self).advice.trees_spec().last();
                &&& final(self).advice.trees_spec() == old(self).advice.trees_spec().push(
                    updated,
                )
                &&& updated.wf()
                &&& updated.depth_val() == t.depth_val()
                &&& updated.leaves_vals() == t.leaves_vals().update(
                    ix,
                    vals(pre.subrange(2, 6)),
                )
                &&& final(self).stack.felts().subrange(0, 4) == pre.subrange(2, 6)
                &&& vals(final(self).stack.felts().subrange(4, 8)) == updated.root_val()
                &&& vals(final(self).stack.felts().subrange(4, 8)) == path_root(
                    vals(pre.subrange(2, 6)),
                    ix,
                    sibling_path(t.leaves_vals(), 0, t.depth_val(), ix),
                )
                &&& vals(final(self).stack.felts().subrange(8, 12)) == vals(pre.subrange(6, 10))
                &&& final(self).stack.felts().skip(12) == pre.skip(10)
            }),
    {
        let ghost pre = self.stack.felts();
        let ghost trees = self.advice.trees_spec();
        let ghost tape0 = self.advice.tape_spec();
        let ghost root = vals(pre.subrange(6, 10));
        let ghost ti = tree_index_for(trees, root);
        let ghost t = trees[ti];
        let ghost ix = pre[1].value as int;
        let ghost leaf = t.leaves_vals()[ix];
        let ghost len0 = pre.len() as int;
        proof {
            lemma_tree_index_bounds(trees, root);
            assert(t.wf());
            assert(t.root_val() == root);
            crate::merkle::lemma_tree_leaf_shape(&t);
            assert(leaf.len() == 4);
        }

        // Set the depth and index aside, and bring the root up for the
        // advice request.
        if let Err(e) = self.op_movdn(9) {
            return Err(e);
        }
        if let Err(e) = self.op_movdn(9) {
            return Err(e);
        }
        if let Err(e) = self.op_swap_word(4) {
            return Err(e);
        }
        if let Err(e) = self.op_movup(9) {
            return Err(e);
        }
        if let Err(e) = self.op_movup(9) {
            return Err(e);
        }
        let ghost stage_b = self.stack.felts();
        proof {
            assert(stage_b.len() == len0);
            assert forall|m: int| 0 <= m < len0 implies #[trigger] stage_b[m] == (if m == 0 {
                pre[0]
            } else if m == 1 {
                pre[1]
            } else if 2 <= m < 6 {
                pre[m + 4]
            } else if 6 <= m < 10 {
                pre[m - 4]
            } else {
                pre[m]
            }) by {}
            assert(vals(stage_b.subrange(2, 6)) =~= root);
        }

        // Ask the advice provider for the old node under the root.
        if let Err(e) = self.op_advice(AdviceInjector::MerkleNode) {
            return Err(e);
        }
        proof {
            assert(pow2(0) == 1) by {
                vstd::arithmetic::power2::lemma2_to64();
            }
            assert(ix * pow2(0) as int == ix) by (nonlinear_arith)
                requires
                    pow2(0) as int == 1,
            ;
            assert(crate::merkle::subtree_root(t.leaves_vals(), ix * pow2(0) as int, 0)
                == leaf);
        }
        let ghost tape1 = self.advice.tape_spec();

        // Copy the new value so it can stay on the stack.
        if let Err(e) = self.op_dup(9) {
            return Err(e);
        }
        if let Err(e) = self.op_dup(9) {
            return Err(e);
        }
        if let Err(e) = self.op_dup(9) {
            return Err(e);
        }
        if let Err(e) = self.op_dup(9) {
            return Err(e);
        }
        let ghost stage_c = self.stack.felts();
        proof {
            assert(stage_c.len() == len0 + 4);
            assert forall|m: int| 0 <= m < len0 + 4 implies #[trigger] stage_c[m] == (if m < 4 {
                pre[m + 2]
            } else {
                stage_b[m - 4]
            }) by {}
        }

        // Read the old node from the advice tape.
        if let Err(e) = self.op_read() {
            return Err(e);
        }
        if let Err(e) = self.op_read() {
            return Err(e);
        }
        if let Err(e) = self.op_read() {
            return Err(e);
        }
        if let Err(e) = self.op_read() {
            return Err(e);
        }
        let ghost stage_d = self.stack.felts();
        proof {
            assert(self.advice.tape_spec() =~= tape0);
            assert(stage_d.len() == len0 + 8);
            assert forall|m: int| 0 <= m < len0 + 8 implies #[trigger] stage_d[m] == (if m < 4 {
                tape1[tape1.len() - 4 + m]
            } else {
                stage_c[m - 4]
            }) by {}
            assert forall|m: int| 0 <= m < 4 implies vals(stage_d)[m] == leaf[m] by {
                assert(vals(tape1) == vals(tape0) + leaf);
                assert(vals(tape0).len() == tape0.len());
                assert((vals(tape0) + leaf)[vals(tape0).len() + m] == leaf[m]);
                assert(vals(tape1)[tape1.len() - 4 + m] == leaf[m]);
            }
        }

        // Bring the depth and index back to the top.
        if let Err(e) = self.op_movup(9) {
            return Err(e);
        }
        if let Err(e) = self.op_movup(9) {
            return Err(e);
        }
        let ghost stage_e = self.stack.felts();
        proof {
            assert(stage_e.len() == len0 + 8);
            assert forall|m: int| 0 <= m < len0 + 8 implies #[trigger] stage_e[m] == (if m == 0 {
                pre[0]
            } else if m == 1 {
                pre[1]
            } else if 2 <= m < 6 {
                stage_d[m - 2]
            } else if 6 <= m < 14 {
                pre[m - 4]
            } else if 14 <= m < 18 {
                pre[m - 12]
            } else {
                pre[m - 8]
            }) by {}
            assert(vals(stage_e.subrange(2, 6)) =~= leaf);
            assert(vals(stage_e.subrange(10, 14)) =~= root);
            assert(stage_e.subrange(6, 10) =~= pre.subrange(2, 6));
        }

        // Update the tree: the old node's root and the new root replace
        // the two node words.
        if let Err(e) = self.op_mrupdate(true) {
            return Err(e);
        }
        let ghost stage_f = self.stack.felts();
        let ghost updated = self.advice.trees_spec().last();
        proof {
            crate::merkle::lemma_tree_authentication(&t, ix);
            assert(vals(stage_f.subrange(2, 6)) == t.root_val());
            assert(vals(stage_f.subrange(6, 10)) == updated.root_val());
            assert(updated.leaves_vals() == t.leaves_vals().update(ix, vals(pre.subrange(2, 6))));
            crate::merkle::lemma_update_then_get(&t, &updated, ix, vals(pre.subrange(2, 6)));
            assert(stage_f.len() == len0 + 8);
            assert forall|m: int| 0 <= m < len0 + 8 && !(2 <= m < 10) implies #[trigger] stage_f[
                m
            ] == stage_e[m] by {}
        }

        // Drop the depth and index, reorder the roots, and check the
        // recomputed old root against the committed one.
        if let Err(e) = self.op_drop() {
            return Err(e);
        }
        if let Err(e) = self.op_drop() {
            return Err(e);
        }
        let ghost stage_g = self.stack.felts();
        proof {
            assert(stage_g.len() == len0 + 6);
            assert forall|m: int| 0 <= m < len0 + 6 implies #[trigger] stage_g[m] == stage_f[m
                + 2] by {}
        }
        if let Err(e) = self.op_swap_word(4) {
            return Err(e);
        }
        if let Err(e) = self.op_swap_word(8) {
            return Err(e);
        }
        let ghost stage_i = self.stack.felts();
        proof {
            assert(stage_i.len() == len0 + 6);
            assert forall|m: int| 0 <= m < len0 + 6 implies #[trigger] stage_i[m] == (if m < 4 {
                stage_g[m + 8]
            } else if 4 <= m < 12 {
                stage_g[m - 4]
            } else {
                stage_g[m]
            }) by {}
            // The committed root leads, the recomputed one follows: the
            // same canonical values, hence the same elements.
            assert forall|m: int| 0 <= m < 4 implies #[trigger] stage_i[m] == stage_i[m
                + 4] by {
                assert(stage_i[m] == stage_g[m + 8]);
                assert(stage_i[m] == stage_f[m + 10]);
                assert(stage_i[m] == stage_e[m + 10]);
                assert(stage_i[m] == pre[m + 6]);
                assert(stage_i[m].value as int == vals(pre.subrange(6, 10))[m]);
                assert(stage_i[m + 4] == stage_g[m]);
                assert(stage_i[m + 4].value as int == vals(stage_f.subrange(2, 6))[m]);
                assert(stage_i[m + 4].value as int == vals(stage_f.subrange(2, 6))[m]);
                assert(stage_i[m].value == stage_i[m + 4].value);
                assert(stage_i[m] == (Felt { value: stage_i[m].value }));
                assert(stage_i[m + 4] == (Felt { value: stage_i[m + 4].value }));
            }
            assert(stage_i.subrange(0, 4) =~= stage_i.subrange(4, 8));
        }
        if let Err(e) = self.op_eqw() {
            return Err(e);
        }
        if let Err(e) = self.op_assert() {
            return Err(e);
        }
        proof {
            assert(self.stack.felts() =~= stage_i);
        }
        if let Err(e) = self.op_drop() {
            return Err(e);
        }
        if let Err(e) = self.op_drop() {
            return Err(e);
        }
        if let Err(e) = self.op_drop() {
            return Err(e);
        }
        if let Err(e) = self.op_drop() {
            return Err(e);
        }

        // Bring the new value to the top; the old root stays below the
        // new one.
        if let Err(e) = self.op_swap_word(8) {
            return Err(e);
        }
        proof {
            let fin = self.stack.felts();
            assert(fin.len() == len0 + 2);
            assert forall|m: int| 0 <= m < len0 + 2 implies #[trigger] fin[m] == (if m < 4 {
                stage_i[m + 12]
            } else if 4 <= m < 8 {
                stage_i[m + 4]
            } else if 8 <= m < 12 {
                stage_i[m - 4]
            } else {
                stage_i[m + 4]
            }) by {}
            assert(fin.subrange(0, 4) =~= pre.subrange(2, 6));
            assert forall|m: int| 0 <= m < 4 implies vals(fin.subrange(4, 8))[m]
                == updated.root_val()[m] by {
                assert(fin[m + 4] == stage_i[m + 8]);
                assert(stage_i[m + 8] == stage_g[m + 4]);
                assert(stage_g[m + 4] == stage_f[m + 6]);
                assert(vals(fin.subrange(4, 8))[m] == vals(stage_f.subrange(6, 10))[m]);
            }
            assert(vals(fin.subrange(4, 8)) =~= updated.root_val());
            assert forall|m: int| 0 <= m < 4 implies vals(fin.subrange(8, 12))[m] == vals(
                pre.subrange(6, 10),
            )[m] by {
                assert(fin[m + 8] == stage_i[m + 4]);
                assert(stage_i[m + 4] == stage_g[m]);
                assert(vals(fin.subrange(8, 12))[m] == vals(stage_f.subrange(2, 6))[m]);
            }
            assert(vals(fin.subrange(8, 12)) =~= vals(pre.subrange(6, 10)));
            assert(fin.skip(12) =~= pre.skip(10));
        }
        Ok(())
    }
}

} // verus!
