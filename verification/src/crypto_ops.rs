//! Expansion of the cryptographic assembly instructions into primitive
//! operations: the 2-to-1 hash (`rphash`), the raw sponge permutation
//! (`rpperm`), and the three Merkle-tree instructions (`mtree.get`,
//! `mtree.set`, `mtree.cwm`). Each expansion is a fixed operation
//! sequence; its contract states that sequence exactly. The expansions
//! keep one invariant throughout: the depth and index scalars are moved
//! out of the way before any word-sized shuffle and restored right before
//! the cryptographic primitive runs.
use vstd::prelude::*;
use crate::field::Felt;
use crate::operations::{AdviceInjector, Operation};
use crate::token::{validate_op_len, AssemblyError, Token};

verus! {

/// The number of elements hashed by the `rphash` instruction.
pub const RPHASH_NUM_ELEMENTS: u64 = 8;

/// The expansion of `rphash`: pad the capacity, push the element count,
/// permute, swap the result word down, and drop the scratch words.
pub open spec fn rphash_ops() -> Seq<Operation> {
    seq![
        Operation::Pad,
        Operation::Pad,
        Operation::Pad,
        Operation::Push(Felt { value: RPHASH_NUM_ELEMENTS }),
        Operation::RpPerm,
        Operation::SwapW2,
        Operation::Drop,
        Operation::Drop,
        Operation::Drop,
        Operation::Drop,
        Operation::Drop,
        Operation::Drop,
        Operation::Drop,
        Operation::Drop,
    ]
}

/// The expansion of `mtree.get`: request the node from the advice
/// channel, read it, keep a copy, verify its path against the committed
/// root, assert root equality, and leave node and root on the stack.
pub open spec fn mtree_get_ops() -> Seq<Operation> {
    seq![
        Operation::Advice(AdviceInjector::MerkleNode),
        Operation::MovDn5,
        Operation::MovDn5,
        Operation::Read,
        Operation::Read,
        Operation::Read,
        Operation::Read,
        Operation::SwapW,
        Operation::Dup7,
        Operation::Dup7,
        Operation::Dup7,
        Operation::Dup7,
        Operation::MovUp13,
        Operation::MovUp13,
        Operation::MpVerify,
        Operation::Drop,
        Operation::Drop,
    ] + validate_and_drop_root_ops() + seq![Operation::SwapW]
}

/// The stack preparation shared by the updating Merkle instructions:
/// set depth and index aside, bring the root up for the advice request,
/// copy the new value, read the old value from the advice tape, and
/// restore depth and index to the top.
pub open spec fn prep_stack_for_mrupdate_ops() -> Seq<Operation> {
    seq![
        Operation::MovDn9,
        Operation::MovDn9,
        Operation::SwapW,
        Operation::MovUp9,
        Operation::MovUp9,
        Operation::Advice(AdviceInjector::MerkleNode),
        Operation::Dup9,
        Operation::Dup9,
        Operation::Dup9,
        Operation::Dup9,
        Operation::Read,
        Operation::Read,
        Operation::Read,
        Operation::Read,
        Operation::MovUp9,
        Operation::MovUp9,
    ]
}

/// Asserting that the two root words on top of the stack are equal, then
/// dropping the duplicate.
pub open spec fn validate_and_drop_root_ops() -> Seq<Operation> {
    seq![
        Operation::Eqw,
        Operation::Assert,
        Operation::Drop,
        Operation::Drop,
        Operation::Drop,
        Operation::Drop,
    ]
}

/// Dropping depth and index, reordering the roots, and asserting that
/// the computed old root equals the committed one.
pub open spec fn validate_root_after_mrupdate_ops() -> Seq<Operation> {
    seq![Operation::Drop, Operation::Drop, Operation::SwapW, Operation::SwapW2]
        + validate_and_drop_root_ops()
}

/// The expansion of `mtree.set`: prepare the stack, update the tree
/// without keeping the old one, validate the computed old root, drop it,
/// and leave the new value on top of the new root.
pub open spec fn mtree_set_ops() -> Seq<Operation> {
    prep_stack_for_mrupdate_ops() + seq![Operation::MrUpdate(false)]
        + validate_root_after_mrupdate_ops() + seq![
        Operation::Drop,
        Operation::Drop,
        Operation::Drop,
        Operation::Drop,
        Operation::SwapW,
    ]
}

/// The expansion of `mtree.cwm`: as `mtree.set`, but the advice provider
/// keeps the old tree and its root stays on the stack below the new one.
pub open spec fn mtree_cwm_ops() -> Seq<Operation> {
    prep_stack_for_mrupdate_ops() + seq![Operation::MrUpdate(true)]
        + validate_root_after_mrupdate_ops() + seq![Operation::SwapW2]
}

/// Appends the operations computing a 2-to-1 hash of the two words on top
/// of the stack: pads and the element count fill the capacity, the
/// permutation runs, and the scratch words are dropped, leaving the
/// digest on top. Accepts exactly the bare `rphash` token.
pub fn parse_rphash(span_ops: &mut Vec<Operation>, op: &Token) -> (r: Result<(), AssemblyError>)
    requires
        op.wf(),
        old(span_ops)@.len() + 16 <= usize::MAX,
    ensures
        r is Ok <==> op.parts_view() == seq!["rphash"@],
        r is Ok ==> final(span_ops)@ == old(span_ops)@ + rphash_ops(),
        r is Err ==> final(span_ops)@ == old(span_ops)@,
        r matches Err(e) ==> (e matches AssemblyError::ExtraParam { op: o, pos }
            && op.parts_view().len() > 1 && crate::token::strs_view(o@) == op.parts_view() && pos
            == op.pos_spec()) || (e matches AssemblyError::UnexpectedToken { op: o, pos, expected }
            && op.parts_view().len() == 1 && op.parts_view()[0] != "rphash"@
            && crate::token::strs_view(o@) == op.parts_view() && pos == op.pos_spec() && expected@
            == "rphash"@),
{
    let valid = validate_op_len(op, 1, 0, 0);
    if let Err(e) = valid {
        return Err(e);
    }
    if !op.part_eq(0, "rphash") {
        return Err(AssemblyError::unexpected_token(op, "rphash"));
    }
    proof {
        assert(op.parts_view() =~= seq!["rphash"@]);
    }
    let ghost base = span_ops@;
    span_ops.push(Operation::Pad);
    span_ops.push(Operation::Pad);
    span_ops.push(Operation::Pad);
    span_ops.push(Operation::Push(Felt { value: RPHASH_NUM_ELEMENTS }));
    span_ops.push(Operation::RpPerm);
    span_ops.push(Operation::SwapW2);
    span_ops.push(Operation::Drop);
    span_ops.push(Operation::Drop);
    span_ops.push(Operation::Drop);
    span_ops.push(Operation::Drop);
    span_ops.push(Operation::Drop);
    span_ops.push(Operation::Drop);
    span_ops.push(Operation::Drop);
    span_ops.push(Operation::Drop);
    proof {
        assert(span_ops@ =~= base + rphash_ops());
    }
    Ok(())
}

/// Appends the operation permuting the sponge state held in the top 12
/// stack elements. Accepts exactly the bare `rpperm` token.
pub fn parse_rpperm(span_ops: &mut Vec<Operation>, op: &Token) -> (r: Result<(), AssemblyError>)
    requires
        op.wf(),
        old(span_ops)@.len() + 1 <= usize::MAX,
    ensures
        r is Ok <==> op.parts_view() == seq!["rpperm"@],
        r is Ok ==> final(span_ops)@ == old(span_ops)@.push(Operation::RpPerm),
        r is Err ==> final(span_ops)@ == old(span_ops)@,
        r matches Err(e) ==> (e matches AssemblyError::ExtraParam { op: o, pos }
            && op.parts_view().len() > 1 && crate::token::strs_view(o@) == op.parts_view() && pos
            == op.pos_spec()) || (e matches AssemblyError::UnexpectedToken { op: o, pos, expected }
            && op.parts_view().len() == 1 && op.parts_view()[0] != "rpperm"@
            && crate::token::strs_view(o@) == op.parts_view() && pos == op.pos_spec() && expected@
            == "rpperm"@),
{
    let valid = validate_op_len(op, 1, 0, 0);
    if let Err(e) = valid {
        return Err(e);
    }
    if !op.part_eq(0, "rpperm") {
        return Err(AssemblyError::unexpected_token(op, "rpperm"));
    }
    proof {
        assert(op.parts_view() =~= seq!["rpperm"@]);
    }
    span_ops.push(Operation::RpPerm);
    Ok(())
}

/// Parses the three Merkle-tree instructions and appends the expansion of
/// the requested variant:
/// - `mtree.get` proves that the tree with the committed root opens to a
///   node at the given depth and index, via the path-verify primitive;
/// - `mtree.set` updates a node, discarding the old tree from the advice
///   provider, via the root-update primitive in move mode;
/// - `mtree.cwm` updates a node while the advice provider keeps the old
///   tree, via the root-update primitive in copy mode.
pub fn parse_mtree(span_ops: &mut Vec<Operation>, op: &Token) -> (r: Result<(), AssemblyError>)
    requires
        op.wf(),
        old(span_ops)@.len() + 32 <= usize::MAX,
    ensures
        r is Ok <==> op.parts_view().len() == 2 && op.parts_view()[0] == "mtree"@ && (
        op.parts_view()[1] == "get"@ || op.parts_view()[1] == "set"@ || op.parts_view()[1]
            == "cwm"@),
        r is Ok ==> final(span_ops)@ == old(span_ops)@ + (if op.parts_view()[1] == "get"@ {
            mtree_get_ops()
        } else if op.parts_view()[1] == "set"@ {
            mtree_set_ops()
        } else {
            mtree_cwm_ops()
        }),
        r is Err ==> final(span_ops)@ == old(span_ops)@,
        r matches Err(e) ==> (e matches AssemblyError::ExtraParam { op: o, pos }
            && op.parts_view().len() > 2 && crate::token::strs_view(o@) == op.parts_view() && pos
            == op.pos_spec()) || (e matches AssemblyError::InvalidOp { op: o, pos }
            && op.parts_view().len() < 2 && crate::token::strs_view(o@) == op.parts_view() && pos
            == op.pos_spec()) || (e matches AssemblyError::UnexpectedToken { op: o, pos, expected }
            && op.parts_view().len() == 2 && op.parts_view()[0] != "mtree"@
            && crate::token::strs_view(o@) == op.parts_view() && pos == op.pos_spec() && expected@
            == "mtree.{get|set|cwm}"@) || (e matches AssemblyError::InvalidOp { op: o, pos }
            && op.parts_view().len() == 2 && op.parts_view()[0] == "mtree"@ && op.parts_view()[1]
            != "get"@ && op.parts_view()[1] != "set"@ && op.parts_view()[1] != "cwm"@
            && crate::token::strs_view(o@) == op.parts_view() && pos == op.pos_spec()),
{
    let valid = validate_op_len(op, 2, 0, 0);
    if let Err(e) = valid {
        return Err(e);
    }
    if !op.part_eq(0, "mtree") {
        return Err(AssemblyError::unexpected_token(op, "mtree.{get|set|cwm}"));
    }
    if op.part_eq(1, "get") {
        mtree_get(span_ops);
    } else if op.part_eq(1, "set") {
        mtree_set(span_ops);
    } else if op.part_eq(1, "cwm") {
        mtree_cwm(span_ops);
    } else {
        return Err(AssemblyError::invalid_op(op));
    }
    Ok(())
}

/// Appends the path-verify expansion: the advice channel is asked for the
/// node, the node is read and copied, depth and index return to the top,
/// the path-verify primitive computes a root from the node, and the
/// computed root must equal the committed one. The stack goes from
/// `[depth, index, root, ..]` to `[node, root, ..]`.
pub fn mtree_get(span_ops: &mut Vec<Operation>)
    requires
        old(span_ops)@.len() + mtree_get_ops().len() <= usize::MAX,
    ensures
        final(span_ops)@ == old(span_ops)@ + mtree_get_ops(),
{
    let ghost base = span_ops@;
    span_ops.push(Operation::Advice(AdviceInjector::MerkleNode));
    span_ops.push(Operation::MovDn5);
    span_ops.push(Operation::MovDn5);
    span_ops.push(Operation::Read);
    span_ops.push(Operation::Read);
    span_ops.push(Operation::Read);
    span_ops.push(Operation::Read);
    span_ops.push(Operation::SwapW);
    span_ops.push(Operation::Dup7);
    span_ops.push(Operation::Dup7);
    span_ops.push(Operation::Dup7);
    span_ops.push(Operation::Dup7);
    span_ops.push(Operation::MovUp13);
    span_ops.push(Operation::MovUp13);
    span_ops.push(Operation::MpVerify);
    span_ops.push(Operation::Drop);
    span_ops.push(Operation::Drop);
    validate_and_drop_root(span_ops);
    span_ops.push(Operation::SwapW);
    proof {
        assert(span_ops@ =~= base + mtree_get_ops());
    }
}

/// Appends the root-update expansion in move mode: the old tree leaves
/// the advice provider. The stack goes from `[depth, index, new, root,
/// ..]` to `[new, new_root, ..]`.
pub fn mtree_set(span_ops: &mut Vec<Operation>)
    requires
        old(span_ops)@.len() + mtree_set_ops().len() <= usize::MAX,
    ensures
        final(span_ops)@ == old(span_ops)@ + mtree_set_ops(),
{
    let ghost base = span_ops@;
    prep_stack_for_mrupdate(span_ops);
    span_ops.push(Operation::MrUpdate(false));
    validate_root_after_mrupdate(span_ops);
    span_ops.push(Operation::Drop);
    span_ops.push(Operation::Drop);
    span_ops.push(Operation::Drop);
    span_ops.push(Operation::Drop);
    span_ops.push(Operation::SwapW);
    proof {
        assert(span_ops@ =~= base + mtree_set_ops());
    }
}

/// Appends the root-update expansion in copy mode: the advice provider
/// keeps both trees. The stack goes from `[depth, index, new, root, ..]`
/// to `[new, new_root, old_root, ..]`.
pub fn mtree_cwm(span_ops: &mut Vec<Operation>)
    requires
        old(span_ops)@.len() + mtree_cwm_ops().len() <= usize::MAX,
    ensures
        final(span_ops)@ == old(span_ops)@ + mtree_cwm_ops(),
{
    let ghost base = span_ops@;
    prep_stack_for_mrupdate(span_ops);
    span_ops.push(Operation::MrUpdate(true));
    validate_root_after_mrupdate(span_ops);
    span_ops.push(Operation::SwapW2);
    proof {
        assert(span_ops@ =~= base + mtree_cwm_ops());
    }
}

/// Appends the operations asserting that the two root words on top of the
/// stack are equal and dropping the duplicate.
pub fn validate_and_drop_root(span_ops: &mut Vec<Operation>)
    requires
        old(span_ops)@.len() + validate_and_drop_root_ops().len() <= usize::MAX,
    ensures
        final(span_ops)@ == old(span_ops)@ + validate_and_drop_root_ops(),
{
    let ghost base = span_ops@;
    span_ops.push(Operation::Eqw);
    span_ops.push(Operation::Assert);
    span_ops.push(Operation::Drop);
    span_ops.push(Operation::Drop);
    span_ops.push(Operation::Drop);
    span_ops.push(Operation::Drop);
    proof {
        assert(span_ops@ =~= base + validate_and_drop_root_ops());
    }
}

/// Appends the stack preparation shared by the updating Merkle
/// instructions: the new value is copied so it can stay on the stack, the
/// old value is read from the advice tape, and the stack ends in the
/// order the root-update primitive expects.
pub fn prep_stack_for_mrupdate(span_ops: &mut Vec<Operation>)
    requires
        old(span_ops)@.len() + prep_stack_for_mrupdate_ops().len() <= usize::MAX,
    ensures
        final(span_ops)@ == old(span_ops)@ + prep_stack_for_mrupdate_ops(),
{
    let ghost base = span_ops@;
    span_ops.push(Operation::MovDn9);
    span_ops.push(Operation::MovDn9);
    span_ops.push(Operation::SwapW);
    span_ops.push(Operation::MovUp9);
    span_ops.push(Operation::MovUp9);
    span_ops.push(Operation::Advice(AdviceInjector::MerkleNode));
    span_ops.push(Operation::Dup9);
    span_ops.push(Operation::Dup9);
    span_ops.push(Operation::Dup9);
    span_ops.push(Operation::Dup9);
    span_ops.push(Operation::Read);
    span_ops.push(Operation::Read);
    span_ops.push(Operation::Read);
    span_ops.push(Operation::Read);
    span_ops.push(Operation::MovUp9);
    span_ops.push(Operation::MovUp9);
    proof {
        assert(span_ops@ =~= base + prep_stack_for_mrupdate_ops());
    }
}

/// Appends the operations dropping depth and index, reordering the
/// roots, and asserting that the computed old root equals the committed
/// one.
pub fn validate_root_after_mrupdate(span_ops: &mut Vec<Operation>)
    requires
        old(span_ops)@.len() + validate_root_after_mrupdate_ops().len() <= usize::MAX,
    ensures
        final(span_ops)@ == old(span_ops)@ + validate_root_after_mrupdate_ops(),
{
    let ghost base = span_ops@;
    span_ops.push(Operation::Drop);
    span_ops.push(Operation::Drop);
    span_ops.push(Operation::SwapW);
    span_ops.push(Operation::SwapW2);
    validate_and_drop_root(span_ops);
    proof {
        assert(span_ops@ =~= base + validate_root_after_mrupdate_ops());
    }
}

} // verus!
