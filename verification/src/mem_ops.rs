//! Expansion of the random-access-memory assembly instructions into
//! primitive operations. Each instruction takes its address either from
//! the stack or as an immediate parameter; an immediate address is
//! pushed (as `Pad` for address zero) right before the memory operation.
use vstd::prelude::*;
use crate::field::{fp, Felt};
use crate::operations::Operation;
use crate::token::{
    dec_val, is_dec_string, parse_element_param, strs_view, AssemblyError, Token,
};
use crate::utils::PushMany;

verus! {

/// The operation pushing an immediate memory address: `Pad` for zero,
/// `Push` otherwise.
pub open spec fn addr_ops(a: int) -> Seq<Operation> {
    if a == 0 {
        seq![Operation::Pad]
    } else {
        seq![Operation::Push(Felt { value: a as u64 })]
    }
}

/// True when the token's third part is a readable memory address: a
/// decimal run whose value fits 64 bits.
pub open spec fn addr_param_ok(op: &Token) -> bool {
    is_dec_string(op.parts_view()[2]) && dec_val(op.parts_view()[2]) <= u64::MAX
}

/// The address value of the token's third part, reduced into the field.
pub open spec fn addr_param_val(op: &Token) -> int {
    dec_val(op.parts_view()[2]) % fp()
}

/// True when the token has the two instruction parts and at most one
/// parameter.
pub open spec fn mem_shape_ok(op: &Token) -> bool {
    2 <= op.parts_view().len() <= 3
}

/// True when the token names the instruction `first.second`.
pub open spec fn mem_name_ok(op: &Token, first: Seq<char>, second: Seq<char>) -> bool {
    op.parts_view()[0] == first && op.parts_view()[1] == second
}

/// Reads the token's address parameter and appends the operation pushing
/// it onto the stack.
pub fn push_mem_addr(span_ops: &mut Vec<Operation>, op: &Token) -> (r: Result<(), AssemblyError>)
    requires
        op.parts_view().len() == 3,
        old(span_ops)@.len() + 1 <= usize::MAX,
    ensures
        r is Ok <==> addr_param_ok(op),
        r is Ok ==> final(span_ops)@ == old(span_ops)@ + addr_ops(addr_param_val(op)),
        r is Err ==> final(span_ops)@ == old(span_ops)@,
        r matches Err(e) ==> e matches AssemblyError::InvalidParam { op: o, pos, param_idx }
            && strs_view(o@) == op.parts_view() && pos == op.pos_spec() && param_idx == 2,
{
    let address = match parse_element_param(op, 2) {
        Ok(a) => a,
        Err(e) => {
            return Err(e);
        },
    };
    if address.as_int() == 0 {
        span_ops.push(Operation::Pad);
    } else {
        span_ops.push(Operation::Push(address));
    }
    proof {
        assert(span_ops@ =~= old(span_ops)@ + addr_ops(addr_param_val(op)));
    }
    Ok(())
}

/// Pushes the first element of the word at the addressed memory location
/// onto the stack: an immediate address (if any) is pushed, then the
/// element is loaded.
pub fn parse_push_mem(span_ops: &mut Vec<Operation>, op: &Token) -> (r: Result<
    (),
    AssemblyError,
>)
    requires
        op.wf(),
        old(span_ops)@.len() + 2 <= usize::MAX,
    ensures
        r is Ok <==> mem_shape_ok(op) && mem_name_ok(op, "push"@, "mem"@) && (op.parts_view().len()
            == 2 || addr_param_ok(op)),
        r is Ok ==> final(span_ops)@ == old(span_ops)@ + (if op.parts_view().len() == 3 {
            addr_ops(addr_param_val(op))
        } else {
            Seq::<Operation>::empty()
        }) + seq![Operation::MLoad],
        r is Err ==> final(span_ops)@ == old(span_ops)@,
        r matches Err(e) ==> (e matches AssemblyError::ExtraParam { op: o, pos } && strs_view(o@)
            == op.parts_view() && pos == op.pos_spec() && op.parts_view().len() > 3) || (
        e matches AssemblyError::InvalidOp { op: o, pos } && strs_view(o@) == op.parts_view()
            && pos == op.pos_spec() && (op.parts_view().len() < 2 || (mem_shape_ok(op)
            && !mem_name_ok(op, "push"@, "mem"@)))) || (e matches AssemblyError::InvalidParam {
            op: o,
            pos,
            param_idx,
        } && strs_view(o@) == op.parts_view() && pos == op.pos_spec() && param_idx == 2
            && mem_shape_ok(op) && mem_name_ok(op, "push"@, "mem"@) && !addr_param_ok(op)),
{
    if let Err(e) = validate_mem_op(op, "push", "mem") {
        return Err(e);
    }
    if op.num_parts() == 3 {
        if let Err(e) = push_mem_addr(span_ops, op) {
            return Err(e);
        }
    }
    span_ops.push(Operation::MLoad);
    proof {
        if op.parts_view().len() != 3 {
            assert(span_ops@ =~= old(span_ops)@ + Seq::<Operation>::empty() + seq![
                Operation::MLoad,
            ]);
        }
    }
    Ok(())
}

/// Pops the top element off the stack and stores it at the addressed
/// memory location: an immediate address (if any) is pushed, the element
/// is stored, and the stored element is dropped.
pub fn parse_pop_mem(span_ops: &mut Vec<Operation>, op: &Token) -> (r: Result<(), AssemblyError>)
    requires
        op.wf(),
        old(span_ops)@.len() + 3 <= usize::MAX,
    ensures
        r is Ok <==> mem_shape_ok(op) && mem_name_ok(op, "pop"@, "mem"@) && (op.parts_view().len()
            == 2 || addr_param_ok(op)),
        r is Ok ==> final(span_ops)@ == old(span_ops)@ + (if op.parts_view().len() == 3 {
            addr_ops(addr_param_val(op))
        } else {
            Seq::<Operation>::empty()
        }) + seq![Operation::MStore, Operation::Drop],
        r is Err ==> final(span_ops)@ == old(span_ops)@,
        r matches Err(e) ==> (e matches AssemblyError::ExtraParam { op: o, pos } && strs_view(o@)
            == op.parts_view() && pos == op.pos_spec() && op.parts_view().len() > 3) || (
        e matches AssemblyError::InvalidOp { op: o, pos } && strs_view(o@) == op.parts_view()
            && pos == op.pos_spec() && (op.parts_view().len() < 2 || (mem_shape_ok(op)
            && !mem_name_ok(op, "pop"@, "mem"@)))) || (e matches AssemblyError::InvalidParam {
            op: o,
            pos,
            param_idx,
        } && strs_view(o@) == op.parts_view() && pos == op.pos_spec() && param_idx == 2
            && mem_shape_ok(op) && mem_name_ok(op, "pop"@, "mem"@) && !addr_param_ok(op)),
{
    if let Err(e) = validate_mem_op(op, "pop", "mem") {
        return Err(e);
    }
    if op.num_parts() == 3 {
        if let Err(e) = push_mem_addr(span_ops, op) {
            return Err(e);
        }
    }
    span_ops.push(Operation::MStore);
    span_ops.push(Operation::Drop);
    proof {
        if op.parts_view().len() == 3 {
            assert(span_ops@ =~= old(span_ops)@ + addr_ops(addr_param_val(op)) + seq![
                Operation::MStore,
                Operation::Drop,
            ]);
        } else {
            assert(span_ops@ =~= old(span_ops)@ + Seq::<Operation>::empty() + seq![
                Operation::MStore,
                Operation::Drop,
            ]);
        }
    }
    Ok(())
}

/// Translates the word-reading memory instructions to the word-load
/// operation. When the top of the stack is not overwritten, four pads
/// first make room for the new word and the address (immediate, or moved
/// up from under the pads) ends on top; the word-load then replaces the
/// top word with the addressed word. Only the parameter count is
/// validated here; the caller has already dispatched on the instruction
/// name.
pub fn parse_read_mem(span_ops: &mut Vec<Operation>, op: &Token, overwrite_stack_top: bool) -> (r:
    Result<(), AssemblyError>)
    requires
        op.wf(),
        old(span_ops)@.len() + 6 <= usize::MAX,
    ensures
        r is Ok <==> mem_shape_ok(op) && (op.parts_view().len() == 2 || addr_param_ok(op)),
        r is Ok ==> final(span_ops)@ == old(span_ops)@ + (if !overwrite_stack_top {
            seq![Operation::Pad, Operation::Pad, Operation::Pad, Operation::Pad] + (if op.parts_view().len() == 2 {
                seq![Operation::MovUp4]
            } else {
                addr_ops(addr_param_val(op))
            })
        } else if op.parts_view().len() == 3 {
            addr_ops(addr_param_val(op))
        } else {
            Seq::<Operation>::empty()
        }) + seq![Operation::MLoadW],
        r is Err && (overwrite_stack_top || op.parts_view().len() != 3 || !mem_shape_ok(op)) ==>
            final(span_ops)@ == old(span_ops)@,
        r is Err && !(overwrite_stack_top || op.parts_view().len() != 3 || !mem_shape_ok(op))
            ==> final(span_ops)@ == old(span_ops)@ + seq![
            Operation::Pad,
            Operation::Pad,
            Operation::Pad,
            Operation::Pad,
        ],
        r matches Err(e) ==> (e matches AssemblyError::ExtraParam { op: o, pos } && strs_view(o@)
            == op.parts_view() && pos == op.pos_spec() && op.parts_view().len() > 3) || (
        e matches AssemblyError::InvalidOp { op: o, pos } && strs_view(o@) == op.parts_view()
            && pos == op.pos_spec() && op.parts_view().len() < 2) || (
        e matches AssemblyError::InvalidParam { op: o, pos, param_idx } && strs_view(o@)
            == op.parts_view() && pos == op.pos_spec() && param_idx == 2 && mem_shape_ok(op)
            && op.parts_view().len() == 3 && !addr_param_ok(op)),
{
    if let Err(e) = validate_mem_params(op) {
        return Err(e);
    }
    if !overwrite_stack_top {
        span_ops.push_many(Operation::Pad, 4);
        proof {
            assert(span_ops@ =~= old(span_ops)@ + seq![
                Operation::Pad,
                Operation::Pad,
                Operation::Pad,
                Operation::Pad,
            ]);
        }
        if op.num_parts() == 2 {
            span_ops.push(Operation::MovUp4);
        } else {
            if let Err(e) = push_mem_addr(span_ops, op) {
                return Err(e);
            }
        }
    } else if op.num_parts() == 3 {
        if let Err(e) = push_mem_addr(span_ops, op) {
            return Err(e);
        }
    }
    span_ops.push(Operation::MLoadW);
    proof {
        let pads = seq![Operation::Pad, Operation::Pad, Operation::Pad, Operation::Pad];
        if !overwrite_stack_top {
            if op.parts_view().len() == 2 {
                assert(span_ops@ =~= old(span_ops)@ + (pads + seq![Operation::MovUp4]) + seq![
                    Operation::MLoadW,
                ]);
            } else {
                assert(span_ops@ =~= old(span_ops)@ + (pads + addr_ops(addr_param_val(op)))
                    + seq![Operation::MLoadW]);
            }
        } else if op.parts_view().len() != 3 {
            assert(span_ops@ =~= old(span_ops)@ + Seq::<Operation>::empty() + seq![
                Operation::MLoadW,
            ]);
        }
    }
    Ok(())
}

/// Translates the word-writing memory instructions to the word-store
/// operation. An immediate address (if any) is pushed, the top word is
/// stored, and when the stack top is not retained the word is dropped.
/// Only the parameter count is validated here; the caller has already
/// dispatched on the instruction name.
pub fn parse_write_mem(span_ops: &mut Vec<Operation>, op: &Token, retain_stack_top: bool) -> (r:
    Result<(), AssemblyError>)
    requires
        op.wf(),
        old(span_ops)@.len() + 6 <= usize::MAX,
    ensures
        r is Ok <==> mem_shape_ok(op) && (op.parts_view().len() == 2 || addr_param_ok(op)),
        r is Ok ==> final(span_ops)@ == old(span_ops)@ + (if op.parts_view().len() == 3 {
            addr_ops(addr_param_val(op))
        } else {
            Seq::<Operation>::empty()
        }) + seq![Operation::MStoreW] + (if !retain_stack_top {
            seq![Operation::Drop, Operation::Drop, Operation::Drop, Operation::Drop]
        } else {
            Seq::<Operation>::empty()
        }),
        r is Err ==> final(span_ops)@ == old(span_ops)@,
        r matches Err(e) ==> (e matches AssemblyError::ExtraParam { op: o, pos } && strs_view(o@)
            == op.parts_view() && pos == op.pos_spec() && op.parts_view().len() > 3) || (
        e matches AssemblyError::InvalidOp { op: o, pos } && strs_view(o@) == op.parts_view()
            && pos == op.pos_spec() && op.parts_view().len() < 2) || (
        e matches AssemblyError::InvalidParam { op: o, pos, param_idx } && strs_view(o@)
            == op.parts_view() && pos == op.pos_spec() && param_idx == 2 && mem_shape_ok(op)
            && op.parts_view().len() == 3 && !addr_param_ok(op)),
{
    if let Err(e) = validate_mem_params(op) {
        return Err(e);
    }
    if op.num_parts() == 3 {
        if let Err(e) = push_mem_addr(span_ops, op) {
            return Err(e);
        }
    }
    span_ops.push(Operation::MStoreW);
    if !retain_stack_top {
        let ghost mid = span_ops@;
        span_ops.push_many(Operation::Drop, 4);
        proof {
            assert(span_ops@ =~= mid + seq![
                Operation::Drop,
                Operation::Drop,
                Operation::Drop,
                Operation::Drop,
            ]);
        }
    }
    proof {
        let stored = if op.parts_view().len() == 3 {
            addr_ops(addr_param_val(op))
        } else {
            Seq::<Operation>::empty()
        };
        let drops = if !retain_stack_top {
            seq![Operation::Drop, Operation::Drop, Operation::Drop, Operation::Drop]
        } else {
            Seq::<Operation>::empty()
        };
        assert(span_ops@ =~= old(span_ops)@ + stored + seq![Operation::MStoreW] + drops);
    }
    Ok(())
}

/// Checks a memory instruction's token: the two instruction parts must
/// match, and there may be at most one parameter.
fn validate_mem_op(op: &Token, first: &str, second: &str) -> (r: Result<(), AssemblyError>)
    requires
        op.wf(),
    ensures
        r is Ok <==> mem_shape_ok(op) && mem_name_ok(op, first@, second@),
        r matches Err(e) ==> (e matches AssemblyError::ExtraParam { op: o, pos } && strs_view(o@)
            == op.parts_view() && pos == op.pos_spec() && op.parts_view().len() > 3) || (
        e matches AssemblyError::InvalidOp { op: o, pos } && strs_view(o@) == op.parts_view()
            && pos == op.pos_spec() && (op.parts_view().len() < 2 || (mem_shape_ok(op)
            && !mem_name_ok(op, first@, second@)))),
{
    if let Err(e) = validate_mem_params(op) {
        return Err(e);
    }
    if !op.part_eq(0, first) || !op.part_eq(1, second) {
        return Err(AssemblyError::invalid_op(op));
    }
    Ok(())
}

/// Checks only the part count of a memory instruction's token: two
/// instruction parts and at most one parameter.
fn validate_mem_params(op: &Token) -> (r: Result<(), AssemblyError>)
    requires
        op.wf(),
    ensures
        r is Ok <==> mem_shape_ok(op),
        r matches Err(e) ==> (e matches AssemblyError::ExtraParam { op: o, pos } && strs_view(o@)
            == op.parts_view() && pos == op.pos_spec() && op.parts_view().len() > 3) || (
        e matches AssemblyError::InvalidOp { op: o, pos } && strs_view(o@) == op.parts_view()
            && pos == op.pos_spec() && op.parts_view().len() < 2),
{
    let n = op.num_parts();
    if n > 3 {
        return Err(AssemblyError::extra_param(op));
    }
    if n < 2 {
        return Err(AssemblyError::invalid_op(op));
    }
    Ok(())
}

} // verus!
