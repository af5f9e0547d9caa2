//! The program's control-flow blocks. A program is a tree of blocks;
//! every block carries a digest, computed once at construction and never
//! changed, that commits the whole subtree: a join or split block hashes
//! the merge of its children's digests, and a span block hashes the
//! encoding of its operations. Decorations added after construction
//! (procedure markers) never touch the digest.
use vstd::prelude::*;
use crate::field::{all_valid, vals, Felt};
use crate::hasher::{hash_elements, merge, rp_hashed, rp_merged, Word};
use crate::operations::{is_annotation_spec, op_code_spec, Decorator, Operation};

verus! {

/// A node of the program's control-flow tree.
#[derive(Debug)]
pub enum CodeBlock {
    /// Two blocks executed in sequence.
    Join(Join),
    /// Two branches, of which the top-of-stack boolean selects one.
    Split(Split),
    /// A straight line of primitive operations.
    Span(Span),
}

/// A code block combining two other code blocks, executed one after the
/// other. Its digest is the merge of the two children's digests.
#[derive(Debug)]
pub struct Join {
    first: Box<CodeBlock>,
    second: Box<CodeBlock>,
    hash: Word,
    proc_markers: Vec<Decorator>,
}

/// A code block describing conditional execution: the true branch runs
/// when the top of the stack is one, the false branch when it is zero,
/// and anything else fails the program. Its digest is the merge of the
/// two branches' digests.
#[derive(Debug)]
pub struct Split {
    on_true: Box<CodeBlock>,
    on_false: Box<CodeBlock>,
    hash: Word,
    proc_markers: Vec<Decorator>,
}

/// A straight-line code block holding a list of operations. Its digest
/// hashes the encoding of the operations: each executable operation's
/// opcode followed by its immediate value, if any; annotations are left
/// out.
#[derive(Debug)]
pub struct Span {
    ops: Vec<Operation>,
    hash: Word,
}

/// The field values encoding a list of operations for hashing: opcode,
/// then immediate value where one is carried; annotation variants do not
/// appear.
pub open spec fn span_encoding(ops: Seq<Operation>) -> Seq<int>
    decreases ops.len(),
{
    if ops.len() == 0 {
        Seq::empty()
    } else {
        let rest = span_encoding(ops.drop_last());
        let op = ops.last();
        if is_annotation_spec(op) {
            rest
        } else {
            match op {
                Operation::Push(imm) => rest + seq![op_code_spec(op), imm.value as int],
                _ => rest + seq![op_code_spec(op)],
            }
        }
    }
}

impl CodeBlock {
    /// The digest this block carries.
    pub closed spec fn hash_val(&self) -> Seq<int> {
        match self {
            CodeBlock::Join(j) => vals(j.hash@),
            CodeBlock::Split(s) => vals(s.hash@),
            CodeBlock::Span(s) => vals(s.hash@),
        }
    }

    /// A well-formed block: every digest in the tree is the hash its
    /// node's structure demands.
    pub closed spec fn wf(&self) -> bool
        decreases self,
    {
        match self {
            CodeBlock::Join(j) => {
                &&& all_valid(j.hash@)
                &&& j.first.wf()
                &&& j.second.wf()
                &&& vals(j.hash@) == rp_merged(j.first.hash_val(), j.second.hash_val())
            },
            CodeBlock::Split(s) => {
                &&& all_valid(s.hash@)
                &&& s.on_true.wf()
                &&& s.on_false.wf()
                &&& vals(s.hash@) == rp_merged(s.on_true.hash_val(), s.on_false.hash_val())
            },
            CodeBlock::Span(s) => {
                &&& all_valid(s.hash@)
                &&& all_valid_ops(s.ops@)
                &&& vals(s.hash@) == rp_hashed(span_encoding(s.ops@))
            },
        }
    }

    /// Returns the digest of this code block.
    pub fn hash(&self) -> (r: Word)
        requires
            self.wf(),
        ensures
            all_valid(r@),
            vals(r@) == self.hash_val(),
    {
        match self {
            CodeBlock::Join(j) => j.hash(),
            CodeBlock::Split(s) => s.hash(),
            CodeBlock::Span(s) => s.hash(),
        }
    }
}

/// Every immediate value carried by the operations is canonical.
pub open spec fn all_valid_ops(ops: Seq<Operation>) -> bool {
    forall|i: int| 0 <= i < ops.len() ==> match #[trigger] ops[i] {
        Operation::Push(imm) => imm.valid(),
        _ => true,
    }
}

impl Join {
    /// Returns a new join block of the two given blocks. The digest is
    /// computed here, once, as the merge of the children's digests.
    pub fn new(first: CodeBlock, second: CodeBlock) -> (r: Join)
        requires
            first.wf(),
            second.wf(),
        ensures
            CodeBlock::Join(r).wf(),
            r.hash_val() == rp_merged(first.hash_val(), second.hash_val()),
            r.first_spec() == first,
            r.second_spec() == second,
            r.proc_markers_spec() == Seq::<Decorator>::empty(),
    {
        let hash = merge(&[first.hash(), second.hash()]);
        Join {
            first: Box::new(first),
            second: Box::new(second),
            hash,
            proc_markers: Vec::new(),
        }
    }

    /// The digest this block carries.
    pub closed spec fn hash_val(&self) -> Seq<int> {
        vals(self.hash@)
    }

    /// The first child, as a specification value.
    pub closed spec fn first_spec(&self) -> CodeBlock {
        *self.first
    }

    /// The second child, as a specification value.
    pub closed spec fn second_spec(&self) -> CodeBlock {
        *self.second
    }

    /// The markers attached to this block, as a specification value.
    pub closed spec fn proc_markers_spec(&self) -> Seq<Decorator> {
        self.proc_markers@
    }

    /// Returns the digest of this block.
    pub fn hash(&self) -> (r: Word)
        requires
            CodeBlock::Join(*self).wf(),
        ensures
            all_valid(r@),
            vals(r@) == self.hash_val(),
    {
        self.hash
    }

    /// Returns the block executed first when this join block executes.
    pub fn first(&self) -> (r: &CodeBlock)
        ensures
            *r == self.first_spec(),
    {
        &self.first
    }

    /// Returns the block executed second when this join block executes.
    pub fn second(&self) -> (r: &CodeBlock)
        ensures
            *r == self.second_spec(),
    {
        &self.second
    }

    /// Returns the procedure markers attached to this block.
    pub fn proc_markers(&self) -> (r: &Vec<Decorator>)
        ensures
            r@ == self.proc_markers_spec(),
    {
        &self.proc_markers
    }

    /// Attaches a procedure marker to this block. The block's digest and
    /// children stay exactly as they were: markers never enter the hash.
    pub fn append_proc_marker(&mut self, proc_marker: Decorator)
        ensures
            final(self).hash_val() == old(self).hash_val(),
            final(self).first_spec() == old(self).first_spec(),
            final(self).second_spec() == old(self).second_spec(),
            final(self).proc_markers_spec() == old(self).proc_markers_spec().push(proc_marker),
            CodeBlock::Join(*old(self)).wf() ==> CodeBlock::Join(*final(self)).wf(),
    {
        self.proc_markers.push(proc_marker);
    }
}

impl Split {
    /// Returns a new split block with the given true and false branches.
    /// The digest is computed here, once, as the merge of the branches'
    /// digests.
    pub fn new(t_branch: CodeBlock, f_branch: CodeBlock) -> (r: Split)
        requires
            t_branch.wf(),
            f_branch.wf(),
        ensures
            CodeBlock::Split(r).wf(),
            r.hash_val() == rp_merged(t_branch.hash_val(), f_branch.hash_val()),
            r.on_true_spec() == t_branch,
            r.on_false_spec() == f_branch,
            r.proc_markers_spec() == Seq::<Decorator>::empty(),
    {
        let hash = merge(&[t_branch.hash(), f_branch.hash()]);
        Split {
            on_true: Box::new(t_branch),
            on_false: Box::new(f_branch),
            hash,
            proc_markers: Vec::new(),
        }
    }

    /// The digest this block carries.
    pub closed spec fn hash_val(&self) -> Seq<int> {
        vals(self.hash@)
    }

    /// The true branch, as a specification value.
    pub closed spec fn on_true_spec(&self) -> CodeBlock {
        *self.on_true
    }

    /// The false branch, as a specification value.
    pub closed spec fn on_false_spec(&self) -> CodeBlock {
        *self.on_false
    }

    /// The markers attached to this block, as a specification value.
    pub closed spec fn proc_markers_spec(&self) -> Seq<Decorator> {
        self.proc_markers@
    }

    /// Returns the digest of this block.
    pub fn hash(&self) -> (r: Word)
        requires
            CodeBlock::Split(*self).wf(),
        ensures
            all_valid(r@),
            vals(r@) == self.hash_val(),
    {
        self.hash
    }

    /// Returns the block executed when the top of the stack is one.
    pub fn on_true(&self) -> (r: &CodeBlock)
        ensures
            *r == self.on_true_spec(),
    {
        &self.on_true
    }

    /// Returns the block executed when the top of the stack is zero.
    pub fn on_false(&self) -> (r: &CodeBlock)
        ensures
            *r == self.on_false_spec(),
    {
        &self.on_false
    }

    /// Returns the procedure markers attached to this block.
    pub fn proc_markers(&self) -> (r: &Vec<Decorator>)
        ensures
            r@ == self.proc_markers_spec(),
    {
        &self.proc_markers
    }

    /// Attaches a procedure marker to this block. The block's digest and
    /// branches stay exactly as they were: markers never enter the hash.
    pub fn append_proc_marker(&mut self, proc_marker: Decorator)
        ensures
            final(self).hash_val() == old(self).hash_val(),
            final(self).on_true_spec() == old(self).on_true_spec(),
            final(self).on_false_spec() == old(self).on_false_spec(),
            final(self).proc_markers_spec() == old(self).proc_markers_spec().push(proc_marker),
            CodeBlock::Split(*old(self)).wf() ==> CodeBlock::Split(*final(self)).wf(),
    {
        self.proc_markers.push(proc_marker);
    }
}

impl Span {
    /// Returns a new span block with the given operations. The digest is
    /// computed here, once, as the hash of the operations' encoding.
    pub fn new(ops: Vec<Operation>) -> (r: Span)
        requires
            all_valid_ops(ops@),
        ensures
            CodeBlock::Span(r).wf(),
            r.hash_val() == rp_hashed(span_encoding(ops@)),
            r.ops_spec() == ops@,
    {
        let elements = encode_ops(&ops);
        let hash = hash_elements(elements.as_slice());
        Span { ops, hash }
    }

    /// The digest this block carries.
    pub closed spec fn hash_val(&self) -> Seq<int> {
        vals(self.hash@)
    }

    /// The operations of this block, as a specification value.
    pub closed spec fn ops_spec(&self) -> Seq<Operation> {
        self.ops@
    }

    /// Returns the digest of this block.
    pub fn hash(&self) -> (r: Word)
        requires
            CodeBlock::Span(*self).wf(),
        ensures
            all_valid(r@),
            vals(r@) == self.hash_val(),
    {
        self.hash
    }

    /// Returns the operations of this block.
    pub fn ops(&self) -> (r: &Vec<Operation>)
        ensures
            r@ == self.ops_spec(),
    {
        &self.ops
    }
}

/// Encodes a list of operations as field elements for hashing: opcode,
/// then immediate value where one is carried; annotations are skipped.
fn encode_ops(ops: &Vec<Operation>) -> (r: Vec<Felt>)
    requires
        all_valid_ops(ops@),
    ensures
        all_valid(r@),
        vals(r@) == span_encoding(ops@),
{
    let mut r: Vec<Felt> = Vec::new();
    let mut i: usize = 0;
    let n = ops.len();
    while i < n
        invariant
            i <= n,
            n == ops@.len(),
            all_valid_ops(ops@),
            all_valid(r@),
            vals(r@) == span_encoding(ops@.take(i as int)),
        decreases n - i,
    {
        let op = ops[i];
        proof {
            assert(ops@.take(i as int + 1).drop_last() =~= ops@.take(i as int));
            assert(ops@.take(i as int + 1).last() == ops@[i as int]);
        }
        if !op.is_annotation() {
            let code = op.op_code();
            let ghost before = r@;
            r.push(Felt { value: code as u64 });
            match op.imm_value() {
                Some(imm) => {
                    r.push(imm);
                    proof {
                        assert(vals(r@) =~= vals(before) + seq![
                            op_code_spec(ops@[i as int]),
                            imm.value as int,
                        ]);
                    }
                },
                None => {
                    proof {
                        assert(vals(r@) =~= vals(before) + seq![op_code_spec(ops@[i as int])]);
                    }
                },
            }
        }
        i = i + 1;
    }
    proof {
        assert(ops@.take(n as int) =~= ops@);
    }
    r
}

/// The digest of a join block depends only on its children's digests:
/// two join blocks whose children carry equal digests carry equal
/// digests themselves, whatever else differs between them.
pub proof fn lemma_join_hash_from_child_hashes(a: &Join, b: &Join)
    requires
        CodeBlock::Join(*a).wf(),
        CodeBlock::Join(*b).wf(),
        a.first_spec().hash_val() == b.first_spec().hash_val(),
        a.second_spec().hash_val() == b.second_spec().hash_val(),
    ensures
        a.hash_val() == b.hash_val(),
{
}

/// The digest of a split block depends only on its branches' digests.
pub proof fn lemma_split_hash_from_branch_hashes(a: &Split, b: &Split)
    requires
        CodeBlock::Split(*a).wf(),
        CodeBlock::Split(*b).wf(),
        a.on_true_spec().hash_val() == b.on_true_spec().hash_val(),
        a.on_false_spec().hash_val() == b.on_false_spec().hash_val(),
    ensures
        a.hash_val() == b.hash_val(),
{
}

} // verus!
