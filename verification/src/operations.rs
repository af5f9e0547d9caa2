//! The machine's operations: the closed set of primitive instructions a
//! span block may hold, each with its opcode, plus zero-cost annotation
//! variants (advice injectors) that never reach the opcode table.
use vstd::prelude::*;
use crate::field::Felt;

verus! {

/// Number of bits needed to encode an opcode.
pub const OP_BITS: usize = 7;

/// A request to the advice provider, injected ahead of an operation that
/// will read from the advice tape.
#[derive(Copy, Clone, Debug, Eq, PartialEq, Structural)]
pub enum AdviceInjector {
    /// Asks the advice provider to put the value of the Merkle tree node
    /// addressed by the stack onto the advice tape.
    MerkleNode,
}

/// An annotation attached to a code block rather than executed: it carries
/// no opcode and never advances the machine.
#[derive(Clone, Debug, Eq, PartialEq)]
pub enum Decorator {
    /// Marks the start of a procedure with the procedure's label.
    ProcMarker(String),
}

/// An operation of the machine.
#[derive(Copy, Clone, Debug, Eq, PartialEq, Structural)]
pub enum Operation {
    // ----- system operations ---------------------------------------------------------------
    /// Advances the cycle counter without changing the user stack.
    Noop,
    /// Pops the stack; if the popped value is not 1, execution fails.
    Assert,
    /// Pops an element, adds the `fmp` register to it, pushes the result.
    FmpAdd,
    /// Pops an element and adds it to the `fmp` register.
    FmpUpdate,
    // ----- flow control operations ---------------------------------------------------------
    /// Marks the beginning of a join block.
    Join,
    /// Marks the beginning of a split block.
    Split,
    /// Marks the beginning of a loop block.
    Loop,
    /// Marks the beginning of a span block.
    Span,
    /// Marks the end of a program block.
    End,
    /// Indicates that the body of an executing loop runs again.
    Repeat,
    /// Starts processing a new operation batch.
    Respan,
    /// Indicates the end of the program.
    Halt,
    // ----- field operations ----------------------------------------------------------------
    /// Pops two elements, adds them, pushes the result.
    Add,
    /// Pops an element, negates it, pushes the result.
    Neg,
    /// Pops two elements, multiplies them, pushes the result.
    Mul,
    /// Pops an element, computes its multiplicative inverse, pushes the
    /// result; fails on zero.
    Inv,
    /// Pops an element, adds one, pushes the result.
    Incr,
    /// Boolean AND of two binary elements; fails on non-binary input.
    And,
    /// Boolean OR of two binary elements; fails on non-binary input.
    Or,
    /// Boolean NOT of a binary element; fails on non-binary input.
    Not,
    /// Pops two elements and pushes 1 when they are equal, else 0.
    Eq,
    /// Pops an element and pushes 1 when it is zero, else 0.
    Eqz,
    /// Compares the top two words and pushes 1 when they are equal, else
    /// 0; the words stay on the stack.
    Eqw,
    /// One turn of binary accumulation for exponentiation by squaring.
    BinAcc,
    // ----- u32 operations ------------------------------------------------------------------
    /// Splits the top element into upper and lower 32-bit halves.
    U32split,
    /// 32-bit addition with carry split.
    U32add,
    /// Checks that the top two elements fit in 32 bits.
    U32assert2,
    /// 32-bit addition of three elements with carry split.
    U32add3,
    /// 32-bit subtraction with borrow flag.
    U32sub,
    /// 32-bit multiplication with high/low split.
    U32mul,
    /// 32-bit multiply-add with high/low split.
    U32madd,
    /// 32-bit division with quotient and remainder.
    U32div,
    /// Bitwise AND of two 32-bit values.
    U32and,
    /// Bitwise OR of two 32-bit values.
    U32or,
    /// Bitwise XOR of two 32-bit values.
    U32xor,
    // ----- stack manipulation --------------------------------------------------------------
    /// Pushes 0 onto the stack.
    Pad,
    /// Removes the top element from the stack.
    Drop,
    /// Pushes a copy of stack element 0.
    Dup0,
    /// Pushes a copy of stack element 1.
    Dup1,
    /// Pushes a copy of stack element 2.
    Dup2,
    /// Pushes a copy of stack element 3.
    Dup3,
    /// Pushes a copy of stack element 4.
    Dup4,
    /// Pushes a copy of stack element 5.
    Dup5,
    /// Pushes a copy of stack element 6.
    Dup6,
    /// Pushes a copy of stack element 7.
    Dup7,
    /// Pushes a copy of stack element 9.
    Dup9,
    /// Pushes a copy of stack element 11.
    Dup11,
    /// Pushes a copy of stack element 13.
    Dup13,
    /// Pushes a copy of stack element 15.
    Dup15,
    /// Swaps stack elements 0 and 1.
    Swap,
    /// Swaps the top word with the second word.
    SwapW,
    /// Swaps the top word with the third word.
    SwapW2,
    /// Swaps the top word with the fourth word.
    SwapW3,
    /// Swaps the top two words with the next two words.
    SwapDW,
    /// Moves stack element 2 to the top.
    MovUp2,
    /// Moves stack element 3 to the top.
    MovUp3,
    /// Moves stack element 4 to the top.
    MovUp4,
    /// Moves stack element 5 to the top.
    MovUp5,
    /// Moves stack element 6 to the top.
    MovUp6,
    /// Moves stack element 7 to the top.
    MovUp7,
    /// Moves stack element 8 to the top.
    MovUp8,
    /// Moves stack element 9 to the top.
    MovUp9,
    /// Moves stack element 13 to the top.
    MovUp13,
    /// Moves the top element to position 2.
    MovDn2,
    /// Moves the top element to position 3.
    MovDn3,
    /// Moves the top element to position 4.
    MovDn4,
    /// Moves the top element to position 5.
    MovDn5,
    /// Moves the top element to position 6.
    MovDn6,
    /// Moves the top element to position 7.
    MovDn7,
    /// Moves the top element to position 8.
    MovDn8,
    /// Moves the top element to position 9.
    MovDn9,
    /// Pops a binary element; swaps the next two elements when it is 1.
    CSwap,
    /// Pops a binary element; swaps the next two words when it is 1.
    CSwapW,
    // ----- input / output ------------------------------------------------------------------
    /// Pushes the immediate value onto the stack.
    Push(Felt),
    /// Removes the next element from the advice tape and pushes it.
    Read,
    /// Removes a word from the advice tape and overwrites the top word.
    ReadW,
    /// Pops a memory address and replaces the top word with the word at
    /// that address.
    MLoadW,
    /// Pops a memory address and writes the top word to it.
    MStoreW,
    /// Pops a memory address and pushes the first element of the word at
    /// that address.
    MLoad,
    /// Pops a memory address and writes the top element into the first
    /// element of the word at that address.
    MStore,
    /// Pushes the current stack depth onto the stack.
    SDepth,
    /// Injects a request onto the advice channel: an annotation that costs
    /// no cycle and carries no opcode.
    Advice(AdviceInjector),
    // ----- cryptographic operations --------------------------------------------------------
    /// Applies the sponge permutation to the top 12 stack elements; the
    /// rate sits on top and the capacity deepest.
    RpPerm,
    /// Computes the root of a Merkle path for the node addressed by the
    /// stack, using a path supplied by the advice provider.
    MpVerify,
    /// Computes the old and new roots of a Merkle tree in which the node
    /// at the addressed position changes to the given value. When the
    /// parameter is false the advice provider drops the old tree;
    /// otherwise it keeps both trees.
    MrUpdate(bool),
}

/// The opcode table: a collision-free assignment of a distinct code to
/// every executable operation. Annotation variants have no opcode.
pub open spec fn op_code_spec(op: Operation) -> int {
    match op {
        Operation::Noop => 0,
        Operation::Assert => 1,
        Operation::FmpAdd => 2,
        Operation::FmpUpdate => 3,
        Operation::Push(_) => 4,
        Operation::Eq => 0x49,
        Operation::Eqz => 5,
        Operation::Add => 0x48,
        Operation::Neg => 7,
        Operation::Mul => 0x4A,
        Operation::Inv => 8,
        Operation::Incr => 9,
        Operation::And => 0x4B,
        Operation::Or => 0x4C,
        Operation::Not => 11,
        Operation::Pad => 12,
        Operation::Drop => 13,
        Operation::Dup0 => 14,
        Operation::Dup1 => 15,
        Operation::Dup2 => 16,
        Operation::Dup3 => 17,
        Operation::Dup4 => 18,
        Operation::Dup5 => 19,
        Operation::Dup6 => 20,
        Operation::Dup7 => 21,
        Operation::Dup9 => 22,
        Operation::Dup11 => 23,
        Operation::Dup13 => 24,
        Operation::Dup15 => 25,
        Operation::Swap => 26,
        Operation::SwapW => 27,
        Operation::SwapW2 => 28,
        Operation::SwapW3 => 29,
        Operation::SwapDW => 30,
        Operation::MovUp2 => 31,
        Operation::MovUp3 => 32,
        Operation::MovUp4 => 33,
        Operation::MovUp5 => 34,
        Operation::MovUp6 => 35,
        Operation::MovUp7 => 36,
        Operation::MovUp8 => 37,
        Operation::MovUp9 => 38,
        Operation::MovUp13 => 39,
        Operation::MovDn2 => 40,
        Operation::MovDn3 => 41,
        Operation::MovDn4 => 42,
        Operation::MovDn5 => 43,
        Operation::MovDn6 => 44,
        Operation::MovDn7 => 45,
        Operation::MovDn8 => 46,
        Operation::MovDn9 => 47,
        Operation::Eqw => 48,
        Operation::BinAcc => 49,
        Operation::CSwap => 50,
        Operation::CSwapW => 51,
        Operation::U32add => 0x40,
        Operation::U32sub => 0x41,
        Operation::U32mul => 0x42,
        Operation::U32div => 0x43,
        Operation::U32add3 => 0x44,
        Operation::U32madd => 0x45,
        Operation::U32split => 0x46,
        Operation::U32assert2 => 0x47,
        Operation::U32and => 0x4D,
        Operation::U32or => 0x4E,
        Operation::U32xor => 0x4F,
        Operation::MLoadW => 52,
        Operation::MStoreW => 53,
        Operation::Read => 54,
        Operation::ReadW => 55,
        Operation::SDepth => 56,
        Operation::RpPerm => 57,
        Operation::MpVerify => 58,
        Operation::MrUpdate(_) => 59,
        Operation::End => 60,
        Operation::Join => 61,
        Operation::Split => 62,
        Operation::Loop => 63,
        Operation::Repeat => 80,
        Operation::Respan => 81,
        Operation::Span => 82,
        Operation::Halt => 83,
        Operation::MLoad => 84,
        Operation::MStore => 85,
        Operation::Advice(_) => 0,
    }
}

/// True of the variants that only annotate: they carry no opcode and the
/// machine spends no cycle on them.
pub open spec fn is_annotation_spec(op: Operation) -> bool {
    op is Advice
}

/// True of the flow-control operations.
pub open spec fn is_control_op_spec(op: Operation) -> bool {
    match op {
        Operation::End
        | Operation::Join
        | Operation::Split
        | Operation::Loop
        | Operation::Repeat
        | Operation::Respan
        | Operation::Span
        | Operation::Halt => true,
        _ => false,
    }
}

impl Operation {
    /// Returns the opcode of this operation. Annotation variants stay out
    /// of the opcode table, so they are excluded here.
    pub fn op_code(&self) -> (r: u8)
        requires
            !is_annotation_spec(*self),
        ensures
            r as int == op_code_spec(*self),
    {
        match self {
            Self::Noop => 0,
            Self::Assert => 1,
            Self::FmpAdd => 2,
            Self::FmpUpdate => 3,
            Self::Push(_) => 4,
            Self::Eq => 0x49,
            Self::Eqz => 5,
            Self::Add => 0x48,
            Self::Neg => 7,
            Self::Mul => 0x4A,
            Self::Inv => 8,
            Self::Incr => 9,
            Self::And => 0x4B,
            Self::Or => 0x4C,
            Self::Not => 11,
            Self::Pad => 12,
            Self::Drop => 13,
            Self::Dup0 => 14,
            Self::Dup1 => 15,
            Self::Dup2 => 16,
            Self::Dup3 => 17,
            Self::Dup4 => 18,
            Self::Dup5 => 19,
            Self::Dup6 => 20,
            Self::Dup7 => 21,
            Self::Dup9 => 22,
            Self::Dup11 => 23,
            Self::Dup13 => 24,
            Self::Dup15 => 25,
            Self::Swap => 26,
            Self::SwapW => 27,
            Self::SwapW2 => 28,
            Self::SwapW3 => 29,
            Self::SwapDW => 30,
            Self::MovUp2 => 31,
            Self::MovUp3 => 32,
            Self::MovUp4 => 33,
            Self::MovUp5 => 34,
            Self::MovUp6 => 35,
            Self::MovUp7 => 36,
            Self::MovUp8 => 37,
            Self::MovUp9 => 38,
            Self::MovUp13 => 39,
            Self::MovDn2 => 40,
            Self::MovDn3 => 41,
            Self::MovDn4 => 42,
            Self::MovDn5 => 43,
            Self::MovDn6 => 44,
            Self::MovDn7 => 45,
            Self::MovDn8 => 46,
            Self::MovDn9 => 47,
            Self::Eqw => 48,
            Self::BinAcc => 49,
            Self::CSwap => 50,
            Self::CSwapW => 51,
            Self::U32add => 0x40,
            Self::U32sub => 0x41,
            Self::U32mul => 0x42,
            Self::U32div => 0x43,
            Self::U32add3 => 0x44,
            Self::U32madd => 0x45,
            Self::U32split => 0x46,
            Self::U32assert2 => 0x47,
            Self::U32and => 0x4D,
            Self::U32or => 0x4E,
            Self::U32xor => 0x4F,
            Self::MLoadW => 52,
            Self::MStoreW => 53,
            Self::Read => 54,
            Self::ReadW => 55,
            Self::SDepth => 56,
            Self::RpPerm => 57,
            Self::MpVerify => 58,
            Self::MrUpdate(_) => 59,
            Self::End => 60,
            Self::Join => 61,
            Self::Split => 62,
            Self::Loop => 63,
            Self::Repeat => 80,
            Self::Respan => 81,
            Self::Span => 82,
            Self::Halt => 83,
            Self::MLoad => 84,
            Self::MStore => 85,
            Self::Advice(_) => 0,
        }
    }

    /// Returns the immediate value carried by this operation, if any.
    pub fn imm_value(&self) -> (r: Option<Felt>)
        ensures
            r == match *self {
                Operation::Push(imm) => Some(imm),
                _ => None::<Felt>,
            },
    {
        match self {
            Self::Push(imm) => Some(*imm),
            _ => None,
        }
    }

    /// Returns true if this operation is a flow-control operation.
    pub fn is_control_op(&self) -> (r: bool)
        ensures
            r == is_control_op_spec(*self),
    {
        match self {
            Self::End
            | Self::Join
            | Self::Split
            | Self::Loop
            | Self::Repeat
            | Self::Respan
            | Self::Span
            | Self::Halt => true,
            _ => false,
        }
    }

    /// Returns true if this operation is a zero-cost annotation rather
    /// than an executable operation.
    pub fn is_annotation(&self) -> (r: bool)
        ensures
            r == is_annotation_spec(*self),
    {
        match self {
            Self::Advice(_) => true,
            _ => false,
        }
    }
}

/// The surface-syntax name of an operation, for diagnostics. The name is
/// never hashed and never reaches the opcode table.
pub open spec fn op_name_spec(op: Operation) -> Seq<char> {
    match op {
        Operation::Noop => "noop"@,
        Operation::Assert => "assert"@,
        Operation::FmpAdd => "fmpadd"@,
        Operation::FmpUpdate => "fmpupdate"@,
        Operation::Join => "join"@,
        Operation::Split => "split"@,
        Operation::Loop => "loop"@,
        Operation::Repeat => "repeat"@,
        Operation::Span => "span"@,
        Operation::Respan => "respan"@,
        Operation::End => "end"@,
        Operation::Halt => "halt"@,
        Operation::Add => "add"@,
        Operation::Neg => "neg"@,
        Operation::Mul => "mul"@,
        Operation::Inv => "inv"@,
        Operation::Incr => "incr"@,
        Operation::And => "and"@,
        Operation::Or => "or"@,
        Operation::Not => "not"@,
        Operation::Eq => "eq"@,
        Operation::Eqz => "eqz"@,
        Operation::Eqw => "eqw"@,
        Operation::BinAcc => "binacc"@,
        Operation::U32assert2 => "u32assert2"@,
        Operation::U32split => "u32split"@,
        Operation::U32add => "u32add"@,
        Operation::U32add3 => "u32add3"@,
        Operation::U32sub => "u32sub"@,
        Operation::U32mul => "u32mul"@,
        Operation::U32madd => "u32madd"@,
        Operation::U32div => "u32div"@,
        Operation::U32and => "u32and"@,
        Operation::U32or => "u32or"@,
        Operation::U32xor => "u32xor"@,
        Operation::Drop => "drop"@,
        Operation::Pad => "pad"@,
        Operation::Dup0 => "dup0"@,
        Operation::Dup1 => "dup1"@,
        Operation::Dup2 => "dup2"@,
        Operation::Dup3 => "dup3"@,
        Operation::Dup4 => "dup4"@,
        Operation::Dup5 => "dup5"@,
        Operation::Dup6 => "dup6"@,
        Operation::Dup7 => "dup7"@,
        Operation::Dup9 => "dup9"@,
        Operation::Dup11 => "dup11"@,
        Operation::Dup13 => "dup13"@,
        Operation::Dup15 => "dup15"@,
        Operation::Swap => "swap"@,
        Operation::SwapW => "swapw"@,
        Operation::SwapW2 => "swapw2"@,
        Operation::SwapW3 => "swapw3"@,
        Operation::SwapDW => "swapdw"@,
        Operation::MovUp2 => "movup2"@,
        Operation::MovUp3 => "movup3"@,
        Operation::MovUp4 => "movup4"@,
        Operation::MovUp5 => "movup5"@,
        Operation::MovUp6 => "movup6"@,
        Operation::MovUp7 => "movup7"@,
        Operation::MovUp8 => "movup8"@,
        Operation::MovUp9 => "movup9"@,
        Operation::MovUp13 => "movup13"@,
        Operation::MovDn2 => "movdn2"@,
        Operation::MovDn3 => "movdn3"@,
        Operation::MovDn4 => "movdn4"@,
        Operation::MovDn5 => "movdn5"@,
        Operation::MovDn6 => "movdn6"@,
        Operation::MovDn7 => "movdn7"@,
        Operation::MovDn8 => "movdn8"@,
        Operation::MovDn9 => "movdn9"@,
        Operation::CSwap => "cswap"@,
        Operation::CSwapW => "cswapw"@,
        Operation::Read => "read"@,
        Operation::ReadW => "readw"@,
        Operation::MLoadW => "mloadw"@,
        Operation::MStoreW => "mstorew"@,
        Operation::MLoad => "mload"@,
        Operation::MStore => "mstore"@,
        Operation::SDepth => "sdepth"@,
        Operation::RpPerm => "rpperm"@,
        Operation::MpVerify => "mpverify"@,
        Operation::Push(_) => "push"@,
        Operation::Advice(_) => "advice"@,
        Operation::MrUpdate(copy) => if copy {
            "mrupdate(copy)"@
        } else {
            "mrupdate(move)"@
        },
    }
}

impl Operation {
    /// Returns the name this operation carries in the surface syntax.
    /// Diagnostics use the name; hashing and encoding never do. The name
    /// is static, so a push renders as the bare mnemonic: the immediate
    /// value is read through `imm_value`, not through the name.
    pub fn op_str(&self) -> (r: &'static str)
        ensures
            r@ == op_name_spec(*self),
    {
        match self {
            Self::Noop => {
                proof {
                    reveal_strlit("noop");
                }
                "noop"
            },
            Self::Assert => {
                proof {
                    reveal_strlit("assert");
                }
                "assert"
            },
            Self::FmpAdd => {
                proof {
                    reveal_strlit("fmpadd");
                }
                "fmpadd"
            },
            Self::FmpUpdate => {
                proof {
                    reveal_strlit("fmpupdate");
                }
                "fmpupdate"
            },
            Self::Join => {
                proof {
                    reveal_strlit("join");
                }
                "join"
            },
            Self::Split => {
                proof {
                    reveal_strlit("split");
                }
                "split"
            },
            Self::Loop => {
                proof {
                    reveal_strlit("loop");
                }
                "loop"
            },
            Self::Repeat => {
                proof {
                    reveal_strlit("repeat");
                }
                "repeat"
            },
            Self::Span => {
                proof {
                    reveal_strlit("span");
                }
                "span"
            },
            Self::Respan => {
                proof {
                    reveal_strlit("respan");
                }
                "respan"
            },
            Self::End => {
                proof {
                    reveal_strlit("end");
                }
                "end"
            },
            Self::Halt => {
                proof {
                    reveal_strlit("halt");
                }
                "halt"
            },
            Self::Add => {
                proof {
                    reveal_strlit("add");
                }
                "add"
            },
            Self::Neg => {
                proof {
                    reveal_strlit("neg");
                }
                "neg"
            },
            Self::Mul => {
                proof {
                    reveal_strlit("mul");
                }
                "mul"
            },
            Self::Inv => {
                proof {
                    reveal_strlit("inv");
                }
                "inv"
            },
            Self::Incr => {
                proof {
                    reveal_strlit("incr");
                }
                "incr"
            },
            Self::And => {
                proof {
                    reveal_strlit("and");
                }
                "and"
            },
            Self::Or => {
                proof {
                    reveal_strlit("or");
                }
                "or"
            },
            Self::Not => {
                proof {
                    reveal_strlit("not");
                }
                "not"
            },
            Self::Eq => {
                proof {
                    reveal_strlit("eq");
                }
                "eq"
            },
            Self::Eqz => {
                proof {
                    reveal_strlit("eqz");
                }
                "eqz"
            },
            Self::Eqw => {
                proof {
                    reveal_strlit("eqw");
                }
                "eqw"
            },
            Self::BinAcc => {
                proof {
                    reveal_strlit("binacc");
                }
                "binacc"
            },
            Self::U32assert2 => {
                proof {
                    reveal_strlit("u32assert2");
                }
                "u32assert2"
            },
            Self::U32split => {
                proof {
                    reveal_strlit("u32split");
                }
                "u32split"
            },
            Self::U32add => {
                proof {
                    reveal_strlit("u32add");
                }
                "u32add"
            },
            Self::U32add3 => {
                proof {
                    reveal_strlit("u32add3");
                }
                "u32add3"
            },
            Self::U32sub => {
                proof {
                    reveal_strlit("u32sub");
                }
                "u32sub"
            },
            Self::U32mul => {
                proof {
                    reveal_strlit("u32mul");
                }
                "u32mul"
            },
            Self::U32madd => {
                proof {
                    reveal_strlit("u32madd");
                }
                "u32madd"
            },
            Self::U32div => {
                proof {
                    reveal_strlit("u32div");
                }
                "u32div"
            },
            Self::U32and => {
                proof {
                    reveal_strlit("u32and");
                }
                "u32and"
            },
            Self::U32or => {
                proof {
                    reveal_strlit("u32or");
                }
                "u32or"
            },
            Self::U32xor => {
                proof {
                    reveal_strlit("u32xor");
                }
                "u32xor"
            },
            Self::Drop => {
                proof {
                    reveal_strlit("drop");
                }
                "drop"
            },
            Self::Pad => {
                proof {
                    reveal_strlit("pad");
                }
                "pad"
            },
            Self::Dup0 => {
                proof {
                    reveal_strlit("dup0");
                }
                "dup0"
            },
            Self::Dup1 => {
                proof {
                    reveal_strlit("dup1");
                }
                "dup1"
            },
            Self::Dup2 => {
                proof {
                    reveal_strlit("dup2");
                }
                "dup2"
            },
            Self::Dup3 => {
                proof {
                    reveal_strlit("dup3");
                }
                "dup3"
            },
            Self::Dup4 => {
                proof {
                    reveal_strlit("dup4");
                }
                "dup4"
            },
            Self::Dup5 => {
                proof {
                    reveal_strlit("dup5");
                }
                "dup5"
            },
            Self::Dup6 => {
                proof {
                    reveal_strlit("dup6");
                }
                "dup6"
            },
            Self::Dup7 => {
                proof {
                    reveal_strlit("dup7");
                }
                "dup7"
            },
            Self::Dup9 => {
                proof {
                    reveal_strlit("dup9");
                }
                "dup9"
            },
            Self::Dup11 => {
                proof {
                    reveal_strlit("dup11");
                }
                "dup11"
            },
            Self::Dup13 => {
                proof {
                    reveal_strlit("dup13");
                }
                "dup13"
            },
            Self::Dup15 => {
                proof {
                    reveal_strlit("dup15");
                }
                "dup15"
            },
            Self::Swap => {
                proof {
                    reveal_strlit("swap");
                }
                "swap"
            },
            Self::SwapW => {
                proof {
                    reveal_strlit("swapw");
                }
                "swapw"
            },
            Self::SwapW2 => {
                proof {
                    reveal_strlit("swapw2");
                }
                "swapw2"
            },
            Self::SwapW3 => {
                proof {
                    reveal_strlit("swapw3");
                }
                "swapw3"
            },
            Self::SwapDW => {
                proof {
                    reveal_strlit("swapdw");
                }
                "swapdw"
            },
            Self::MovUp2 => {
                proof {
                    reveal_strlit("movup2");
                }
                "movup2"
            },
            Self::MovUp3 => {
                proof {
                    reveal_strlit("movup3");
                }
                "movup3"
            },
            Self::MovUp4 => {
                proof {
                    reveal_strlit("movup4");
                }
                "movup4"
            },
            Self::MovUp5 => {
                proof {
                    reveal_strlit("movup5");
                }
                "movup5"
            },
            Self::MovUp6 => {
                proof {
                    reveal_strlit("movup6");
                }
                "movup6"
            },
            Self::MovUp7 => {
                proof {
                    reveal_strlit("movup7");
                }
                "movup7"
            },
            Self::MovUp8 => {
                proof {
                    reveal_strlit("movup8");
                }
                "movup8"
            },
            Self::MovUp9 => {
                proof {
                    reveal_strlit("movup9");
                }
                "movup9"
            },
            Self::MovUp13 => {
                proof {
                    reveal_strlit("movup13");
                }
                "movup13"
            },
            Self::MovDn2 => {
                proof {
                    reveal_strlit("movdn2");
                }
                "movdn2"
            },
            Self::MovDn3 => {
                proof {
                    reveal_strlit("movdn3");
                }
                "movdn3"
            },
            Self::MovDn4 => {
                proof {
                    reveal_strlit("movdn4");
                }
                "movdn4"
            },
            Self::MovDn5 => {
                proof {
                    reveal_strlit("movdn5");
                }
                "movdn5"
            },
            Self::MovDn6 => {
                proof {
                    reveal_strlit("movdn6");
                }
                "movdn6"
            },
            Self::MovDn7 => {
                proof {
                    reveal_strlit("movdn7");
                }
                "movdn7"
            },
            Self::MovDn8 => {
                proof {
                    reveal_strlit("movdn8");
                }
                "movdn8"
            },
            Self::MovDn9 => {
                proof {
                    reveal_strlit("movdn9");
                }
                "movdn9"
            },
            Self::CSwap => {
                proof {
                    reveal_strlit("cswap");
                }
                "cswap"
            },
            Self::CSwapW => {
                proof {
                    reveal_strlit("cswapw");
                }
                "cswapw"
            },
            Self::Read => {
                proof {
                    reveal_strlit("read");
                }
                "read"
            },
            Self::ReadW => {
                proof {
                    reveal_strlit("readw");
                }
                "readw"
            },
            Self::MLoadW => {
                proof {
                    reveal_strlit("mloadw");
                }
                "mloadw"
            },
            Self::MStoreW => {
                proof {
                    reveal_strlit("mstorew");
                }
                "mstorew"
            },
            Self::MLoad => {
                proof {
                    reveal_strlit("mload");
                }
                "mload"
            },
            Self::MStore => {
                proof {
                    reveal_strlit("mstore");
                }
                "mstore"
            },
            Self::SDepth => {
                proof {
                    reveal_strlit("sdepth");
                }
                "sdepth"
            },
            Self::RpPerm => {
                proof {
                    reveal_strlit("rpperm");
                }
                "rpperm"
            },
            Self::MpVerify => {
                proof {
                    reveal_strlit("mpverify");
                }
                "mpverify"
            },
            Self::Push(_) => {
                proof {
                    reveal_strlit("push");
                }
                "push"
            },
            Self::Advice(_) => {
                proof {
                    reveal_strlit("advice");
                }
                "advice"
            },
            Self::MrUpdate(copy) => {
                if *copy {
                    proof {
                        reveal_strlit("mrupdate(copy)");
                    }
                    "mrupdate(copy)"
                } else {
                    proof {
                        reveal_strlit("mrupdate(move)");
                    }
                    "mrupdate(move)"
                }
            },
        }
    }
}

} // verus!
