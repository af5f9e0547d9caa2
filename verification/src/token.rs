//! Assembly tokens and parsing errors. A token is one instruction of the
//! surface syntax, split on dots into its parts (`mtree.get` has the
//! parts `mtree` and `get`); the parsers validate the shape of a token
//! and report errors that carry the offending token.
use vstd::prelude::*;
use vstd::string::StrSliceExecFns;
use vstd::string::StringExecFns;
use crate::field::{fp, Felt};

verus! {

/// The parts of a string split on dots, accumulated left to right:
/// `cur` is the part being read and `acc` the parts already finished.
pub open spec fn split_rec(s: Seq<char>, cur: Seq<char>, acc: Seq<Seq<char>>) -> Seq<Seq<char>>
    decreases s.len(),
{
    if s.len() == 0 {
        acc.push(cur)
    } else if s[0] == '.' {
        split_rec(s.skip(1), Seq::empty(), acc.push(cur))
    } else {
        split_rec(s.skip(1), cur.push(s[0]), acc)
    }
}

/// The parts of a string split on dots. A string without dots is one
/// part; every dot ends a part, so a trailing dot yields an empty part.
pub open spec fn split_dots(s: Seq<char>) -> Seq<Seq<char>> {
    split_rec(s, Seq::empty(), Seq::empty())
}

/// The views of a sequence of strings.
pub open spec fn strs_view(parts: Seq<String>) -> Seq<Seq<char>> {
    parts.map_values(|p: String| p@)
}

/// Compares two string slices character by character.
pub fn str_eq(a: &str, b: &str) -> (r: bool)
    ensures
        r == (a@ == b@),
{
    let a_len = a.unicode_len();
    let b_len = b.unicode_len();
    if a_len != b_len {
        return false;
    }
    let mut i: usize = 0;
    while i < a_len
        invariant
            i <= a_len,
            a_len == a@.len(),
            a_len == b@.len(),
            forall|j: int| 0 <= j < i ==> a@[j] == b@[j],
        decreases a_len - i,
    {
        if a.get_char(i) != b.get_char(i) {
            return false;
        }
        i = i + 1;
    }
    proof {
        assert(a@ =~= b@);
    }
    true
}

/// A token of the assembly source: one instruction, with its parts and
/// its position in the token stream.
#[derive(Clone, Debug, PartialEq, Eq)]
pub struct Token {
    parts: Vec<String>,
    pos: usize,
}

impl Token {
    /// The views of this token's parts.
    pub closed spec fn parts_view(&self) -> Seq<Seq<char>> {
        strs_view(self.parts@)
    }

    /// The token's position in the token stream.
    pub closed spec fn pos_spec(&self) -> nat {
        self.pos as nat
    }

    /// A token always holds at least one part.
    pub open spec fn wf(&self) -> bool {
        self.parts_view().len() >= 1
    }

    /// Reads a token from the given string, splitting it on dots.
    pub fn new(token: &str, pos: usize) -> (r: Token)
        ensures
            r.parts_view() == split_dots(token@),
            r.pos_spec() == pos,
            r.wf(),
    {
        let len = token.unicode_len();
        let mut parts: Vec<String> = Vec::new();
        let mut cur = String::new();
        let mut i: usize = 0;
        proof {
            assert(token@.skip(0) =~= token@);
            assert(strs_view(parts@) =~= Seq::<Seq<char>>::empty());
        }
        while i < len
            invariant
                i <= len,
                len == token@.len(),
                split_rec(token@.skip(i as int), cur@, strs_view(parts@)) == split_dots(token@),
            decreases len - i,
        {
            let ghost prev_rest = token@.skip(i as int);
            let c = token.get_char(i);
            proof {
                assert(prev_rest[0] == token@[i as int]);
                assert(prev_rest.skip(1) =~= token@.skip(i as int + 1));
            }
            if c == '.' {
                let ghost old_parts = parts@;
                let ghost old_cur = cur@;
                parts.push(cur);
                cur = String::new();
                proof {
                    assert(strs_view(parts@) =~= strs_view(old_parts).push(old_cur));
                }
            } else {
                let one = token.substring_char(i, i + 1);
                proof {
                    assert(one@ =~= seq![token@[i as int]]);
                }
                let ghost old_cur = cur@;
                cur.append(one);
                proof {
                    assert(cur@ =~= old_cur.push(token@[i as int]));
                }
            }
            i = i + 1;
        }
        proof {
            assert(token@.skip(len as int) =~= Seq::<char>::empty());
        }
        let ghost old_parts = parts@;
        let ghost old_cur = cur@;
        parts.push(cur);
        let r = Token { parts, pos };
        proof {
            assert(r.parts_view() =~= strs_view(old_parts).push(old_cur));
        }
        r
    }

    /// The number of parts of this token.
    pub fn num_parts(&self) -> (r: usize)
        ensures
            r == self.parts_view().len(),
    {
        self.parts.len()
    }

    /// The parts of this token.
    pub fn parts(&self) -> (r: &Vec<String>)
        ensures
            strs_view(r@) == self.parts_view(),
    {
        &self.parts
    }

    /// True when the given part of this token equals the given string.
    pub fn part_eq(&self, idx: usize, expected: &str) -> (r: bool)
        requires
            idx < self.parts_view().len(),
        ensures
            r == (self.parts_view()[idx as int] == expected@),
    {
        str_eq(self.parts[idx].as_str(), expected)
    }
}

/// An error raised while parsing assembly source into operations. Every
/// variant carries the parts and position of the offending token.
#[derive(Clone, Debug, PartialEq, Eq)]
pub enum AssemblyError {
    /// The token is not the instruction the parser expected.
    UnexpectedToken { op: Vec<String>, pos: usize, expected: String },
    /// The token carries more parameters than the instruction takes.
    ExtraParam { op: Vec<String>, pos: usize },
    /// The token is not a valid form of the instruction.
    InvalidOp { op: Vec<String>, pos: usize },
    /// A parameter of the token cannot be read.
    InvalidParam { op: Vec<String>, pos: usize, param_idx: usize },
}

impl AssemblyError {
    /// An error for a token that is not the expected instruction.
    pub fn unexpected_token(op: &Token, expected: &str) -> (r: AssemblyError)
        ensures
            r matches AssemblyError::UnexpectedToken { op: o, pos, expected: e } && strs_view(o@)
                == op.parts_view() && pos == op.pos_spec() && e@ == expected@,
    {
        AssemblyError::UnexpectedToken {
            op: op.parts().clone(),
            pos: op.pos_usize(),
            expected: String::from_str(expected),
        }
    }

    /// An error for a token with too many parameters.
    pub fn extra_param(op: &Token) -> (r: AssemblyError)
        ensures
            r matches AssemblyError::ExtraParam { op: o, pos } && strs_view(o@)
                == op.parts_view() && pos == op.pos_spec(),
    {
        AssemblyError::ExtraParam { op: op.parts().clone(), pos: op.pos_usize() }
    }

    /// An error for a token that is no valid form of its instruction.
    pub fn invalid_op(op: &Token) -> (r: AssemblyError)
        ensures
            r matches AssemblyError::InvalidOp { op: o, pos } && strs_view(o@)
                == op.parts_view() && pos == op.pos_spec(),
    {
        AssemblyError::InvalidOp { op: op.parts().clone(), pos: op.pos_usize() }
    }

    /// An error for a parameter that cannot be read.
    pub fn invalid_param(op: &Token, param_idx: usize) -> (r: AssemblyError)
        ensures
            r matches AssemblyError::InvalidParam { op: o, pos, param_idx: i } && strs_view(o@)
                == op.parts_view() && pos == op.pos_spec() && i == param_idx,
    {
        AssemblyError::InvalidParam {
            op: op.parts().clone(),
            pos: op.pos_usize(),
            param_idx,
        }
    }
}

impl Token {
    /// The token's position as a machine integer.
    pub fn pos_usize(&self) -> (r: usize)
        ensures
            r == self.pos_spec(),
    {
        self.pos
    }
}

/// Checks the number of parts of a token against the instruction's part
/// count and its minimum and maximum number of parameters. Returns
/// `ExtraParam` when the token has too many parts and `InvalidOp` when it
/// has too few; accepts it otherwise.
pub fn validate_op_len(op: &Token, num_op_parts: usize, min_params: usize, max_params: usize) -> (r:
    Result<(), AssemblyError>)
    requires
        num_op_parts + max_params <= usize::MAX,
        num_op_parts + min_params <= usize::MAX,
    ensures
        r is Ok <==> num_op_parts + min_params <= op.parts_view().len() <= num_op_parts
            + max_params,
        r matches Err(e) ==> (e matches AssemblyError::ExtraParam { op: o, pos } && strs_view(o@)
            == op.parts_view() && pos == op.pos_spec() && op.parts_view().len() > num_op_parts
            + max_params) || (e matches AssemblyError::InvalidOp { op: o, pos } && strs_view(o@)
            == op.parts_view() && pos == op.pos_spec() && op.parts_view().len() < num_op_parts
            + min_params),
{
    let n = op.num_parts();
    if n > num_op_parts + max_params {
        Err(AssemblyError::extra_param(op))
    } else if n < num_op_parts + min_params {
        Err(AssemblyError::invalid_op(op))
    } else {
        Ok(())
    }
}

/// The numeric value of a decimal digit character, or a marker value for
/// a character that is no digit.
pub open spec fn digit_val(c: char) -> int {
    if '0' <= c <= '9' {
        c as int - '0' as int
    } else {
        -1
    }
}

/// True when the string is a non-empty run of decimal digits.
pub open spec fn is_dec_string(s: Seq<char>) -> bool {
    s.len() > 0 && forall|i: int| 0 <= i < s.len() ==> digit_val(#[trigger] s[i]) >= 0
}

/// The value of a decimal digit string, most significant digit first.
pub open spec fn dec_val(s: Seq<char>) -> int
    decreases s.len(),
{
    if s.len() == 0 {
        0
    } else {
        dec_val(s.take(s.len() - 1)) * 10 + digit_val(s[s.len() - 1])
    }
}

/// Reads the parameter at the given part index as a field element: the
/// part must be a run of decimal digits whose value fits a 64-bit
/// integer; the value is then reduced into the field. Returns
/// `InvalidParam` for the index otherwise.
pub fn parse_element_param(op: &Token, param_idx: usize) -> (r: Result<Felt, AssemblyError>)
    requires
        param_idx < op.parts_view().len(),
    ensures
        r matches Ok(f) ==> is_dec_string(op.parts_view()[param_idx as int]) && dec_val(
            op.parts_view()[param_idx as int],
        ) <= u64::MAX && f.value == dec_val(op.parts_view()[param_idx as int]) % fp()
            && f.valid(),
        r matches Err(e) ==> e matches AssemblyError::InvalidParam { op: o, pos, param_idx: i }
            && strs_view(o@) == op.parts_view() && pos == op.pos_spec() && i == param_idx && !(
        is_dec_string(op.parts_view()[param_idx as int]) && dec_val(
            op.parts_view()[param_idx as int],
        ) <= u64::MAX),
        r is Ok <==> is_dec_string(op.parts_view()[param_idx as int]) && dec_val(
            op.parts_view()[param_idx as int],
        ) <= u64::MAX,
{
    let parts = op.parts();
    let part = parts[param_idx].as_str();
    let ghost pv = op.parts_view()[param_idx as int];
    proof {
        assert(strs_view(parts@)[param_idx as int] == parts@[param_idx as int]@);
        assert(part@ == pv);
    }
    let len = part.unicode_len();
    if len == 0 {
        return Err(AssemblyError::invalid_param(op, param_idx));
    }
    let mut value: u64 = 0;
    let mut i: usize = 0;
    while i < len
        invariant
            i <= len,
            pv == op.parts_view()[param_idx as int],
            param_idx < op.parts_view().len(),
            len == pv.len(),
            part@ == pv,
            value == dec_val(pv.take(i as int)),
            is_dec_string(pv.take(i as int)) || i == 0,
            dec_val(pv.take(i as int)) <= u64::MAX,
        decreases len - i,
    {
        let c = part.get_char(i);
        let code = c as u32;
        if code < 48 || code > 57 {
            proof {
                assert(digit_val(pv[i as int]) < 0);
                assert(!is_dec_string(pv));
            }
            return Err(AssemblyError::invalid_param(op, param_idx));
        }
        let d = (code - 48) as u64;
        proof {
            assert(pv.take(i as int + 1).take(i as int) =~= pv.take(i as int));
            assert(pv.take(i as int + 1)[i as int] == pv[i as int]);
            assert(digit_val(pv[i as int]) == d);
            assert forall|j: int| 0 <= j < i + 1 implies digit_val(
                #[trigger] pv.take(i as int + 1)[j],
            ) >= 0 by {
                if j < i {
                    assert(pv.take(i as int + 1)[j] == pv.take(i as int)[j]);
                    assert(digit_val(pv.take(i as int)[j]) >= 0);
                }
            }
            assert(is_dec_string(pv.take(i as int + 1)));
        }
        if value > (u64::MAX - d) / 10 {
            proof {
                // Ten times the running value plus the digit would pass the
                // 64-bit bound.
                assert(dec_val(pv.take(i as int + 1)) == value * 10 + d);
                assert(value * 10 + d > u64::MAX) by (nonlinear_arith)
                    requires
                        value > (u64::MAX - d) / 10,
                        0 <= d <= 9,
                ;
                lemma_dec_val_monotone(pv, i as int + 1);
                assert(dec_val(pv) > u64::MAX || !is_dec_string(pv));
            }
            return Err(AssemblyError::invalid_param(op, param_idx));
        }
        proof {
            assert(value * 10 + d <= u64::MAX) by (nonlinear_arith)
                requires
                    value <= (u64::MAX - d) / 10,
                    0 <= d <= 9,
            ;
            assert(dec_val(pv.take(i as int + 1)) == value * 10 + d);
        }
        value = value * 10 + d;
        i = i + 1;
    }
    proof {
        assert(pv.take(len as int) =~= pv);
    }
    Ok(Felt::new(value))
}

/// A digit string's value only grows as digits are appended: once a
/// prefix passes the 64-bit bound, the whole string does.
proof fn lemma_dec_val_monotone(s: Seq<char>, k: int)
    requires
        0 < k <= s.len(),
        dec_val(s.take(k)) > u64::MAX,
    ensures
        dec_val(s) > u64::MAX || !is_dec_string(s),
    decreases s.len() - k,
{
    if k == s.len() {
        assert(s.take(k) =~= s);
    } else {
        assert(s.take(k + 1).take(k) =~= s.take(k));
        assert(s.take(k + 1)[k] == s[k]);
        assert(dec_val(s.take(k + 1)) == dec_val(s.take(k)) * 10 + digit_val(s[k]));
        assert(dec_val(s.take(k)) * 10 + digit_val(s[k]) > u64::MAX) by (nonlinear_arith)
            requires
                dec_val(s.take(k)) > u64::MAX,
                digit_val(s[k]) >= -1,
        ;
        lemma_dec_val_monotone(s, k + 1);
    }
}

} // verus!
