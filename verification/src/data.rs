//! The data types a host program exchanges with the core: stack inputs
//! and outputs, the script and proof file markers, and the program hash
//! parsed from its hexadecimal form. Reading and writing files is host
//! work; the parsing and conversion logic lives here.
use vstd::prelude::*;
use vstd::arithmetic::power2::pow2;
use crate::field::{all_valid, fp, Felt, FIELD_MODULUS};
use crate::hasher::Word;

verus! {

/// The stack inputs a program starts from.
#[derive(Clone, Debug, PartialEq, Eq)]
pub struct InputFile {
    /// The initial stack values, top of the stack last.
    pub stack_inputs: Vec<u64>,
}

/// The stack outputs a program run produced.
#[derive(Clone, Debug, PartialEq, Eq)]
pub struct OutputFile {
    /// The final stack values.
    pub outputs: Vec<u64>,
}

/// Marker for the assembly script a host reads and compiles.
#[derive(Clone, Debug)]
pub struct ScriptFile;

/// Marker for the proof bytes a host reads and writes.
#[derive(Clone, Debug)]
pub struct ProofFile;

/// The program hash, parsed from its hexadecimal form.
#[derive(Clone, Debug)]
pub struct ProgramHash;

impl InputFile {
    /// The inputs lifted into the field, in order, each value reduced.
    pub fn stack_elements(&self) -> (r: Vec<Felt>)
        ensures
            r@.len() == self.stack_inputs@.len(),
            forall|i: int| 0 <= i < r@.len() ==> (#[trigger] r@[i]).value == self.stack_inputs@[i]
                % FIELD_MODULUS && r@[i].valid(),
    {
        crate::utils::ToElements::to_elements(&self.stack_inputs)
    }
}

impl OutputFile {
    /// The outputs in reverse order, as the verifying side expects them.
    pub fn reversed(&self) -> (r: OutputFile)
        ensures
            r.outputs@ == self.outputs@.reverse(),
    {
        let mut outputs: Vec<u64> = Vec::new();
        let n = self.outputs.len();
        let mut i: usize = 0;
        while i < n
            invariant
                i <= n,
                n == self.outputs@.len(),
                outputs@.len() == i,
                forall|j: int| 0 <= j < i ==> #[trigger] outputs@[j] == self.outputs@[n - 1 - j],
            decreases n - i,
        {
            outputs.push(self.outputs[n - 1 - i]);
            i = i + 1;
        }
        proof {
            assert(outputs@ =~= self.outputs@.reverse());
        }
        OutputFile { outputs }
    }
}

// HEXADECIMAL PARSING
// ================================================================================================

/// The numeric value of a hexadecimal digit, or a marker value for a
/// character that is none.
pub open spec fn hex_digit_val(c: char) -> int {
    if '0' <= c <= '9' {
        c as int - '0' as int
    } else if 'a' <= c <= 'f' {
        c as int - 'a' as int + 10
    } else if 'A' <= c <= 'F' {
        c as int - 'A' as int + 10
    } else {
        -1
    }
}

/// True when the string is a run of hexadecimal digits of even length.
pub open spec fn is_hex_string(s: Seq<char>) -> bool {
    s.len() % 2 == 0 && forall|i: int| 0 <= i < s.len() ==> hex_digit_val(#[trigger] s[i]) >= 0
}

/// The bytes a hexadecimal string decodes to: two digits each.
pub open spec fn hex_bytes(s: Seq<char>) -> Seq<int> {
    Seq::new((s.len() / 2) as nat, |i: int| hex_digit_val(s[2 * i]) * 16 + hex_digit_val(
        s[2 * i + 1],
    ))
}

/// The byte values of a byte sequence.
pub open spec fn byte_vals(b: Seq<u8>) -> Seq<int> {
    b.map_values(|x: u8| x as int)
}

/// An error met while parsing a program hash from its hexadecimal form.
#[derive(Clone, Debug, PartialEq, Eq)]
pub enum HashParseError {
    /// The string holds a character that is no hexadecimal digit.
    InvalidHexCharacter(char, usize),
    /// The string's length is odd.
    OddLength,
    /// The decoded bytes do not hold a full digest.
    TooShort(usize),
}

/// Relies on the hex crate's decode, which works on the string's UTF-8
/// bytes: every pair of hexadecimal digit bytes becomes one byte, high
/// digit first; a byte string of odd length or with a byte that is no
/// hexadecimal digit is refused. Acceptance and the decoded bytes are
/// the same over characters, because only characters below 128 can be
/// hexadecimal digits; the refusal details (the offending character and
/// its position, or the odd length) are stated only for strings whose
/// characters all lie below 128, where bytes and characters coincide.
#[verifier::external_body]
fn hex_decode(s: &str) -> (r: Result<Vec<u8>, HashParseError>)
    ensures
        r is Ok <==> is_hex_string(s@),
        r matches Ok(v) ==> byte_vals(v@) == hex_bytes(s@),
        r matches Err(e) ==> e is InvalidHexCharacter || e is OddLength,
        r matches Err(e) ==> ((forall|i: int| 0 <= i < s@.len() ==> ((#[trigger] s@[i]) as int) < 128) ==> ((e matches HashParseError::InvalidHexCharacter(c, i) && i < s@.len()
            && s@[i as int] == c && hex_digit_val(c) < 0) || (e is OddLength && s@.len() % 2
            != 0))),
{
    match hex::decode(s) {
        Ok(v) => Ok(v),
        Err(hex::FromHexError::InvalidHexCharacter { c, index }) => Err(
            HashParseError::InvalidHexCharacter(c, index),
        ),
        Err(hex::FromHexError::OddLength) => Err(HashParseError::OddLength),
        Err(hex::FromHexError::InvalidStringLength) => Err(HashParseError::OddLength),
    }
}

/// The value of eight bytes read little-endian.
pub open spec fn le_u64_val(b: Seq<int>) -> int
    decreases b.len(),
{
    if b.len() == 0 {
        0
    } else {
        b[0] + 256 * le_u64_val(b.skip(1))
    }
}

/// A little-endian value of `n` bytes stays below two to the `8 n`.
proof fn lemma_le_u64_val_bound(b: Seq<int>)
    requires
        forall|i: int| 0 <= i < b.len() ==> 0 <= #[trigger] b[i] < 256,
    ensures
        0 <= le_u64_val(b) < pow2((8 * b.len()) as nat),
    decreases b.len(),
{
    vstd::arithmetic::power2::lemma_pow2_pos((8 * b.len()) as nat);
    if b.len() == 0 {
        assert(pow2(0) == 1) by {
            vstd::arithmetic::power2::lemma2_to64();
        }
    } else {
        lemma_le_u64_val_bound(b.skip(1));
        vstd::arithmetic::power2::lemma_pow2_adds(8, (8 * (b.len() - 1)) as nat);
        assert(pow2(8) == 256) by {
            vstd::arithmetic::power2::lemma2_to64();
        }
        let rest = le_u64_val(b.skip(1));
        let bound = pow2((8 * (b.len() - 1)) as nat) as int;
        assert(b[0] + 256 * rest < 256 * bound) by (nonlinear_arith)
            requires
                0 <= b[0] < 256,
                0 <= rest <= bound - 1,
        ;
        assert(256 * rest >= 0) by (nonlinear_arith)
            requires
                rest >= 0,
        ;
    }
}

/// Reads eight bytes little-endian as a machine integer.
fn u64_from_le(bytes: &Vec<u8>, offset: usize) -> (r: u64)
    requires
        offset + 8 <= bytes@.len(),
    ensures
        r as int == le_u64_val(byte_vals(bytes@.subrange(offset as int, offset as int + 8))),
{
    proof {
        assert(bytes.len() == bytes@.len());
    }
    let ghost window = byte_vals(bytes@.subrange(offset as int, offset as int + 8));
    let mut value: u64 = 0;
    let mut k: usize = 8;
    proof {
        assert(window.skip(8) =~= Seq::<int>::empty());
        assert(pow2(0) == 1) by {
            vstd::arithmetic::power2::lemma2_to64();
        }
    }
    while k > 0
        invariant
            k <= 8,
            offset + 8 <= bytes@.len(),
            bytes@.len() <= usize::MAX,
            window == byte_vals(bytes@.subrange(offset as int, offset as int + 8)),
            value as int == le_u64_val(window.skip(k as int)),
            value < pow2((8 * (8 - k)) as nat),
        decreases k,
    {
        proof {
            lemma_le_u64_val_bound_window(window, k as int);
            vstd::arithmetic::power2::lemma_pow2_adds(8, (8 * (8 - k)) as nat);
            assert(pow2(8) == 256) by {
                vstd::arithmetic::power2::lemma2_to64();
            }
            if 8 - k + 1 <= 8 {
                crate::merkle::lemma_pow2_le((8 * (8 - k + 1)) as nat, 64);
            }
            assert(pow2(64) == 0x1_0000_0000_0000_0000) by {
                vstd::arithmetic::power2::lemma2_to64_rest();
            }
            assert((value as int) * 256 + 255 < pow2((8 * (8 - k + 1)) as nat)) by (nonlinear_arith)
                requires
                    (value as int) < pow2((8 * (8 - k)) as nat),
                    pow2((8 * (8 - k + 1)) as nat) == 256 * pow2((8 * (8 - k)) as nat),
            ;
        }
        let b = bytes[offset + k - 1];
        value = value * 256 + b as u64;
        k = k - 1;
        proof {
            assert(window.skip(k as int)[0] == window[k as int]);
            assert(window.skip(k as int).skip(1) =~= window.skip(k as int + 1));
            assert(window[k as int] == bytes@[offset + k] as int);
            assert(value as int == window[k as int] + 256 * le_u64_val(window.skip(k as int + 1)));
        }
    }
    proof {
        assert(window.skip(0) =~= window);
    }
    value
}

/// The bytes of a window are byte-sized, so its little-endian tails are
/// bounded.
proof fn lemma_le_u64_val_bound_window(window: Seq<int>, k: int)
    requires
        0 <= k <= window.len(),
        forall|i: int| 0 <= i < window.len() ==> 0 <= #[trigger] window[i] < 256,
    ensures
        0 <= le_u64_val(window.skip(k)) < pow2((8 * (window.len() - k)) as nat),
{
    assert forall|i: int| 0 <= i < window.skip(k).len() implies 0 <= #[trigger] window.skip(k)[i]
        < 256 by {
        assert(window.skip(k)[i] == window[k + i]);
    }
    lemma_le_u64_val_bound(window.skip(k));
}

impl ProgramHash {
    /// Parses a program hash from its hexadecimal form: the string must
    /// decode to at least 32 bytes, and every group of eight bytes is
    /// read as a little-endian integer and reduced into the field.
    pub fn read(hash_hex_string: &String) -> (r: Result<Word, HashParseError>)
        ensures
            r is Ok <==> is_hex_string(hash_hex_string@) && hex_bytes(hash_hex_string@).len()
                >= 32,
            r matches Ok(w) ==> all_valid(w@) && forall|k: int| 0 <= k < 4 ==> (#[trigger] w@[
                k
            ]).value == le_u64_val(hex_bytes(hash_hex_string@).subrange(8 * k, 8 * k + 8)) % fp(),
            r matches Err(e) ==> (e is TooShort ==> is_hex_string(hash_hex_string@) && hex_bytes(
                hash_hex_string@,
            ).len() < 32) && (!(e is TooShort) ==> !is_hex_string(hash_hex_string@)),
    {
        let bytes = match hex_decode(hash_hex_string.as_str()) {
            Ok(b) => b,
            Err(e) => {
                return Err(e);
            },
        };
        if bytes.len() < 32 {
            return Err(HashParseError::TooShort(bytes.len()));
        }
        let e0 = Felt::new(u64_from_le(&bytes, 0));
        let e1 = Felt::new(u64_from_le(&bytes, 8));
        let e2 = Felt::new(u64_from_le(&bytes, 16));
        let e3 = Felt::new(u64_from_le(&bytes, 24));
        let w = [e0, e1, e2, e3];
        proof {
            assert forall|k: int| 0 <= k < 4 implies (#[trigger] w@[k]).value == le_u64_val(
                hex_bytes(hash_hex_string@).subrange(8 * k, 8 * k + 8),
            ) % fp() by {
                assert(byte_vals(bytes@.subrange(8 * k, 8 * k + 8)) =~= hex_bytes(
                    hash_hex_string@,
                ).subrange(8 * k, 8 * k + 8));
            }
        }
        Ok(w)
    }
}

} // verus!
