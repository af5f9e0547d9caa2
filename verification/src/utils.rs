//! Small conversion helpers: lifting machine integers into field
//! elements, serializing a word to bytes, and bulk-pushing onto vectors.
use vstd::prelude::*;
use vstd::arithmetic::power2::pow2;
use crate::field::{Felt, FIELD_MODULUS};

verus! {

/// Conversion into a vector of field elements.
pub trait ToElements {
    /// Returns the field elements this value stands for.
    fn to_elements(&self) -> Vec<Felt>;
}

impl<const N: usize> ToElements for [u64; N] {
    /// Each integer reduced into the field, in order.
    fn to_elements(&self) -> (r: Vec<Felt>)
        ensures
            r@.len() == N,
            forall|i: int| 0 <= i < N ==> (#[trigger] r@[i]).value == self@[i] % FIELD_MODULUS
                && r@[i].valid(),
    {
        let mut r: Vec<Felt> = Vec::new();
        let mut i: usize = 0;
        while i < N
            invariant
                i <= N,
                r@.len() == i,
                forall|j: int| 0 <= j < i ==> (#[trigger] r@[j]).value == self@[j] % FIELD_MODULUS
                    && r@[j].valid(),
            decreases N - i,
        {
            r.push(Felt::new(self[i]));
            i = i + 1;
        }
        r
    }
}

impl ToElements for Vec<u64> {
    /// Each integer reduced into the field, in order.
    fn to_elements(&self) -> (r: Vec<Felt>)
        ensures
            r@.len() == self@.len(),
            forall|i: int| 0 <= i < self@.len() ==> (#[trigger] r@[i]).value == self@[i]
                % FIELD_MODULUS && r@[i].valid(),
    {
        let mut r: Vec<Felt> = Vec::new();
        let mut i: usize = 0;
        let n = self.len();
        while i < n
            invariant
                i <= n,
                n == self@.len(),
                r@.len() == i,
                forall|j: int| 0 <= j < i ==> (#[trigger] r@[j]).value == self@[j] % FIELD_MODULUS
                    && r@[j].valid(),
            decreases n - i,
        {
            r.push(Felt::new(self[i]));
            i = i + 1;
        }
        r
    }
}

/// The little-endian byte of a value at the given position.
pub open spec fn le_byte(v: int, j: nat) -> int {
    (v / pow2((8 * j) as nat) as int) % 256
}

/// Conversion of a value into a fixed-size byte array.
pub trait IntoBytes<const N: usize> {
    /// Returns the byte representation of this value.
    fn into_bytes(self) -> [u8; N];
}

impl IntoBytes<32> for [Felt; 4] {
    /// The four elements' canonical values, each as eight little-endian
    /// bytes, in order.
    fn into_bytes(self) -> (r: [u8; 32])
        ensures
            forall|b: int| 0 <= b < 32 ==> #[trigger] r@[b] == le_byte(
                self@[b / 8].value as int,
                (b % 8) as nat,
            ),
    {
        let mut r = [0u8; 32];
        let mut k: usize = 0;
        while k < 4
            invariant
                k <= 4,
                r@.len() == 32,
                forall|b: int| 0 <= b < k * 8 ==> #[trigger] r@[b] == le_byte(
                    self@[b / 8].value as int,
                    (b % 8) as nat,
                ),
            decreases 4 - k,
        {
            let mut v = self[k].as_int();
            let ghost v0 = v as int;
            let mut j: usize = 0;
            proof {
                assert(pow2(0) == 1) by {
                    vstd::arithmetic::power2::lemma2_to64();
                }
                vstd::arithmetic::div_mod::lemma_div_basics(v0);
            }
            while j < 8
                invariant
                    j <= 8,
                    k < 4,
                    r@.len() == 32,
                    v0 == self@[k as int].value,
                    v as int == v0 / pow2((8 * j) as nat) as int,
                    forall|b: int| 0 <= b < k * 8 + j ==> #[trigger] r@[b] == le_byte(
                        self@[b / 8].value as int,
                        (b % 8) as nat,
                    ),
                decreases 8 - j,
            {
                proof {
                    assert(pow2(0) == 1 && pow2(8) == 256) by {
                        vstd::arithmetic::power2::lemma2_to64();
                    }
                }
                r[k * 8 + j] = (v % 256) as u8;
                proof {
                    vstd::arithmetic::div_mod::lemma_fundamental_div_mod_converse(
                        k as int * 8 + j as int,
                        8,
                        k as int,
                        j as int,
                    );
                    assert((k as int * 8 + j as int) / 8 == k as int);
                    assert((k as int * 8 + j as int) % 8 == j as int);
                    vstd::arithmetic::power2::lemma_pow2_adds((8 * j) as nat, 8);
                    vstd::arithmetic::power2::lemma_pow2_pos((8 * j) as nat);
                    vstd::arithmetic::div_mod::lemma_div_denominator(
                        v0,
                        pow2((8 * j) as nat) as int,
                        256,
                    );
                }
                v = v / 256;
                j = j + 1;
            }
            k = k + 1;
        }
        r
    }
}

/// Pushing several copies of one value onto a vector.
pub trait PushMany<T>: View<V = Seq<T>> {
    /// Appends `n` copies of `value`; the result must stay addressable.
    fn push_many(&mut self, value: T, n: usize)
        requires
            old(self)@.len() + n <= usize::MAX,
    ;
}

impl<T: Copy> PushMany<T> for Vec<T> {
    /// Appends exactly `n` copies of `value`, leaving the rest unchanged.
    fn push_many(&mut self, value: T, n: usize)
        ensures
            final(self)@ == old(self)@ + Seq::new(n as nat, |i: int| value),
    {
        let mut i: usize = 0;
        proof {
            assert(self@ =~= old(self)@ + Seq::new(0, |j: int| value));
        }
        while i < n
            invariant
                i <= n,
                old(self)@.len() + n <= usize::MAX,
                self@ == old(self)@ + Seq::new(i as nat, |j: int| value),
            decreases n - i,
        {
            self.push(value);
            i = i + 1;
            proof {
                assert(self@ =~= old(self)@ + Seq::new(i as nat, |j: int| value));
            }
        }
    }
}

} // verus!
