//! Natural numbers of any size, for the exact powers that the step scale
//! compares.

use vstd::prelude::*;
use vstd::arithmetic::power::{lemma_pow0, lemma_pow_positive, pow};

verus! {

/// The base of the digits of a [`BigNat`].
pub open spec fn base() -> int {
    0x1_0000_0000
}

/// The number that a sequence of digits stands for, the least digit first.
pub open spec fn limbs_value(limbs: Seq<u32>) -> int
    decreases limbs.len(),
{
    if limbs.len() == 0 {
        0
    } else {
        limbs_value(limbs.drop_last()) + limbs.last() * pow(base(), (limbs.len() - 1) as nat)
    }
}

/// A natural number, held as its digits to the base 2^32, the least first.
pub struct BigNat {
    pub limbs: Vec<u32>,
}

impl View for BigNat {
    type V = int;

    open spec fn view(&self) -> int {
        limbs_value(self.limbs@)
    }
}

/// The next power of the base.
pub proof fn lemma_base_pow(i: nat)
    ensures
        pow(base(), i + 1) == base() * pow(base(), i),
        pow(base(), i) > 0,
{
    reveal(pow);
    lemma_pow_positive(base(), i);
}

/// A number with a digit more.
pub proof fn lemma_value_push(limbs: Seq<u32>, digit: u32)
    ensures
        limbs_value(limbs.push(digit)) == limbs_value(limbs) + digit * pow(
            base(),
            limbs.len(),
        ),
{
    assert(limbs.push(digit).drop_last() =~= limbs);
}

/// A number of `n` digits is less than the `n`-th power of the base.
pub proof fn lemma_value_bound(limbs: Seq<u32>)
    ensures
        0 <= limbs_value(limbs) < pow(base(), limbs.len()),
    decreases limbs.len(),
{
    if limbs.len() == 0 {
        lemma_pow0(base());
    } else {
        let n = (limbs.len() - 1) as nat;
        lemma_value_bound(limbs.drop_last());
        lemma_base_pow(n);
        let p = pow(base(), n);
        let d = limbs.last() as int;
        assert(0 <= d * p && d * p + p <= base() * p) by (nonlinear_arith)
            requires
                0 <= d < base(),
                p > 0,
        ;
    }
}

/// Of two numbers of equally many digits that agree in all digits above the
/// `i`-th, the one with the lesser `i`-th digit is the lesser.
pub proof fn lemma_value_less(a: Seq<u32>, b: Seq<u32>, i: int)
    requires
        a.len() == b.len(),
        0 <= i < a.len(),
        a[i] < b[i],
        forall|j: int| i < j < a.len() ==> a[j] == b[j],
    ensures
        limbs_value(a) < limbs_value(b),
    decreases a.len(),
{
    let n = (a.len() - 1) as nat;
    let p = pow(base(), n);
    if i == n {
        lemma_value_bound(a.drop_last());
        lemma_value_bound(b.drop_last());
        let x = a[i] as int;
        let y = b[i] as int;
        assert(x * p + p <= y * p) by (nonlinear_arith)
            requires
                x < y,
                p > 0,
        ;
    } else {
        lemma_value_less(a.drop_last(), b.drop_last(), i);
    }
}

impl BigNat {
    /// The number one.
    pub fn one() -> (r: BigNat)
        ensures
            r@ == 1,
    {
        let mut limbs: Vec<u32> = Vec::new();
        limbs.push(1);
        proof {
            lemma_value_push(Seq::<u32>::empty(), 1);
            lemma_pow0(base());
            assert(limbs@ =~= Seq::<u32>::empty().push(1));
        }
        BigNat { limbs }
    }

    /// The product of the number and `x`.
    pub fn times(&self, x: u32) -> (r: BigNat)
        ensures
            r@ == self@ * x,
    {
        let n = self.limbs.len();
        let mut limbs: Vec<u32> = Vec::new();
        let mut carry: u64 = 0;
        let mut i: usize = 0;
        proof {
            lemma_pow0(base());
            assert(self.limbs@.take(0) =~= Seq::<u32>::empty());
        }
        while i < n
            invariant
                n == self.limbs.len(),
                i <= n,
                limbs.len() == i,
                carry < base(),
                limbs_value(limbs@) + carry * pow(base(), i as nat) == x * limbs_value(
                    self.limbs@.take(i as int),
                ),
            decreases n - i,
        {
            let digit = self.limbs[i];
            assert(digit * x + carry < base() * base()) by (nonlinear_arith)
                requires
                    0 <= digit < base(),
                    0 <= x < base(),
                    0 <= carry < base(),
            ;
            let t: u64 = digit as u64 * x as u64 + carry;
            let low: u32 = (t % 0x1_0000_0000) as u32;
            let high: u64 = t / 0x1_0000_0000;
            proof {
                let p = pow(base(), i as nat);
                let before = self.limbs@.take(i as int);
                let after = self.limbs@.take(i + 1);
                assert(after =~= before.push(digit));
                lemma_value_push(before, digit);
                lemma_value_push(limbs@, low);
                lemma_base_pow(i as nat);
                let v = limbs_value(limbs@);
                let u = limbs_value(before);
                assert(v + low * p + high * (base() * p) == x * (u + digit * p))
                    by (nonlinear_arith)
                    requires
                        v + carry * p == x * u,
                        digit * x + carry == base() * high + low,
                ;
            }
            limbs.push(low);
            carry = high;
            i += 1;
        }
        proof {
            lemma_value_push(limbs@, carry as u32);
            assert(self.limbs@.take(n as int) =~= self.limbs@);
            assert(x * limbs_value(self.limbs@) == limbs_value(self.limbs@) * x)
                by (nonlinear_arith);
        }
        limbs.push(carry as u32);
        BigNat { limbs }
    }

    /// The product of the number and the `e`-th power of `x`.
    pub fn times_power(self, x: u32, e: u32) -> (r: BigNat)
        ensures
            r@ == self@ * pow(x as int, e as nat),
    {
        let ghost start = self@;
        let mut product = self;
        let mut i: u32 = 0;
        proof {
            lemma_pow0(x as int);
        }
        while i < e
            invariant
                i <= e,
                product@ == start * pow(x as int, i as nat),
            decreases e - i,
        {
            proof {
                reveal(pow);
                let p = pow(x as int, i as nat);
                assert(start * p * x == start * (x * p)) by (nonlinear_arith);
            }
            product = product.times(x);
            i += 1;
        }
        product
    }

    /// The digits of the number, with zeros added above them up to `len`
    /// digits.
    fn padded(&self, len: usize) -> (r: Vec<u32>)
        ensures
            r.len() == if len > self.limbs.len() {
                len
            } else {
                self.limbs.len()
            },
            limbs_value(r@) == self@,
    {
        let n = self.limbs.len();
        let mut limbs: Vec<u32> = Vec::new();
        let mut i: usize = 0;
        while i < n
            invariant
                n == self.limbs.len(),
                i <= n,
                limbs@ == self.limbs@.take(i as int),
            decreases n - i,
        {
            limbs.push(self.limbs[i]);
            proof {
                assert(limbs@ =~= self.limbs@.take(i + 1));
            }
            i += 1;
        }
        proof {
            assert(self.limbs@.take(n as int) =~= self.limbs@);
        }
        while i < len
            invariant
                n == self.limbs.len(),
                n <= i,
                i <= len || i == n,
                limbs.len() == i,
                limbs_value(limbs@) == self@,
            decreases len - i,
        {
            proof {
                lemma_value_push(limbs@, 0);
            }
            limbs.push(0);
            i += 1;
        }
        limbs
    }

    /// Whether the number is at most `other`.
    pub fn le(&self, other: &BigNat) -> (r: bool)
        ensures
            r == (self@ <= other@),
    {
        let a = self.padded(other.limbs.len());
        let b = other.padded(self.limbs.len());
        let n = a.len();
        let mut i: usize = n;
        while i > 0
            invariant
                n == a.len(),
                n == b.len(),
                i <= n,
                limbs_value(a@) == self@,
                limbs_value(b@) == other@,
                forall|j: int| i <= j < n ==> a[j] == b[j],
            decreases i,
        {
            i -= 1;
            if a[i] < b[i] {
                proof {
                    lemma_value_less(a@, b@, i as int);
                }
                return true;
            }
            if a[i] > b[i] {
                proof {
                    lemma_value_less(b@, a@, i as int);
                }
                return false;
            }
        }
        proof {
            assert(a@ =~= b@);
        }
        true
    }
}

} // verus!
