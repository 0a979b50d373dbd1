//! Natural numbers of any size, held as base-2^32 digits.

use vstd::prelude::*;

verus! {

/// The base in which a [`Natural`] is written.
pub const BASE: u64 = 0x1_0000_0000;

/// What a digit at position `i` counts for.
pub open spec fn place(i: nat) -> nat
    decreases i,
{
    if i == 0 {
        1
    } else {
        BASE as nat * place((i - 1) as nat)
    }
}

/// The digit at position `i`; positions past the end hold zero.
pub open spec fn digit(s: Seq<u32>, i: nat) -> nat {
    if i < s.len() {
        s[i as int] as nat
    } else {
        0
    }
}

/// The number written by the lowest `n` digits.
pub open spec fn low_part(s: Seq<u32>, n: nat) -> nat
    decreases n,
{
    if n == 0 {
        0
    } else {
        low_part(s, (n - 1) as nat) + digit(s, (n - 1) as nat) * place((n - 1) as nat)
    }
}

/// The number that a little-endian digit sequence writes.
pub open spec fn digits_value(s: Seq<u32>) -> nat {
    low_part(s, s.len())
}

proof fn lemma_low_part_past_end(s: Seq<u32>, n: nat)
    requires
        s.len() <= n,
    ensures
        low_part(s, n) == digits_value(s),
    decreases n,
{
    if n > s.len() {
        lemma_low_part_past_end(s, (n - 1) as nat);
        let p = place((n - 1) as nat);
        assert(0 * p == 0) by (nonlinear_arith);
    }
}

proof fn lemma_low_part_push(s: Seq<u32>, x: u32, n: nat)
    requires
        n <= s.len(),
    ensures
        low_part(s.push(x), n) == low_part(s, n),
    decreases n,
{
    if n > 0 {
        lemma_low_part_push(s, x, (n - 1) as nat);
    }
}

proof fn lemma_value_push(s: Seq<u32>, x: u32)
    ensures
        digits_value(s.push(x)) == digits_value(s) + x as nat * place(s.len()),
{
    lemma_low_part_push(s, x, s.len());
}

/// A number is its lowest digit and the base times what the other digits write.
pub proof fn lemma_value_from_the_front(s: Seq<u32>)
    requires
        s.len() > 0,
    ensures
        digits_value(s) == s[0] as nat + BASE as nat * digits_value(s.drop_first()),
    decreases s.len(),
{
    let init = s.drop_last();
    let last = s.last();
    let n = init.len();
    assert(s =~= init.push(last));
    lemma_value_push(init, last);
    if n == 0 {
        assert(s.drop_first() =~= Seq::empty());
        assert(last as nat * place(0) == last) by (nonlinear_arith)
            requires
                place(0) == 1,
        ;
        assert(low_part(init, 0) == 0);
        assert(low_part(s.drop_first(), 0) == 0);
    } else {
        lemma_value_from_the_front(init);
        let rest = init.drop_first();
        assert(s.drop_first() =~= rest.push(last));
        lemma_value_push(rest, last);
        let (b, l, p, r) = (
            BASE as nat,
            last as nat,
            place((n - 1) as nat),
            digits_value(rest),
        );
        assert(b * r + l * (b * p) == b * (r + l * p)) by (nonlinear_arith);
    }
}

proof fn lemma_low_part_bound(s: Seq<u32>, n: nat)
    ensures
        low_part(s, n) < place(n),
    decreases n,
{
    if n > 0 {
        let m = (n - 1) as nat;
        lemma_low_part_bound(s, m);
        let d = digit(s, m);
        let p = place(m);
        assert(d * p + p <= BASE as nat * p) by (nonlinear_arith)
            requires
                d + 1 <= BASE as nat,
        ;
    }
}

/// A natural number without an upper limit.
#[derive(Debug)]
pub struct Natural {
    limbs: Vec<u32>,
}

impl View for Natural {
    type V = nat;

    closed spec fn view(&self) -> nat {
        digits_value(self.limbs@)
    }
}

impl Natural {
    /// The number zero.
    pub fn zero() -> (res: Natural)
        ensures
            res@ == 0,
    {
        Natural { limbs: Vec::new() }
    }

    /// The number `x`.
    pub fn from_u128(x: u128) -> (res: Natural)
        ensures
            res@ == x,
    {
        let mut limbs: Vec<u32> = Vec::new();
        let mut rest: u128 = x;
        assert(rest as nat * 1 == x);
        while rest != 0
            invariant
                digits_value(limbs@) + rest as nat * place(limbs@.len()) == x,
            decreases rest,
        {
            let low: u32 = (rest % 0x1_0000_0000) as u32;
            let next: u128 = rest / 0x1_0000_0000;
            proof {
                lemma_value_push(limbs@, low);
                let p = place(limbs@.len());
                let r = rest as nat;
                let l = low as nat;
                let q = next as nat;
                assert(r * p == l * p + q * (BASE as nat * p)) by (nonlinear_arith)
                    requires
                        r == l + q * BASE as nat,
                ;
            }
            limbs.push(low);
            rest = next;
        }
        Natural { limbs }
    }

    /// The digits, lowest first.
    pub fn limbs(&self) -> (res: &Vec<u32>)
        ensures
            digits_value(res@) == self@,
    {
        &self.limbs
    }

    fn limb(&self, i: usize) -> (res: u32)
        ensures
            res as nat == digit(self.limbs@, i as nat),
    {
        if i < self.limbs.len() {
            self.limbs[i]
        } else {
            0
        }
    }

    /// The sum of two numbers.
    pub fn plus(&self, other: &Natural) -> (res: Natural)
        ensures
            res@ == self@ + other@,
    {
        let len: usize = if self.limbs.len() < other.limbs.len() {
            other.limbs.len()
        } else {
            self.limbs.len()
        };
        let mut limbs: Vec<u32> = Vec::new();
        let mut carry: u64 = 0;
        let mut i: usize = 0;
        while i < len
            invariant
                i <= len,
                limbs@.len() == i,
                carry <= 1,
                digits_value(limbs@) + carry as nat * place(i as nat) == low_part(
                    self.limbs@,
                    i as nat,
                ) + low_part(other.limbs@, i as nat),
            decreases len - i,
        {
            let a: u64 = self.limb(i) as u64;
            let b: u64 = other.limb(i) as u64;
            let sum: u64 = a + b + carry;
            let low: u32 = (sum % 0x1_0000_0000) as u32;
            let next: u64 = sum / 0x1_0000_0000;
            proof {
                lemma_value_push(limbs@, low);
                let p = place(i as nat);
                let (x, y, c, l, q) = (a as nat, b as nat, carry as nat, low as nat, next as nat);
                assert(c * p + x * p + y * p == l * p + q * (BASE as nat * p)) by (nonlinear_arith)
                    requires
                        x + y + c == l + q * BASE as nat,
                ;
            }
            limbs.push(low);
            carry = next;
            i = i + 1;
        }
        proof {
            lemma_low_part_past_end(self.limbs@, len as nat);
            lemma_low_part_past_end(other.limbs@, len as nat);
        }
        if carry != 0 {
            proof {
                lemma_value_push(limbs@, carry as u32);
            }
            limbs.push(carry as u32);
        }
        Natural { limbs }
    }

    fn times_digit(&self, m: u32) -> (res: Natural)
        ensures
            res@ == self@ * m as nat,
    {
        let len: usize = self.limbs.len();
        let mut limbs: Vec<u32> = Vec::new();
        let mut carry: u64 = 0;
        let mut i: usize = 0;
        assert(0 * m as nat == 0) by (nonlinear_arith);
        while i < len
            invariant
                i <= len,
                len == self.limbs@.len(),
                limbs@.len() == i,
                carry < BASE,
                digits_value(limbs@) + carry as nat * place(i as nat) == low_part(
                    self.limbs@,
                    i as nat,
                ) * m as nat,
            decreases len - i,
        {
            let a: u64 = self.limbs[i] as u64;
            assert(a * m as u64 <= 0xffff_ffff * 0xffff_ffff) by (nonlinear_arith)
                requires
                    a <= 0xffff_ffff,
                    m <= 0xffff_ffff,
            ;
            let prod: u64 = a * m as u64 + carry;
            let low: u32 = (prod % 0x1_0000_0000) as u32;
            let next: u64 = prod / 0x1_0000_0000;
            proof {
                lemma_value_push(limbs@, low);
                let p = place(i as nat);
                let part = low_part(self.limbs@, i as nat);
                let (x, k, c, l, q) = (a as nat, m as nat, carry as nat, low as nat, next as nat);
                assert((part + x * p) * k == part * k + (x * k) * p) by (nonlinear_arith);
                assert(c * p + (x * k) * p == l * p + q * (BASE as nat * p)) by (nonlinear_arith)
                    requires
                        x * k + c == l + q * BASE as nat,
                ;
            }
            limbs.push(low);
            carry = next;
            i = i + 1;
        }
        if carry != 0 {
            proof {
                lemma_value_push(limbs@, carry as u32);
            }
            limbs.push(carry as u32);
        }
        Natural { limbs }
    }

    fn times_base(&self) -> (res: Natural)
        ensures
            res@ == self@ * BASE as nat,
    {
        let len: usize = self.limbs.len();
        let mut limbs: Vec<u32> = Vec::new();
        if len == 0 {
            return Natural { limbs };
        }
        limbs.push(0);
        proof {
            lemma_value_push(Seq::<u32>::empty(), 0);
            assert(limbs@ =~= Seq::<u32>::empty().push(0));
        }
        let mut i: usize = 0;
        while i < len
            invariant
                i <= len,
                len == self.limbs@.len(),
                limbs@.len() == i + 1,
                digits_value(limbs@) == low_part(self.limbs@, i as nat) * BASE as nat,
            decreases len - i,
        {
            let a: u32 = self.limbs[i];
            proof {
                lemma_value_push(limbs@, a);
                let p = place(i as nat);
                let part = low_part(self.limbs@, i as nat);
                let x = a as nat;
                assert((part + x * p) * BASE as nat == part * BASE as nat + x * (BASE as nat * p))
                    by (nonlinear_arith);
            }
            limbs.push(a);
            i = i + 1;
        }
        Natural { limbs }
    }

    /// The product of two numbers.
    pub fn times(&self, other: &Natural) -> (res: Natural)
        ensures
            res@ == self@ * other@,
    {
        let len: usize = other.limbs.len();
        let mut total: Natural = Natural::zero();
        let mut shifted: Natural = self.clone();
        let mut i: usize = 0;
        assert(self@ * 0 == 0 && self@ * 1 == self@);
        while i < len
            invariant
                i <= len,
                len == other.limbs@.len(),
                total@ == self@ * low_part(other.limbs@, i as nat),
                shifted@ == self@ * place(i as nat),
            decreases len - i,
        {
            let d: u32 = other.limbs[i];
            let ghost p = place(i as nat);
            let ghost part = low_part(other.limbs@, i as nat);
            proof {
                let (x, k) = (self@, d as nat);
                assert(x * (part + k * p) == x * part + (x * p) * k) by (nonlinear_arith);
                assert(x * (BASE as nat * p) == (x * p) * BASE as nat) by (nonlinear_arith);
            }
            total = total.plus(&shifted.times_digit(d));
            shifted = shifted.times_base();
            i = i + 1;
        }
        total
    }

    /// Whether this number is smaller than `other`.
    pub fn less_than(&self, other: &Natural) -> (res: bool)
        ensures
            res == (self@ < other@),
    {
        let len: usize = if self.limbs.len() < other.limbs.len() {
            other.limbs.len()
        } else {
            self.limbs.len()
        };
        proof {
            lemma_low_part_past_end(self.limbs@, len as nat);
            lemma_low_part_past_end(other.limbs@, len as nat);
        }
        let mut i: usize = len;
        while i > 0
            invariant
                i <= len,
                self@ - low_part(self.limbs@, i as nat) == other@ - low_part(
                    other.limbs@,
                    i as nat,
                ),
            decreases i,
        {
            i = i - 1;
            let a: u32 = self.limb(i);
            let b: u32 = other.limb(i);
            if a != b {
                proof {
                    lemma_low_part_bound(self.limbs@, i as nat);
                    lemma_low_part_bound(other.limbs@, i as nat);
                    let p = place(i as nat);
                    let (x, y) = (a as nat, b as nat);
                    if x < y {
                        assert(x * p + p <= y * p) by (nonlinear_arith)
                            requires
                                x + 1 <= y,
                        ;
                    } else {
                        assert(y * p + p <= x * p) by (nonlinear_arith)
                            requires
                                y + 1 <= x,
                        ;
                    }
                }
                return a < b;
            }
        }
        false
    }
}

impl Clone for Natural {
    fn clone(&self) -> (res: Natural)
        ensures
            res@ == self@,
    {
        let len: usize = self.limbs.len();
        let mut limbs: Vec<u32> = Vec::new();
        let mut i: usize = 0;
        while i < len
            invariant
                i <= len,
                len == self.limbs@.len(),
                limbs@ == self.limbs@.take(i as int),
            decreases len - i,
        {
            limbs.push(self.limbs[i]);
            assert(limbs@ =~= self.limbs@.take(i + 1));
            i = i + 1;
        }
        assert(self.limbs@.take(len as int) =~= self.limbs@);
        Natural { limbs }
    }
}

} // verus!
