use vstd::prelude::*;
use vstd::arithmetic::div_mod::{
    lemma_add_mod_noop, lemma_fundamental_div_mod_converse_mod, lemma_mul_mod_noop,
    lemma_small_mod, lemma_sub_mod_noop,
};

verus! {

/// A prime field whose elements are the canonical representatives `0..modulus`,
/// stored in one machine word.
#[derive(Clone, Copy, Debug, PartialEq, Eq, Structural)]
pub struct PrimeField {
    pub modulus: u64,
}

/// The canonical representative of `v` modulo `p`.
pub open spec fn fe(v: int, p: u64) -> u64 {
    (v % (p as int)) as u64
}

/// `a + b` modulo `p`, stated over representatives.
pub proof fn lemma_add_rep(a: int, b: int, p: int)
    requires
        p > 0,
    ensures
        ((a % p) + (b % p)) % p == (a + b) % p,
{
    lemma_add_mod_noop(a, b, p);
}

/// `a - b` modulo `p`, stated over representatives.
pub proof fn lemma_sub_rep(a: int, b: int, p: int)
    requires
        p > 0,
    ensures
        ((a % p) - (b % p)) % p == (a - b) % p,
{
    lemma_sub_mod_noop(a, b, p);
}

/// `a * b` modulo `p`, stated over representatives.
pub proof fn lemma_mul_rep(a: int, b: int, p: int)
    requires
        p > 0,
    ensures
        ((a % p) * (b % p)) % p == (a * b) % p,
{
    lemma_mul_mod_noop(a, b, p);
}

/// `-a` modulo `p`, stated over representatives.
pub proof fn lemma_neg_rep(a: int, p: int)
    requires
        p > 0,
    ensures
        (-(a % p)) % p == (-a) % p,
{
    lemma_sub_mod_noop(0, a, p);
    lemma_small_mod(0, p as nat);
}

/// A representative lies below the modulus.
pub broadcast proof fn lemma_fe_canonical(v: int, p: u64)
    requires
        p > 0,
    ensures
        #[trigger] fe(v, p) < p,
{
    vstd::arithmetic::div_mod::lemma_mod_bound(v, p as int);
}

/// A value already in `0..p` is its own representative.
pub proof fn lemma_rep_small(a: int, p: int)
    requires
        0 <= a < p,
    ensures
        a % p == a,
{
    lemma_small_mod(a as nat, p as nat);
}

impl PrimeField {
    pub open spec fn wf(self) -> bool {
        self.modulus > 1
    }

    pub open spec fn p(self) -> int {
        self.modulus as int
    }

    /// `true` when `a` is a canonical representative.
    pub open spec fn is_elem(self, a: u64) -> bool {
        a < self.modulus
    }

    pub fn is_canonical(&self, a: u64) -> (r: bool)
        ensures
            r == self.is_elem(a),
    {
        a < self.modulus
    }

    pub fn zero(&self) -> (r: u64)
        requires
            self.wf(),
        ensures
            r == 0,
            self.is_elem(r),
    {
        0
    }

    pub fn one(&self) -> (r: u64)
        requires
            self.wf(),
        ensures
            r == 1,
            self.is_elem(r),
    {
        1
    }

    pub fn add(&self, a: u64, b: u64) -> (r: u64)
        requires
            self.wf(),
            self.is_elem(a),
            self.is_elem(b),
        ensures
            self.is_elem(r),
            r as int == (a + b) % self.p(),
    {
        let p = self.modulus;
        if a >= p - b {
            let r = a - (p - b);
            proof {
                lemma_fundamental_div_mod_converse_mod(a + b, p as int, 1, r as int);
            }
            r
        } else {
            proof {
                lemma_rep_small(a + b, p as int);
            }
            a + b
        }
    }

    pub fn double(&self, a: u64) -> (r: u64)
        requires
            self.wf(),
            self.is_elem(a),
        ensures
            self.is_elem(r),
            r as int == (2 * a) % self.p(),
    {
        self.add(a, a)
    }

    pub fn sub(&self, a: u64, b: u64) -> (r: u64)
        requires
            self.wf(),
            self.is_elem(a),
            self.is_elem(b),
        ensures
            self.is_elem(r),
            r as int == (a - b) % self.p(),
    {
        let p = self.modulus;
        if a >= b {
            proof {
                lemma_rep_small(a - b, p as int);
            }
            a - b
        } else {
            let r = p - (b - a);
            proof {
                lemma_fundamental_div_mod_converse_mod(a - b, p as int, -1, r as int);
            }
            r
        }
    }

    pub fn neg(&self, a: u64) -> (r: u64)
        requires
            self.wf(),
            self.is_elem(a),
        ensures
            self.is_elem(r),
            r as int == (-a) % self.p(),
    {
        let z = self.zero();
        self.sub(z, a)
    }

    pub fn mul(&self, a: u64, b: u64) -> (r: u64)
        requires
            self.wf(),
            self.is_elem(a),
            self.is_elem(b),
        ensures
            self.is_elem(r),
            r as int == (a * b) % self.p(),
    {
        let p = self.modulus;
        proof {
            assert((a as int) * (b as int) <= 0xffff_ffff_ffff_ffff * 0xffff_ffff_ffff_ffff)
                by (nonlinear_arith)
                requires
                    a <= 0xffff_ffff_ffff_ffffu64,
                    b <= 0xffff_ffff_ffff_ffffu64,
            ;
        }
        let prod: u128 = (a as u128) * (b as u128);
        let r = (prod % (p as u128)) as u64;
        r
    }

    pub fn square(&self, a: u64) -> (r: u64)
        requires
            self.wf(),
            self.is_elem(a),
        ensures
            self.is_elem(r),
            r as int == (a * a) % self.p(),
    {
        self.mul(a, a)
    }
}

} // verus!
