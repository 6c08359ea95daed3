use vstd::prelude::*;
use crate::field::{
    fe, lemma_add_rep, lemma_fe_canonical, lemma_mul_rep, lemma_neg_rep, lemma_rep_small, lemma_sub_rep, PrimeField,
};

verus! {

/// The two conventions for the sextic twist that carries the second pairing group.
#[derive(Clone, Copy, Debug, PartialEq, Eq, Structural)]
pub enum TwistType {
    M,
    D,
}

/// One evaluated line of the Miller loop, in the order `(c0, c1, c2)`.
pub type LineCoeff = (u64, u64, u64);

/// A point in homogeneous projective coordinates `(x, y, z)`.
pub type ProjPoint = (u64, u64, u64);

/// An affine point of the first group; `infinity` marks the identity.
#[derive(Clone, Copy, Debug, PartialEq, Eq, Structural)]
pub struct G1Affine {
    pub x: u64,
    pub y: u64,
    pub infinity: bool,
}

/// An affine point of the second group; `infinity` marks the identity.
#[derive(Clone, Copy, Debug, PartialEq, Eq, Structural)]
pub struct G2Affine {
    pub x: u64,
    pub y: u64,
    pub infinity: bool,
}

impl G1Affine {
    pub open spec fn wf(self, f: PrimeField) -> bool {
        f.is_elem(self.x) && f.is_elem(self.y)
    }

    pub fn is_zero(&self) -> (r: bool)
        ensures
            r == self.infinity,
    {
        self.infinity
    }
}

impl G2Affine {
    pub open spec fn wf(self, f: PrimeField) -> bool {
        f.is_elem(self.x) && f.is_elem(self.y)
    }

    pub fn is_zero(&self) -> (r: bool)
        ensures
            r == self.infinity,
    {
        self.infinity
    }

    /// The affine negation `(x, -y)`.
    pub open spec fn neg_spec(self, f: PrimeField) -> G2Affine {
        G2Affine { x: self.x, y: fe(-(self.y as int), f.modulus), infinity: self.infinity }
    }

    pub fn neg(&self, f: &PrimeField) -> (r: G2Affine)
        requires
            f.wf(),
            self.wf(*f),
        ensures
            r == self.neg_spec(*f),
            r.wf(*f),
    {
        G2Affine { x: self.x, y: f.neg(self.y), infinity: self.infinity }
    }
}

/// What a concrete curve of the family fixes: its base field, the coefficient `B` of
/// the twisted curve, the twist convention, the two loop-count descriptors and the
/// generators of both groups.
///
/// `ate_loop_count_1` is a big-endian bit sequence; `ate_loop_count_2` is a signed-digit
/// sequence stored least significant digit first.
#[derive(Clone, Debug)]
pub struct BW6Parameters {
    pub field: PrimeField,
    pub coeff_b: u64,
    pub twist_type: TwistType,
    pub ate_loop_count_1: Vec<bool>,
    pub ate_loop_count_2: Vec<i8>,
    pub g1_generator: G1Affine,
    pub g2_generator: G2Affine,
}

impl BW6Parameters {
    pub open spec fn wf(&self) -> bool {
        &&& self.field.wf()
        &&& self.field.is_elem(self.coeff_b)
        &&& self.g1_generator.wf(self.field)
        &&& self.g2_generator.wf(self.field)
    }
}

/// The coefficient triple in the order that the twist convention asks for; `a` is the
/// constant term of the line, `m` its `x`-term and `c` its `y`-term.
pub open spec fn twist_order(t: TwistType, a: u64, m: u64, c: u64) -> LineCoeff {
    match t {
        TwistType::M => (a, m, c),
        TwistType::D => (c, m, a),
    }
}

/// Doubling of `r` on the curve `y^2 = x^3 + b` in homogeneous projective coordinates,
/// together with the tangent line at `r`.
pub open spec fn doubling_spec(r: ProjPoint, b: u64, f: PrimeField, t: TwistType) -> (
    ProjPoint,
    LineCoeff,
) {
    let p = f.modulus;
    let x = r.0 as int;
    let y = r.1 as int;
    let z = r.2 as int;
    let bb = b as int;
    let yy = y * y;
    let zz = z * z;
    (
        (
            fe(2 * x * y * (yy - 9 * bb * zz), p),
            fe((yy + 9 * bb * zz) * (yy + 9 * bb * zz) - 108 * bb * bb * zz * zz, p),
            fe(8 * yy * y * z, p),
        ),
        twist_order(t, fe(3 * bb * zz - yy, p), fe(3 * x * x, p), fe(-(2 * y * z), p)),
    )
}

/// Mixed addition of the projective `r` and the affine `(qx, qy)`, together with the
/// line through both.
pub open spec fn addition_spec(r: ProjPoint, qx: u64, qy: u64, f: PrimeField, t: TwistType) -> (
    ProjPoint,
    LineCoeff,
) {
    let p = f.modulus;
    let x = r.0 as int;
    let y = r.1 as int;
    let z = r.2 as int;
    let th = y - qy * z;
    let la = x - qx * z;
    let h = la * la * la + z * th * th - 2 * x * la * la;
    (
        (
            fe(la * h, p),
            fe(th * (x * la * la - h) - la * la * la * y, p),
            fe(z * la * la * la, p),
        ),
        twist_order(t, fe(th * qx - la * qy, p), fe(-th, p), fe(la, p)),
    )
}

pub open spec fn proj_wf(r: ProjPoint, f: PrimeField) -> bool {
    f.is_elem(r.0) && f.is_elem(r.1) && f.is_elem(r.2)
}

/// Every coefficient of `s` is a canonical field element.
pub open spec fn coeffs_canonical(s: Seq<LineCoeff>, p: u64) -> bool {
    forall|i: int| 0 <= i < s.len() ==> #[trigger] s[i].0 < p && s[i].1 < p && s[i].2 < p
}

/// The accumulator of one pass of the preparation.
struct G2HomProjective {
    x: u64,
    y: u64,
    z: u64,
}

impl G2HomProjective {
    spec fn view(&self) -> ProjPoint {
        (self.x, self.y, self.z)
    }
}

fn twist_order_exec(t: TwistType, a: u64, m: u64, c: u64) -> (r: LineCoeff)
    ensures
        r == twist_order(t, a, m, c),
{
    match t {
        TwistType::M => (a, m, c),
        TwistType::D => (c, m, a),
    }
}

#[verifier::rlimit(40)]
fn doubling_step(r: &mut G2HomProjective, params: &BW6Parameters) -> (c: LineCoeff)
    requires
        params.wf(),
        proj_wf(old(r).view(), params.field),
    ensures
        proj_wf(final(r).view(), params.field),
        (final(r).view(), c) == doubling_spec(
            old(r).view(),
            params.coeff_b,
            params.field,
            params.twist_type,
        ),
{
    let fp = &params.field;
    let ghost p = fp.p();
    let ghost x = r.x as int;
    let ghost y = r.y as int;
    let ghost z = r.z as int;
    let ghost bb = params.coeff_b as int;
    let ghost yy = y * y;
    let ghost zz = z * z;

    let a = fp.mul(r.x, r.y);
    let b = fp.square(r.y);
    let b2 = fp.double(b);
    let b4 = fp.double(b2);
    let c = fp.square(r.z);
    let c2 = fp.double(c);
    let c3 = fp.add(c2, c);
    let e = fp.mul(params.coeff_b, c3);
    let e2 = fp.double(e);
    let f = fp.add(e2, e);
    let g = fp.add(b, f);
    let yz = fp.add(r.y, r.z);
    let yz_sq = fp.square(yz);
    let bc = fp.add(b, c);
    let h = fp.sub(yz_sq, bc);
    let i = fp.sub(e, b);
    let j = fp.square(r.x);
    let e2_square = fp.square(e2);

    let a2 = fp.double(a);
    let bf = fp.sub(b, f);
    let nx = fp.mul(a2, bf);
    let g_sq = fp.square(g);
    let e2_square2 = fp.double(e2_square);
    let e2_square3 = fp.add(e2_square2, e2_square);
    let ny = fp.sub(g_sq, e2_square3);
    let nz = fp.mul(b4, h);
    let j2 = fp.double(j);
    let j3 = fp.add(j2, j);
    let nh = fp.neg(h);

    proof {
        let ee = bb * (3 * zz);
        let ff = 3 * ee;
        let hh = (y + z) * (y + z) - (yy + zz);
        lemma_add_rep(yy, yy, p);
        lemma_add_rep(2 * yy, 2 * yy, p);
        lemma_add_rep(zz, zz, p);
        lemma_add_rep(2 * zz, zz, p);
        lemma_rep_small(bb, p);
        lemma_mul_rep(bb, 3 * zz, p);
        lemma_add_rep(ee, ee, p);
        lemma_add_rep(2 * ee, ee, p);
        lemma_add_rep(yy, ff, p);
        lemma_rep_small(y, p);
        lemma_rep_small(z, p);
        lemma_mul_rep(y + z, y + z, p);
        lemma_add_rep(yy, zz, p);
        lemma_sub_rep((y + z) * (y + z), yy + zz, p);
        lemma_sub_rep(ee, yy, p);
        lemma_mul_rep(2 * ee, 2 * ee, p);
        lemma_add_rep(x * y, x * y, p);
        lemma_sub_rep(yy, ff, p);
        lemma_mul_rep(2 * (x * y), yy - ff, p);
        lemma_mul_rep(yy + ff, yy + ff, p);
        lemma_add_rep((2 * ee) * (2 * ee), (2 * ee) * (2 * ee), p);
        lemma_add_rep(2 * ((2 * ee) * (2 * ee)), (2 * ee) * (2 * ee), p);
        lemma_sub_rep((yy + ff) * (yy + ff), 3 * ((2 * ee) * (2 * ee)), p);
        lemma_mul_rep(4 * yy, hh, p);
        lemma_add_rep(x * x, x * x, p);
        lemma_add_rep(2 * (x * x), x * x, p);
        lemma_neg_rep(hh, p);

        assert(hh == 2 * y * z) by (nonlinear_arith)
            requires
                hh == (y + z) * (y + z) - (yy + zz),
                yy == y * y,
                zz == z * z,
        ;
        assert(2 * (x * y) * (yy - ff) == 2 * x * y * (yy - 9 * bb * zz)) by (nonlinear_arith)
            requires
                ff == 3 * ee,
                ee == bb * (3 * zz),
        ;
        assert((yy + ff) * (yy + ff) - 3 * ((2 * ee) * (2 * ee)) == (yy + 9 * bb * zz) * (yy + 9
            * bb * zz) - 108 * bb * bb * zz * zz) by (nonlinear_arith)
            requires
                ff == 3 * ee,
                ee == bb * (3 * zz),
        ;
        assert((4 * yy) * hh == 8 * yy * y * z) by (nonlinear_arith)
            requires
                hh == 2 * y * z,
        ;
        assert(ee - yy == 3 * bb * zz - yy) by (nonlinear_arith)
            requires
                ee == bb * (3 * zz),
        ;
        assert(2 * (x * x) + x * x == 3 * x * x) by (nonlinear_arith);
    }

    r.x = nx;
    r.y = ny;
    r.z = nz;
    twist_order_exec(params.twist_type, i, j3, nh)
}

#[verifier::rlimit(40)]
fn addition_step(r: &mut G2HomProjective, q: &G2Affine, params: &BW6Parameters) -> (c: LineCoeff)
    requires
        params.wf(),
        proj_wf(old(r).view(), params.field),
        q.wf(params.field),
    ensures
        proj_wf(final(r).view(), params.field),
        (final(r).view(), c) == addition_spec(
            old(r).view(),
            q.x,
            q.y,
            params.field,
            params.twist_type,
        ),
{
    let fp = &params.field;
    let ghost p = fp.p();
    let ghost x = r.x as int;
    let ghost y = r.y as int;
    let ghost z = r.z as int;
    let ghost qx = q.x as int;
    let ghost qy = q.y as int;

    let qy_z = fp.mul(q.y, r.z);
    let theta = fp.sub(r.y, qy_z);
    let qx_z = fp.mul(q.x, r.z);
    let lambda = fp.sub(r.x, qx_z);
    let c = fp.square(theta);
    let d = fp.square(lambda);
    let e = fp.mul(lambda, d);
    let f = fp.mul(r.z, c);
    let g = fp.mul(r.x, d);
    let ef = fp.add(e, f);
    let g2 = fp.double(g);
    let h = fp.sub(ef, g2);
    let nx = fp.mul(lambda, h);
    let gh = fp.sub(g, h);
    let theta_gh = fp.mul(theta, gh);
    let e_y = fp.mul(e, r.y);
    let ny = fp.sub(theta_gh, e_y);
    let nz = fp.mul(r.z, e);
    let theta_qx = fp.mul(theta, q.x);
    let lambda_qy = fp.mul(lambda, q.y);
    let j = fp.sub(theta_qx, lambda_qy);
    let neg_theta = fp.neg(theta);

    proof {
        let th = y - qy * z;
        let la = x - qx * z;
        let cc = th * th;
        let dd = la * la;
        let ee = la * dd;
        let ff = z * cc;
        let gg = x * dd;
        let hh = ee + ff - 2 * gg;
        lemma_rep_small(x, p);
        lemma_rep_small(y, p);
        lemma_rep_small(z, p);
        lemma_sub_rep(y, qy * z, p);
        lemma_sub_rep(x, qx * z, p);
        lemma_mul_rep(th, th, p);
        lemma_mul_rep(la, la, p);
        lemma_mul_rep(la, dd, p);
        lemma_mul_rep(z, cc, p);
        lemma_mul_rep(x, dd, p);
        lemma_add_rep(ee, ff, p);
        lemma_add_rep(gg, gg, p);
        lemma_sub_rep(ee + ff, 2 * gg, p);
        lemma_mul_rep(la, hh, p);
        lemma_sub_rep(gg, hh, p);
        lemma_mul_rep(th, gg - hh, p);
        lemma_mul_rep(ee, y, p);
        lemma_sub_rep(th * (gg - hh), ee * y, p);
        lemma_mul_rep(z, ee, p);
        lemma_rep_small(qx, p);
        lemma_rep_small(qy, p);
        lemma_mul_rep(th, qx, p);
        lemma_mul_rep(la, qy, p);
        lemma_sub_rep(th * qx, la * qy, p);
        lemma_neg_rep(th, p);

        assert(hh == la * la * la + z * th * th - 2 * x * la * la) by (nonlinear_arith)
            requires
                hh == ee + ff - 2 * gg,
                ee == la * dd,
                dd == la * la,
                ff == z * cc,
                cc == th * th,
                gg == x * dd,
        ;
        assert(th * (gg - hh) - ee * y == th * (x * la * la - hh) - la * la * la * y)
            by (nonlinear_arith)
            requires
                ee == la * dd,
                dd == la * la,
                gg == x * dd,
        ;
        assert(z * ee == z * la * la * la) by (nonlinear_arith)
            requires
                ee == la * dd,
                dd == la * la,
        ;
    }

    r.x = nx;
    r.y = ny;
    r.z = nz;
    twist_order_exec(params.twist_type, j, neg_theta, lambda)
}

/// The state after the first `k` bits of `ate_loop_count_1` have been consumed: the
/// leading bit seeds the accumulator at `q`, each later bit doubles and, when set, adds `q`.
pub open spec fn pass1(q: G2Affine, params: BW6Parameters, k: nat) -> (ProjPoint, Seq<LineCoeff>)
    decreases k,
{
    if k <= 1 {
        ((q.x, q.y, 1), seq![])
    } else {
        let prev = pass1(q, params, (k - 1) as nat);
        let d = doubling_spec(prev.0, params.coeff_b, params.field, params.twist_type);
        if params.ate_loop_count_1@[k - 1] {
            let a = addition_spec(d.0, q.x, q.y, params.field, params.twist_type);
            (a.0, prev.1.push(d.1).push(a.1))
        } else {
            (d.0, prev.1.push(d.1))
        }
    }
}

/// The number of digits of `ate_loop_count_2` that the second pass walks over: all
/// but the leading one.
pub open spec fn pass2_steps(params: BW6Parameters) -> nat {
    if params.ate_loop_count_2@.len() == 0 {
        0
    } else {
        (params.ate_loop_count_2@.len() - 1) as nat
    }
}

/// The digit of `ate_loop_count_2` that step `k` (counted from one) of the second pass reads.
pub open spec fn pass2_digit(params: BW6Parameters, k: nat) -> i8 {
    params.ate_loop_count_2@[params.ate_loop_count_2@.len() - 1 - k]
}

/// The state after `k` steps of the second pass: each step doubles and then adds `q`
/// on the digit `1` and `-q` on the digit `-1`.
pub open spec fn pass2(q: G2Affine, params: BW6Parameters, k: nat) -> (ProjPoint, Seq<LineCoeff>)
    decreases k,
{
    if k == 0 {
        ((q.x, q.y, 1), seq![])
    } else {
        let prev = pass2(q, params, (k - 1) as nat);
        let d = doubling_spec(prev.0, params.coeff_b, params.field, params.twist_type);
        let digit = pass2_digit(params, k);
        if digit == 1 {
            let a = addition_spec(d.0, q.x, q.y, params.field, params.twist_type);
            (a.0, prev.1.push(d.1).push(a.1))
        } else if digit == -1 {
            let nq = q.neg_spec(params.field);
            let a = addition_spec(d.0, nq.x, nq.y, params.field, params.twist_type);
            (a.0, prev.1.push(d.1).push(a.1))
        } else {
            (d.0, prev.1.push(d.1))
        }
    }
}

/// The prepared form of `q`: `(ell_coeffs_1, ell_coeffs_2, infinity)`.
pub open spec fn prepared_of(q: G2Affine, params: BW6Parameters) -> (
    Seq<LineCoeff>,
    Seq<LineCoeff>,
    bool,
) {
    if q.infinity {
        (seq![], seq![], true)
    } else {
        (
            pass1(q, params, params.ate_loop_count_1@.len()).1,
            pass2(q, params, pass2_steps(params)).1,
            false,
        )
    }
}

/// A second-group point made ready for the Miller loop: the line coefficients of the
/// two loops, and whether the point was the identity.
#[derive(Clone, Debug, PartialEq, Eq)]
pub struct G2Prepared {
    pub ell_coeffs_1: Vec<LineCoeff>,
    pub ell_coeffs_2: Vec<LineCoeff>,
    pub infinity: bool,
}

impl View for G2Prepared {
    type V = (Seq<LineCoeff>, Seq<LineCoeff>, bool);

    open spec fn view(&self) -> (Seq<LineCoeff>, Seq<LineCoeff>, bool) {
        (self.ell_coeffs_1@, self.ell_coeffs_2@, self.infinity)
    }
}

impl G2Prepared {
    /// Runs the two loops over `q`; the identity gives two empty sequences.
    pub fn from(q: G2Affine, params: &BW6Parameters) -> (r: G2Prepared)
        requires
            params.wf(),
            q.infinity || q.wf(params.field),
        ensures
            r@ == prepared_of(q, *params),
            q.infinity ==> r@ == (Seq::<LineCoeff>::empty(), Seq::<LineCoeff>::empty(), true),
    {
        if q.is_zero() {
            return G2Prepared { ell_coeffs_1: Vec::new(), ell_coeffs_2: Vec::new(), infinity: true };
        }
        let fp = &params.field;

        let bits = &params.ate_loop_count_1;
        let mut ell_coeffs_1: Vec<LineCoeff> = Vec::new();
        let mut r = G2HomProjective { x: q.x, y: q.y, z: fp.one() };
        let mut k: usize = 1;
        while k < bits.len()
            invariant
                params.wf(),
                q.wf(params.field),
                bits == &params.ate_loop_count_1,
                1 <= k,
                k <= bits.len() || k == 1,
                proj_wf(r.view(), params.field),
                (r.view(), ell_coeffs_1@) == pass1(q, *params, k as nat),
            decreases bits.len() - k,
        {
            let c = doubling_step(&mut r, params);
            ell_coeffs_1.push(c);
            if bits[k] {
                let c = addition_step(&mut r, &q, params);
                ell_coeffs_1.push(c);
            }
            k = k + 1;
        }

        proof {
            if bits@.len() == 0 {
                assert(pass1(q, *params, 0) == pass1(q, *params, 1));
            }
        }
        let digits = &params.ate_loop_count_2;
        let mut ell_coeffs_2: Vec<LineCoeff> = Vec::new();
        let mut r = G2HomProjective { x: q.x, y: q.y, z: fp.one() };
        let negq = q.neg(fp);
        let mut i: usize = digits.len();
        while i > 1
            invariant
                params.wf(),
                q.wf(params.field),
                negq == q.neg_spec(params.field),
                negq.wf(params.field),
                digits == &params.ate_loop_count_2,
                ell_coeffs_1@ == pass1(q, *params, params.ate_loop_count_1@.len()).1,
                1 <= i <= digits.len() || (i == 0 && digits.len() == 0),
                proj_wf(r.view(), params.field),
                (r.view(), ell_coeffs_2@) == pass2(q, *params, (digits@.len() - i) as nat),
            decreases i,
        {
            let ghost k = (digits.len() - i + 1) as nat;
            assert(pass2_digit(*params, k) == digits@[i - 2]);
            let c = doubling_step(&mut r, params);
            ell_coeffs_2.push(c);
            let digit = digits[i - 2];
            if digit == 1 {
                let c = addition_step(&mut r, &q, params);
                ell_coeffs_2.push(c);
            } else if digit == -1 {
                let c = addition_step(&mut r, &negq, params);
                ell_coeffs_2.push(c);
            }
            i = i - 1;
        }

        G2Prepared { ell_coeffs_1, ell_coeffs_2, infinity: false }
    }

    pub fn is_zero(&self) -> (r: bool)
        ensures
            r == self.infinity,
    {
        self.infinity
    }

    /// The prepared generator of the second group.
    pub fn default(params: &BW6Parameters) -> (r: G2Prepared)
        requires
            params.wf(),
        ensures
            r@ == prepared_of(params.g2_generator, *params),
    {
        G2Prepared::from(params.g2_generator, params)
    }
}

/// A first-group point made ready for the Miller loop; it is kept as it is.
#[derive(Clone, Copy, Debug, PartialEq, Eq, Structural)]
pub struct G1Prepared(pub G1Affine);

impl G1Prepared {
    pub fn from(p: G1Affine) -> (r: G1Prepared)
        ensures
            r.0 == p,
    {
        G1Prepared(p)
    }

    pub fn is_zero(&self) -> (r: bool)
        ensures
            r == self.0.infinity,
    {
        self.0.is_zero()
    }

    /// The prepared generator of the first group.
    pub fn default(params: &BW6Parameters) -> (r: G1Prepared)
        ensures
            r.0 == params.g1_generator,
    {
        G1Prepared(params.g1_generator)
    }
}

/// The number of set bits in `s`.
pub open spec fn count_set(s: Seq<bool>) -> nat
    decreases s.len(),
{
    if s.len() == 0 {
        0
    } else {
        count_set(s.drop_last()) + if s.last() {
            1nat
        } else {
            0nat
        }
    }
}

/// The number of digits of `s` that are `1` or `-1`.
pub open spec fn count_unit_digits(s: Seq<i8>) -> nat
    decreases s.len(),
{
    if s.len() == 0 {
        0
    } else {
        count_unit_digits(s.drop_first()) + if s.first() == 1 || s.first() == -1 {
            1nat
        } else {
            0nat
        }
    }
}

proof fn lemma_pass1_len(q: G2Affine, params: BW6Parameters, k: nat)
    requires
        1 <= k <= params.ate_loop_count_1@.len(),
    ensures
        pass1(q, params, k).1.len() == (k - 1) + count_set(
            params.ate_loop_count_1@.subrange(1, k as int),
        ),
    decreases k,
{
    let bits = params.ate_loop_count_1@;
    if k == 1 {
        assert(bits.subrange(1, 1) =~= Seq::<bool>::empty());
    } else {
        lemma_pass1_len(q, params, (k - 1) as nat);
        let t = bits.subrange(1, k as int);
        assert(t.drop_last() =~= bits.subrange(1, k - 1));
        assert(t.last() == bits[k - 1]);
    }
}

proof fn lemma_pass2_len(q: G2Affine, params: BW6Parameters, k: nat)
    requires
        params.ate_loop_count_2@.len() >= 1,
        k <= pass2_steps(params),
    ensures
        pass2(q, params, k).1.len() == k + count_unit_digits(
            params.ate_loop_count_2@.subrange(
                params.ate_loop_count_2@.len() - 1 - k,
                params.ate_loop_count_2@.len() - 1,
            ),
        ),
    decreases k,
{
    let digits = params.ate_loop_count_2@;
    let n = digits.len() as int;
    if k == 0 {
        assert(digits.subrange(n - 1, n - 1) =~= Seq::<i8>::empty());
    } else {
        lemma_pass2_len(q, params, (k - 1) as nat);
        let t = digits.subrange(n - 1 - k, n - 1);
        assert(t.drop_first() =~= digits.subrange(n - 1 - (k - 1), n - 1));
        assert(t.first() == pass2_digit(params, k));
    }
}

/// Law: for a point other than the identity, the first sequence holds one doubling line
/// for each bit of `ate_loop_count_1` after the leading one, and one addition line for
/// each set bit among them; the second holds one doubling line for each digit of
/// `ate_loop_count_2` below the leading one, and one addition line for each of them that
/// is `1` or `-1`.
pub proof fn lemma_prepared_lengths(q: G2Affine, params: BW6Parameters)
    requires
        !q.infinity,
    ensures
        params.ate_loop_count_1@.len() >= 1 ==> prepared_of(q, params).0.len() == (
        params.ate_loop_count_1@.len() - 1) + count_set(
            params.ate_loop_count_1@.subrange(1, params.ate_loop_count_1@.len() as int),
        ),
        params.ate_loop_count_1@.len() == 0 ==> prepared_of(q, params).0.len() == 0,
        params.ate_loop_count_2@.len() >= 1 ==> prepared_of(q, params).1.len() == (
        params.ate_loop_count_2@.len() - 1) + count_unit_digits(
            params.ate_loop_count_2@.subrange(0, params.ate_loop_count_2@.len() - 1),
        ),
        params.ate_loop_count_2@.len() == 0 ==> prepared_of(q, params).1.len() == 0,
{
    if params.ate_loop_count_1@.len() >= 1 {
        lemma_pass1_len(q, params, params.ate_loop_count_1@.len());
    }
    if params.ate_loop_count_2@.len() >= 1 {
        lemma_pass2_len(q, params, pass2_steps(params));
    }
}

/// Law: the lengths of both sequences depend on the curve alone, not on which point
/// other than the identity was prepared.
pub proof fn lemma_prepared_lengths_fixed(q1: G2Affine, q2: G2Affine, params: BW6Parameters)
    requires
        !q1.infinity,
        !q2.infinity,
    ensures
        prepared_of(q1, params).0.len() == prepared_of(q2, params).0.len(),
        prepared_of(q1, params).1.len() == prepared_of(q2, params).1.len(),
{
    lemma_prepared_lengths(q1, params);
    lemma_prepared_lengths(q2, params);
}

/// Law: preparing one point twice gives identical coefficient sequences.
pub proof fn lemma_prepare_deterministic(
    q: G2Affine,
    params: BW6Parameters,
    r1: G2Prepared,
    r2: G2Prepared,
)
    requires
        r1@ == prepared_of(q, params),
        r2@ == prepared_of(q, params),
    ensures
        r1.ell_coeffs_1@ == r2.ell_coeffs_1@,
        r1.ell_coeffs_2@ == r2.ell_coeffs_2@,
        r1.infinity == r2.infinity,
{
}

/// A coefficient triple with its first and last entries exchanged.
pub open spec fn swap_ends(c: LineCoeff) -> LineCoeff {
    (c.2, c.1, c.0)
}

/// `pm` and `pd` describe the same curve, one with the M twist and one with the D twist.
pub open spec fn twins(pm: BW6Parameters, pd: BW6Parameters) -> bool {
    &&& pm.twist_type == TwistType::M
    &&& pd.twist_type == TwistType::D
    &&& pm.field == pd.field
    &&& pm.coeff_b == pd.coeff_b
    &&& pm.ate_loop_count_1@ == pd.ate_loop_count_1@
    &&& pm.ate_loop_count_2@ == pd.ate_loop_count_2@
}

proof fn lemma_pass1_twist(q: G2Affine, pm: BW6Parameters, pd: BW6Parameters, k: nat)
    requires
        twins(pm, pd),
    ensures
        pass1(q, pd, k).0 == pass1(q, pm, k).0,
        pass1(q, pd, k).1 == pass1(q, pm, k).1.map_values(|c: LineCoeff| swap_ends(c)),
    decreases k,
{
    if k > 1 {
        lemma_pass1_twist(q, pm, pd, (k - 1) as nat);
        let sm = pass1(q, pm, (k - 1) as nat).1;
        let dm = doubling_spec(pass1(q, pm, (k - 1) as nat).0, pm.coeff_b, pm.field, pm.twist_type);
        let am = addition_spec(dm.0, q.x, q.y, pm.field, pm.twist_type);
        assert(sm.push(dm.1).map_values(|c: LineCoeff| swap_ends(c)) =~= sm.map_values(
            |c: LineCoeff| swap_ends(c),
        ).push(swap_ends(dm.1)));
        assert(sm.push(dm.1).push(am.1).map_values(|c: LineCoeff| swap_ends(c)) =~= sm.map_values(
            |c: LineCoeff| swap_ends(c),
        ).push(swap_ends(dm.1)).push(swap_ends(am.1)));
    } else {
        assert(pass1(q, pm, k).1.map_values(|c: LineCoeff| swap_ends(c)) =~= Seq::<
            LineCoeff,
        >::empty());
    }
}

proof fn lemma_pass2_twist(q: G2Affine, pm: BW6Parameters, pd: BW6Parameters, k: nat)
    requires
        twins(pm, pd),
    ensures
        pass2(q, pd, k).0 == pass2(q, pm, k).0,
        pass2(q, pd, k).1 == pass2(q, pm, k).1.map_values(|c: LineCoeff| swap_ends(c)),
    decreases k,
{
    if k > 0 {
        lemma_pass2_twist(q, pm, pd, (k - 1) as nat);
        let sm = pass2(q, pm, (k - 1) as nat).1;
        let dm = doubling_spec(pass2(q, pm, (k - 1) as nat).0, pm.coeff_b, pm.field, pm.twist_type);
        let nq = q.neg_spec(pm.field);
        let am = addition_spec(dm.0, q.x, q.y, pm.field, pm.twist_type);
        let an = addition_spec(dm.0, nq.x, nq.y, pm.field, pm.twist_type);
        assert(pass2_digit(pd, k) == pass2_digit(pm, k));
        assert(sm.push(dm.1).map_values(|c: LineCoeff| swap_ends(c)) =~= sm.map_values(
            |c: LineCoeff| swap_ends(c),
        ).push(swap_ends(dm.1)));
        assert(sm.push(dm.1).push(am.1).map_values(|c: LineCoeff| swap_ends(c)) =~= sm.map_values(
            |c: LineCoeff| swap_ends(c),
        ).push(swap_ends(dm.1)).push(swap_ends(am.1)));
        assert(sm.push(dm.1).push(an.1).map_values(|c: LineCoeff| swap_ends(c)) =~= sm.map_values(
            |c: LineCoeff| swap_ends(c),
        ).push(swap_ends(dm.1)).push(swap_ends(an.1)));
    } else {
        assert(pass2(q, pm, k).1.map_values(|c: LineCoeff| swap_ends(c)) =~= Seq::<
            LineCoeff,
        >::empty());
    }
}

/// Law: the twist convention only fixes the order inside each coefficient triple.
/// Preparing a point on the D-twist form of a curve gives the triples of the M-twist
/// form, each with its first and last entries exchanged, and the same identity flag.
pub proof fn lemma_twist_reorders_only(q: G2Affine, pm: BW6Parameters, pd: BW6Parameters)
    requires
        twins(pm, pd),
    ensures
        prepared_of(q, pd).0 == prepared_of(q, pm).0.map_values(|c: LineCoeff| swap_ends(c)),
        prepared_of(q, pd).1 == prepared_of(q, pm).1.map_values(|c: LineCoeff| swap_ends(c)),
        prepared_of(q, pd).2 == prepared_of(q, pm).2,
{
    lemma_pass1_twist(q, pm, pd, pm.ate_loop_count_1@.len());
    lemma_pass2_twist(q, pm, pd, pass2_steps(pm));
    if q.infinity {
        assert(Seq::<LineCoeff>::empty().map_values(|c: LineCoeff| swap_ends(c)) =~= Seq::<
            LineCoeff,
        >::empty());
    }
}

proof fn lemma_push_canonical(s: Seq<LineCoeff>, c: LineCoeff, p: u64)
    requires
        coeffs_canonical(s, p),
        c.0 < p && c.1 < p && c.2 < p,
    ensures
        coeffs_canonical(s.push(c), p),
{
    assert forall|i: int| 0 <= i < s.push(c).len() implies #[trigger] s.push(c)[i].0 < p
        && s.push(c)[i].1 < p && s.push(c)[i].2 < p by {
        if i < s.len() {
            assert(s.push(c)[i] == s[i]);
        }
    }
}

proof fn lemma_pass1_canonical(q: G2Affine, params: BW6Parameters, k: nat)
    requires
        params.field.wf(),
    ensures
        coeffs_canonical(pass1(q, params, k).1, params.field.modulus),
    decreases k,
{
    broadcast use lemma_fe_canonical;

    let p = params.field.modulus;
    if k > 1 {
        lemma_pass1_canonical(q, params, (k - 1) as nat);
        let prev = pass1(q, params, (k - 1) as nat);
        let d = doubling_spec(prev.0, params.coeff_b, params.field, params.twist_type);
        let a = addition_spec(d.0, q.x, q.y, params.field, params.twist_type);
        lemma_push_canonical(prev.1, d.1, p);
        lemma_push_canonical(prev.1.push(d.1), a.1, p);
    }
}

proof fn lemma_pass2_canonical(q: G2Affine, params: BW6Parameters, k: nat)
    requires
        params.field.wf(),
    ensures
        coeffs_canonical(pass2(q, params, k).1, params.field.modulus),
    decreases k,
{
    broadcast use lemma_fe_canonical;

    let p = params.field.modulus;
    if k > 0 {
        lemma_pass2_canonical(q, params, (k - 1) as nat);
        let prev = pass2(q, params, (k - 1) as nat);
        let d = doubling_spec(prev.0, params.coeff_b, params.field, params.twist_type);
        let nq = q.neg_spec(params.field);
        let a = addition_spec(d.0, q.x, q.y, params.field, params.twist_type);
        let an = addition_spec(d.0, nq.x, nq.y, params.field, params.twist_type);
        lemma_push_canonical(prev.1, d.1, p);
        lemma_push_canonical(prev.1.push(d.1), a.1, p);
        lemma_push_canonical(prev.1.push(d.1), an.1, p);
    }
}

/// Every coefficient of a prepared point is a canonical field element.
pub proof fn lemma_prepared_canonical(q: G2Affine, params: BW6Parameters)
    requires
        params.field.wf(),
    ensures
        coeffs_canonical(prepared_of(q, params).0, params.field.modulus),
        coeffs_canonical(prepared_of(q, params).1, params.field.modulus),
{
    lemma_pass1_canonical(q, params, params.ate_loop_count_1@.len());
    lemma_pass2_canonical(q, params, pass2_steps(params));
}

} // verus!
