use vstd::prelude::*;
use crate::bw6::{
    coeffs_canonical, prepared_of, BW6Parameters, G1Affine, G1Prepared, G2Affine, G2Prepared,
    LineCoeff,
};
use crate::field::PrimeField;

verus! {

/// Why a byte sequence is not the encoding of a prepared point.
#[derive(Clone, Copy, Debug, PartialEq, Eq, Structural)]
pub enum SerializationError {
    /// The input ends before the value does.
    UnexpectedEnd,
    /// A field element is not below the modulus.
    NonCanonicalElement,
    /// A boolean byte is neither 0 nor 1.
    InvalidBool,
}

pub open spec fn u32_le(n: u32) -> Seq<u8> {
    seq![n as u8, (n >> 8u32) as u8, (n >> 16u32) as u8, (n >> 24u32) as u8]
}

pub open spec fn u64_le(v: u64) -> Seq<u8> {
    seq![
        v as u8,
        (v >> 8u64) as u8,
        (v >> 16u64) as u8,
        (v >> 24u64) as u8,
        (v >> 32u64) as u8,
        (v >> 40u64) as u8,
        (v >> 48u64) as u8,
        (v >> 56u64) as u8,
    ]
}

pub open spec fn bool_byte(b: bool) -> u8 {
    if b {
        1
    } else {
        0
    }
}

/// The little-endian `u32` held in `b[at..at + 4]`.
pub open spec fn u32_at(b: Seq<u8>, at: int) -> u32 {
    (b[at] as u32) | ((b[at + 1] as u32) << 8u32) | ((b[at + 2] as u32) << 16u32) | ((b[at
        + 3] as u32) << 24u32)
}

/// The little-endian `u64` held in `b[at..at + 8]`.
pub open spec fn u64_at(b: Seq<u8>, at: int) -> u64 {
    (b[at] as u64) | ((b[at + 1] as u64) << 8u64) | ((b[at + 2] as u64) << 16u64) | ((b[at
        + 3] as u64) << 24u64) | ((b[at + 4] as u64) << 32u64) | ((b[at + 5] as u64) << 40u64)
        | ((b[at + 6] as u64) << 48u64) | ((b[at + 7] as u64) << 56u64)
}

pub open spec fn coeff_bytes(c: LineCoeff) -> Seq<u8> {
    u64_le(c.0) + u64_le(c.1) + u64_le(c.2)
}

pub open spec fn coeffs_bytes(s: Seq<LineCoeff>) -> Seq<u8>
    decreases s.len(),
{
    if s.len() == 0 {
        seq![]
    } else {
        coeffs_bytes(s.drop_last()) + coeff_bytes(s.last())
    }
}

/// A length prefix followed by the coefficients.
pub open spec fn coeff_seq_bytes(s: Seq<LineCoeff>) -> Seq<u8> {
    u32_le(s.len() as u32) + coeffs_bytes(s)
}

/// The byte layout of a prepared second-group point.
pub open spec fn encode_g2(g: (Seq<LineCoeff>, Seq<LineCoeff>, bool)) -> Seq<u8> {
    coeff_seq_bytes(g.0) + coeff_seq_bytes(g.1) + seq![bool_byte(g.2)]
}

/// The byte layout of a first-group point: `x`, `y`, then the identity flag.
pub open spec fn encode_g1(a: G1Affine) -> Seq<u8> {
    u64_le(a.x) + u64_le(a.y) + seq![bool_byte(a.infinity)]
}

pub open spec fn read_u32(b: Seq<u8>, at: int) -> Result<u32, SerializationError> {
    if at + 4 > b.len() {
        Err(SerializationError::UnexpectedEnd)
    } else {
        Ok(u32_at(b, at))
    }
}

pub open spec fn read_fe(b: Seq<u8>, at: int, p: u64) -> Result<u64, SerializationError> {
    if at + 8 > b.len() {
        Err(SerializationError::UnexpectedEnd)
    } else if u64_at(b, at) >= p {
        Err(SerializationError::NonCanonicalElement)
    } else {
        Ok(u64_at(b, at))
    }
}

pub open spec fn read_bool(b: Seq<u8>, at: int) -> Result<bool, SerializationError> {
    if at + 1 > b.len() {
        Err(SerializationError::UnexpectedEnd)
    } else if b[at] == 0 {
        Ok(false)
    } else if b[at] == 1 {
        Ok(true)
    } else {
        Err(SerializationError::InvalidBool)
    }
}

pub open spec fn read_coeff(b: Seq<u8>, at: int, p: u64) -> Result<LineCoeff, SerializationError> {
    match read_fe(b, at, p) {
        Err(e) => Err(e),
        Ok(c0) => match read_fe(b, at + 8, p) {
            Err(e) => Err(e),
            Ok(c1) => match read_fe(b, at + 16, p) {
                Err(e) => Err(e),
                Ok(c2) => Ok((c0, c1, c2)),
            },
        },
    }
}

/// The first `n` coefficients stored from `at` on, read in order.
pub open spec fn read_coeffs(b: Seq<u8>, at: int, n: nat, p: u64) -> Result<
    Seq<LineCoeff>,
    SerializationError,
>
    decreases n,
{
    if n == 0 {
        Ok(seq![])
    } else {
        match read_coeffs(b, at, (n - 1) as nat, p) {
            Err(e) => Err(e),
            Ok(s) => match read_coeff(b, at + 24 * (n - 1), p) {
                Err(e) => Err(e),
                Ok(c) => Ok(s.push(c)),
            },
        }
    }
}

/// A length prefix at `at` and the coefficients it announces, with the position after them.
pub open spec fn read_coeff_seq(b: Seq<u8>, at: int, p: u64) -> Result<
    (Seq<LineCoeff>, int),
    SerializationError,
> {
    match read_u32(b, at) {
        Err(e) => Err(e),
        Ok(n) => match read_coeffs(b, at + 4, n as nat, p) {
            Err(e) => Err(e),
            Ok(s) => Ok((s, at + 4 + 24 * n)),
        },
    }
}

/// Decoding of a prepared second-group point from the front of `b`, with the number of
/// bytes it takes.
pub open spec fn decode_g2(b: Seq<u8>, p: u64) -> Result<
    ((Seq<LineCoeff>, Seq<LineCoeff>, bool), nat),
    SerializationError,
> {
    match read_coeff_seq(b, 0, p) {
        Err(e) => Err(e),
        Ok((s1, at1)) => match read_coeff_seq(b, at1, p) {
            Err(e) => Err(e),
            Ok((s2, at2)) => match read_bool(b, at2) {
                Err(e) => Err(e),
                Ok(inf) => Ok(((s1, s2, inf), (at2 + 1) as nat)),
            },
        },
    }
}

/// Decoding of a first-group point from the front of `b`, with the number of bytes it takes.
pub open spec fn decode_g1(b: Seq<u8>, p: u64) -> Result<(G1Affine, nat), SerializationError> {
    match read_fe(b, 0, p) {
        Err(e) => Err(e),
        Ok(x) => match read_fe(b, 8, p) {
            Err(e) => Err(e),
            Ok(y) => match read_bool(b, 16) {
                Err(e) => Err(e),
                Ok(inf) => Ok((G1Affine { x, y, infinity: inf }, 17)),
            },
        },
    }
}

fn write_u32(out: &mut Vec<u8>, n: u32)
    ensures
        final(out)@ == old(out)@ + u32_le(n),
{
    out.push(n as u8);
    out.push((n >> 8u32) as u8);
    out.push((n >> 16u32) as u8);
    out.push((n >> 24u32) as u8);
    proof {
        assert(final(out)@ =~= old(out)@ + u32_le(n));
    }
}

fn write_u64(out: &mut Vec<u8>, v: u64)
    ensures
        final(out)@ == old(out)@ + u64_le(v),
{
    out.push(v as u8);
    out.push((v >> 8u64) as u8);
    out.push((v >> 16u64) as u8);
    out.push((v >> 24u64) as u8);
    out.push((v >> 32u64) as u8);
    out.push((v >> 40u64) as u8);
    out.push((v >> 48u64) as u8);
    out.push((v >> 56u64) as u8);
    proof {
        assert(final(out)@ =~= old(out)@ + u64_le(v));
    }
}

fn write_bool(out: &mut Vec<u8>, b: bool)
    ensures
        final(out)@ == old(out)@.push(bool_byte(b)),
{
    if b {
        out.push(1u8);
    } else {
        out.push(0u8);
    }
}

fn write_coeff_seq(out: &mut Vec<u8>, s: &Vec<LineCoeff>)
    requires
        s@.len() <= u32::MAX,
    ensures
        final(out)@ == old(out)@ + coeff_seq_bytes(s@),
{
    write_u32(out, s.len() as u32);
    let ghost start = out@;
    let mut i: usize = 0;
    while i < s.len()
        invariant
            i <= s@.len(),
            out@ == start + coeffs_bytes(s@.subrange(0, i as int)),
        decreases s@.len() - i,
    {
        let c = s[i];
        write_u64(out, c.0);
        write_u64(out, c.1);
        write_u64(out, c.2);
        proof {
            let t = s@.subrange(0, i + 1);
            assert(t.drop_last() =~= s@.subrange(0, i as int));
            assert(t.last() == c);
        }
        i = i + 1;
    }
    proof {
        assert(s@.subrange(0, s@.len() as int) =~= s@);
    }
}

fn read_u32_exec(b: &[u8], at: usize) -> (r: Result<u32, SerializationError>)
    requires
        at <= b@.len(),
    ensures
        r == read_u32(b@, at as int),
{
    if b.len() - at < 4 {
        return Err(SerializationError::UnexpectedEnd);
    }
    Ok((b[at] as u32) | ((b[at + 1] as u32) << 8u32) | ((b[at + 2] as u32) << 16u32) | ((b[at
        + 3] as u32) << 24u32))
}

fn read_fe_exec(b: &[u8], at: usize, f: &PrimeField) -> (r: Result<u64, SerializationError>)
    requires
        at <= b@.len(),
    ensures
        r == read_fe(b@, at as int, f.modulus),
{
    if b.len() - at < 8 {
        return Err(SerializationError::UnexpectedEnd);
    }
    let v = (b[at] as u64) | ((b[at + 1] as u64) << 8u64) | ((b[at + 2] as u64) << 16u64) | ((b[at
        + 3] as u64) << 24u64) | ((b[at + 4] as u64) << 32u64) | ((b[at + 5] as u64) << 40u64)
        | ((b[at + 6] as u64) << 48u64) | ((b[at + 7] as u64) << 56u64);
    if !f.is_canonical(v) {
        return Err(SerializationError::NonCanonicalElement);
    }
    Ok(v)
}

fn read_bool_exec(b: &[u8], at: usize) -> (r: Result<bool, SerializationError>)
    requires
        at <= b@.len(),
    ensures
        r == read_bool(b@, at as int),
{
    if b.len() - at < 1 {
        return Err(SerializationError::UnexpectedEnd);
    }
    if b[at] == 0 {
        Ok(false)
    } else if b[at] == 1 {
        Ok(true)
    } else {
        Err(SerializationError::InvalidBool)
    }
}

/// Once reading the coefficients fails, reading more of them fails the same way.
proof fn lemma_read_coeffs_err(b: Seq<u8>, at: int, k: nat, n: nat, p: u64)
    requires
        k <= n,
        read_coeffs(b, at, k, p) is Err,
    ensures
        read_coeffs(b, at, n, p) == read_coeffs(b, at, k, p),
    decreases n - k,
{
    if k < n {
        lemma_read_coeffs_err(b, at, k, (n - 1) as nat, p);
    }
}

fn read_coeff_seq_exec(b: &[u8], at: usize, f: &PrimeField) -> (r: Result<
    (Vec<LineCoeff>, usize),
    SerializationError,
>)
    requires
        at <= b@.len(),
    ensures
        match r {
            Ok((v, next)) => next <= b@.len() && read_coeff_seq(b@, at as int, f.modulus) == Ok::<
                _,
                SerializationError,
            >((v@, next as int)),
            Err(e) => read_coeff_seq(b@, at as int, f.modulus) == Err::<
                (Seq<LineCoeff>, int),
                _,
            >(e),
        },
{
    let len = b.len();
    let n = match read_u32_exec(b, at) {
        Ok(n) => n,
        Err(e) => return Err(e),
    };
    let ghost p = f.modulus;
    assert(at + 4 <= len);
    let start = at + 4;
    let mut pos = start;
    let mut v: Vec<LineCoeff> = Vec::new();
    let mut k: u32 = 0;
    while k < n
        invariant
            at + 4 <= b@.len(),
            len == b@.len(),
            read_u32(b@, at as int) == Ok::<u32, SerializationError>(n),
            start == at + 4,
            k <= n,
            pos == start + 24 * k,
            pos <= b@.len(),
            read_coeffs(b@, start as int, k as nat, p) == Ok::<_, SerializationError>(v@),
            p == f.modulus,
        decreases n - k,
    {
        let ghost k1 = (k + 1) as nat;
        let c0 = match read_fe_exec(b, pos, f) {
            Ok(c) => c,
            Err(e) => {
                proof {
                    assert(read_coeffs(b@, start as int, k1, p) == Err::<Seq<LineCoeff>, _>(e));
                    lemma_read_coeffs_err(b@, start as int, k1, n as nat, p);
                }
                return Err(e);
            },
        };
        let c1 = match read_fe_exec(b, pos + 8, f) {
            Ok(c) => c,
            Err(e) => {
                proof {
                    assert(read_coeffs(b@, start as int, k1, p) == Err::<Seq<LineCoeff>, _>(e));
                    lemma_read_coeffs_err(b@, start as int, k1, n as nat, p);
                }
                return Err(e);
            },
        };
        let c2 = match read_fe_exec(b, pos + 16, f) {
            Ok(c) => c,
            Err(e) => {
                proof {
                    assert(read_coeffs(b@, start as int, k1, p) == Err::<Seq<LineCoeff>, _>(e));
                    lemma_read_coeffs_err(b@, start as int, k1, n as nat, p);
                }
                return Err(e);
            },
        };
        v.push((c0, c1, c2));
        pos = pos + 24;
        k = k + 1;
    }
    Ok((v, pos))
}

impl G2Prepared {
    /// Appends the encoding: each sequence as a `u32` little-endian length and its
    /// coefficients, each field element as eight little-endian bytes, then the identity
    /// flag as one byte.
    pub fn write_le(&self, out: &mut Vec<u8>)
        requires
            self.ell_coeffs_1@.len() <= u32::MAX,
            self.ell_coeffs_2@.len() <= u32::MAX,
        ensures
            final(out)@ == old(out)@ + encode_g2(self@),
    {
        write_coeff_seq(out, &self.ell_coeffs_1);
        write_coeff_seq(out, &self.ell_coeffs_2);
        write_bool(out, self.infinity);
        proof {
            assert(final(out)@ =~= old(out)@ + encode_g2(self@));
        }
    }

    /// Reads a prepared point from the front of `bytes`; gives it with the number of
    /// bytes it took.
    pub fn read_le(bytes: &[u8], field: &PrimeField) -> (r: Result<(G2Prepared, usize), SerializationError>)
        ensures
            match r {
                Ok((g, used)) => decode_g2(bytes@, field.modulus) == Ok::<_, SerializationError>(
                    (g@, used as nat),
                ),
                Err(e) => decode_g2(bytes@, field.modulus) == Err::<
                    ((Seq<LineCoeff>, Seq<LineCoeff>, bool), nat),
                    _,
                >(e),
            },
    {
        let (ell_coeffs_1, at1) = match read_coeff_seq_exec(bytes, 0, field) {
            Ok(x) => x,
            Err(e) => return Err(e),
        };
        let (ell_coeffs_2, at2) = match read_coeff_seq_exec(bytes, at1, field) {
            Ok(x) => x,
            Err(e) => return Err(e),
        };
        let infinity = match read_bool_exec(bytes, at2) {
            Ok(x) => x,
            Err(e) => return Err(e),
        };
        Ok((G2Prepared { ell_coeffs_1, ell_coeffs_2, infinity }, at2 + 1))
    }
}

impl G1Prepared {
    /// Appends the encoding of the wrapped point: `x` and `y` as eight little-endian
    /// bytes each, then the identity flag as one byte.
    pub fn write_le(&self, out: &mut Vec<u8>)
        ensures
            final(out)@ == old(out)@ + encode_g1(self.0),
    {
        write_u64(out, self.0.x);
        write_u64(out, self.0.y);
        write_bool(out, self.0.infinity);
        proof {
            assert(final(out)@ =~= old(out)@ + encode_g1(self.0));
        }
    }

    /// Reads a prepared point from the front of `bytes`; gives it with the number of
    /// bytes it took.
    pub fn read_le(bytes: &[u8], field: &PrimeField) -> (r: Result<(G1Prepared, usize), SerializationError>)
        ensures
            match r {
                Ok((g, used)) => decode_g1(bytes@, field.modulus) == Ok::<_, SerializationError>(
                    (g.0, used as nat),
                ),
                Err(e) => decode_g1(bytes@, field.modulus) == Err::<(G1Affine, nat), _>(e),
            },
    {
        let x = match read_fe_exec(bytes, 0, field) {
            Ok(v) => v,
            Err(e) => return Err(e),
        };
        let y = match read_fe_exec(bytes, 8, field) {
            Ok(v) => v,
            Err(e) => return Err(e),
        };
        let infinity = match read_bool_exec(bytes, 16) {
            Ok(v) => v,
            Err(e) => return Err(e),
        };
        Ok((G1Prepared(G1Affine { x, y, infinity }), 17))
    }
}

proof fn lemma_u32_at(b: Seq<u8>, at: int, n: u32)
    requires
        0 <= at,
        at + 4 <= b.len(),
        b.subrange(at, at + 4) == u32_le(n),
    ensures
        u32_at(b, at) == n,
{
    let w = b.subrange(at, at + 4);
    assert(b[at] == w[0] && b[at + 1] == w[1] && b[at + 2] == w[2] && b[at + 3] == w[3]);
    assert(((n as u8) as u32) | ((((n >> 8u32) as u8) as u32) << 8u32) | ((((n >> 16u32) as u8)
        as u32) << 16u32) | ((((n >> 24u32) as u8) as u32) << 24u32) == n) by (bit_vector);
}

proof fn lemma_u64_at(b: Seq<u8>, at: int, v: u64)
    requires
        0 <= at,
        at + 8 <= b.len(),
        b.subrange(at, at + 8) == u64_le(v),
    ensures
        u64_at(b, at) == v,
{
    let w = b.subrange(at, at + 8);
    assert(b[at] == w[0] && b[at + 1] == w[1] && b[at + 2] == w[2] && b[at + 3] == w[3]);
    assert(b[at + 4] == w[4] && b[at + 5] == w[5] && b[at + 6] == w[6] && b[at + 7] == w[7]);
    assert(((v as u8) as u64) | ((((v >> 8u64) as u8) as u64) << 8u64) | ((((v >> 16u64) as u8)
        as u64) << 16u64) | ((((v >> 24u64) as u8) as u64) << 24u64) | ((((v >> 32u64) as u8)
        as u64) << 32u64) | ((((v >> 40u64) as u8) as u64) << 40u64) | ((((v >> 48u64) as u8)
        as u64) << 48u64) | ((((v >> 56u64) as u8) as u64) << 56u64) == v) by (bit_vector);
}

proof fn lemma_coeffs_bytes_len(s: Seq<LineCoeff>)
    ensures
        coeffs_bytes(s).len() == 24 * s.len(),
    decreases s.len(),
{
    if s.len() > 0 {
        lemma_coeffs_bytes_len(s.drop_last());
    }
}

proof fn lemma_read_coeffs_of(b: Seq<u8>, at: int, s: Seq<LineCoeff>, p: u64)
    requires
        0 <= at,
        at + 24 * s.len() <= b.len(),
        b.subrange(at, at + 24 * s.len()) == coeffs_bytes(s),
        coeffs_canonical(s, p),
    ensures
        read_coeffs(b, at, s.len(), p) == Ok::<_, SerializationError>(s),
    decreases s.len(),
{
    if s.len() > 0 {
        let n = s.len();
        let t = s.drop_last();
        let c = s.last();
        let o = at + 24 * (n - 1);
        lemma_coeffs_bytes_len(t);
        let whole = b.subrange(at, at + 24 * n);
        assert(whole == coeffs_bytes(t) + coeff_bytes(c));
        assert(b.subrange(at, at + 24 * t.len()) =~= whole.subrange(0, 24 * (n - 1)));
        assert(whole.subrange(0, 24 * (n - 1)) =~= coeffs_bytes(t));
        assert(coeffs_canonical(t, p)) by {
            assert forall|i: int| 0 <= i < t.len() implies #[trigger] t[i].0 < p && t[i].1 < p
                && t[i].2 < p by {
                assert(t[i] == s[i]);
            }
        }
        lemma_read_coeffs_of(b, at, t, p);
        assert(s[n - 1] == c);
        assert(b.subrange(o, o + 8) =~= u64_le(c.0)) by {
            assert forall|i: int| 0 <= i < 8 implies #[trigger] b.subrange(o, o + 8)[i] == u64_le(
                c.0,
            )[i] by {
                assert(b.subrange(o, o + 8)[i] == whole[24 * (n - 1) + i]);
                assert(coeff_bytes(c)[i] == u64_le(c.0)[i]);
            }
        }
        assert(b.subrange(o + 8, o + 16) =~= u64_le(c.1)) by {
            assert forall|i: int| 0 <= i < 8 implies #[trigger] b.subrange(o + 8, o + 16)[i]
                == u64_le(c.1)[i] by {
                assert(b.subrange(o + 8, o + 16)[i] == whole[24 * (n - 1) + 8 + i]);
                assert(coeff_bytes(c)[8 + i] == u64_le(c.1)[i]);
            }
        }
        assert(b.subrange(o + 16, o + 24) =~= u64_le(c.2)) by {
            assert forall|i: int| 0 <= i < 8 implies #[trigger] b.subrange(o + 16, o + 24)[i]
                == u64_le(c.2)[i] by {
                assert(b.subrange(o + 16, o + 24)[i] == whole[24 * (n - 1) + 16 + i]);
                assert(coeff_bytes(c)[16 + i] == u64_le(c.2)[i]);
            }
        }
        lemma_u64_at(b, o, c.0);
        lemma_u64_at(b, o + 8, c.1);
        lemma_u64_at(b, o + 16, c.2);
        assert(c.0 < p && c.1 < p && c.2 < p);
        assert(read_coeff(b, o, p) == Ok::<_, SerializationError>(c));
        assert(read_coeffs(b, at, (n - 1) as nat, p) == Ok::<_, SerializationError>(t));
        assert(t.push(c) =~= s);
    } else {
        assert(s =~= seq![]);
    }
}

/// Decoding the length prefix and coefficients that `coeff_seq_bytes` lays out at `at`
/// gives them back, with the position after them.
proof fn lemma_read_coeff_seq_of(b: Seq<u8>, at: int, s: Seq<LineCoeff>, p: u64)
    requires
        0 <= at,
        s.len() <= u32::MAX,
        at + coeff_seq_bytes(s).len() <= b.len(),
        b.subrange(at, at + coeff_seq_bytes(s).len()) == coeff_seq_bytes(s),
        coeffs_canonical(s, p),
    ensures
        coeff_seq_bytes(s).len() == 4 + 24 * s.len(),
        read_coeff_seq(b, at, p) == Ok::<_, SerializationError>((s, at + 4 + 24 * s.len())),
{
    lemma_coeffs_bytes_len(s);
    let n = s.len() as int;
    let whole = b.subrange(at, at + 4 + 24 * n);
    assert(b.subrange(at, at + 4) =~= whole.subrange(0, 4));
    assert(whole.subrange(0, 4) =~= u32_le(n as u32));
    lemma_u32_at(b, at, n as u32);
    assert(b.subrange(at + 4, at + 4 + 24 * n) =~= whole.subrange(4, 4 + 24 * n));
    assert(whole.subrange(4, 4 + 24 * n) =~= coeffs_bytes(s));
    lemma_read_coeffs_of(b, at + 4, s, p);
}

/// Law: a prepared second-group point whose coefficients are canonical decodes from
/// the front of its own encoding, followed by any bytes, as itself, and decoding takes
/// exactly the encoding.
pub proof fn lemma_decode_encode_g2(
    g: (Seq<LineCoeff>, Seq<LineCoeff>, bool),
    p: u64,
    rest: Seq<u8>,
)
    requires
        g.0.len() <= u32::MAX,
        g.1.len() <= u32::MAX,
        coeffs_canonical(g.0, p),
        coeffs_canonical(g.1, p),
    ensures
        decode_g2(encode_g2(g) + rest, p) == Ok::<_, SerializationError>(
            (g, encode_g2(g).len()),
        ),
{
    let e1 = coeff_seq_bytes(g.0);
    let e2 = coeff_seq_bytes(g.1);
    let b = encode_g2(g) + rest;
    lemma_coeffs_bytes_len(g.0);
    lemma_coeffs_bytes_len(g.1);
    assert(b.subrange(0, e1.len() as int) =~= e1);
    lemma_read_coeff_seq_of(b, 0, g.0, p);
    let at1 = e1.len() as int;
    assert(b.subrange(at1, at1 + e2.len()) =~= e2);
    lemma_read_coeff_seq_of(b, at1, g.1, p);
    let at2 = at1 + e2.len();
    assert(b[at2] == bool_byte(g.2));
    assert(read_bool(b, at2) == Ok::<_, SerializationError>(g.2));
}

/// Law: a first-group point with canonical coordinates decodes from the front of its
/// own encoding, followed by any bytes, as itself, and decoding takes exactly the encoding.
pub proof fn lemma_decode_encode_g1(a: G1Affine, p: u64, rest: Seq<u8>)
    requires
        a.x < p,
        a.y < p,
    ensures
        decode_g1(encode_g1(a) + rest, p) == Ok::<_, SerializationError>((a, encode_g1(a).len())),
{
    let b = encode_g1(a) + rest;
    assert(b.subrange(0, 8) =~= u64_le(a.x));
    assert(b.subrange(8, 16) =~= u64_le(a.y));
    lemma_u64_at(b, 0, a.x);
    lemma_u64_at(b, 8, a.y);
    assert(b[16] == bool_byte(a.infinity));
}

/// Law: every point prepared on a curve decodes from its own encoding, followed by any
/// bytes, as itself, whenever both sequences fit the `u32` length prefix.
pub proof fn lemma_prepared_round_trip(q: G2Affine, params: BW6Parameters, rest: Seq<u8>)
    requires
        params.wf(),
        prepared_of(q, params).0.len() <= u32::MAX,
        prepared_of(q, params).1.len() <= u32::MAX,
    ensures
        decode_g2(encode_g2(prepared_of(q, params)) + rest, params.field.modulus) == Ok::<
            _,
            SerializationError,
        >((prepared_of(q, params), encode_g2(prepared_of(q, params)).len())),
{
    crate::bw6::lemma_prepared_canonical(q, params);
    lemma_decode_encode_g2(prepared_of(q, params), params.field.modulus, rest);
}

} // verus!
