//! The group, field and hash operations the scheme is built on.
//!
//! Points of G1 travel as their 96-byte uncompressed encoding and scalars as
//! 32-byte big-endian encodings. Scalar arithmetic is stated exactly, modulo
//! the group order; what the host computes on points, and SHA-256, are named
//! by spec functions without a body, and the scheme's contracts are stated
//! over those names.
use soroban_sdk::crypto::bls12_381::{Fr, G1Affine};
use soroban_sdk::{Bytes, BytesN, Env};
use vstd::prelude::*;

verus! {

/// The Soroban environment through which every host operation is made.
#[verifier::external_type_specification]
#[verifier::external_body]
pub struct ExEnv(Env);

/// A scalar of the BLS12-381 scalar field, big-endian.
pub type Scalar = [u8; 32];

/// The standard generator of BLS12-381 G1, uncompressed.
pub const G1_GENERATOR: [u8; 96] = [
    0x17, 0xf1, 0xd3, 0xa7, 0x31, 0x97, 0xd7, 0x94, 0x26, 0x95, 0x63, 0x8c, 0x4f, 0xa9, 0xac, 0x0f,
    0xc3, 0x68, 0x8c, 0x4f, 0x97, 0x74, 0xb9, 0x05, 0xa1, 0x4e, 0x3a, 0x3f, 0x17, 0x1b, 0xac, 0x58,
    0x6c, 0x55, 0xe8, 0x3f, 0xf9, 0x7a, 0x1a, 0xef, 0xfb, 0x3a, 0xf0, 0x0a, 0xdb, 0x22, 0xc6, 0xbb,
    0x11, 0x4d, 0x1d, 0x68, 0x55, 0xd5, 0x45, 0xa8, 0xaa, 0x7d, 0x76, 0xc8, 0xcf, 0x2e, 0x21, 0xf2,
    0x67, 0x81, 0x6a, 0xef, 0x1d, 0xb5, 0x07, 0xc9, 0x66, 0x55, 0xb9, 0xd5, 0xca, 0xac, 0x42, 0x36,
    0x4e, 0x6f, 0x38, 0xba, 0x0e, 0xcb, 0x75, 0x1b, 0xad, 0x54, 0xdc, 0xd6, 0xb9, 0x39, 0xc2, 0xca,
];

/// The SHA-256 digest of a byte string.
pub uninterp spec fn sha256_of(data: Seq<u8>) -> Seq<u8>;

/// The order of G1, which is the modulus of the scalar field.
pub open spec fn fr_modulus() -> nat {
    0x73eda753299d7d483339d80809a1d805 * 0x10000000000000000 * 0x10000000000000000
        + 0x53bda402fffe5bfeffffffff00000001
}

/// The number that a big-endian byte string encodes.
pub open spec fn be_value(b: Seq<u8>) -> nat
    decreases b.len(),
{
    if b.len() == 0 {
        0
    } else {
        be_value(b.drop_last()) * 256 + b.last() as nat
    }
}

/// The `len`-byte big-endian encoding of `n` (its low `len` bytes).
pub open spec fn be_bytes(n: nat, len: nat) -> Seq<u8>
    decreases len,
{
    if len == 0 {
        Seq::empty()
    } else {
        be_bytes(n / 256, (len - 1) as nat).push((n % 256) as u8)
    }
}

/// The canonical encoding of a field element given as a number.
pub open spec fn fr_encode(n: int) -> Seq<u8> {
    be_bytes((n % fr_modulus() as int) as nat, 32)
}

/// The canonical encoding of a byte string read as a scalar: its value
/// reduced modulo the group order.
pub open spec fn fr_of(b: Seq<u8>) -> Seq<u8> {
    fr_encode(be_value(b) as int)
}

/// The modulus of the base field of BLS12-381, big-endian.
pub const FP_MODULUS: [u8; 48] = [
    0x1a, 0x01, 0x11, 0xea, 0x39, 0x7f, 0xe6, 0x9a, 0x4b, 0x1b, 0xa7, 0xb6, 0x43, 0x4b, 0xac, 0xd7,
    0x64, 0x77, 0x4b, 0x84, 0xf3, 0x85, 0x12, 0xbf, 0x67, 0x30, 0xd2, 0xa0, 0xf6, 0xb0, 0xf6, 0x24,
    0x1e, 0xab, 0xff, 0xfe, 0xb1, 0x53, 0xff, 0xff, 0xb9, 0xfe, 0xff, 0xff, 0xff, 0xff, 0xaa, 0xab,
];

/// `a` is below `b` read as big-endian numbers of the same length: they
/// agree up to some byte, where `a`'s is the smaller.
pub open spec fn be_less(a: Seq<u8>, b: Seq<u8>) -> bool {
    exists|i: int| 0 <= i < a.len() && #[trigger] a.subrange(0, i) == b.subrange(0, i) && a[i] < b[i]
}

/// The host can decode `b` as an uncompressed G1 encoding: either the point at
/// infinity (only the infinity flag set, every other bit zero), or no flag set
/// and both 48-byte coordinates below the base field's modulus.
pub open spec fn g1_decodes(b: Seq<u8>) -> bool {
    &&& b.len() == 96
    &&& {
        ||| b[0] == 0x40 && forall|i: int| 1 <= i < 96 ==> b[i] == 0
        ||| b[0] < 0x20 && be_less(b.subrange(0, 48), FP_MODULUS@) && be_less(
            b.subrange(48, 96),
            FP_MODULUS@,
        )
    }
}

/// The decoded point lies on the curve.
pub uninterp spec fn g1_on_curve_of(b: Seq<u8>) -> bool;

/// The decoded point lies in the prime-order subgroup.
pub uninterp spec fn g1_in_subgroup_of(b: Seq<u8>) -> bool;

/// `b` encodes a point of the prime-order subgroup of G1.
pub open spec fn g1_valid(b: Seq<u8>) -> bool {
    g1_decodes(b) && g1_on_curve_of(b) && g1_in_subgroup_of(b)
}

/// `s · p` in G1.
pub uninterp spec fn g1_mul_of(p: Seq<u8>, s: Seq<u8>) -> Seq<u8>;

/// `p + q` in G1.
pub uninterp spec fn g1_add_of(p: Seq<u8>, q: Seq<u8>) -> Seq<u8>;

/// `a − b` in the scalar field.
pub open spec fn fr_sub_of(a: Seq<u8>, b: Seq<u8>) -> Seq<u8> {
    fr_encode(be_value(a) as int - be_value(b) as int)
}

/// `a · b` in the scalar field.
pub open spec fn fr_mul_of(a: Seq<u8>, b: Seq<u8>) -> Seq<u8> {
    fr_encode(be_value(a) as int * be_value(b) as int)
}

/// A point of G1, as its uncompressed encoding.
///
/// A value is only ever made from the generator, from bytes that pass
/// `from_bytes`'s checks, or as the result of a group operation of the host,
/// so it always encodes a point of the prime-order subgroup, which is what
/// the host's group operations ask of their inputs.
#[derive(Clone, Copy, Debug, PartialEq, Eq)]
pub struct G1Point {
    bytes: [u8; 96],
}

impl View for G1Point {
    type V = Seq<u8>;

    closed spec fn view(&self) -> Seq<u8> {
        self.bytes@
    }
}

impl G1Point {
    /// The generator of G1.
    pub fn generator() -> (r: G1Point)
        ensures
            r@ == G1_GENERATOR@,
    {
        G1Point { bytes: G1_GENERATOR }
    }

    /// The point that `b` encodes, or `None` when `b` is not the encoding of a
    /// point of the prime-order subgroup.
    pub fn from_bytes(env: &Env, b: &[u8; 96]) -> (r: Option<G1Point>)
        ensures
            r.is_some() == g1_valid(b@),
            r.is_some() ==> r.unwrap()@ == b@,
    {
        if !g1_decodes_exec(b) {
            return None;
        }
        if !g1_on_curve(env, b) {
            return None;
        }
        if !g1_in_subgroup(env, b) {
            return None;
        }
        Some(G1Point { bytes: *b })
    }

    /// The point's 96-byte uncompressed encoding.
    pub fn to_bytes(&self) -> (r: [u8; 96])
        ensures
            r@ == self@,
    {
        self.bytes
    }
}

/// Whether the 48 bytes of `a` from `start` are below `m`, big-endian.
fn be_below(a: &[u8; 96], start: usize, m: &[u8; 48]) -> (r: bool)
    requires
        start + 48 <= 96,
    ensures
        r == be_less(a@.subrange(start as int, start + 48), m@),
{
    let ghost x = a@.subrange(start as int, start + 48);
    let mut i: usize = 0;
    while i < 48
        invariant
            i <= 48,
            start + 48 <= 96,
            x == a@.subrange(start as int, start + 48),
            x.subrange(0, i as int) == m@.subrange(0, i as int),
        decreases 48 - i,
    {
        if a[start + i] < m[i] {
            assert(x[i as int] == a@[start + i]);
            assert(x.subrange(0, i as int) == m@.subrange(0, i as int));
            return true;
        }
        if a[start + i] > m[i] {
            assert forall|j: int| 0 <= j < x.len() && #[trigger] x.subrange(0, j) == m@.subrange(0, j) implies !(x[j] < m@[j]) by {
                if j < i {
                    assert(x.subrange(0, i as int)[j] == m@.subrange(0, i as int)[j]);
                } else if j > i {
                    assert(x.subrange(0, j)[i as int] == m@.subrange(0, j)[i as int]);
                }
            }
            return false;
        }
        assert(x.subrange(0, i + 1) =~= x.subrange(0, i as int).push(x[i as int]));
        assert(m@.subrange(0, i + 1) =~= m@.subrange(0, i as int).push(m@[i as int]));
        i += 1;
    }
    assert forall|j: int| 0 <= j < x.len() && #[trigger] x.subrange(0, j) == m@.subrange(0, j) implies !(x[j] < m@[j]) by {
        assert(x.subrange(0, 48)[j] == m@.subrange(0, 48)[j]);
    }
    false
}

/// Whether the host can decode `b` as an uncompressed G1 encoding.
fn g1_decodes_exec(b: &[u8; 96]) -> (r: bool)
    ensures
        r == g1_decodes(b@),
{
    if b[0] == 0x40 {
        let mut i: usize = 1;
        while i < 96
            invariant
                1 <= i <= 96,
                b@[0] == 0x40,
                forall|j: int| 1 <= j < i ==> b@[j] == 0,
            decreases 96 - i,
        {
            if b[i] != 0 {
                return false;
            }
            i += 1;
        }
        true
    } else if b[0] < 0x20 {
        be_below(b, 0, &FP_MODULUS) && be_below(b, 48, &FP_MODULUS)
    } else {
        false
    }
}

/// Relies on soroban_sdk's `Bls12_381::g1_is_on_curve`: whether the point lies
/// on the curve. The host traps on an encoding it cannot decode, which the
/// `requires` rules out.
#[verifier::external_body]
fn g1_on_curve(env: &Env, b: &[u8; 96]) -> (r: bool)
    requires
        g1_decodes(b@),
    ensures
        r == g1_on_curve_of(b@),
{
    env.crypto().bls12_381().g1_is_on_curve(&G1Affine::from_bytes(BytesN::from_array(env, b)))
}

/// Relies on soroban_sdk's `Bls12_381::g1_is_in_subgroup`: whether the point
/// lies in the prime-order subgroup. The host traps on an encoding it cannot
/// decode or a point off the curve, which the `requires` rules out.
#[verifier::external_body]
fn g1_in_subgroup(env: &Env, b: &[u8; 96]) -> (r: bool)
    requires
        g1_decodes(b@),
        g1_on_curve_of(b@),
    ensures
        r == g1_in_subgroup_of(b@),
{
    env.crypto().bls12_381().g1_is_in_subgroup(&G1Affine::from_bytes(BytesN::from_array(env, b)))
}

/// Relies on soroban_sdk's `Crypto::sha256`: the SHA-256 digest of the bytes.
#[verifier::external_body]
pub(crate) fn sha256(env: &Env, data: &[u8]) -> (r: [u8; 32])
    ensures
        r@ == sha256_of(data@),
{
    env.crypto().sha256(&Bytes::from_slice(env, data)).to_array()
}

/// Relies on soroban_sdk's `Fr::from_bytes`, which reads the bytes as a
/// big-endian number and reduces it modulo the group order, and `Fr::to_bytes`,
/// which encodes it back in 32 big-endian bytes.
#[verifier::external_body]
pub(crate) fn fr_canonical(env: &Env, b: &Scalar) -> (r: Scalar)
    ensures
        r@ == fr_of(b@),
{
    Fr::from_bytes(BytesN::from_array(env, b)).to_bytes().to_array()
}

/// Relies on soroban_sdk's `Bls12_381::g1_mul`: the scalar multiple `s · p`.
#[verifier::external_body]
pub(crate) fn g1_mul(env: &Env, p: &G1Point, s: &Scalar) -> (r: G1Point)
    ensures
        r@ == g1_mul_of(p@, s@),
{
    let point = G1Affine::from_bytes(BytesN::from_array(env, &p.bytes));
    let scalar = Fr::from_bytes(BytesN::from_array(env, s));
    G1Point { bytes: env.crypto().bls12_381().g1_mul(&point, &scalar).to_array() }
}

/// Relies on soroban_sdk's `Bls12_381::g1_add`: the sum `p + q`.
#[verifier::external_body]
pub(crate) fn g1_add(env: &Env, p: &G1Point, q: &G1Point) -> (r: G1Point)
    ensures
        r@ == g1_add_of(p@, q@),
{
    let p0 = G1Affine::from_bytes(BytesN::from_array(env, &p.bytes));
    let p1 = G1Affine::from_bytes(BytesN::from_array(env, &q.bytes));
    G1Point { bytes: env.crypto().bls12_381().g1_add(&p0, &p1).to_array() }
}

/// Relies on soroban_sdk's `Fr::from_bytes` (reduction of both operands) and
/// `Bls12_381::fr_sub`: `a − b` modulo the group order, as 32 big-endian bytes.
#[verifier::external_body]
pub(crate) fn fr_sub(env: &Env, a: &Scalar, b: &Scalar) -> (r: Scalar)
    ensures
        r@ == fr_sub_of(a@, b@),
{
    let lhs = Fr::from_bytes(BytesN::from_array(env, a));
    let rhs = Fr::from_bytes(BytesN::from_array(env, b));
    env.crypto().bls12_381().fr_sub(&lhs, &rhs).to_bytes().to_array()
}

/// Relies on soroban_sdk's `Fr::from_bytes` (reduction of both operands) and
/// `Bls12_381::fr_mul`: `a · b` modulo the group order, as 32 big-endian bytes.
#[verifier::external_body]
pub(crate) fn fr_mul(env: &Env, a: &Scalar, b: &Scalar) -> (r: Scalar)
    ensures
        r@ == fr_mul_of(a@, b@),
{
    let lhs = Fr::from_bytes(BytesN::from_array(env, a));
    let rhs = Fr::from_bytes(BytesN::from_array(env, b));
    env.crypto().bls12_381().fr_mul(&lhs, &rhs).to_bytes().to_array()
}

/// Whether two byte strings are equal.
pub(crate) fn bytes_eq(a: &[u8], b: &[u8]) -> (r: bool)
    ensures
        r == (a@ == b@),
{
    if a.len() != b.len() {
        return false;
    }
    let mut i: usize = 0;
    while i < a.len()
        invariant
            i <= a@.len(),
            a@.len() == b@.len(),
            forall|j: int| 0 <= j < i ==> a@[j] == b@[j],
        decreases a@.len() - i,
    {
        if a[i] != b[i] {
            return false;
        }
        i += 1;
    }
    assert(a@ =~= b@);
    true
}

} // verus!
