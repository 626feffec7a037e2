//! Elements of the Pallas base field, held as their canonical little-endian
//! encoding. The arithmetic itself is done by `pasta_curves` (re-exported by
//! `halo2_proofs`); the contracts state it as arithmetic modulo `modulus()`.
use halo2_proofs::arithmetic::Field;
use halo2_proofs::pasta::group::ff::PrimeField;
use halo2_proofs::pasta::Fp;
use vstd::prelude::*;

verus! {

/// The prime `p = 2^254 + 45560315531419706090280762371685220353`.
pub open spec fn modulus() -> int {
    0x40000000000000000000000000000000224698fc094cf91b992d30ed00000001int
}

/// The integer that a little-endian byte string encodes.
pub open spec fn le_value(s: Seq<u8>) -> int
    decreases s.len(),
{
    if s.len() == 0 {
        0
    } else {
        s[0] as int + 256 * le_value(s.drop_first())
    }
}

/// A field element in canonical encoding.
#[derive(Clone, Copy, Debug)]
pub struct Fe {
    pub repr: [u8; 32],
}

impl Fe {
    /// The integer in `[0, p)` that this element stands for.
    pub open spec fn val(&self) -> int {
        le_value(self.repr@)
    }

    /// The encoding is canonical: it names a residue below the modulus.
    pub open spec fn wf(&self) -> bool {
        0 <= self.val() < modulus()
    }

    /// Whether the encoding is canonical.
    pub fn is_canonical(&self) -> (r: bool)
        ensures
            r == self.wf(),
    {
        fe_is_canonical(self)
    }

    /// The element `n mod p`.
    pub fn from_u64(n: u64) -> (r: Fe)
        ensures
            r.wf(),
            r.val() == n as int,
    {
        fe_from_u64(n)
    }

    pub fn zero() -> (r: Fe)
        ensures
            r.wf(),
            r.val() == 0,
    {
        fe_from_u64(0)
    }

    pub fn one() -> (r: Fe)
        ensures
            r.wf(),
            r.val() == 1,
    {
        fe_from_u64(1)
    }

    pub fn add(&self, o: &Fe) -> (r: Fe)
        requires
            self.wf(),
            o.wf(),
        ensures
            r.wf(),
            r.val() == (self.val() + o.val()) % modulus(),
    {
        fe_add(self, o)
    }

    pub fn sub(&self, o: &Fe) -> (r: Fe)
        requires
            self.wf(),
            o.wf(),
        ensures
            r.wf(),
            r.val() == (self.val() - o.val()) % modulus(),
    {
        fe_sub(self, o)
    }

    pub fn mul(&self, o: &Fe) -> (r: Fe)
        requires
            self.wf(),
            o.wf(),
        ensures
            r.wf(),
            r.val() == (self.val() * o.val()) % modulus(),
            r.val() == 0 ==> self.val() == 0 || o.val() == 0,
    {
        fe_mul(self, o)
    }

    pub fn neg(&self) -> (r: Fe)
        requires
            self.wf(),
        ensures
            r.wf(),
            r.val() == (-self.val()) % modulus(),
    {
        fe_neg(self)
    }

    /// The multiplicative inverse, or `None` for zero.
    pub fn invert(&self) -> (r: Option<Fe>)
        requires
            self.wf(),
        ensures
            r is None <==> self.val() == 0,
            r matches Some(x) ==> x.wf() && (x.val() * self.val()) % modulus() == 1,
    {
        fe_invert(self)
    }

    pub fn equals(&self, o: &Fe) -> (r: bool)
        requires
            self.wf(),
            o.wf(),
        ensures
            r == (self.val() == o.val()),
    {
        fe_eq(self, o)
    }

    pub fn is_zero(&self) -> (r: bool)
        requires
            self.wf(),
        ensures
            r == (self.val() == 0),
    {
        let z = Fe::zero();
        fe_eq(self, &z)
    }
}

/// Relies on `PrimeField::from_repr`: it accepts exactly the encodings of
/// integers below the modulus.
#[verifier::external_body]
fn fe_is_canonical(a: &Fe) -> (r: bool)
    ensures
        r == a.wf(),
{
    bool::from(Fp::from_repr(a.repr).is_some())
}

/// Relies on `Fp::from(u64)` and `PrimeField::to_repr`: the canonical encoding of `n`.
#[verifier::external_body]
fn fe_from_u64(n: u64) -> (r: Fe)
    ensures
        r.wf(),
        r.val() == n as int,
{
    Fe { repr: Fp::from(n).to_repr() }
}

/// Relies on `Fp + Fp`: addition modulo `p`.
#[verifier::external_body]
fn fe_add(a: &Fe, b: &Fe) -> (r: Fe)
    requires
        a.wf(),
        b.wf(),
    ensures
        r.wf(),
        r.val() == (a.val() + b.val()) % modulus(),
{
    let x = Fp::from_repr(a.repr).unwrap();
    let y = Fp::from_repr(b.repr).unwrap();
    Fe { repr: (x + y).to_repr() }
}

/// Relies on `Fp - Fp`: subtraction modulo `p`.
#[verifier::external_body]
fn fe_sub(a: &Fe, b: &Fe) -> (r: Fe)
    requires
        a.wf(),
        b.wf(),
    ensures
        r.wf(),
        r.val() == (a.val() - b.val()) % modulus(),
{
    let x = Fp::from_repr(a.repr).unwrap();
    let y = Fp::from_repr(b.repr).unwrap();
    Fe { repr: (x - y).to_repr() }
}

/// Relies on `Fp * Fp`: multiplication modulo the prime `p`, which has no
/// zero divisors.
#[verifier::external_body]
fn fe_mul(a: &Fe, b: &Fe) -> (r: Fe)
    requires
        a.wf(),
        b.wf(),
    ensures
        r.wf(),
        r.val() == (a.val() * b.val()) % modulus(),
        r.val() == 0 ==> a.val() == 0 || b.val() == 0,
{
    let x = Fp::from_repr(a.repr).unwrap();
    let y = Fp::from_repr(b.repr).unwrap();
    Fe { repr: (x * y).to_repr() }
}

/// Relies on `-Fp`: negation modulo `p`.
#[verifier::external_body]
fn fe_neg(a: &Fe) -> (r: Fe)
    requires
        a.wf(),
    ensures
        r.wf(),
        r.val() == (-a.val()) % modulus(),
{
    let x = Fp::from_repr(a.repr).unwrap();
    Fe { repr: (-x).to_repr() }
}

/// Relies on `Field::invert`: the multiplicative inverse modulo `p`,
/// absent exactly for zero.
#[verifier::external_body]
fn fe_invert(a: &Fe) -> (r: Option<Fe>)
    requires
        a.wf(),
    ensures
        r is None <==> a.val() == 0,
        r matches Some(x) ==> x.wf() && (x.val() * a.val()) % modulus() == 1,
{
    let x = Fp::from_repr(a.repr).unwrap();
    let inv: Option<Fp> = x.invert().into();
    match inv {
        Some(y) => Some(Fe { repr: y.to_repr() }),
        None => None,
    }
}

/// Relies on `PartialEq for Fp`: equality of residues.
#[verifier::external_body]
fn fe_eq(a: &Fe, b: &Fe) -> (r: bool)
    requires
        a.wf(),
        b.wf(),
    ensures
        r == (a.val() == b.val()),
{
    Fp::from_repr(a.repr).unwrap() == Fp::from_repr(b.repr).unwrap()
}

} // verus!
