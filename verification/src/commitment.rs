use vstd::prelude::*;
use vstd::bytes::*;
use vstd::arithmetic::div_mod::{lemma_add_mod_noop, lemma_add_mod_noop_right, lemma_mul_mod_noop_right, lemma_small_mod};
use vstd::arithmetic::mul::lemma_mul_is_distributive_add;
use crate::gang::{GroupElement, Scalar, GROUP_ORDER};

verus! {

/// A Pedersen commitment: `generator * m + h * r` for a message scalar `m`
/// and a blinding scalar `r`, under a commitment key `h`.
#[derive(Clone, Copy, PartialEq, Eq, Structural)]
pub struct Commitment {
    c: GroupElement,
}

/// The key a commitment is formed under.
#[derive(Clone, Copy)]
pub struct CommitmentKey {
    pub h: GroupElement,
}

/// Outcome of checking an opening against a commitment.
#[derive(Debug, Copy, Clone, PartialEq, Eq, Structural)]
pub enum Validity {
    Valid,
    Invalid,
}

/// An opening of a commitment: the committed message and the blinding factor.
#[derive(Clone, Copy)]
pub struct Open {
    pub m: Scalar,
    pub r: Scalar,
}

impl Open {
    pub fn new(m: Scalar, r: Scalar) -> (o: Open)
        ensures
            o.m == m,
            o.r == r,
    {
        Open { m, r }
    }
}

/// The residue a commitment under key `h` to message `m` with blinding `r`
/// comes out to: the generator is 1, so it is `m + h * r` mod the order.
pub open spec fn spec_commit(h: GroupElement, m: Scalar, r: Scalar) -> int {
    (m.spec_value() + h.spec_value() * r.spec_value()) % (GROUP_ORDER as int)
}

impl Commitment {
    #[verifier::type_invariant]
    pub open spec fn inv(self) -> bool {
        self.spec_value() < GROUP_ORDER
    }

    /// The group element this commitment is.
    pub closed spec fn spec_value(self) -> u64 {
        self.c.spec_value()
    }

    /// Commit under `ck` to the message of an opening with its blinding.
    pub fn new_open(ck: &CommitmentKey, o: &Open) -> (c: Commitment)
        ensures
            c.spec_value() as int == spec_commit(ck.h, o.m, o.r),
    {
        Commitment::new(ck, &o.m, &o.r)
    }

    /// Commit under `ck` to message `m` with blinding `r`.
    pub fn new(ck: &CommitmentKey, m: &Scalar, r: &Scalar) -> (c: Commitment)
        ensures
            c.spec_value() as int == spec_commit(ck.h, *m, *r),
    {
        let gm = GroupElement::generator().mul_scalar(m);
        let hr = ck.h.mul_scalar(r);
        let c = gm.add(&hr);
        proof {
            use_type_invariant(*m);
            use_type_invariant(c);
            lemma_commit_parts(ck.h, *m, *r, gm, hr, c);
        }
        Commitment { c }
    }

    /// Check an opening: valid exactly when recommitting it reproduces this
    /// commitment.
    pub fn verify(&self, ck: &CommitmentKey, o: &Open) -> (v: Validity)
        ensures
            v == Validity::Valid <==> self.spec_value() as int == spec_commit(ck.h, o.m, o.r),
    {
        let other = Commitment::new(ck, &o.m, &o.r);
        proof {
            GroupElement::lemma_eq_value(self.c, other.c);
        }
        if self.c == other.c {
            Validity::Valid
        } else {
            Validity::Invalid
        }
    }

    /// Fixed-width encoding: the eight little-endian bytes of the element.
    /// The value is always in range, so decoding the bytes gives the
    /// commitment back.
    pub fn to_bytes(&self) -> (r: Vec<u8>)
        ensures
            r@ == spec_u64_to_le_bytes(self.spec_value()),
            r@.len() == 8,
            spec_u64_from_le_bytes(r@) == self.spec_value(),
            self.spec_value() < GROUP_ORDER,
    {
        proof {
            use_type_invariant(*self);
            lemma_auto_spec_u64_to_from_le_bytes();
        }
        self.c.to_bytes()
    }

    /// Decode a commitment; fails on a wrong width or an out-of-range value.
    pub fn from_bytes(buf: &[u8]) -> (r: Option<Commitment>)
        ensures
            r is Some <==> (buf@.len() == 8 && spec_u64_from_le_bytes(buf@) < GROUP_ORDER),
            r matches Some(c) ==> c.spec_value() == spec_u64_from_le_bytes(buf@),
    {
        match GroupElement::from_bytes(buf) {
            Some(c) => {
                proof {
                    use_type_invariant(c);
                }
                Some(Commitment { c })
            },
            None => None,
        }
    }

    /// Add two commitments; commitments are homomorphic in the message and
    /// the blinding, so this commits to the sums.
    pub fn add(&self, rhs: &Commitment) -> (r: Commitment)
        ensures
            r.spec_value() as int == (self.spec_value() + rhs.spec_value()) % (
            GROUP_ORDER as int),
    {
        let c = self.c.add(&rhs.c);
        proof {
            use_type_invariant(c);
        }
        Commitment { c }
    }

    /// Scale a commitment by a scalar.
    pub fn mul(&self, rhs: &Scalar) -> (r: Commitment)
        ensures
            r.spec_value() as int == (self.spec_value() * rhs.spec_value()) % (
            GROUP_ORDER as int),
    {
        let c = self.c.mul_scalar(rhs);
        proof {
            use_type_invariant(c);
        }
        Commitment { c }
    }
}

/// `(1 * m mod n) + (h * r mod n) mod n` is `m + h * r mod n`: assembling a
/// commitment from the two reduced parts loses nothing.
proof fn lemma_commit_parts(h: GroupElement, m: Scalar, r: Scalar, gm: GroupElement, hr: GroupElement, c: GroupElement)
    requires
        m.spec_value() < GROUP_ORDER,
        gm.spec_value() as int == (1 * m.spec_value()) % (GROUP_ORDER as int),
        hr.spec_value() as int == (h.spec_value() * r.spec_value()) % (GROUP_ORDER as int),
        c.spec_value() as int == (gm.spec_value() + hr.spec_value()) % (GROUP_ORDER as int),
    ensures
        c.spec_value() as int == spec_commit(h, m, r),
{
    let n = GROUP_ORDER as int;
    let mv = m.spec_value() as int;
    let p = h.spec_value() * r.spec_value();
    assert(1 * mv == mv);
    lemma_small_mod(m.spec_value() as nat, GROUP_ORDER as nat);
    assert(gm.spec_value() as int == mv);
    lemma_add_mod_noop(mv, p, n);
    assert((mv % n + p % n) % n == (mv + p) % n);
    assert(c.spec_value() as int == (mv + p % n) % n);
}

/// Law: commitments are additively homomorphic: under one key, the sum of
/// the commitments to `(m1, r1)` and `(m2, r2)` is the commitment to the
/// reduced sums `(m1 + m2, r1 + r2)`, as `Scalar::add` produces them.
pub proof fn lemma_add_homomorphic(
    h: GroupElement,
    m1: Scalar,
    r1: Scalar,
    m2: Scalar,
    r2: Scalar,
    ms: Scalar,
    rs: Scalar,
)
    requires
        ms.spec_value() as int == (m1.spec_value() + m2.spec_value()) % (GROUP_ORDER as int),
        rs.spec_value() as int == (r1.spec_value() + r2.spec_value()) % (GROUP_ORDER as int),
    ensures
        (spec_commit(h, m1, r1) + spec_commit(h, m2, r2)) % (GROUP_ORDER as int) == spec_commit(
            h,
            ms,
            rs,
        ),
{
    let n = GROUP_ORDER as int;
    let hv = h.spec_value() as int;
    let a = m1.spec_value() + hv * r1.spec_value();
    let b = m2.spec_value() + hv * r2.spec_value();
    lemma_add_mod_noop(a, b, n);
    assert((spec_commit(h, m1, r1) + spec_commit(h, m2, r2)) % n == (a + b) % n);
    let rsum = r1.spec_value() + r2.spec_value();
    lemma_mul_mod_noop_right(hv, rsum, n);
    lemma_add_mod_noop_right(ms.spec_value() as int, hv * rsum, n);
    lemma_add_mod_noop_right(ms.spec_value() as int, hv * (rsum % n), n);
    assert(spec_commit(h, ms, rs) == (ms.spec_value() as int + hv * rsum) % n);
    assert((ms.spec_value() as int + hv * rsum) % n == (m1.spec_value() + m2.spec_value() + hv
        * rsum) % n) by {
        lemma_add_mod_noop_right(hv * rsum, m1.spec_value() + m2.spec_value(), n);
    }
    lemma_mul_is_distributive_add(hv, r1.spec_value() as int, r2.spec_value() as int);
    assert(m1.spec_value() + m2.spec_value() + hv * rsum == a + b);
}

} // verus!
