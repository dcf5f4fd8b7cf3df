use vstd::prelude::*;
use vstd::bytes::*;

verus! {

/// Order of the group and of its scalar ring: the largest prime below 2^32.
/// Keeping values below 2^32 lets every product of two residues fit in a u64.
pub const GROUP_ORDER: u64 = 4294967291;

/// A scalar: a residue modulo the group order.
#[derive(Clone, Copy, PartialEq, Eq, Structural)]
pub struct Scalar {
    value: u64,
}

impl Scalar {
    #[verifier::type_invariant]
    pub open spec fn inv(self) -> bool {
        self.spec_value() < GROUP_ORDER
    }

    /// The residue this scalar stands for.
    pub closed spec fn spec_value(self) -> u64 {
        self.value
    }

    /// Build a scalar from an arbitrary integer by reduction.
    pub fn new(v: u64) -> (r: Scalar)
        ensures
            r.spec_value() == v % GROUP_ORDER,
    {
        Scalar { value: v % GROUP_ORDER }
    }

    /// Scalar addition modulo the group order.
    pub fn add(&self, other: &Scalar) -> (r: Scalar)
        ensures
            r.spec_value() as int == (self.spec_value() + other.spec_value()) % (
            GROUP_ORDER as int),
    {
        proof {
            use_type_invariant(*self);
            use_type_invariant(*other);
        }
        Scalar { value: (self.value + other.value) % GROUP_ORDER }
    }
}

/// An element of the additive group of residues modulo the group order,
/// written additively; scalar multiplication is multiplication of residues.
#[derive(Clone, Copy, PartialEq, Eq, Structural)]
pub struct GroupElement {
    value: u64,
}

impl GroupElement {
    #[verifier::type_invariant]
    pub open spec fn inv(self) -> bool {
        self.spec_value() < GROUP_ORDER
    }

    /// The residue this element stands for.
    pub closed spec fn spec_value(self) -> u64 {
        self.value
    }

    /// Build an element from an arbitrary integer by reduction. A caller that
    /// wants a random element feeds random bytes in here.
    pub fn new(v: u64) -> (r: GroupElement)
        ensures
            r.spec_value() == v % GROUP_ORDER,
    {
        GroupElement { value: v % GROUP_ORDER }
    }

    /// The fixed generator that commitments are stated against.
    pub fn generator() -> (r: GroupElement)
        ensures
            r.spec_value() == 1u64,
    {
        GroupElement { value: 1 }
    }

    /// Group addition.
    pub fn add(&self, other: &GroupElement) -> (r: GroupElement)
        ensures
            r.spec_value() as int == (self.spec_value() + other.spec_value()) % (
            GROUP_ORDER as int),
    {
        proof {
            use_type_invariant(*self);
            use_type_invariant(*other);
        }
        GroupElement { value: (self.value + other.value) % GROUP_ORDER }
    }

    /// Scalar multiplication.
    pub fn mul_scalar(&self, s: &Scalar) -> (r: GroupElement)
        ensures
            r.spec_value() as int == (self.spec_value() * s.spec_value()) % (
            GROUP_ORDER as int),
    {
        proof {
            use_type_invariant(*self);
            use_type_invariant(*s);
            assert(self.spec_value() * s.spec_value() <= 4294967290u64 * 4294967290u64)
                by (nonlinear_arith)
                requires
                    self.spec_value() <= 4294967290u64,
                    s.spec_value() <= 4294967290u64,
            ;
        }
        GroupElement { value: (self.value * s.value) % GROUP_ORDER }
    }

    /// Fixed-width encoding: eight little-endian bytes.
    pub fn to_bytes(&self) -> (r: Vec<u8>)
        ensures
            r@ == spec_u64_to_le_bytes(self.spec_value()),
            r@.len() == 8,
    {
        u64_to_le_bytes(self.value)
    }

    /// Decode an element; fails on a wrong width or an out-of-range residue.
    pub fn from_bytes(buf: &[u8]) -> (r: Option<GroupElement>)
        ensures
            r is Some <==> (buf@.len() == 8 && spec_u64_from_le_bytes(buf@) < GROUP_ORDER),
            r matches Some(g) ==> g.spec_value() == spec_u64_from_le_bytes(buf@),
    {
        if buf.len() != 8 {
            return None;
        }
        let v = u64_from_le_bytes(buf);
        if v < GROUP_ORDER {
            Some(GroupElement { value: v })
        } else {
            None
        }
    }

    /// Two elements are equal exactly when they stand for the same residue.
    pub proof fn lemma_eq_value(a: GroupElement, b: GroupElement)
        ensures
            a == b <==> a.spec_value() == b.spec_value(),
    {
    }
}

/// Law: encoding an element and decoding the bytes gives the element back.
pub proof fn lemma_element_bytes_round_trip(g: GroupElement)
    ensures
        g.spec_value() < GROUP_ORDER ==> {
            let bytes = spec_u64_to_le_bytes(g.spec_value());
            bytes.len() == 8 && spec_u64_from_le_bytes(bytes) == g.spec_value()
        },
{
    lemma_auto_spec_u64_to_from_le_bytes();
}

} // verus!
