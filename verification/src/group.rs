use vstd::prelude::*;
use crate::bigint::Bigint;

verus! {

/// A hidden-order group capability: the group law, exponentiation by an
/// arbitrary-precision integer, identity, an element of unknown order, and
/// an upper bound on the order. An element is abstracted by a coordinate
/// `gv`; the group-law lemmas below are proof obligations on every backend,
/// so protocol proofs hold for any implementation.
pub trait UnknownOrderGroup: Sized {
    spec fn wf(&self) -> bool;

    /// The abstract coordinate of the element.
    spec fn gv(&self) -> int;

    /// Which coordinates denote group elements.
    spec fn in_group(a: int) -> bool;

    /// The group law on coordinates.
    spec fn sop(a: int, b: int) -> int;

    /// Exponentiation on coordinates; negative exponents go through the
    /// inverse.
    spec fn sexp(a: int, e: int) -> int;

    /// The identity coordinate.
    spec fn sid() -> int;

    /// Which coordinates have an inverse.
    spec fn sinvertible(a: int) -> bool;

    /// The canonical byte encoding of a coordinate.
    spec fn senc(a: int) -> Seq<u8>;

    /// The order upper bound.
    spec fn sbound() -> int;

    fn dup(&self) -> (r: Self)
        requires
            self.wf(),
        ensures
            r.wf(),
            r.gv() == self.gv(),
    ;

    fn op(&self, other: &Self) -> (r: Self)
        requires
            self.wf(),
            other.wf(),
        ensures
            r.wf(),
            r.gv() == Self::sop(self.gv(), other.gv()),
    ;

    fn exp(&self, e: &Bigint) -> (r: Self)
        requires
            self.wf(),
            e.wf(),
            e@ < 0 ==> Self::sinvertible(self.gv()),
        ensures
            r.wf(),
            r.gv() == Self::sexp(self.gv(), e@),
    ;

    fn id() -> (r: Self)
        ensures
            r.wf(),
            r.gv() == Self::sid(),
    ;

    fn eq_elem(&self, other: &Self) -> (r: bool)
        requires
            self.wf(),
            other.wf(),
        ensures
            r == (self.gv() == other.gv()),
    ;

    fn invertible(&self) -> (r: bool)
        requires
            self.wf(),
        ensures
            r == Self::sinvertible(self.gv()),
    ;

    fn to_bytes(&self) -> (r: Vec<u8>)
        requires
            self.wf(),
        ensures
            r@ == Self::senc(self.gv()),
    ;

    fn order_upper_bound() -> (r: Bigint)
        ensures
            r.wf(),
            r@ == Self::sbound(),
            r@ >= 2,
    ;

    fn unknown_order_elem() -> (r: Self)
        ensures
            r.wf(),
    ;

    /// An element derived from an arbitrary integer, such as fresh
    /// randomness.
    fn from_int(x: &Bigint) -> (r: Self)
        requires
            x.wf(),
        ensures
            r.wf(),
    ;

    proof fn lemma_wf_in_group(&self)
        requires
            self.wf(),
        ensures
            Self::in_group(self.gv()),
    ;

    proof fn lemma_op_in_group(a: int, b: int)
        ensures
            Self::in_group(Self::sop(a, b)),
    ;

    proof fn lemma_exp_in_group(a: int, e: int)
        ensures
            Self::in_group(Self::sexp(a, e)),
    ;

    /// The group law is commutative.
    proof fn lemma_op_comm(a: int, b: int)
        ensures
            Self::sop(a, b) == Self::sop(b, a),
    ;

    /// The group law is associative.
    proof fn lemma_op_assoc(a: int, b: int, c: int)
        ensures
            Self::sop(Self::sop(a, b), c) == Self::sop(a, Self::sop(b, c)),
    ;

    /// Powers of one base multiply by adding exponents.
    proof fn lemma_exp_add(a: int, e1: int, e2: int)
        requires
            e1 >= 0,
            e2 >= 0,
        ensures
            Self::sop(Self::sexp(a, e1), Self::sexp(a, e2)) == Self::sexp(a, e1 + e2),
    ;

    /// A power of a power is the power at the product of the exponents.
    proof fn lemma_exp_exp(a: int, e1: int, e2: int)
        requires
            e1 >= 0,
            e2 >= 0,
        ensures
            Self::sexp(Self::sexp(a, e1), e2) == Self::sexp(a, e1 * e2),
    ;

    /// A power of a power is the power at the product of the exponents,
    /// for any first exponent and a non-negative second.
    proof fn lemma_exp_exp_gen(a: int, e1: int, e2: int)
        requires
            e2 >= 0,
        ensures
            Self::sexp(Self::sexp(a, e1), e2) == Self::sexp(a, e1 * e2),
    ;

    /// Exponents of one invertible base add, whatever their signs.
    proof fn lemma_exp_add_gen(a: int, e1: int, e2: int)
        requires
            Self::sinvertible(a),
        ensures
            Self::sop(Self::sexp(a, e1), Self::sexp(a, e2)) == Self::sexp(a, e1 + e2),
    ;

    /// A power of a product is the product of the powers.
    proof fn lemma_exp_distributes(a: int, b: int, e: int)
        requires
            e >= 0,
        ensures
            Self::sexp(Self::sop(a, b), e) == Self::sop(Self::sexp(a, e), Self::sexp(b, e)),
    ;

    /// Exponent one returns the element.
    proof fn lemma_exp_one(a: int)
        requires
            Self::in_group(a),
        ensures
            Self::sexp(a, 1) == a,
    ;

    /// Exponent zero gives the identity.
    proof fn lemma_exp_zero(a: int)
        ensures
            Self::sexp(a, 0) == Self::sid(),
    ;

    /// The identity is neutral for the group law.
    proof fn lemma_op_id(a: int)
        requires
            Self::in_group(a),
        ensures
            Self::sop(a, Self::sid()) == a,
    ;

    /// The identity has an inverse: itself.
    proof fn lemma_id_invertible()
        ensures
            Self::sinvertible(Self::sid()),
    ;
}

} // verus!
