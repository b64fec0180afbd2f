//! The group capability that the prover, the verifier and the server are written
//! against, and the group elements they exchange.
use crate::num::{bytes_equal, CryptoError, Num};
use vstd::prelude::*;

verus! {

/// A group element in its canonical encoding: the minimal big-endian residue
/// for DL, the SEC1 compressed point for EC.
pub struct Element {
    pub bytes: Vec<u8>,
}

impl View for Element {
    type V = Seq<u8>;

    open spec fn view(&self) -> Seq<u8> {
        self.bytes@
    }
}

impl Element {
    /// The encoding sent over the wire.
    pub fn encode(&self) -> (r: Vec<u8>)
        ensures
            r@ == self@,
    {
        self.bytes.clone()
    }

    /// A copy of this element.
    pub fn copy(&self) -> (r: Element)
        ensures
            r@ == self@,
    {
        Element { bytes: self.bytes.clone() }
    }

    /// Whether two elements are equal; encodings are canonical, so this compares bytes.
    pub fn equals(&self, other: &Element) -> (r: bool)
        ensures
            r == (self@ == other@),
    {
        bytes_equal(self.bytes.as_slice(), other.bytes.as_slice())
    }
}

/// How many random draws a generator search makes before it gives up.
pub const MAX_ATTEMPTS: u32 = 256;

/// Reasons for refusing a set of parameters.
#[derive(Debug, Clone, Copy, PartialEq, Eq)]
pub enum ParamsError {
    /// A number is too long for the big-number library, or the library failed.
    Arithmetic,
    /// The modulus is below 3, which leaves `q = (p - 1) / 2` at zero.
    ModulusTooSmall,
    /// A generator does not lie in the order-`q` subgroup, or is 1.
    NotAGenerator,
    /// The two generators coincide, which breaks soundness.
    EqualGenerators,
}

/// A cyclic group of prime order with two generators, as the Chaum–Pedersen
/// protocol needs it.
pub trait Group: Sized {
    /// The parameters can be used for arithmetic.
    spec fn wf(&self) -> bool;

    /// The order of the subgroup in which scalars live.
    spec fn order_spec(&self) -> nat;

    /// The first generator.
    spec fn g_spec(&self) -> Seq<u8>;

    /// The second generator.
    spec fn h_spec(&self) -> Seq<u8>;

    /// `base` raised to `s` (DL), or `[s]base` (EC).
    spec fn exp_spec(&self, base: Seq<u8>, s: nat) -> Seq<u8>;

    /// The group operation: a product modulo `p` (DL), or a point sum (EC).
    spec fn compose_spec(&self, a: Seq<u8>, b: Seq<u8>) -> Seq<u8>;

    /// The element that a successful decode of `data` gives.
    spec fn decode_spec(&self, data: Seq<u8>) -> Seq<u8>;

    /// `e` is an element of the group that the arithmetic accepts.
    spec fn is_element(&self, e: Seq<u8>) -> bool;

    /// `data` decodes to an element.
    spec fn decodes(&self, data: Seq<u8>) -> bool;

    fn order(&self) -> (r: &Num)
        requires
            self.wf(),
        ensures
            r.wf(),
            r.fits(),
            r@ == self.order_spec(),
            r@ > 0,
    ;

    fn g(&self) -> (r: &Element)
        requires
            self.wf(),
        ensures
            r@ == self.g_spec(),
            self.is_element(r@),
    ;

    fn h(&self) -> (r: &Element)
        requires
            self.wf(),
        ensures
            r@ == self.h_spec(),
            self.is_element(r@),
    ;

    /// `base` raised to `s`; it fails only on a base that is no element or a
    /// scalar too long for the arithmetic.
    fn exp(&self, base: &Element, s: &Num) -> (r: Result<Element, CryptoError>)
        requires
            self.wf(),
        ensures
            r matches Ok(e) ==> e@ == self.exp_spec(base@, s@) && self.is_element(e@),
            self.is_element(base@) && s.fits() ==> r is Ok,
    ;

    /// The group operation; it fails only on operands that are no elements.
    fn compose(&self, a: &Element, b: &Element) -> (r: Result<Element, CryptoError>)
        requires
            self.wf(),
        ensures
            r matches Ok(e) ==> e@ == self.compose_spec(a@, b@) && self.is_element(e@),
            self.is_element(a@) && self.is_element(b@) ==> r is Ok,
    ;

    /// The element that `data` encodes, if it encodes one.
    fn decode(&self, data: &[u8]) -> (r: Result<Element, CryptoError>)
        ensures
            r matches Ok(e) ==> e@ == self.decode_spec(data@) && self.is_element(e@),
            r is Ok <==> self.decodes(data@),
    ;
}

/// The Chaum–Pedersen verification equation:
/// `g^s · y1^c == r1` and `h^s · y2^c == r2`.
pub open spec fn check_spec<G: Group>(
    grp: G,
    y1: Seq<u8>,
    y2: Seq<u8>,
    r1: Seq<u8>,
    r2: Seq<u8>,
    c: nat,
    s: nat,
) -> bool {
    &&& grp.compose_spec(grp.exp_spec(grp.g_spec(), s), grp.exp_spec(y1, c)) == r1
    &&& grp.compose_spec(grp.exp_spec(grp.h_spec(), s), grp.exp_spec(y2, c)) == r2
}

} // verus!
