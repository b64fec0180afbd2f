//! The verifier side of the Chaum–Pedersen protocol, written once for any group.
use crate::dl::DlParams;
use crate::ec::EcParams;
use crate::group::{check_spec, Element, Group};
use crate::num::{rng, CryptoError, Num};
use vstd::prelude::*;

verus! {

/// A Chaum–Pedersen verifier over the group `G`.
pub struct Verifier<G: Group> {
    pub params: G,
}

/// A verifier over the DL group.
pub type DlVerifier = Verifier<DlParams>;

/// A verifier over the EC group.
pub type EcVerifier = Verifier<EcParams>;

impl<G: Group> Verifier<G> {
    /// A verifier for the given parameters.
    pub fn new(params: G) -> (r: Self)
        ensures
            r.params == params,
    {
        Verifier { params }
    }

    /// A uniformly random challenge in `[0, order)`.
    pub fn random(&self) -> (r: Result<Num, CryptoError>)
        requires
            self.params.wf(),
        ensures
            r matches Ok(c) ==> c.wf() && c.fits() && c@ < self.params.order_spec(),
    {
        rng(self.params.order())
    }

    /// Whether `g^s · y1^c == r1` and `h^s · y2^c == r2`; the arithmetic fails
    /// only on public keys that are no elements or scalars too long for it.
    pub fn check(
        &self,
        y1: &Element,
        y2: &Element,
        r1: &Element,
        r2: &Element,
        c: &Num,
        s: &Num,
    ) -> (r: Result<bool, CryptoError>)
        requires
            self.params.wf(),
        ensures
            r matches Ok(b) ==> b == check_spec(self.params, y1@, y2@, r1@, r2@, c@, s@),
            self.params.is_element(y1@) && self.params.is_element(y2@) && c.fits() && s.fits()
                ==> r is Ok,
    {
        let gs = self.params.exp(self.params.g(), s)?;
        let hs = self.params.exp(self.params.h(), s)?;
        let y1c = self.params.exp(y1, c)?;
        let y2c = self.params.exp(y2, c)?;
        let check1 = self.params.compose(&gs, &y1c)?;
        let check2 = self.params.compose(&hs, &y2c)?;
        Ok(check1.equals(r1) && check2.equals(r2))
    }
}

/// The verification equation pins the commitment down: once it holds for
/// `(r1, r2)`, it fails for every commitment that differs in `r1` or in `r2`.
pub proof fn lemma_commitment_unique<G: Group>(
    grp: G,
    y1: Seq<u8>,
    y2: Seq<u8>,
    r1: Seq<u8>,
    r2: Seq<u8>,
    other_r1: Seq<u8>,
    other_r2: Seq<u8>,
    c: nat,
    s: nat,
)
    requires
        check_spec(grp, y1, y2, r1, r2, c, s),
        other_r1 != r1 || other_r2 != r2,
    ensures
        !check_spec(grp, y1, y2, other_r1, other_r2, c, s),
{
}

} // verus!
