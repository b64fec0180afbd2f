//! The prover side of the Chaum–Pedersen protocol, written once for any group.
use crate::dl::DlParams;
use crate::ec::EcParams;
use crate::group::{Element, Group};
use crate::num::{mod_mul, mod_sub, mod_sub_spec, rng, CryptoError, Num};
use vstd::arithmetic::div_mod::lemma_sub_mod_noop_right;
use vstd::prelude::*;

verus! {

/// The prover's public keys `y1 = g^x`, `y2 = h^x`.
pub struct ProverPublicKeys {
    pub y1: Element,
    pub y2: Element,
}

/// The prover's commitment `r1 = g^k`, `r2 = h^k`.
pub struct ProverCommit {
    pub r1: Element,
    pub r2: Element,
}

/// The prover's answer `s` to a challenge.
pub struct ProverChallengeResponse {
    pub s: Num,
}

/// The answer to challenge `c` for nonce `k` and secret `x`: `(k - c·x) mod order`.
pub open spec fn response_spec(order: nat, k: nat, c: nat, x: nat) -> nat {
    mod_sub_spec(k, c * x, order)
}

/// A Chaum–Pedersen prover over the group `G`.
pub struct Prover<G: Group> {
    pub params: G,
}

/// A prover over the DL group.
pub type DlProver = Prover<DlParams>;

/// A prover over the EC group.
pub type EcProver = Prover<EcParams>;

impl<G: Group> Prover<G> {
    /// A prover for the given parameters.
    pub fn new(params: G) -> (r: Self)
        ensures
            r.params == params,
    {
        Prover { params }
    }

    /// A uniformly random scalar in `[0, order)`, for a secret or a nonce.
    pub fn random(&self) -> (r: Result<Num, CryptoError>)
        requires
            self.params.wf(),
        ensures
            r matches Ok(k) ==> k.wf() && k.fits() && k@ < self.params.order_spec(),
    {
        rng(self.params.order())
    }

    /// The public keys `(g^x, h^x)` of the secret `x`.
    pub fn public_keys(&self, x: &Num) -> (r: Result<ProverPublicKeys, CryptoError>)
        requires
            self.params.wf(),
        ensures
            r matches Ok(keys) ==> {
                &&& keys.y1@ == self.params.exp_spec(self.params.g_spec(), x@)
                &&& keys.y2@ == self.params.exp_spec(self.params.h_spec(), x@)
                &&& self.params.is_element(keys.y1@)
                &&& self.params.is_element(keys.y2@)
            },
            x.fits() ==> r is Ok,
    {
        let y1 = self.params.exp(self.params.g(), x)?;
        let y2 = self.params.exp(self.params.h(), x)?;
        Ok(ProverPublicKeys { y1, y2 })
    }

    /// The commitment `(g^k, h^k)` to the nonce `k`.
    pub fn commit(&self, k: &Num) -> (r: Result<ProverCommit, CryptoError>)
        requires
            self.params.wf(),
        ensures
            r matches Ok(commitment) ==> {
                &&& commitment.r1@ == self.params.exp_spec(self.params.g_spec(), k@)
                &&& commitment.r2@ == self.params.exp_spec(self.params.h_spec(), k@)
                &&& self.params.is_element(commitment.r1@)
                &&& self.params.is_element(commitment.r2@)
            },
            k.fits() ==> r is Ok,
    {
        let r1 = self.params.exp(self.params.g(), k)?;
        let r2 = self.params.exp(self.params.h(), k)?;
        Ok(ProverCommit { r1, r2 })
    }

    /// The answer `s = (k - c·x) mod order` to the challenge `c`.
    pub fn challenge_response(&self, k: &Num, c: &Num, x: &Num) -> (r: Result<
        ProverChallengeResponse,
        CryptoError,
    >)
        requires
            self.params.wf(),
        ensures
            r matches Ok(response) ==> {
                &&& response.s.wf()
                &&& response.s.fits()
                &&& response.s@ == response_spec(self.params.order_spec(), k@, c@, x@)
            },
            k.fits() && c.fits() && x.fits() ==> r is Ok,
    {
        let order = self.params.order();
        let cx = mod_mul(c, x, order)?;
        let s = mod_sub(k, &cx, order)?;
        proof {
            lemma_sub_mod_noop_right(k@ as int, (c@ * x@) as int, order@ as int);
        }
        Ok(ProverChallengeResponse { s })
    }
}

} // verus!
