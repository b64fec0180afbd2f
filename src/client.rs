//! The client side of the protocol for one group, as a state machine: each
//! step either builds the next request or records what the server answered.
//! Sending the requests is left to the caller.
use crate::dl::DlParams;
use crate::ec::EcParams;
use crate::group::{Element, Group, ParamsError};
use crate::num::{be_bytes, be_nat, CryptoError, Num, MAX_NUM_BYTES};
use crate::params::{
    dl_constants_valid, dl_params, ec_constants_valid, ec_params, is_shipped_dl, is_shipped_ec,
};
use crate::prover::{response_spec, Prover};
use crate::wire::{
    algo_tag, AuthAlgo, AuthenticationAnswerRequest, AuthenticationChallengeRequest,
    AuthenticationChallengeResponse, RegisterRequest,
};
use vstd::hash_map::StringHashMap;
use vstd::prelude::*;

verus! {

/// What the client keeps of a registered user: the secret and its public keys.
pub struct Registration {
    pub y1: Element,
    pub y2: Element,
    pub x: Num,
}

/// What the client keeps of an exchange between challenge and answer.
pub struct AuthenticationState {
    pub r1: Element,
    pub r2: Element,
    pub c: Num,
    pub k: Num,
    pub x: Num,
}

/// A commitment that was sent and waits for its challenge.
pub struct PendingChallenge {
    pub r1: Element,
    pub r2: Element,
    pub k: Num,
    pub x: Num,
}

/// Why a client step could not be taken.
#[derive(Debug, Clone, Copy, PartialEq, Eq, Structural)]
pub enum ClientError {
    /// The user has not been registered by this client.
    Unregistered,
    /// No exchange with this `auth_id` is in flight.
    UnknownAuthId,
    /// The server's challenge is not a number.
    InvalidChallenge,
    /// An arithmetic failure.
    Crypto,
}

/// The client for one group.
pub struct AuthClient<G: Group> {
    pub prover: Prover<G>,
    pub algo: AuthAlgo,
    pub registrations: StringHashMap<Registration>,
    pub authentication_states: StringHashMap<AuthenticationState>,
}

/// The client for the DL group.
pub type DlAuthClient = AuthClient<DlParams>;

/// The client for the EC group.
pub type EcAuthClient = AuthClient<EcParams>;

impl<G: Group> AuthClient<G> {
    /// The group parameters.
    pub open spec fn group(&self) -> G {
        self.prover.params
    }

    /// Every registered secret, and every nonce, challenge and secret of an
    /// exchange in flight, is short enough for the arithmetic, so each answer
    /// can always be computed.
    pub open spec fn states_fit(&self) -> bool {
        &&& forall|u: Seq<char>| #[trigger] self.registrations@.contains_key(u)
            ==> self.registrations@[u].x.fits()
        &&& forall|id: Seq<char>| #[trigger] self.authentication_states@.contains_key(id) ==> {
            let state = self.authentication_states@[id];
            state.k.fits() && state.c.fits() && state.x.fits()
        }
    }

    /// A client with no registrations and no exchanges.
    pub fn new(prover: Prover<G>, algo: AuthAlgo) -> (r: Self)
        ensures
            r.prover == prover,
            r.algo == algo,
            r.registrations@ == Map::<Seq<char>, Registration>::empty(),
            r.authentication_states@ == Map::<Seq<char>, AuthenticationState>::empty(),
            r.states_fit(),
    {
        AuthClient {
            prover,
            algo,
            registrations: StringHashMap::new(),
            authentication_states: StringHashMap::new(),
        }
    }

    /// Draws a secret `x` for `user` and builds the registration request with
    /// the public keys `(g^x, h^x)`; the registration is recorded by
    /// `complete_register` once the server has accepted it.
    pub fn register_request(&self, user: &str) -> (r: Result<
        (RegisterRequest, Registration),
        CryptoError,
    >)
        requires
            self.group().wf(),
        ensures
            r matches Ok((request, reg)) ==> {
                &&& request.user@ == user@
                &&& request.auth_algo == algo_tag(self.algo)
                &&& request.y1@ == reg.y1@
                &&& request.y2@ == reg.y2@
                &&& reg.x.wf()
                &&& reg.x.fits()
                &&& reg.x@ < self.group().order_spec()
                &&& reg.y1@ == self.group().exp_spec(self.group().g_spec(), reg.x@)
                &&& reg.y2@ == self.group().exp_spec(self.group().h_spec(), reg.x@)
            },
    {
        let x = self.prover.random()?;
        let keys = self.prover.public_keys(&x)?;
        let request = RegisterRequest {
            user: user.to_owned(),
            y1: keys.y1.encode(),
            y2: keys.y2.encode(),
            auth_algo: self.algo.tag(),
        };
        Ok((request, Registration { y1: keys.y1, y2: keys.y2, x }))
    }

    /// Records the registration of `user` after the server accepted it.
    pub fn complete_register(&mut self, user: &str, reg: Registration)
        requires
            old(self).states_fit(),
            reg.x.fits(),
        ensures
            final(self).states_fit(),
            final(self).prover == old(self).prover,
            final(self).algo == old(self).algo,
            final(self).registrations@ == old(self).registrations@.insert(user@, reg),
            final(self).authentication_states@ == old(self).authentication_states@,
    {
        let ghost u = user@;
        self.registrations.insert(user.to_owned(), reg);
        proof {
            assert forall|k: Seq<char>| #[trigger] self.registrations@.contains_key(k) implies self.registrations@[
                k
            ].x.fits() by {
                if k != u {
                    assert(old(self).registrations@.contains_key(k));
                }
            }
            assert forall|id: Seq<char>| #[trigger] self.authentication_states@.contains_key(
                id,
            ) implies {
                let st = self.authentication_states@[id];
                st.k.fits() && st.c.fits() && st.x.fits()
            } by {
                assert(old(self).authentication_states@.contains_key(id));
            }
        }
    }

    /// Draws a nonce `k` and builds the challenge request for a registered
    /// user, with the commitment `(g^k, h^k)`.
    pub fn challenge_request(&self, user: &str) -> (r: Result<
        (AuthenticationChallengeRequest, PendingChallenge),
        ClientError,
    >)
        requires
            self.group().wf(),
            self.states_fit(),
        ensures
            r matches Ok((request, pending)) ==> {
                let reg = self.registrations@[user@];
                &&& self.registrations@.contains_key(user@)
                &&& request.user@ == user@
                &&& request.auth_algo == algo_tag(self.algo)
                &&& request.r1@ == pending.r1@
                &&& request.r2@ == pending.r2@
                &&& pending.x@ == reg.x@
                &&& pending.x.fits()
                &&& pending.k.wf()
                &&& pending.k.fits()
                &&& pending.k@ < self.group().order_spec()
                &&& pending.r1@ == self.group().exp_spec(self.group().g_spec(), pending.k@)
                &&& pending.r2@ == self.group().exp_spec(self.group().h_spec(), pending.k@)
            },
            r matches Err(ClientError::Unregistered) <==> !self.registrations@.contains_key(user@),
            r matches Err(e) ==> e == ClientError::Unregistered || e == ClientError::Crypto,
    {
        let reg = match self.registrations.get(user) {
            Some(reg) => reg,
            None => return Err(ClientError::Unregistered),
        };
        let k = match self.prover.random() {
            Ok(k) => k,
            Err(_) => return Err(ClientError::Crypto),
        };
        let commit = match self.prover.commit(&k) {
            Ok(commit) => commit,
            Err(_) => return Err(ClientError::Crypto),
        };
        let request = AuthenticationChallengeRequest {
            user: user.to_owned(),
            r1: commit.r1.encode(),
            r2: commit.r2.encode(),
            auth_algo: self.algo.tag(),
        };
        Ok((request, PendingChallenge { r1: commit.r1, r2: commit.r2, k, x: reg.x.copy() }))
    }

    /// Records the server's challenge to a pending commitment under the
    /// `auth_id` that the server chose, and returns that `auth_id`. A challenge
    /// too long to decode is refused, and so is a commitment whose nonce or
    /// secret is too long for the arithmetic.
    pub fn record_challenge(
        &mut self,
        pending: PendingChallenge,
        response: AuthenticationChallengeResponse,
    ) -> (r: Result<String, ClientError>)
        requires
            old(self).states_fit(),
        ensures
            final(self).states_fit(),
            r matches Err(ClientError::InvalidChallenge) <==> response.c@.len() > MAX_NUM_BYTES,
            r is Ok <==> response.c@.len() <= MAX_NUM_BYTES && pending.k.fits() && pending.x.fits(),
            final(self).prover == old(self).prover,
            final(self).algo == old(self).algo,
            final(self).registrations@ == old(self).registrations@,
            r matches Ok(auth_id) ==> {
                let state = final(self).authentication_states@[auth_id@];
                &&& auth_id@ == response.auth_id@
                &&& final(self).authentication_states@ == old(
                    self,
                ).authentication_states@.insert(auth_id@, state)
                &&& state.c.wf()
                &&& state.c@ == be_nat(response.c@)
                &&& state.r1@ == pending.r1@
                &&& state.r2@ == pending.r2@
                &&& state.k@ == pending.k@
                &&& state.x@ == pending.x@
            },
            r is Err ==> final(self).authentication_states@ == old(self).authentication_states@,
            r matches Err(e) ==> e == ClientError::InvalidChallenge || e == ClientError::Crypto,
    {
        let c = match Num::decode(response.c.as_slice()) {
            Ok(c) => c,
            Err(_) => return Err(ClientError::InvalidChallenge),
        };
        if pending.k.bytes.len() > MAX_NUM_BYTES || pending.x.bytes.len() > MAX_NUM_BYTES {
            return Err(ClientError::Crypto);
        }
        let auth_id = response.auth_id;
        let ghost id = auth_id@;
        let state = AuthenticationState { r1: pending.r1, r2: pending.r2, c, k: pending.k, x: pending.x };
        self.authentication_states.insert(auth_id.clone(), state);
        proof {
            assert forall|k: Seq<char>| #[trigger] self.authentication_states@.contains_key(
                k,
            ) implies {
                let st = self.authentication_states@[k];
                st.k.fits() && st.c.fits() && st.x.fits()
            } by {
                if k != id {
                    assert(old(self).authentication_states@.contains_key(k));
                }
            }
        }
        Ok(auth_id)
    }

    /// Builds the answer `s = (k - c·x) mod order` for the exchange `auth_id`
    /// and forgets the exchange, which is single-use whatever the server says.
    pub fn answer_request(&mut self, auth_id: &str) -> (r: Result<
        AuthenticationAnswerRequest,
        ClientError,
    >)
        requires
            old(self).group().wf(),
            old(self).states_fit(),
        ensures
            final(self).states_fit(),
            r is Ok <==> old(self).authentication_states@.contains_key(auth_id@),
            r matches Err(ClientError::UnknownAuthId) ==> final(self).authentication_states@ == old(
                self,
            ).authentication_states@,
            final(self).prover == old(self).prover,
            final(self).algo == old(self).algo,
            final(self).registrations@ == old(self).registrations@,
            r matches Ok(request) ==> {
                let state = old(self).authentication_states@[auth_id@];
                &&& old(self).authentication_states@.contains_key(auth_id@)
                &&& request.auth_id@ == auth_id@
                &&& request.auth_algo == algo_tag(old(self).algo)
                &&& request.s@ == be_bytes(
                    response_spec(old(self).group().order_spec(), state.k@, state.c@, state.x@),
                )
            },
            r matches Err(ClientError::UnknownAuthId) <==> !old(
                self,
            ).authentication_states@.contains_key(auth_id@),
            r matches Err(e) ==> e == ClientError::UnknownAuthId || e == ClientError::Crypto,
            !(r matches Err(ClientError::UnknownAuthId)) ==> final(self).authentication_states@
                == old(self).authentication_states@.remove(auth_id@),
    {
        let response = match self.authentication_states.get(auth_id) {
            Some(state) => self.prover.challenge_response(&state.k, &state.c, &state.x),
            None => return Err(ClientError::UnknownAuthId),
        };
        self.authentication_states.remove(auth_id);
        proof {
            assert forall|k: Seq<char>| #[trigger] self.authentication_states@.contains_key(
                k,
            ) implies {
                let st = self.authentication_states@[k];
                st.k.fits() && st.c.fits() && st.x.fits()
            } by {
                assert(old(self).authentication_states@.contains_key(k));
            }
        }
        match response {
            Ok(response) => Ok(
                AuthenticationAnswerRequest {
                    auth_id: auth_id.to_owned(),
                    s: response.s.encode(),
                    auth_algo: self.algo.tag(),
                },
            ),
            Err(_) => Err(ClientError::Crypto),
        }
    }
}

/// Clients for both groups, routing by algorithm.
pub struct Client {
    pub ec_client: EcAuthClient,
    pub dl_client: DlAuthClient,
}

impl Client {
    /// Both clients can do arithmetic, can answer every exchange in flight, and
    /// tag their requests with their own algorithm.
    pub open spec fn wf(&self) -> bool {
        &&& self.ec_client.group().wf()
        &&& self.dl_client.group().wf()
        &&& self.ec_client.states_fit()
        &&& self.dl_client.states_fit()
        &&& self.ec_client.algo == AuthAlgo::Ec
        &&& self.dl_client.algo == AuthAlgo::Dl
    }

    /// Clients for the canonical parameter sets, with no registrations.
    pub fn new() -> (r: Result<Client, ParamsError>)
        ensures
            r is Ok <==> ec_constants_valid() && dl_constants_valid(),
            r matches Ok(client) ==> {
                &&& client.wf()
                &&& is_shipped_dl(client.dl_client.group())
                &&& is_shipped_ec(client.ec_client.group())
                &&& client.ec_client.registrations@ == Map::<Seq<char>, Registration>::empty()
                &&& client.dl_client.registrations@ == Map::<Seq<char>, Registration>::empty()
                &&& client.ec_client.authentication_states@ == Map::<
                    Seq<char>,
                    AuthenticationState,
                >::empty()
                &&& client.dl_client.authentication_states@ == Map::<
                    Seq<char>,
                    AuthenticationState,
                >::empty()
            },
    {
        let ec = ec_params()?;
        let dl = dl_params()?;
        Ok(Client {
            ec_client: AuthClient::new(Prover::new(ec), AuthAlgo::Ec),
            dl_client: AuthClient::new(Prover::new(dl), AuthAlgo::Dl),
        })
    }
}

} // verus!
