//! The server side of the protocol for one group: registrations, in-flight
//! challenges, and the three endpoints.
use crate::dl::{lemma_dl_completeness, lemma_dl_round_trip, DlParams};
use crate::ec::EcParams;
use crate::group::{check_spec, Element, Group, MAX_ATTEMPTS};
use crate::num::{be_bytes, be_nat, mod_exp_spec, Num, MAX_NUM_BYTES};
use crate::prover::response_spec;
use crate::verification::Verifier;
use crate::wire::{
    AuthenticationAnswerRequest, AuthenticationAnswerResponse, AuthenticationChallengeRequest,
    AuthenticationChallengeResponse, Field, RegisterRequest, RegisterResponse, Status,
};
use dashmap::DashMap;
use openssl::error::ErrorStack;
use uuid::Builder;
use vstd::prelude::*;

verus! {

/// What the server keeps of a registered user: the public keys.
pub struct Registration {
    pub y1: Element,
    pub y2: Element,
}

impl View for Registration {
    type V = (Seq<u8>, Seq<u8>);

    open spec fn view(&self) -> (Seq<u8>, Seq<u8>) {
        (self.y1@, self.y2@)
    }
}

impl Registration {
    /// A copy of this registration.
    pub fn copy(&self) -> (r: Registration)
        ensures
            r@ == self@,
    {
        Registration { y1: self.y1.copy(), y2: self.y2.copy() }
    }
}

/// What the server keeps of an exchange between challenge and answer.
pub struct AuthenticationState {
    pub r1: Element,
    pub r2: Element,
    pub c: Num,
    pub user: String,
}

impl View for AuthenticationState {
    type V = (Seq<u8>, Seq<u8>, nat, Seq<char>);

    open spec fn view(&self) -> (Seq<u8>, Seq<u8>, nat, Seq<char>) {
        (self.r1@, self.r2@, self.c@, self.user@)
    }
}

#[verifier::external_type_specification]
#[verifier::external_body]
#[verifier::reject_recursive_types(K)]
#[verifier::reject_recursive_types(V)]
#[verifier::reject_recursive_types(S)]
pub struct ExDashMap<K, V, S>(DashMap<K, V, S>);

/// The entries of a registration map, by user name.
pub uninterp spec fn registrations_of(m: DashMap<String, Registration>) -> Map<
    Seq<char>,
    Registration,
>;

/// The entries of an in-flight state map, by `auth_id`.
pub uninterp spec fn states_of(m: DashMap<String, AuthenticationState>) -> Map<
    Seq<char>,
    AuthenticationState,
>;

/// A lowercase hexadecimal digit.
pub open spec fn is_lower_hex(c: char) -> bool {
    ('0' <= c && c <= '9') || ('a' <= c && c <= 'f')
}

/// A random 128-bit identifier in canonical hyphenated form: 32 lowercase
/// hexadecimal digits in groups of 8, 4, 4, 4 and 12, joined by hyphens.
pub open spec fn is_token(t: Seq<char>) -> bool {
    &&& t.len() == 36
    &&& forall|i: int| 0 <= i < 36 && i != 8 && i != 13 && i != 18 && i != 23 ==> is_lower_hex(
        #[trigger] t[i],
    )
    &&& t[8] == '-'
    &&& t[13] == '-'
    &&& t[18] == '-'
    &&& t[23] == '-'
}

/// Registrations by user name.
pub type RegistrationMap = DashMap<String, Registration>;

/// In-flight exchanges by `auth_id`.
pub type StateMap = DashMap<String, AuthenticationState>;

/// The server for one group.
pub struct AuthServer<G: Group> {
    pub verifier: Verifier<G>,
    pub registrations: DashMap<String, Registration>,
    pub authentication_states: DashMap<String, AuthenticationState>,
}

/// The server for the DL group.
pub type DlAuthServer = AuthServer<DlParams>;

/// The server for the EC group.
pub type EcAuthServer = AuthServer<EcParams>;

impl<G: Group> AuthServer<G> {
    /// The registered users and their public keys.
    pub open spec fn registered(&self) -> Map<Seq<char>, Registration> {
        registrations_of(self.registrations)
    }

    /// The exchanges that wait for an answer, by `auth_id`.
    pub open spec fn pending(&self) -> Map<Seq<char>, AuthenticationState> {
        states_of(self.authentication_states)
    }

    /// Whether the answer `s` for `auth_id` verifies: the exchange is pending,
    /// its user is registered, and the verification equation holds.
    pub open spec fn accepts(&self, auth_id: Seq<char>, s: nat) -> bool {
        let state = self.pending()[auth_id];
        let reg = self.registered()[state.user@];
        &&& self.pending().contains_key(auth_id)
        &&& self.registered().contains_key(state.user@)
        &&& check_spec(self.verifier.params, reg.y1@, reg.y2@, state.r1@, state.r2@, state.c@, s)
    }

    /// The server can verify every answer: its parameters can do arithmetic,
    /// every registered key is a group element, and every stored challenge
    /// is short enough for the arithmetic.
    pub open spec fn inv(&self) -> bool {
        &&& self.verifier.params.wf()
        &&& forall|u: Seq<char>| #[trigger] self.registered().contains_key(u) ==> {
            &&& self.verifier.params.is_element(self.registered()[u].y1@)
            &&& self.verifier.params.is_element(self.registered()[u].y2@)
        }
        &&& forall|id: Seq<char>| #[trigger] self.pending().contains_key(id)
            ==> self.pending()[id].c.fits()
    }

    /// What `register` does: `InvalidArgument` names the first key that does
    /// not decode and changes nothing; otherwise the user's entry holds the
    /// decoded keys.
    pub open spec fn register_spec(
        pre: Self,
        post: Self,
        user: Seq<char>,
        y1: Seq<u8>,
        y2: Seq<u8>,
        r: Result<RegisterResponse, Status>,
    ) -> bool {
        let grp = pre.verifier.params;
        &&& post.verifier == pre.verifier
        &&& post.pending() == pre.pending()
        &&& post.inv()
        &&& (r is Ok <==> grp.decodes(y1) && grp.decodes(y2))
        &&& (r matches Err(Status::InvalidArgument(Field::Y1)) <==> !grp.decodes(y1))
        &&& (r matches Err(Status::InvalidArgument(Field::Y2)) <==> grp.decodes(y1)
            && !grp.decodes(y2))
        &&& (r matches Err(e) ==> e == Status::InvalidArgument(Field::Y1) || e
            == Status::InvalidArgument(Field::Y2))
        &&& r is Ok ==> {
            let reg = post.registered()[user];
            &&& post.registered() == pre.registered().insert(user, reg)
            &&& reg.y1@ == grp.decode_spec(y1)
            &&& reg.y2@ == grp.decode_spec(y2)
        }
        &&& r is Err ==> post.registered() == pre.registered()
    }

    /// What `create_authentication_challenge` does: `InvalidArgument` names
    /// the first field that does not decode; `NotFound` comes exactly for an
    /// unregistered user whose fields decode; otherwise a new exchange holds
    /// the decoded commitment and a challenge `c` below the group order, under
    /// an `auth_id` that no pending exchange had. `Internal` comes only where
    /// the random draw of `c` or of a fresh identifier failed.
    pub open spec fn challenge_spec(
        pre: Self,
        post: Self,
        user: Seq<char>,
        r1: Seq<u8>,
        r2: Seq<u8>,
        r: Result<AuthenticationChallengeResponse, Status>,
    ) -> bool {
        let grp = pre.verifier.params;
        &&& post.verifier == pre.verifier
        &&& post.registered() == pre.registered()
        &&& post.inv()
        &&& (r matches Err(Status::InvalidArgument(Field::R1)) <==> !grp.decodes(r1))
        &&& (r matches Err(Status::InvalidArgument(Field::R2)) <==> grp.decodes(r1)
            && !grp.decodes(r2))
        &&& (r matches Err(Status::NotFound) <==> grp.decodes(r1) && grp.decodes(r2)
            && !pre.registered().contains_key(user))
        &&& (r matches Err(Status::Internal) ==> grp.decodes(r1) && grp.decodes(r2)
            && pre.registered().contains_key(user))
        &&& (r matches Err(e) ==> e == Status::InvalidArgument(Field::R1) || e
            == Status::InvalidArgument(Field::R2) || e == Status::NotFound || e == Status::Internal)
        &&& (r matches Ok(response) ==> {
            let state = post.pending()[response.auth_id@];
            &&& pre.registered().contains_key(user)
            &&& is_token(response.auth_id@)
            &&& !pre.pending().contains_key(response.auth_id@)
            &&& post.pending() == pre.pending().insert(response.auth_id@, state)
            &&& state.r1@ == grp.decode_spec(r1)
            &&& state.r2@ == grp.decode_spec(r2)
            &&& state.user@ == user
            &&& response.c@ == be_bytes(state.c@)
            &&& state.c@ < grp.order_spec()
        })
        &&& r is Err ==> post.pending() == pre.pending()
    }

    /// What `verify_authentication` does: `InvalidArgument(S)` comes exactly
    /// when `s` is too long to decode, and changes nothing; otherwise the
    /// exchange is consumed whatever the outcome, an answer that verifies gets
    /// a session (or `Internal`, where drawing the session id failed), and
    /// every other answer is `Unauthenticated`.
    pub open spec fn answer_spec(
        pre: Self,
        post: Self,
        auth_id: Seq<char>,
        s: Seq<u8>,
        r: Result<AuthenticationAnswerResponse, Status>,
    ) -> bool {
        &&& post.verifier == pre.verifier
        &&& post.registered() == pre.registered()
        &&& post.inv()
        &&& (r matches Err(Status::InvalidArgument(_)) <==> s.len() > MAX_NUM_BYTES)
        &&& (s.len() > MAX_NUM_BYTES ==> (r matches Err(Status::InvalidArgument(Field::S)))
            && post.pending() == pre.pending())
        &&& (s.len() <= MAX_NUM_BYTES ==> {
            &&& post.pending() == pre.pending().remove(auth_id)
            &&& (r is Ok ==> pre.accepts(auth_id, be_nat(s)))
            &&& (pre.accepts(auth_id, be_nat(s)) ==> r is Ok || r matches Err(Status::Internal))
            &&& (r matches Err(Status::Internal) ==> pre.accepts(auth_id, be_nat(s)))
            &&& (!pre.accepts(auth_id, be_nat(s)) ==> r matches Err(Status::Unauthenticated))
        })
        &&& (r matches Ok(response) ==> is_token(response.session_id@))
    }

    /// A server with no users and no exchanges.
    pub fn new(verifier: Verifier<G>) -> (r: Self)
        ensures
            r.verifier == verifier,
            verifier.params.wf() ==> r.inv(),
            r.registered() == Map::<Seq<char>, Registration>::empty(),
            r.pending() == Map::<Seq<char>, AuthenticationState>::empty(),
    {
        AuthServer {
            verifier,
            registrations: new_registration_map(),
            authentication_states: new_state_map(),
        }
    }

    /// Registers the user's public keys, replacing any earlier registration.
    pub fn register(&mut self, request: RegisterRequest) -> (r: Result<RegisterResponse, Status>)
        requires
            old(self).inv(),
        ensures
            Self::register_spec(*old(self), *final(self), request.user@, request.y1@, request.y2@, r),
    {
        let y1 = match self.verifier.params.decode(request.y1.as_slice()) {
            Ok(e) => e,
            Err(_) => return Err(Status::InvalidArgument(Field::Y1)),
        };
        let y2 = match self.verifier.params.decode(request.y2.as_slice()) {
            Ok(e) => e,
            Err(_) => return Err(Status::InvalidArgument(Field::Y2)),
        };
        let ghost user = request.user@;
        let ghost (v1, v2) = (y1@, y2@);
        insert_registration(&mut self.registrations, request.user, Registration { y1, y2 });
        proof {
            assert forall|u: Seq<char>| #[trigger] self.registered().contains_key(u) implies {
                &&& self.verifier.params.is_element(self.registered()[u].y1@)
                &&& self.verifier.params.is_element(self.registered()[u].y2@)
            } by {
                if u != user {
                    assert(old(self).registered().contains_key(u));
                }
            }
        }
        Ok(RegisterResponse {})
    }

    /// Records the commitment of a registered user under a fresh `auth_id` and
    /// answers with a random challenge `c`.
    #[verifier::loop_isolation(false)]
    pub fn create_authentication_challenge(&mut self, request: AuthenticationChallengeRequest) -> (r:
        Result<AuthenticationChallengeResponse, Status>)
        requires
            old(self).inv(),
        ensures
            Self::challenge_spec(
                *old(self),
                *final(self),
                request.user@,
                request.r1@,
                request.r2@,
                r,
            ),
    {
        let r1 = match self.verifier.params.decode(request.r1.as_slice()) {
            Ok(e) => e,
            Err(_) => return Err(Status::InvalidArgument(Field::R1)),
        };
        let r2 = match self.verifier.params.decode(request.r2.as_slice()) {
            Ok(e) => e,
            Err(_) => return Err(Status::InvalidArgument(Field::R2)),
        };
        if !contains_user(&self.registrations, request.user.as_str()) {
            return Err(Status::NotFound);
        }
        let c = match self.verifier.random() {
            Ok(c) => c,
            Err(_) => return Err(Status::Internal),
        };
        let mut auth_id = match new_token() {
            Some(t) => t,
            None => return Err(Status::Internal),
        };
        let mut attempt: u32 = 0;
        while contains_state(&self.authentication_states, auth_id.as_str())
            invariant
                is_token(auth_id@),
            decreases MAX_ATTEMPTS - attempt,
        {
            if attempt >= MAX_ATTEMPTS {
                return Err(Status::Internal);
            }
            auth_id = match new_token() {
                Some(t) => t,
                None => return Err(Status::Internal),
            };
            attempt = attempt + 1;
        }
        self.open_exchange(r1, r2, request.user, c, auth_id)
    }

    /// Stores a new exchange `{r1, r2, c, user}` under `auth_id` and answers
    /// with `(auth_id, c)`; an `auth_id` that is already pending is refused
    /// with `Internal` and changes nothing.
    pub fn open_exchange(
        &mut self,
        r1: Element,
        r2: Element,
        user: String,
        c: Num,
        auth_id: String,
    ) -> (r: Result<AuthenticationChallengeResponse, Status>)
        requires
            old(self).inv(),
            c.wf(),
            c.fits(),
            c@ < old(self).verifier.params.order_spec(),
            is_token(auth_id@),
        ensures
            final(self).verifier == old(self).verifier,
            final(self).registered() == old(self).registered(),
            final(self).inv(),
            r is Ok <==> !old(self).pending().contains_key(auth_id@),
            r matches Ok(response) ==> {
                &&& response.auth_id@ == auth_id@
                &&& response.c@ == be_bytes(c@)
                &&& final(self).pending() == old(self).pending().insert(
                    auth_id@,
                    final(self).pending()[auth_id@],
                )
                &&& final(self).pending()[auth_id@]@ == (r1@, r2@, c@, user@)
            },
            r is Err ==> r == Err::<AuthenticationChallengeResponse, Status>(Status::Internal)
                && final(self).pending() == old(self).pending(),
    {
        if contains_state(&self.authentication_states, auth_id.as_str()) {
            return Err(Status::Internal);
        }
        let c_bytes = c.encode();
        let state = AuthenticationState { r1, r2, c, user };
        let ghost id = auth_id@;
        insert_state(&mut self.authentication_states, auth_id.clone(), state);
        proof {
            assert forall|k: Seq<char>| #[trigger] self.pending().contains_key(k) implies self.pending()[
                k
            ].c.fits() by {
                if k != id {
                    assert(old(self).pending().contains_key(k));
                }
            }
        }
        Ok(AuthenticationChallengeResponse { auth_id, c: c_bytes })
    }

    /// Consumes the exchange `auth_id`, whatever the outcome, and mints a
    /// session when the answer `s` verifies.
    pub fn verify_authentication(&mut self, request: AuthenticationAnswerRequest) -> (r: Result<
        AuthenticationAnswerResponse,
        Status,
    >)
        requires
            old(self).inv(),
        ensures
            Self::answer_spec(*old(self), *final(self), request.auth_id@, request.s@, r),
    {
        let s = match Num::decode(request.s.as_slice()) {
            Ok(s) => s,
            Err(_) => return Err(Status::InvalidArgument(Field::S)),
        };
        let removed = remove_state(&mut self.authentication_states, request.auth_id.as_str());
        proof {
            assert forall|k: Seq<char>| #[trigger] self.pending().contains_key(k) implies self.pending()[
                k
            ].c.fits() by {
                assert(old(self).pending().contains_key(k));
            }
            assert(self.registrations == old(self).registrations);
            assert forall|u: Seq<char>| #[trigger] self.registered().contains_key(u) implies {
                &&& self.verifier.params.is_element(self.registered()[u].y1@)
                &&& self.verifier.params.is_element(self.registered()[u].y2@)
            } by {
                assert(old(self).registered().contains_key(u));
            }
        }
        assert(self.inv());
        let state = match removed {
            Some(state) => state,
            None => {
                assert(!old(self).accepts(request.auth_id@, s@));
                return Err(Status::Unauthenticated);
            },
        };
        assert(old(self).pending().contains_key(request.auth_id@));
        assert(state.c.fits());
        let reg = match get_registration(&self.registrations, state.user.as_str()) {
            Some(reg) => reg,
            None => return Err(Status::Unauthenticated),
        };
        assert(old(self).registered().contains_key(state.user@));
        assert(self.verifier.params.is_element(reg.y1@) && self.verifier.params.is_element(reg.y2@));
        match self.verifier.check(&reg.y1, &reg.y2, &state.r1, &state.r2, &state.c, &s) {
            Ok(true) => match new_token() {
                Some(session_id) => Ok(AuthenticationAnswerResponse { session_id }),
                None => Err(Status::Internal),
            },
            Ok(false) => Err(Status::Unauthenticated),
            Err(_) => Err(Status::Internal),
        }
    }
}

/// One-shot exchanges: once an answer for `auth_id` has been handled (its `s`
/// decoded, whatever the outcome), replaying that answer, or any answer that
/// decodes, for the same `auth_id` is refused with `Unauthenticated`.
pub proof fn lemma_one_shot<G: Group>(
    s0: AuthServer<G>,
    s1: AuthServer<G>,
    s2: AuthServer<G>,
    auth_id: Seq<char>,
    first: Seq<u8>,
    second: Seq<u8>,
    r1: Result<AuthenticationAnswerResponse, Status>,
    r2: Result<AuthenticationAnswerResponse, Status>,
)
    requires
        AuthServer::answer_spec(s0, s1, auth_id, first, r1),
        AuthServer::answer_spec(s1, s2, auth_id, second, r2),
        !(r1 matches Err(Status::InvalidArgument(_))),
        second.len() <= MAX_NUM_BYTES,
    ensures
        r2 matches Err(Status::Unauthenticated),
{
}

/// No session is minted twice: of two answers for the same `auth_id`, handled
/// one after the other, at most one returns a session id.
pub proof fn lemma_single_session<G: Group>(
    s0: AuthServer<G>,
    s1: AuthServer<G>,
    s2: AuthServer<G>,
    auth_id: Seq<char>,
    first: Seq<u8>,
    second: Seq<u8>,
    r1: Result<AuthenticationAnswerResponse, Status>,
    r2: Result<AuthenticationAnswerResponse, Status>,
)
    requires
        AuthServer::answer_spec(s0, s1, auth_id, first, r1),
        AuthServer::answer_spec(s1, s2, auth_id, second, r2),
    ensures
        !(r1 is Ok && r2 is Ok),
{
}

/// Completeness of an honest DL exchange: when the server holds the keys that
/// a client sent for its secret `x`, and an exchange holding the commitment the
/// client sent for a nonce `k < q`, the answer that the client sends for the
/// challenge of that exchange is accepted.
pub proof fn lemma_dl_honest_exchange_accepted(
    server: DlAuthServer,
    auth_id: Seq<char>,
    x: nat,
    k: nat,
)
    requires
        server.verifier.params.valid(),
        k < server.verifier.params.q@,
        server.pending().contains_key(auth_id),
        server.registered().contains_key(server.pending()[auth_id].user@),
        ({
            let grp = server.verifier.params;
            let state = server.pending()[auth_id];
            let reg = server.registered()[state.user@];
            &&& reg.y1@ == grp.decode_spec(grp.exp_spec(grp.g@, x))
            &&& reg.y2@ == grp.decode_spec(grp.exp_spec(grp.h@, x))
            &&& state.r1@ == grp.decode_spec(grp.exp_spec(grp.g@, k))
            &&& state.r2@ == grp.decode_spec(grp.exp_spec(grp.h@, k))
        }),
    ensures
        server.accepts(
            auth_id,
            be_nat(
                be_bytes(
                    response_spec(
                        server.verifier.params.q@,
                        k,
                        server.pending()[auth_id].c@,
                        x,
                    ),
                ),
            ),
        ),
{
    let grp = server.verifier.params;
    let c = server.pending()[auth_id].c@;
    let p = grp.p@;
    lemma_dl_round_trip(grp, mod_exp_spec(be_nat(grp.g@), x, p));
    lemma_dl_round_trip(grp, mod_exp_spec(be_nat(grp.h@), x, p));
    lemma_dl_round_trip(grp, mod_exp_spec(be_nat(grp.g@), k, p));
    lemma_dl_round_trip(grp, mod_exp_spec(be_nat(grp.h@), k, p));
    lemma_dl_round_trip(grp, response_spec(grp.q@, k, c, x));
    lemma_dl_completeness(grp, x, k, c);
}

/// Relies on `DashMap::new`: an empty map.
#[verifier::external_body]
fn new_registration_map() -> (r: RegistrationMap)
    ensures
        registrations_of(r).dom() == Set::<Seq<char>>::empty(),
{
    DashMap::new()
}

/// Relies on `DashMap::new`: an empty map.
#[verifier::external_body]
fn new_state_map() -> (r: StateMap)
    ensures
        states_of(r).dom() == Set::<Seq<char>>::empty(),
{
    DashMap::new()
}

/// Relies on `DashMap::insert`: the entry for `user` becomes `reg`.
#[verifier::external_body]
fn insert_registration(m: &mut DashMap<String, Registration>, user: String, reg: Registration)
    ensures
        registrations_of(*final(m)) == registrations_of(*old(m)).insert(user@, reg),
{
    m.insert(user, reg);
}

/// Relies on `DashMap::contains_key`: whether `user` has an entry.
#[verifier::external_body]
fn contains_user(m: &DashMap<String, Registration>, user: &str) -> (r: bool)
    ensures
        r == registrations_of(*m).contains_key(user@),
{
    m.contains_key(user)
}

/// Relies on `DashMap::contains_key`: whether `auth_id` has an entry.
#[verifier::external_body]
fn contains_state(m: &DashMap<String, AuthenticationState>, auth_id: &str) -> (r: bool)
    ensures
        r == states_of(*m).contains_key(auth_id@),
{
    m.contains_key(auth_id)
}

/// Relies on `DashMap::get`: the entry for `user`, copied out of the guard.
#[verifier::external_body]
fn get_registration(m: &DashMap<String, Registration>, user: &str) -> (r: Option<Registration>)
    ensures
        match r {
            Some(reg) => registrations_of(*m).contains_key(user@) && reg@ == registrations_of(
                *m,
            )[user@]@,
            None => !registrations_of(*m).contains_key(user@),
        },
{
    m.get(user).map(|entry| entry.value().copy())
}

/// Relies on `DashMap::insert`: the entry for `auth_id` becomes `state`.
#[verifier::external_body]
fn insert_state(
    m: &mut DashMap<String, AuthenticationState>,
    auth_id: String,
    state: AuthenticationState,
)
    ensures
        states_of(*final(m)) == states_of(*old(m)).insert(auth_id@, state),
{
    m.insert(auth_id, state);
}

/// Relies on `DashMap::remove`: takes the entry for `auth_id` out, if there is one.
#[verifier::external_body]
fn remove_state(m: &mut DashMap<String, AuthenticationState>, auth_id: &str) -> (r: Option<
    AuthenticationState,
>)
    ensures
        states_of(*final(m)) == states_of(*old(m)).remove(auth_id@),
        match r {
            Some(state) => states_of(*old(m)).contains_key(auth_id@) && state == states_of(
                *old(m),
            )[auth_id@],
            None => !states_of(*old(m)).contains_key(auth_id@),
        },
{
    m.remove(auth_id).map(|(_, state)| state)
}

/// A fresh random identifier, or `None` where the random source failed.
fn new_token() -> (r: Option<String>)
    ensures
        r matches Some(t) ==> is_token(t@),
{
    match random_bytes16() {
        Ok(bytes) => Some(token_of(bytes)),
        Err(_) => None,
    }
}

/// Relies on `openssl::rand::rand_bytes` (RAND_bytes): fills the 16 bytes with
/// random bytes, or reports that the random source failed.
#[verifier::external_body]
fn random_bytes16() -> (r: Result<[u8; 16], ErrorStack>) {
    let mut bytes = [0u8; 16];
    openssl::rand::rand_bytes(&mut bytes)?;
    Ok(bytes)
}

/// Relies on `uuid::Builder::from_random_bytes`, `into_uuid` and the `Display`
/// of `Uuid` (`LowerHex` of the hyphenated form): 36 characters
/// `xxxxxxxx-xxxx-xxxx-xxxx-xxxxxxxxxxxx` of lowercase hex.
#[verifier::external_body]
fn token_of(bytes: [u8; 16]) -> (r: String)
    ensures
        is_token(r@),
{
    Builder::from_random_bytes(bytes).into_uuid().to_string()
}

} // verus!
