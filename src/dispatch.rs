//! The single entry point of each endpoint, routing by algorithm tag to the
//! DL or the EC server.
use crate::group::{Group, ParamsError};
use crate::params::{
    dl_constants_valid, dl_params, ec_constants_valid, ec_params, is_shipped_dl, is_shipped_ec,
};
use crate::server::{AuthServer, DlAuthServer, EcAuthServer, Registration, AuthenticationState};
use crate::verification::Verifier;
use crate::wire::{
    AuthAlgo, AuthenticationAnswerRequest, AuthenticationAnswerResponse,
    AuthenticationChallengeRequest, AuthenticationChallengeResponse, Field, RegisterRequest,
    RegisterResponse, Status,
};
use vstd::prelude::*;

verus! {

/// Both servers behind one set of endpoints.
pub struct Server {
    pub ec_server: EcAuthServer,
    pub dl_server: DlAuthServer,
}

impl Server {
    /// Both servers can verify every answer.
    pub open spec fn wf(&self) -> bool {
        self.ec_server.inv() && self.dl_server.inv()
    }

    /// Servers for the canonical parameter sets, with no users and no exchanges.
    pub fn new() -> (r: Result<Server, ParamsError>)
        ensures
            r is Ok <==> ec_constants_valid() && dl_constants_valid(),
            r matches Ok(server) ==> {
                &&& server.wf()
                &&& is_shipped_dl(server.dl_server.verifier.params)
                &&& is_shipped_ec(server.ec_server.verifier.params)
                &&& server.ec_server.registered() == Map::<Seq<char>, Registration>::empty()
                &&& server.dl_server.registered() == Map::<Seq<char>, Registration>::empty()
                &&& server.ec_server.pending() == Map::<Seq<char>, AuthenticationState>::empty()
                &&& server.dl_server.pending() == Map::<Seq<char>, AuthenticationState>::empty()
            },
    {
        let ec = ec_params()?;
        let dl = dl_params()?;
        Ok(Server {
            ec_server: AuthServer::new(Verifier::new(ec)),
            dl_server: AuthServer::new(Verifier::new(dl)),
        })
    }

    /// `Register`, routed by `auth_algo`.
    pub fn register(&mut self, request: RegisterRequest) -> (r: Result<RegisterResponse, Status>)
        requires
            old(self).wf(),
        ensures
            final(self).wf(),
            request.auth_algo == 0 ==> final(self).ec_server == old(self).ec_server
                && DlAuthServer::register_spec(
                old(self).dl_server,
                final(self).dl_server,
                request.user@,
                request.y1@,
                request.y2@,
                r,
            ),
            request.auth_algo == 1 ==> final(self).dl_server == old(self).dl_server
                && EcAuthServer::register_spec(
                old(self).ec_server,
                final(self).ec_server,
                request.user@,
                request.y1@,
                request.y2@,
                r,
            ),
            request.auth_algo != 0 && request.auth_algo != 1 ==> *final(self) == *old(self) && r
                == Err::<RegisterResponse, Status>(Status::InvalidArgument(Field::AuthAlgo)),
    {
        match AuthAlgo::from_tag(request.auth_algo) {
            Some(AuthAlgo::Ec) => self.ec_server.register(request),
            Some(AuthAlgo::Dl) => self.dl_server.register(request),
            None => Err(Status::InvalidArgument(Field::AuthAlgo)),
        }
    }

    /// `CreateAuthenticationChallenge`, routed by `auth_algo`.
    pub fn create_authentication_challenge(&mut self, request: AuthenticationChallengeRequest) -> (r:
        Result<AuthenticationChallengeResponse, Status>)
        requires
            old(self).wf(),
        ensures
            final(self).wf(),
            request.auth_algo == 0 ==> final(self).ec_server == old(self).ec_server
                && DlAuthServer::challenge_spec(
                old(self).dl_server,
                final(self).dl_server,
                request.user@,
                request.r1@,
                request.r2@,
                r,
            ),
            request.auth_algo == 1 ==> final(self).dl_server == old(self).dl_server
                && EcAuthServer::challenge_spec(
                old(self).ec_server,
                final(self).ec_server,
                request.user@,
                request.r1@,
                request.r2@,
                r,
            ),
            request.auth_algo != 0 && request.auth_algo != 1 ==> *final(self) == *old(self) && r
                == Err::<AuthenticationChallengeResponse, Status>(
                Status::InvalidArgument(Field::AuthAlgo),
            ),
    {
        match AuthAlgo::from_tag(request.auth_algo) {
            Some(AuthAlgo::Ec) => self.ec_server.create_authentication_challenge(request),
            Some(AuthAlgo::Dl) => self.dl_server.create_authentication_challenge(request),
            None => Err(Status::InvalidArgument(Field::AuthAlgo)),
        }
    }

    /// `VerifyAuthentication`, routed by `auth_algo`.
    pub fn verify_authentication(&mut self, request: AuthenticationAnswerRequest) -> (r: Result<
        AuthenticationAnswerResponse,
        Status,
    >)
        requires
            old(self).wf(),
        ensures
            final(self).wf(),
            request.auth_algo == 0 ==> final(self).ec_server == old(self).ec_server
                && DlAuthServer::answer_spec(
                old(self).dl_server,
                final(self).dl_server,
                request.auth_id@,
                request.s@,
                r,
            ),
            request.auth_algo == 1 ==> final(self).dl_server == old(self).dl_server
                && EcAuthServer::answer_spec(
                old(self).ec_server,
                final(self).ec_server,
                request.auth_id@,
                request.s@,
                r,
            ),
            request.auth_algo != 0 && request.auth_algo != 1 ==> *final(self) == *old(self) && r
                == Err::<AuthenticationAnswerResponse, Status>(
                Status::InvalidArgument(Field::AuthAlgo),
            ),
    {
        match AuthAlgo::from_tag(request.auth_algo) {
            Some(AuthAlgo::Ec) => self.ec_server.verify_authentication(request),
            Some(AuthAlgo::Dl) => self.dl_server.verify_authentication(request),
            None => Err(Status::InvalidArgument(Field::AuthAlgo)),
        }
    }
}

} // verus!
