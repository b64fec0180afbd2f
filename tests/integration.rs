use zkp_auth::client::{AuthClient, Client, ClientError};
use zkp_auth::dispatch::Server;
use zkp_auth::group::Group;
use zkp_auth::wire::{AuthAlgo, AuthenticationAnswerRequest, Field, Status};

fn register<G: Group>(client: &mut AuthClient<G>, server: &mut Server, user: &str) {
    let (request, reg) = client.register_request(user).unwrap();
    server.register(request).unwrap();
    client.complete_register(user, reg);
}

fn challenge<G: Group>(client: &mut AuthClient<G>, server: &mut Server, user: &str) -> String {
    let (request, pending) = client.challenge_request(user).unwrap();
    let response = server.create_authentication_challenge(request).unwrap();
    client.record_challenge(pending, response).unwrap()
}

fn run_client_flow(algo: AuthAlgo, username: &str) -> Result<String, Status> {
    let mut server = Server::new().unwrap();
    let mut client = Client::new().unwrap();
    let request = match algo {
        AuthAlgo::Ec => {
            register(&mut client.ec_client, &mut server, username);
            let auth_id = challenge(&mut client.ec_client, &mut server, username);
            client.ec_client.answer_request(&auth_id).unwrap()
        }
        AuthAlgo::Dl => {
            register(&mut client.dl_client, &mut server, username);
            let auth_id = challenge(&mut client.dl_client, &mut server, username);
            client.dl_client.answer_request(&auth_id).unwrap()
        }
    };
    server.verify_authentication(request).map(|response| response.session_id)
}

#[test]
fn integration_test_test_ec_authentication_flow() {
    let result = run_client_flow(AuthAlgo::Ec, "test_user_ec");
    assert!(result.is_ok(), "EC authentication flow failed: {:?}", result.err());
}

#[test]
fn integration_test_test_dl_authentication_flow() {
    let result = run_client_flow(AuthAlgo::Dl, "test_user_dl");
    assert!(result.is_ok(), "DL authentication flow failed: {:?}", result.err());
}

#[test]
fn ec_flow_returns_hyphenated_session_id() {
    let session_id = run_client_flow(AuthAlgo::Ec, "alice").unwrap();
    assert_eq!(session_id.len(), 36);
    for (i, ch) in session_id.chars().enumerate() {
        if [8, 13, 18, 23].contains(&i) {
            assert_eq!(ch, '-');
        } else {
            assert!(ch.is_ascii_hexdigit() && !ch.is_ascii_uppercase());
        }
    }
}

#[test]
fn dl_flow_returns_session_id() {
    let session_id = run_client_flow(AuthAlgo::Dl, "alice").unwrap();
    assert_eq!(session_id.len(), 36);
}

#[test]
fn ec_wrong_secret_is_unauthenticated() {
    let mut server = Server::new().unwrap();
    let mut client = Client::new().unwrap();
    register(&mut client.ec_client, &mut server, "alice");
    let auth_id = challenge(&mut client.ec_client, &mut server, "alice");

    // The client answers with a freshly drawn secret instead of its own.
    let other = client.ec_client.prover.random().unwrap();
    let state = client.ec_client.authentication_states.get(auth_id.as_str()).unwrap();
    assert!(state.x.bytes != other.bytes);
    let k = state.k.copy();
    let c = state.c.copy();
    let response = client.ec_client.prover.challenge_response(&k, &c, &other).unwrap();
    let request = AuthenticationAnswerRequest {
        auth_id: auth_id.clone(),
        s: response.s.encode(),
        auth_algo: 1,
    };
    assert_eq!(server.verify_authentication(request).err(), Some(Status::Unauthenticated));
}

#[test]
fn challenge_for_unregistered_user_is_not_found() {
    let mut server = Server::new().unwrap();
    let mut client = Client::new().unwrap();
    // bob is known to the client but was never registered with the server
    let (_, reg) = client.ec_client.register_request("bob").unwrap();
    client.ec_client.complete_register("bob", reg);
    let (request, _) = client.ec_client.challenge_request("bob").unwrap();
    assert_eq!(server.create_authentication_challenge(request).err(), Some(Status::NotFound));
}

#[test]
fn unknown_auth_id_is_unauthenticated() {
    let mut server = Server::new().unwrap();
    let request = AuthenticationAnswerRequest {
        auth_id: "deadbeef-not-an-id".to_string(),
        s: vec![1, 2, 3],
        auth_algo: 1,
    };
    assert_eq!(server.verify_authentication(request).err(), Some(Status::Unauthenticated));
}

#[test]
fn replayed_answer_is_unauthenticated() {
    let mut server = Server::new().unwrap();
    let mut client = Client::new().unwrap();
    register(&mut client.ec_client, &mut server, "alice");
    let auth_id = challenge(&mut client.ec_client, &mut server, "alice");
    let request = client.ec_client.answer_request(&auth_id).unwrap();
    let replay = AuthenticationAnswerRequest {
        auth_id: request.auth_id.clone(),
        s: request.s.clone(),
        auth_algo: request.auth_algo,
    };
    let first = server.verify_authentication(request).unwrap();
    assert_eq!(first.session_id.len(), 36);
    assert_eq!(server.verify_authentication(replay).err(), Some(Status::Unauthenticated));
}

#[test]
fn failed_answer_consumes_the_exchange() {
    let mut server = Server::new().unwrap();
    let mut client = Client::new().unwrap();
    register(&mut client.dl_client, &mut server, "carol");
    let auth_id = challenge(&mut client.dl_client, &mut server, "carol");
    let good = client.dl_client.answer_request(&auth_id).unwrap();
    let mut bad_s = good.s.clone();
    bad_s.push(7);
    let bad = AuthenticationAnswerRequest { auth_id: auth_id.clone(), s: bad_s, auth_algo: 0 };
    assert_eq!(server.verify_authentication(bad).err(), Some(Status::Unauthenticated));
    // the right answer comes too late: the exchange is gone
    assert_eq!(server.verify_authentication(good).err(), Some(Status::Unauthenticated));
}

#[test]
fn client_refuses_unregistered_user_and_unknown_auth_id() {
    let mut client = Client::new().unwrap();
    assert_eq!(client.dl_client.challenge_request("nobody").err(), Some(ClientError::Unregistered));
    assert_eq!(client.dl_client.answer_request("no-such-id").err(), Some(ClientError::UnknownAuthId));
}

#[test]
fn client_forgets_exchange_after_answer() {
    let mut server = Server::new().unwrap();
    let mut client = Client::new().unwrap();
    register(&mut client.dl_client, &mut server, "dave");
    let auth_id = challenge(&mut client.dl_client, &mut server, "dave");
    assert!(client.dl_client.answer_request(&auth_id).is_ok());
    assert_eq!(client.dl_client.answer_request(&auth_id).err(), Some(ClientError::UnknownAuthId));
}

#[test]
fn unknown_algorithm_tag_is_invalid_argument() {
    let mut server = Server::new().unwrap();
    let request = AuthenticationAnswerRequest { auth_id: "x".to_string(), s: vec![], auth_algo: 7 };
    assert_eq!(
        server.verify_authentication(request).err(),
        Some(Status::InvalidArgument(Field::AuthAlgo))
    );
}

#[test]
fn malformed_point_is_invalid_argument() {
    let mut server = Server::new().unwrap();
    let request = zkp_auth::wire::RegisterRequest {
        user: "eve".to_string(),
        y1: vec![5, 1, 2],
        y2: vec![5, 1, 2],
        auth_algo: 1,
    };
    assert_eq!(server.register(request).err(), Some(Status::InvalidArgument(Field::Y1)));
}

#[test]
fn dl_bytes_sent_to_ec_server_do_not_decode() {
    let mut server = Server::new().unwrap();
    let mut client = Client::new().unwrap();
    let (mut request, _) = client.dl_client.register_request("frank").unwrap();
    request.auth_algo = 1;
    assert!(matches!(server.register(request).err(), Some(Status::InvalidArgument(_))));
}

#[test]
fn concurrent_challenges_for_one_user_are_independent() {
    let mut server = Server::new().unwrap();
    let mut client = Client::new().unwrap();
    register(&mut client.ec_client, &mut server, "grace");
    let first = challenge(&mut client.ec_client, &mut server, "grace");
    let second = challenge(&mut client.ec_client, &mut server, "grace");
    assert_ne!(first, second);
    let a = client.ec_client.answer_request(&second).unwrap();
    let b = client.ec_client.answer_request(&first).unwrap();
    assert!(server.verify_authentication(a).is_ok());
    assert!(server.verify_authentication(b).is_ok());
}

#[test]
fn open_exchange_refuses_a_pending_auth_id() {
    let mut server = Server::new().unwrap();
    let g = server.dl_server.verifier.params.g().copy();
    let h = server.dl_server.verifier.params.h().copy();
    let id = "00000000-0000-4000-8000-000000000000".to_string();
    let first = server.dl_server.open_exchange(g.copy(), h.copy(), "ann".to_string(), zkp_auth::num::small(5), id.clone());
    let response = first.unwrap();
    assert_eq!(response.auth_id, id);
    assert_eq!(response.c, vec![5]);
    let second = server.dl_server.open_exchange(g, h, "ann".to_string(), zkp_auth::num::small(6), id);
    assert_eq!(second.err(), Some(Status::Internal));
}
