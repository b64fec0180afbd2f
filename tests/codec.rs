use zkp_auth::codec::{decode_reply, decode_request, encode_reply, encode_request, Reply, Request};
use zkp_auth::frame::encode_fields;
use zkp_auth::wire::{
    AuthenticationAnswerRequest, AuthenticationAnswerResponse, AuthenticationChallengeRequest,
    AuthenticationChallengeResponse, Field, RegisterRequest, Status,
};

#[test]
fn register_request_round_trip() {
    let request = Request::Register(RegisterRequest {
        user: "alice".to_string(),
        y1: vec![2, 3, 4],
        y2: vec![],
        auth_algo: 1,
    });
    let body = encode_request(&request).unwrap();
    match decode_request(&body) {
        Some(Request::Register(r)) => {
            assert_eq!(r.user, "alice");
            assert_eq!(r.y1, vec![2, 3, 4]);
            assert_eq!(r.y2, Vec::<u8>::new());
            assert_eq!(r.auth_algo, 1);
        }
        _ => panic!("register request did not round trip"),
    }
}

#[test]
fn challenge_request_round_trip_with_non_ascii_user() {
    let request = Request::Challenge(AuthenticationChallengeRequest {
        user: "zoë".to_string(),
        r1: vec![9; 33],
        r2: vec![8; 33],
        auth_algo: 0,
    });
    let body = encode_request(&request).unwrap();
    match decode_request(&body) {
        Some(Request::Challenge(r)) => {
            assert_eq!(r.user, "zoë");
            assert_eq!(r.r1, vec![9; 33]);
            assert_eq!(r.r2, vec![8; 33]);
            assert_eq!(r.auth_algo, 0);
        }
        _ => panic!("challenge request did not round trip"),
    }
}

#[test]
fn answer_request_exact_bytes() {
    let request = Request::Answer(AuthenticationAnswerRequest {
        auth_id: "id".to_string(),
        s: vec![7],
        auth_algo: 1,
    });
    let body = encode_request(&request).unwrap();
    assert_eq!(
        body,
        vec![0, 0, 0, 1, 3, 0, 0, 0, 2, b'i', b'd', 0, 0, 0, 1, 7, 0, 0, 0, 4, 0, 0, 0, 1]
    );
    assert!(matches!(decode_request(&body), Some(Request::Answer(r)) if r.auth_id == "id" && r.s == vec![7]));
}

#[test]
fn malformed_requests_are_refused() {
    // unknown kind
    assert!(decode_request(&encode_fields(&vec![vec![9], vec![], vec![]])).is_none());
    // text that is not UTF-8
    let bad_user = encode_fields(&vec![vec![1], vec![0xff, 0xfe], vec![], vec![], vec![0, 0, 0, 1]]);
    assert!(decode_request(&bad_user).is_none());
    // tag of the wrong width
    let bad_tag = encode_fields(&vec![vec![3], b"id".to_vec(), vec![], vec![1]]);
    assert!(decode_request(&bad_tag).is_none());
    // truncated frame
    assert!(decode_request(&[0, 0, 0, 9, 1]).is_none());
}

#[test]
fn replies_round_trip() {
    let replies = vec![
        Reply::Registered,
        Reply::Challenge(AuthenticationChallengeResponse { auth_id: "a-b".to_string(), c: vec![1, 2] }),
        Reply::Session(AuthenticationAnswerResponse { session_id: "s".to_string() }),
        Reply::Failed(Status::NotFound),
        Reply::Failed(Status::InvalidArgument(Field::R2)),
    ];
    for reply in replies {
        let body = encode_reply(&reply).unwrap();
        let back = decode_reply(&body).unwrap();
        assert_eq!(encode_reply(&back).unwrap(), body);
    }
}

#[test]
fn failed_reply_exact_bytes() {
    let body = encode_reply(&Reply::Failed(Status::Unauthenticated)).unwrap();
    assert_eq!(body, vec![0, 0, 0, 1, 0xff, 0, 0, 0, 1, 2]);
    assert!(matches!(decode_reply(&body), Some(Reply::Failed(Status::Unauthenticated))));
    assert!(decode_reply(&[0, 0, 0, 1, 0xff, 0, 0, 0, 1, 99]).is_none());
}
