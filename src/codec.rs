//! Requests and replies as framed fields. A request starts with a field that
//! holds its kind, a reply with a field that holds its outcome; text fields
//! are UTF-8 and algorithm tags are four big-endian bytes.
use crate::frame::{
    be32, decode_fields, encode_fields, fields_fit, frame_spec, lemma_parse_frame, parse_spec,
};
use crate::wire::{
    status_code, status_of_code, AuthenticationAnswerRequest, AuthenticationAnswerResponse,
    AuthenticationChallengeRequest, AuthenticationChallengeResponse, RegisterRequest, Status,
};
use vstd::prelude::*;
use vstd::string::StrSliceExecFns;
use vstd::utf8::encode_utf8;

verus! {

/// A request to one of the three endpoints.
pub enum Request {
    Register(RegisterRequest),
    Challenge(AuthenticationChallengeRequest),
    Answer(AuthenticationAnswerRequest),
}

/// The answer to a request.
pub enum Reply {
    Registered,
    Challenge(AuthenticationChallengeResponse),
    Session(AuthenticationAnswerResponse),
    Failed(Status),
}

/// The fields that carry a request.
pub open spec fn request_fields(r: Request) -> Seq<Seq<u8>> {
    match r {
        Request::Register(m) => seq![
            seq![1u8],
            encode_utf8(m.user@),
            m.y1@,
            m.y2@,
            be32(m.auth_algo),
        ],
        Request::Challenge(m) => seq![
            seq![2u8],
            encode_utf8(m.user@),
            m.r1@,
            m.r2@,
            be32(m.auth_algo),
        ],
        Request::Answer(m) => seq![
            seq![3u8],
            encode_utf8(m.auth_id@),
            m.s@,
            be32(m.auth_algo),
        ],
    }
}

/// The fields that carry a reply.
pub open spec fn reply_fields(r: Reply) -> Seq<Seq<u8>> {
    match r {
        Reply::Registered => seq![seq![0x81u8]],
        Reply::Challenge(m) => seq![seq![0x82u8], encode_utf8(m.auth_id@), m.c@],
        Reply::Session(m) => seq![seq![0x83u8], encode_utf8(m.session_id@)],
        Reply::Failed(s) => seq![seq![0xffu8], seq![status_code(s)]],
    }
}

/// Whether a field is the UTF-8 encoding of some text.
pub open spec fn is_text(b: Seq<u8>) -> bool {
    exists|cs: Seq<char>| encode_utf8(cs) == b
}

/// Whether a field is the encoding of some tag.
pub open spec fn is_tag(b: Seq<u8>) -> bool {
    exists|t: u32| b == #[trigger] be32(t)
}

/// The four big-endian bytes of a tag.
fn tag_bytes(tag: u32) -> (r: Vec<u8>)
    ensures
        r@ == be32(tag),
{
    let r = vec![(tag >> 24u32) as u8, (tag >> 16u32) as u8, (tag >> 8u32) as u8, tag as u8];
    assert(r@ =~= be32(tag));
    r
}

/// The tag that four big-endian bytes hold.
fn tag_of(b: &Vec<u8>) -> (r: Option<u32>)
    ensures
        r matches Some(t) ==> b@ == be32(t),
        is_tag(b@) ==> r is Some,
{
    if b.len() != 4 {
        return None;
    }
    let n: u32 = ((b[0] as u32) << 24u32) | ((b[1] as u32) << 16u32) | ((b[2] as u32) << 8u32) | (
    b[3] as u32);
    proof {
        let (b0, b1, b2, b3) = (b@[0], b@[1], b@[2], b@[3]);
        assert((((((b0 as u32) << 24u32) | ((b1 as u32) << 16u32) | ((b2 as u32) << 8u32) | (
        b3 as u32)) >> 24u32) as u8) == b0) by (bit_vector);
        assert((((((b0 as u32) << 24u32) | ((b1 as u32) << 16u32) | ((b2 as u32) << 8u32) | (
        b3 as u32)) >> 16u32) as u8) == b1) by (bit_vector);
        assert((((((b0 as u32) << 24u32) | ((b1 as u32) << 16u32) | ((b2 as u32) << 8u32) | (
        b3 as u32)) >> 8u32) as u8) == b2) by (bit_vector);
        assert(((((b0 as u32) << 24u32) | ((b1 as u32) << 16u32) | ((b2 as u32) << 8u32) | (
        b3 as u32)) as u8) == b3) by (bit_vector);
        assert(b@ =~= be32(n));
    }
    Some(n)
}

/// Whether a field is the single byte `k`.
fn is_byte(f: &Vec<u8>, k: u8) -> (r: bool)
    ensures
        r == (f@ == seq![k]),
{
    if f.len() == 1 && f[0] == k {
        assert(f@ =~= seq![k]);
        true
    } else {
        false
    }
}

/// Whether every field is short enough to be framed.
fn all_fit(fields: &Vec<Vec<u8>>) -> (r: bool)
    ensures
        r == fields_fit(fields.deep_view()),
{
    let mut i: usize = 0;
    while i < fields.len()
        invariant
            i <= fields.len(),
            forall|j: int| 0 <= j < i ==> #[trigger] fields.deep_view()[j].len() <= u32::MAX,
        decreases fields.len() - i,
    {
        assert(fields.deep_view()[i as int] == fields[i as int]@);
        if fields[i].len() > u32::MAX as usize {
            return false;
        }
        i = i + 1;
    }
    true
}

/// Frames `fields`, or `None` where a field is too long to frame.
fn frame(fields: Vec<Vec<u8>>, Ghost(spec): Ghost<Seq<Seq<u8>>>) -> (r: Option<Vec<u8>>)
    requires
        fields.deep_view() == spec,
    ensures
        r matches Some(b) ==> b@ == frame_spec(spec),
        r is None <==> !fields_fit(spec),
{
    if all_fit(&fields) {
        Some(encode_fields(&fields))
    } else {
        None
    }
}

/// The text of a UTF-8 field.
fn text(bytes: &Vec<u8>) -> (r: Option<String>)
    ensures
        r matches Some(s) ==> encode_utf8(s@) == bytes@,
        is_text(bytes@) ==> r is Some,
{
    string_from_utf8(bytes.clone())
}

/// The bytes of a request, or `None` where a field is too long to frame.
pub fn encode_request(request: &Request) -> (r: Option<Vec<u8>>)
    ensures
        r matches Some(b) ==> b@ == frame_spec(request_fields(*request)),
        r is None <==> !fields_fit(request_fields(*request)),
{
    let fields = match request {
        Request::Register(m) => {
            let fields = vec![
                vec![1u8],
                m.user.as_str().as_bytes_vec(),
                m.y1.clone(),
                m.y2.clone(),
                tag_bytes(m.auth_algo),
            ];
            assert(fields.deep_view()[1] == fields@[1]@);
            assert(fields.deep_view()[4] == fields@[4]@);
            fields
        },
        Request::Challenge(m) => {
            let fields = vec![
                vec![2u8],
                m.user.as_str().as_bytes_vec(),
                m.r1.clone(),
                m.r2.clone(),
                tag_bytes(m.auth_algo),
            ];
            assert(fields.deep_view()[1] == fields@[1]@);
            assert(fields.deep_view()[4] == fields@[4]@);
            fields
        },
        Request::Answer(m) => {
            let fields = vec![
                vec![3u8],
                m.auth_id.as_str().as_bytes_vec(),
                m.s.clone(),
                tag_bytes(m.auth_algo),
            ];
            assert(fields.deep_view()[1] == fields@[1]@);
            assert(fields.deep_view()[3] == fields@[3]@);
            fields
        },
    };
    proof {
        let fv = fields.deep_view();
        let sv = request_fields(*request);
        assert(fv.len() == sv.len());
        assert forall|i: int| 0 <= i < fv.len() implies fv[i] == sv[i] by {
            assert(fv[i] == fields@[i]@);
        }
        assert(fv =~= sv);
    }
    frame(fields, Ghost(request_fields(*request)))
}

/// The request that `data` carries, if it carries one.
pub fn decode_request(data: &[u8]) -> (r: Option<Request>)
    ensures
        r matches Some(m) ==> parse_spec(data@) == Some(request_fields(m)),
        (exists|m: Request| parse_spec(data@) == Some(request_fields(m))) ==> r is Some,
{
    let fields = match decode_fields(data) {
        Some(fields) => fields,
        None => return None,
    };
    let ghost fv = fields.deep_view();
    proof {
        assert forall|i: int| 0 <= i < fv.len() implies #[trigger] fv[i] == fields@[i]@ by {}
        assert((exists|m: Request| parse_spec(data@) == Some(request_fields(m))) ==> {
            ||| (fv.len() == 5 && (fv[0] == seq![1u8] || fv[0] == seq![2u8]) && is_text(fv[1])
                && is_tag(fv[4]))
            ||| (fv.len() == 4 && fv[0] == seq![3u8] && is_text(fv[1]) && is_tag(fv[3]))
        }) by {
            if exists|m: Request| parse_spec(data@) == Some(request_fields(m)) {
                let m = choose|m: Request| parse_spec(data@) == Some(request_fields(m));
                assert(fv == request_fields(m));
                match m {
                    Request::Register(x) => {
                        assert(fv[1] == encode_utf8(x.user@));
                        assert(fv[4] == be32(x.auth_algo));
                    },
                    Request::Challenge(x) => {
                        assert(fv[1] == encode_utf8(x.user@));
                        assert(fv[4] == be32(x.auth_algo));
                    },
                    Request::Answer(x) => {
                        assert(fv[1] == encode_utf8(x.auth_id@));
                        assert(fv[3] == be32(x.auth_algo));
                    },
                }
            }
        }
    }
    if fields.len() == 5 && (is_byte(&fields[0], 1) || is_byte(&fields[0], 2)) {
        proof {
            assert(fields.deep_view()[0] == fields[0]@);
            assert(fields.deep_view()[1] == fields[1]@);
            assert(fields.deep_view()[2] == fields[2]@);
            assert(fields.deep_view()[3] == fields[3]@);
            assert(fields.deep_view()[4] == fields[4]@);
        }
        let user = match text(&fields[1]) {
            Some(user) => user,
            None => return None,
        };
        let auth_algo = match tag_of(&fields[4]) {
            Some(t) => t,
            None => return None,
        };
        let m = if is_byte(&fields[0], 1) {
            Request::Register(
                RegisterRequest {
                    user,
                    y1: fields[2].clone(),
                    y2: fields[3].clone(),
                    auth_algo,
                },
            )
        } else {
            Request::Challenge(
                AuthenticationChallengeRequest {
                    user,
                    r1: fields[2].clone(),
                    r2: fields[3].clone(),
                    auth_algo,
                },
            )
        };
        assert(fv =~= request_fields(m));
        Some(m)
    } else if fields.len() == 4 && is_byte(&fields[0], 3) {
        proof {
            assert(fields.deep_view()[0] == fields[0]@);
            assert(fields.deep_view()[1] == fields[1]@);
            assert(fields.deep_view()[2] == fields[2]@);
            assert(fields.deep_view()[3] == fields[3]@);
        }
        let auth_id = match text(&fields[1]) {
            Some(auth_id) => auth_id,
            None => return None,
        };
        let auth_algo = match tag_of(&fields[3]) {
            Some(t) => t,
            None => return None,
        };
        let m = Request::Answer(
            AuthenticationAnswerRequest { auth_id, s: fields[2].clone(), auth_algo },
        );
        assert(fv =~= request_fields(m));
        Some(m)
    } else {
        None
    }
}

/// The bytes of a reply, or `None` where a field is too long to frame.
pub fn encode_reply(reply: &Reply) -> (r: Option<Vec<u8>>)
    ensures
        r matches Some(b) ==> b@ == frame_spec(reply_fields(*reply)),
        r is None <==> !fields_fit(reply_fields(*reply)),
{
    let fields = match reply {
        Reply::Registered => vec![vec![0x81u8]],
        Reply::Challenge(m) => vec![vec![0x82u8], m.auth_id.as_str().as_bytes_vec(), m.c.clone()],
        Reply::Session(m) => vec![vec![0x83u8], m.session_id.as_str().as_bytes_vec()],
        Reply::Failed(s) => vec![vec![0xffu8], vec![s.code()]],
    };
    proof {
        let fv = fields.deep_view();
        let sv = reply_fields(*reply);
        assert(fv.len() == sv.len());
        assert forall|i: int| 0 <= i < fv.len() implies fv[i] == sv[i] by {
            assert(fv[i] == fields@[i]@);
            if let Reply::Failed(st) = *reply {
                if i == 1 {
                    assert(fields@[1]@ =~= seq![status_code(st)]);
                }
            }
        }
        assert(fv =~= sv);
    }
    frame(fields, Ghost(reply_fields(*reply)))
}

/// The reply that `data` carries, if it carries one.
pub fn decode_reply(data: &[u8]) -> (r: Option<Reply>)
    ensures
        r matches Some(m) ==> parse_spec(data@) == Some(reply_fields(m)),
        (exists|m: Reply| parse_spec(data@) == Some(reply_fields(m))) ==> r is Some,
{
    let fields = match decode_fields(data) {
        Some(fields) => fields,
        None => return None,
    };
    let ghost fv = fields.deep_view();
    proof {
        assert forall|i: int| 0 <= i < fv.len() implies #[trigger] fv[i] == fields@[i]@ by {}
        assert((exists|m: Reply| parse_spec(data@) == Some(reply_fields(m))) ==> {
            ||| (fv.len() == 1 && fv[0] == seq![0x81u8])
            ||| (fv.len() == 3 && fv[0] == seq![0x82u8] && is_text(fv[1]))
            ||| (fv.len() == 2 && fv[0] == seq![0x83u8] && is_text(fv[1]))
            ||| (fv.len() == 2 && fv[0] == seq![0xffu8] && fv[1].len() == 1 && status_of_code(
                fv[1][0],
            ) is Some)
        }) by {
            if exists|m: Reply| parse_spec(data@) == Some(reply_fields(m)) {
                let m = choose|m: Reply| parse_spec(data@) == Some(reply_fields(m));
                assert(fv == reply_fields(m));
                match m {
                    Reply::Challenge(x) => assert(fv[1] == encode_utf8(x.auth_id@)),
                    Reply::Session(x) => assert(fv[1] == encode_utf8(x.session_id@)),
                    Reply::Failed(st) => {
                        assert(fv[1] == seq![status_code(st)]);
                        crate::wire::lemma_status_code_round_trip(st);
                    },
                    Reply::Registered => {},
                }
            }
        }
    }
    if fields.len() == 0 {
        return None;
    }
    proof {
        assert(fields.deep_view()[0] == fields[0]@);
    }
    if fields.len() == 1 && is_byte(&fields[0], 0x81) {
        assert(fv =~= reply_fields(Reply::Registered));
        Some(Reply::Registered)
    } else if fields.len() == 3 && is_byte(&fields[0], 0x82) {
        proof {
            assert(fields.deep_view()[1] == fields[1]@);
            assert(fields.deep_view()[2] == fields[2]@);
        }
        let auth_id = match text(&fields[1]) {
            Some(auth_id) => auth_id,
            None => return None,
        };
        let m = Reply::Challenge(AuthenticationChallengeResponse { auth_id, c: fields[2].clone() });
        assert(fv =~= reply_fields(m));
        Some(m)
    } else if fields.len() == 2 && is_byte(&fields[0], 0x83) {
        proof {
            assert(fields.deep_view()[1] == fields[1]@);
            assert(seq![0x83u8][0] != seq![0xffu8][0]);
        }
        let session_id = match text(&fields[1]) {
            Some(session_id) => session_id,
            None => return None,
        };
        let m = Reply::Session(AuthenticationAnswerResponse { session_id });
        assert(fv =~= reply_fields(m));
        Some(m)
    } else if fields.len() == 2 && is_byte(&fields[0], 0xff) && fields[1].len() == 1 {
        proof {
            assert(fields.deep_view()[1] == fields[1]@);
        }
        match Status::from_code(fields[1][0]) {
            Some(s) => {
                proof {
                    crate::wire::lemma_status_code_round_trip(s);
                }
                let m = Reply::Failed(s);
                assert(fields[1]@ =~= seq![status_code(s)]);
                assert(fv =~= reply_fields(m));
                Some(m)
            },
            None => None,
        }
    } else {
        None
    }
}

/// Request round trip: the bytes that `encode_request` gives for a request
/// parse back to that request's fields, so `decode_request` on them returns a
/// request, and one with exactly those fields.
pub proof fn lemma_request_round_trip(m: Request)
    requires
        fields_fit(request_fields(m)),
    ensures
        parse_spec(frame_spec(request_fields(m))) == Some(request_fields(m)),
        exists|other: Request| parse_spec(frame_spec(request_fields(m))) == Some(
            request_fields(other),
        ),
{
    lemma_parse_frame(request_fields(m));
}

/// Reply round trip: the bytes that `encode_reply` gives for a reply parse
/// back to that reply's fields, so `decode_reply` on them returns a reply, and
/// one with exactly those fields.
pub proof fn lemma_reply_round_trip(m: Reply)
    requires
        fields_fit(reply_fields(m)),
    ensures
        parse_spec(frame_spec(reply_fields(m))) == Some(reply_fields(m)),
        exists|other: Reply| parse_spec(frame_spec(reply_fields(m))) == Some(reply_fields(other)),
{
    lemma_parse_frame(reply_fields(m));
}

/// Relies on `String::from_utf8`, which fails exactly on bytes that are not
/// UTF-8 and otherwise keeps the bytes as the string's encoding.
#[verifier::external_body]
fn string_from_utf8(bytes: Vec<u8>) -> (r: Option<String>)
    ensures
        r matches Some(s) ==> encode_utf8(s@) == bytes@,
        (exists|cs: Seq<char>| encode_utf8(cs) == bytes@) ==> r is Some,
{
    String::from_utf8(bytes).ok()
}

} // verus!
