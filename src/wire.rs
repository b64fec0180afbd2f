//! The request and response messages of the three RPC endpoints, and the
//! errors they return. Byte fields carry encodings that the receiver decodes
//! for the algorithm that the message names.
use vstd::prelude::*;

verus! {

/// The algebraic setting of a message.
#[derive(Debug, Clone, Copy, PartialEq, Eq, Structural)]
pub enum AuthAlgo {
    Dl,
    Ec,
}

/// The wire tag of `algo`: 0 for DL, 1 for EC.
pub open spec fn algo_tag(algo: AuthAlgo) -> u32 {
    match algo {
        AuthAlgo::Dl => 0,
        AuthAlgo::Ec => 1,
    }
}

impl AuthAlgo {
    /// The algorithm that a wire tag names, if any.
    pub fn from_tag(tag: u32) -> (r: Option<AuthAlgo>)
        ensures
            r matches Some(a) ==> algo_tag(a) == tag,
            r is None ==> tag != 0 && tag != 1,
    {
        if tag == 0 {
            Some(AuthAlgo::Dl)
        } else if tag == 1 {
            Some(AuthAlgo::Ec)
        } else {
            None
        }
    }

    /// The wire tag of this algorithm.
    pub fn tag(&self) -> (r: u32)
        ensures
            r == algo_tag(*self),
    {
        match self {
            AuthAlgo::Dl => 0,
            AuthAlgo::Ec => 1,
        }
    }
}

/// A message field, named in an `InvalidArgument` error.
#[derive(Debug, Clone, Copy, PartialEq, Eq, Structural)]
pub enum Field {
    Y1,
    Y2,
    R1,
    R2,
    C,
    S,
    AuthAlgo,
}

/// The error of an endpoint.
#[derive(Debug, Clone, Copy, PartialEq, Eq, Structural)]
pub enum Status {
    /// A field could not be decoded, or the algorithm tag is unknown.
    InvalidArgument(Field),
    /// The user is not registered.
    NotFound,
    /// The `auth_id` is unknown or the answer does not verify.
    Unauthenticated,
    /// An arithmetic failure.
    Internal,
}

/// The wire code of a field: its position in `Field`.
pub open spec fn field_code(f: Field) -> u8 {
    match f {
        Field::Y1 => 0,
        Field::Y2 => 1,
        Field::R1 => 2,
        Field::R2 => 3,
        Field::C => 4,
        Field::S => 5,
        Field::AuthAlgo => 6,
    }
}

/// The wire code of an error: 1 to 3 for `NotFound`, `Unauthenticated` and
/// `Internal`, and `16 + field_code(f)` for `InvalidArgument(f)`.
pub open spec fn status_code(s: Status) -> u8 {
    match s {
        Status::NotFound => 1,
        Status::Unauthenticated => 2,
        Status::Internal => 3,
        Status::InvalidArgument(f) => (16 + field_code(f)) as u8,
    }
}

/// The error that a wire code stands for, if any.
pub open spec fn status_of_code(code: u8) -> Option<Status> {
    if code == 1 {
        Some(Status::NotFound)
    } else if code == 2 {
        Some(Status::Unauthenticated)
    } else if code == 3 {
        Some(Status::Internal)
    } else if code == 16 {
        Some(Status::InvalidArgument(Field::Y1))
    } else if code == 17 {
        Some(Status::InvalidArgument(Field::Y2))
    } else if code == 18 {
        Some(Status::InvalidArgument(Field::R1))
    } else if code == 19 {
        Some(Status::InvalidArgument(Field::R2))
    } else if code == 20 {
        Some(Status::InvalidArgument(Field::C))
    } else if code == 21 {
        Some(Status::InvalidArgument(Field::S))
    } else if code == 22 {
        Some(Status::InvalidArgument(Field::AuthAlgo))
    } else {
        None
    }
}

impl Status {
    /// The wire code of this error.
    pub fn code(&self) -> (r: u8)
        ensures
            r == status_code(*self),
    {
        match self {
            Status::NotFound => 1,
            Status::Unauthenticated => 2,
            Status::Internal => 3,
            Status::InvalidArgument(f) => 16 + match f {
                Field::Y1 => 0,
                Field::Y2 => 1,
                Field::R1 => 2,
                Field::R2 => 3,
                Field::C => 4,
                Field::S => 5,
                Field::AuthAlgo => 6,
            },
        }
    }

    /// The error that a wire code stands for, if any.
    pub fn from_code(code: u8) -> (r: Option<Status>)
        ensures
            r == status_of_code(code),
    {
        match code {
            1 => Some(Status::NotFound),
            2 => Some(Status::Unauthenticated),
            3 => Some(Status::Internal),
            16 => Some(Status::InvalidArgument(Field::Y1)),
            17 => Some(Status::InvalidArgument(Field::Y2)),
            18 => Some(Status::InvalidArgument(Field::R1)),
            19 => Some(Status::InvalidArgument(Field::R2)),
            20 => Some(Status::InvalidArgument(Field::C)),
            21 => Some(Status::InvalidArgument(Field::S)),
            22 => Some(Status::InvalidArgument(Field::AuthAlgo)),
            _ => None,
        }
    }
}

/// Error codes round trip: reading the code of an error gives that error back.
pub proof fn lemma_status_code_round_trip(s: Status)
    ensures
        status_of_code(status_code(s)) == Some(s),
{
}

/// Registers `user` with the public keys `y1`, `y2`.
pub struct RegisterRequest {
    pub user: String,
    pub y1: Vec<u8>,
    pub y2: Vec<u8>,
    pub auth_algo: u32,
}

/// The empty answer to a registration.
pub struct RegisterResponse {}

/// Asks for a challenge to the commitment `r1`, `r2` of `user`.
pub struct AuthenticationChallengeRequest {
    pub user: String,
    pub r1: Vec<u8>,
    pub r2: Vec<u8>,
    pub auth_algo: u32,
}

/// The challenge `c`, and the identifier of the exchange.
pub struct AuthenticationChallengeResponse {
    pub auth_id: String,
    pub c: Vec<u8>,
}

/// The answer `s` to the challenge of the exchange `auth_id`.
pub struct AuthenticationAnswerRequest {
    pub auth_id: String,
    pub s: Vec<u8>,
    pub auth_algo: u32,
}

/// The session minted for a verified answer.
pub struct AuthenticationAnswerResponse {
    pub session_id: String,
}

} // verus!
