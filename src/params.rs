//! The canonical parameter sets that client and server share.
use crate::dl::{is_generator_spec, DlParams};
use crate::ec::{ec_decode_of, secp256k1_order, EcParams};
use crate::group::{Group, ParamsError};
use crate::num::{be_nat, Num};
use vstd::prelude::*;

verus! {

/// The DL modulus `p`, a 257-bit safe prime, big-endian.
pub const DL_P: [u8; 33] = [
    1, 165, 126, 180, 237, 206, 73, 225, 243, 187, 14, 190, 85, 148, 232, 112, 86, 159, 74, 110,
    103, 226, 112, 80, 121, 220, 153, 13, 0, 126, 47, 152, 71,
];

/// The first DL generator `g`, big-endian.
pub const DL_G: [u8; 33] = [
    1, 123, 138, 66, 94, 146, 149, 205, 114, 62, 193, 223, 114, 153, 3, 64, 62, 199, 104, 176, 23,
    44, 61, 209, 90, 46, 76, 221, 199, 206, 236, 113, 55,
];

/// The second DL generator `h`, big-endian.
pub const DL_H: [u8; 32] = [
    52, 203, 117, 70, 11, 73, 148, 228, 72, 226, 87, 31, 54, 82, 19, 130, 1, 46, 51, 83, 156, 101,
    25, 183, 194, 160, 120, 163, 189, 126, 18, 153,
];

/// The first EC generator `G`, SEC1 compressed.
pub const EC_G: [u8; 33] = [
    2, 192, 232, 112, 205, 104, 39, 209, 104, 239, 95, 247, 140, 78, 240, 157, 167, 251, 165, 208,
    111, 44, 60, 153, 143, 118, 211, 80, 132, 78, 190, 184, 112,
];

/// The second EC generator `H`, SEC1 compressed.
pub const EC_H: [u8; 33] = [
    3, 186, 149, 10, 202, 151, 100, 123, 187, 240, 64, 106, 197, 30, 24, 93, 77, 13, 255, 228, 204,
    21, 240, 176, 54, 127, 46, 1, 83, 124, 154, 185, 81,
];

/// The shipped EC constants decode to two distinct points other than the
/// point at infinity.
pub open spec fn ec_constants_valid() -> bool {
    EcParams::generators_spec(EC_G@, EC_H@) && ec_decode_of(EC_G@) != ec_decode_of(EC_H@)
}

/// The shipped DL constants pass `DlParams::with_params`: `p >= 3`, `g != h`,
/// and both lie in the subgroup of order `q = (p - 1) / 2` and are not 1.
pub open spec fn dl_constants_valid() -> bool {
    let p = be_nat(DL_P@);
    let q = (p - 1) as nat / 2;
    &&& p >= 3
    &&& be_nat(DL_G@) != be_nat(DL_H@)
    &&& is_generator_spec(be_nat(DL_G@), q, p)
    &&& is_generator_spec(be_nat(DL_H@), q, p)
}

/// `params` are the shipped DL parameters.
pub open spec fn is_shipped_dl(params: DlParams) -> bool {
    &&& params.valid()
    &&& params.p@ == be_nat(DL_P@)
    &&& params.q@ == (be_nat(DL_P@) - 1) as nat / 2
    &&& be_nat(params.g@) == be_nat(DL_G@)
    &&& be_nat(params.h@) == be_nat(DL_H@)
}

/// `params` are the shipped EC parameters.
pub open spec fn is_shipped_ec(params: EcParams) -> bool {
    &&& params.wf()
    &&& params.order@ == secp256k1_order()
    &&& params.g@ == ec_decode_of(EC_G@)
    &&& params.h@ == ec_decode_of(EC_H@)
    &&& params.g@ != params.h@
}

/// The canonical EC parameters, from `EC_G` and `EC_H`.
pub fn ec_params() -> (r: Result<EcParams, ParamsError>)
    ensures
        r is Ok <==> ec_constants_valid(),
        r matches Ok(params) ==> {
            &&& params.wf()
            &&& params.order@ == secp256k1_order()
            &&& params.g@ == ec_decode_of(EC_G@)
            &&& params.h@ == ec_decode_of(EC_H@)
            &&& params.g@ != params.h@
        },
{
    EcParams::with_params(EC_G.as_slice(), EC_H.as_slice())
}

/// The canonical DL parameters, from `DL_P`, `DL_G` and `DL_H`, with
/// `q = (p - 1) / 2`.
pub fn dl_params() -> (r: Result<DlParams, ParamsError>)
    ensures
        r is Ok <==> dl_constants_valid(),
        r matches Ok(params) ==> {
            &&& params.valid()
            &&& params.p@ == be_nat(DL_P@)
            &&& params.q@ == (be_nat(DL_P@) - 1) as nat / 2
            &&& be_nat(params.g@) == be_nat(DL_G@)
            &&& be_nat(params.h@) == be_nat(DL_H@)
        },
{
    let p = match Num::decode(DL_P.as_slice()) {
        Ok(n) => n,
        Err(_) => return Err(ParamsError::Arithmetic),
    };
    let g = match Num::decode(DL_G.as_slice()) {
        Ok(n) => n,
        Err(_) => return Err(ParamsError::Arithmetic),
    };
    let h = match Num::decode(DL_H.as_slice()) {
        Ok(n) => n,
        Err(_) => return Err(ParamsError::Arithmetic),
    };
    DlParams::with_params(p, g, h)
}

} // verus!
