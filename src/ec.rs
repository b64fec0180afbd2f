//! The EC group: the points of SECP256K1, of prime order `n`.
use crate::group::{Element, Group, ParamsError, MAX_ATTEMPTS};
use crate::num::{be_bytes, be_nat, lemma_be_nat_of_bytes, rng, CryptoError, Num, MAX_NUM_BYTES};
use openssl::bn::{BigNum, BigNumContext};
use openssl::ec::{EcGroup, EcPoint, PointConversionForm};
use openssl::error::ErrorStack;
use openssl::nid::Nid;
use vstd::prelude::*;

verus! {

/// Whether `data` is a SEC1 encoding (any form) of a point of SECP256K1, the
/// point at infinity included: the bytes that `EcPoint::from_bytes` accepts.
pub uninterp spec fn ec_is_point(data: Seq<u8>) -> bool;

/// The SEC1 compressed encoding of `[scalar]point`, for a point given in any SEC1 form.
pub uninterp spec fn ec_mul_of(point: Seq<u8>, scalar: nat) -> Seq<u8>;

/// The SEC1 compressed encoding of the sum of two points given in any SEC1 form.
pub uninterp spec fn ec_add_of(a: Seq<u8>, b: Seq<u8>) -> Seq<u8>;

/// The SEC1 compressed encoding of the point that `data` encodes in any SEC1 form.
pub uninterp spec fn ec_decode_of(data: Seq<u8>) -> Seq<u8>;

/// The SEC1 compressed encoding of `[scalar]` times the curve's base point.
pub uninterp spec fn ec_generator_mul_of(scalar: nat) -> Seq<u8>;

/// The order `n` of SECP256K1.
pub open spec fn secp256k1_order() -> nat {
    0xFFFFFFFFFFFFFFFFFFFFFFFFFFFFFFFEBAAEDCE6AF48A03BBFD25E8CD0364141nat
}

/// The SEC1 encoding of the point at infinity: a single zero byte.
pub open spec fn infinity_encoding() -> Seq<u8> {
    seq![0u8]
}

/// Whether a point is the point at infinity, which generates nothing.
fn is_infinity(e: &Element) -> (r: bool)
    ensures
        r == (e@ == infinity_encoding()),
{
    if e.bytes.len() == 1 && e.bytes[0] == 0 {
        assert(e@ =~= infinity_encoding());
        true
    } else {
        false
    }
}

/// Public parameters of the EC group: two points of order `n` on SECP256K1.
pub struct EcParams {
    pub g: Element,
    pub h: Element,
    pub order: Num,
}

impl Group for EcParams {
    open spec fn wf(&self) -> bool {
        &&& self.order.wf()
        &&& self.order.fits()
        &&& self.order@ > 0
        &&& ec_is_point(self.g@)
        &&& ec_is_point(self.h@)
    }

    open spec fn is_element(&self, e: Seq<u8>) -> bool {
        ec_is_point(e)
    }

    open spec fn decodes(&self, data: Seq<u8>) -> bool {
        ec_is_point(data)
    }

    open spec fn order_spec(&self) -> nat {
        self.order@
    }

    open spec fn g_spec(&self) -> Seq<u8> {
        self.g@
    }

    open spec fn h_spec(&self) -> Seq<u8> {
        self.h@
    }

    open spec fn exp_spec(&self, base: Seq<u8>, s: nat) -> Seq<u8> {
        ec_mul_of(base, s)
    }

    open spec fn compose_spec(&self, a: Seq<u8>, b: Seq<u8>) -> Seq<u8> {
        ec_add_of(a, b)
    }

    open spec fn decode_spec(&self, data: Seq<u8>) -> Seq<u8> {
        ec_decode_of(data)
    }

    fn order(&self) -> (r: &Num) {
        &self.order
    }

    fn g(&self) -> (r: &Element) {
        &self.g
    }

    fn h(&self) -> (r: &Element) {
        &self.h
    }

    fn exp(&self, base: &Element, s: &Num) -> (r: Result<Element, CryptoError>) {
        if s.bytes.len() > MAX_NUM_BYTES {
            return Err(CryptoError);
        }
        match ec_point_mul(base.bytes.as_slice(), s.bytes.as_slice()) {
            Ok(bytes) => Ok(Element { bytes }),
            Err(e) => Err(CryptoError::from(e)),
        }
    }

    fn compose(&self, a: &Element, b: &Element) -> (r: Result<Element, CryptoError>) {
        match ec_point_add(a.bytes.as_slice(), b.bytes.as_slice()) {
            Ok(bytes) => Ok(Element { bytes }),
            Err(e) => Err(CryptoError::from(e)),
        }
    }

    fn decode(&self, data: &[u8]) -> (r: Result<Element, CryptoError>) {
        match ec_point_decode(data) {
            Ok(bytes) => Ok(Element { bytes }),
            Err(e) => Err(CryptoError::from(e)),
        }
    }
}

/// The order of SECP256K1.
fn curve_order() -> (r: Result<Num, CryptoError>)
    ensures
        r matches Ok(n) ==> n.wf() && n.fits() && n@ == secp256k1_order(),
        r is Ok,
{
    match ec_group_order() {
        Ok(bytes) => {
            proof {
                lemma_be_nat_of_bytes(secp256k1_order());
                reveal_with_fuel(be_bytes, 34);
                assert(be_bytes(secp256k1_order()).len() == 32);
            }
            Ok(Num { bytes })
        },
        Err(e) => Err(CryptoError::from(e)),
    }
}

/// `[r]` times the base point, for a random `r` in `[1, n)`; the point at
/// infinity is drawn again.
fn find_generator(order: &Num) -> (r: Result<Element, CryptoError>)
    ensures
        r matches Ok(e) ==> ec_is_point(e@) && e@ != infinity_encoding() && exists|k: nat|
            0 < k < order@ && e@ == ec_generator_mul_of(k),
{
    let mut attempt: u32 = 0;
    while attempt < MAX_ATTEMPTS
        decreases MAX_ATTEMPTS - attempt,
    {
        let k = rng(order)?;
        if k.bytes.len() != 0 && k.bytes.len() <= MAX_NUM_BYTES {
            proof {
                assert(be_bytes(0) =~= Seq::<u8>::empty());
            }
            let point = match ec_generator_mul(k.bytes.as_slice()) {
                Ok(bytes) => Element { bytes },
                Err(e) => return Err(CryptoError::from(e)),
            };
            if !is_infinity(&point) {
                return Ok(point);
            }
        }
        attempt = attempt + 1;
    }
    Err(CryptoError)
}

impl EcParams {
    /// Generates fresh parameters on SECP256K1: two distinct points `[r]B` for
    /// random nonzero scalars `r`, with `B` the curve's base point.
    pub fn new() -> (r: Result<EcParams, CryptoError>)
        ensures
            r matches Ok(params) ==> {
                &&& params.wf()
                &&& params.order@ == secp256k1_order()
                &&& params.g@ != params.h@
                &&& params.g@ != infinity_encoding()
                &&& params.h@ != infinity_encoding()
                &&& exists|k: nat| 0 < k < secp256k1_order() && params.g@ == ec_generator_mul_of(k)
                &&& exists|k: nat| 0 < k < secp256k1_order() && params.h@ == ec_generator_mul_of(k)
            },
    {
        let order = curve_order()?;
        let g = find_generator(&order)?;
        let mut h = find_generator(&order)?;
        let mut attempt: u32 = 0;
        while h.equals(&g)
            invariant
                order.wf(),
                order.fits(),
                order@ == secp256k1_order(),
                ec_is_point(g@),
                ec_is_point(h@),
                g@ != infinity_encoding(),
                h@ != infinity_encoding(),
                exists|k: nat| 0 < k < secp256k1_order() && g@ == ec_generator_mul_of(k),
                exists|k: nat| 0 < k < secp256k1_order() && h@ == ec_generator_mul_of(k),
            decreases MAX_ATTEMPTS - attempt,
        {
            if attempt >= MAX_ATTEMPTS {
                return Err(CryptoError);
            }
            h = find_generator(&order)?;
            attempt = attempt + 1;
        }
        Ok(EcParams { g, h, order })
    }

    /// Both encodings decode to points other than the point at infinity.
    pub open spec fn generators_spec(g: Seq<u8>, h: Seq<u8>) -> bool {
        &&& ec_is_point(g)
        &&& ec_is_point(h)
        &&& ec_decode_of(g) != infinity_encoding()
        &&& ec_decode_of(h) != infinity_encoding()
    }

    /// Parameters from two SEC1-encoded points, which must decode to two
    /// distinct points other than the point at infinity.
    pub fn with_params(g: &[u8], h: &[u8]) -> (r: Result<EcParams, ParamsError>)
        ensures
            r matches Ok(params) ==> {
                &&& params.wf()
                &&& params.order@ == secp256k1_order()
                &&& params.g@ == ec_decode_of(g@)
                &&& params.h@ == ec_decode_of(h@)
                &&& params.g@ != params.h@
                &&& params.g@ != infinity_encoding()
                &&& params.h@ != infinity_encoding()
            },
            r matches Err(ParamsError::NotAGenerator) <==> !Self::generators_spec(g@, h@),
            r matches Err(ParamsError::EqualGenerators) <==> Self::generators_spec(g@, h@)
                && ec_decode_of(g@) == ec_decode_of(h@),
            r is Ok <==> Self::generators_spec(g@, h@) && ec_decode_of(g@) != ec_decode_of(h@),
    {
        let order = match curve_order() {
            Ok(n) => n,
            Err(_) => return Err(ParamsError::Arithmetic),
        };
        let (gp, hp) = match (ec_point_decode(g), ec_point_decode(h)) {
            (Ok(gp), Ok(hp)) => (Element { bytes: gp }, Element { bytes: hp }),
            _ => return Err(ParamsError::NotAGenerator),
        };
        if is_infinity(&gp) || is_infinity(&hp) {
            return Err(ParamsError::NotAGenerator);
        }
        if gp.equals(&hp) {
            return Err(ParamsError::EqualGenerators);
        }
        Ok(EcParams { g: gp, h: hp, order })
    }

    /// A copy of these parameters.
    pub fn copy(&self) -> (r: EcParams)
        ensures
            r.g@ == self.g@ && r.h@ == self.h@ && r.order@ == self.order@,
            r.order.bytes@ == self.order.bytes@,
    {
        EcParams { g: self.g.copy(), h: self.h.copy(), order: self.order.copy() }
    }
}

/// Relies on `EcGroup::order` (EC_GROUP_get_order) for SECP256K1, whose order
/// is the standard constant `n`.
/// OpenSSL fails here only when memory runs out, which this library does not
/// model.
#[verifier::external_body]
fn ec_group_order() -> (r: Result<Vec<u8>, ErrorStack>)
    ensures
        r matches Ok(v) ==> v@ == be_bytes(secp256k1_order()),
        r is Ok,
{
    let group = EcGroup::from_curve_name(Nid::SECP256K1)?;
    let mut ctx = BigNumContext::new()?;
    let mut order = BigNum::new()?;
    group.order(&mut order, &mut ctx)?;
    Ok(order.to_vec())
}

/// Relies on `EcPointRef::mul2` (EC_POINT_mul) on SECP256K1, with the point
/// read by `EcPoint::from_bytes` and written by `to_bytes` in compressed form.
/// On a point encoding and a scalar of at most `MAX_NUM_BYTES` bytes, OpenSSL
/// fails here only when memory runs out, which this library does not model;
/// the compressed encoding it writes is again a point encoding.
#[verifier::external_body]
fn ec_point_mul(point: &[u8], scalar: &[u8]) -> (r: Result<Vec<u8>, ErrorStack>)
    requires
        scalar@.len() <= MAX_NUM_BYTES,
    ensures
        r matches Ok(v) ==> v@ == ec_mul_of(point@, be_nat(scalar@)) && ec_is_point(v@),
        ec_is_point(point@) ==> r is Ok,
{
    let group = EcGroup::from_curve_name(Nid::SECP256K1)?;
    let mut ctx = BigNumContext::new()?;
    let q = EcPoint::from_bytes(&group, point, &mut ctx)?;
    let n = BigNum::from_slice(scalar)?;
    let mut out = EcPoint::new(&group)?;
    out.mul2(&group, &q, &n, &mut ctx)?;
    out.to_bytes(&group, PointConversionForm::COMPRESSED, &mut ctx)
}

/// Relies on `EcPointRef::mul_generator2` (EC_POINT_mul) on SECP256K1, written
/// back in compressed form.
/// On a scalar of at most `MAX_NUM_BYTES` bytes, OpenSSL fails here only when
/// memory runs out, which this library does not model; the compressed encoding
/// it writes is a point encoding.
#[verifier::external_body]
fn ec_generator_mul(scalar: &[u8]) -> (r: Result<Vec<u8>, ErrorStack>)
    requires
        scalar@.len() <= MAX_NUM_BYTES,
    ensures
        r matches Ok(v) ==> v@ == ec_generator_mul_of(be_nat(scalar@)) && ec_is_point(v@),
        r is Ok,
{
    let group = EcGroup::from_curve_name(Nid::SECP256K1)?;
    let mut ctx = BigNumContext::new()?;
    let n = BigNum::from_slice(scalar)?;
    let mut out = EcPoint::new(&group)?;
    out.mul_generator2(&group, &n, &mut ctx)?;
    out.to_bytes(&group, PointConversionForm::COMPRESSED, &mut ctx)
}

/// Relies on `EcPointRef::add` (EC_POINT_add) on SECP256K1, with the points
/// read by `EcPoint::from_bytes` and the sum written in compressed form.
/// Beyond bytes that encode no point, OpenSSL fails here only when memory runs
/// out, which this library does not model; the compressed encoding it writes
/// is again a point encoding.
#[verifier::external_body]
fn ec_point_add(a: &[u8], b: &[u8]) -> (r: Result<Vec<u8>, ErrorStack>)
    ensures
        r matches Ok(v) ==> v@ == ec_add_of(a@, b@) && ec_is_point(v@),
        ec_is_point(a@) && ec_is_point(b@) ==> r is Ok,
{
    let group = EcGroup::from_curve_name(Nid::SECP256K1)?;
    let mut ctx = BigNumContext::new()?;
    let a = EcPoint::from_bytes(&group, a, &mut ctx)?;
    let b = EcPoint::from_bytes(&group, b, &mut ctx)?;
    let mut out = EcPoint::new(&group)?;
    out.add(&group, &a, &b, &mut ctx)?;
    out.to_bytes(&group, PointConversionForm::COMPRESSED, &mut ctx)
}

/// Relies on `EcPoint::from_bytes` (EC_POINT_oct2point) on SECP256K1, which
/// refuses bytes that encode no point of the curve; the point is written back
/// by `to_bytes` in compressed form.
/// Beyond bytes that encode no point, OpenSSL fails here only when memory runs
/// out, which this library does not model; the compressed encoding it writes
/// is again a point encoding.
#[verifier::external_body]
fn ec_point_decode(data: &[u8]) -> (r: Result<Vec<u8>, ErrorStack>)
    ensures
        r matches Ok(v) ==> v@ == ec_decode_of(data@) && ec_is_point(v@),
        r is Ok <==> ec_is_point(data@),
{
    let group = EcGroup::from_curve_name(Nid::SECP256K1)?;
    let mut ctx = BigNumContext::new()?;
    let point = EcPoint::from_bytes(&group, data, &mut ctx)?;
    point.to_bytes(&group, PointConversionForm::COMPRESSED, &mut ctx)
}

} // verus!
