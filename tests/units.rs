use openssl::bn::BigNumContext;
use openssl::ec::{EcGroup, EcPoint, PointConversionForm};
use openssl::nid::Nid;
use zkp_auth::dl::DlParams;
use zkp_auth::ec::EcParams;
use zkp_auth::frame::{decode_fields, encode_fields};
use zkp_auth::group::{Element, Group, ParamsError};
use zkp_auth::num::{half_of_predecessor, mod_exp, mod_mul, mod_sub, rng, small, Num};
use zkp_auth::params::{dl_params, ec_params, EC_G, EC_H};
use zkp_auth::prover::DlProver;
use zkp_auth::verification::DlVerifier;
use zkp_auth::wire::{AuthAlgo, Field, Status};

fn n(v: u8) -> Num {
    small(v)
}

fn tiny_group() -> DlParams {
    // p = 23 = 2 * 11 + 1; 2 and 3 lie in the subgroup of order 11
    DlParams::with_params(n(23), n(2), n(3)).unwrap()
}

#[test]
fn decode_strips_leading_zeros() {
    let v = Num::decode(&[0, 0, 1, 0]).unwrap();
    assert_eq!(v.bytes, vec![1, 0]);
    assert_eq!(Num::decode(&[0, 0]).unwrap().bytes, Vec::<u8>::new());
    assert_eq!(v.encode(), vec![1, 0]);
}

#[test]
fn small_numbers_are_minimal() {
    assert_eq!(small(0).bytes, Vec::<u8>::new());
    assert_eq!(small(200).bytes, vec![200]);
}

#[test]
fn mod_sub_wraps_to_nonnegative() {
    assert_eq!(mod_sub(&n(3), &n(5), &n(7)).unwrap().bytes, vec![5]);
    assert_eq!(mod_sub(&n(9), &n(2), &n(7)).unwrap().bytes, Vec::<u8>::new());
}

#[test]
fn mod_mul_reduces() {
    assert_eq!(mod_mul(&n(4), &n(5), &n(7)).unwrap().bytes, vec![6]);
}

#[test]
fn mod_exp_reduces() {
    let thousand = Num::decode(&[3, 232]).unwrap();
    assert_eq!(mod_exp(&n(2), &n(10), &thousand).unwrap().bytes, vec![24]);
}

#[test]
fn rng_stays_below_bound() {
    for _ in 0..50 {
        let r = rng(&n(10)).unwrap();
        assert!(r.bytes.len() <= 1 && r.bytes.first().copied().unwrap_or(0) < 10);
    }
}

#[test]
fn half_of_predecessor_of_safe_prime() {
    assert_eq!(half_of_predecessor(&n(23)).unwrap().bytes, vec![11]);
}

#[test]
fn dl_with_params_computes_q() {
    let params = tiny_group();
    assert_eq!(params.q.bytes, vec![11]);
    assert_eq!(params.p.bytes, vec![23]);
}

#[test]
fn dl_with_params_refusals() {
    assert_eq!(DlParams::with_params(n(23), n(2), n(2)).err(), Some(ParamsError::EqualGenerators));
    assert_eq!(DlParams::with_params(n(23), n(5), n(2)).err(), Some(ParamsError::NotAGenerator));
    assert_eq!(DlParams::with_params(n(23), n(2), n(1)).err(), Some(ParamsError::NotAGenerator));
    assert_eq!(DlParams::with_params(n(2), n(2), n(3)).err(), Some(ParamsError::ModulusTooSmall));
    assert_eq!(DlParams::with_params(n(0), n(2), n(3)).err(), Some(ParamsError::ModulusTooSmall));
}

#[test]
fn dl_public_keys_and_response_exact() {
    let params = tiny_group();
    let prover = DlProver::new(params.copy());
    // y1 = 2^7 mod 23 = 13, y2 = 3^7 mod 23 = 2187 mod 23 = 2
    let keys = prover.public_keys(&n(7)).unwrap();
    assert_eq!(keys.y1.bytes, vec![13]);
    assert_eq!(keys.y2.bytes, vec![2]);
    // s = (5 - 9 * 7) mod 11 = -58 mod 11 = 8
    let response = prover.challenge_response(&n(5), &n(9), &n(7)).unwrap();
    assert_eq!(response.s.bytes, vec![8]);
}

#[test]
fn dl_tiny_group_completeness_and_tampering() {
    let params = tiny_group();
    let prover = DlProver::new(params.copy());
    let verifier = DlVerifier::new(params);
    let keys = prover.public_keys(&n(7)).unwrap();
    let commit = prover.commit(&n(5)).unwrap();
    let s = prover.challenge_response(&n(5), &n(9), &n(7)).unwrap().s;
    assert!(verifier.check(&keys.y1, &keys.y2, &commit.r1, &commit.r2, &n(9), &s).unwrap());
    assert!(!verifier.check(&keys.y1, &keys.y2, &commit.r1, &commit.r2, &n(9), &n(9)).unwrap());
    let other = Element { bytes: vec![commit.r1.bytes[0] + 1] };
    assert!(!verifier.check(&keys.y1, &keys.y2, &other, &commit.r2, &n(9), &s).unwrap());
    // the honest answer plus one fails, here 9
    let tampered = Num::decode(&[s.bytes[0] + 1]).unwrap();
    assert!(!verifier.check(&keys.y1, &keys.y2, &commit.r1, &commit.r2, &n(9), &tampered).unwrap());
    // with c = 0 the public keys play no part in the equation
    let s0 = prover.challenge_response(&n(5), &n(0), &n(7)).unwrap().s;
    let y1 = Element { bytes: vec![keys.y1.bytes[0] + 1] };
    assert!(verifier.check(&y1, &keys.y2, &commit.r1, &commit.r2, &n(0), &s0).unwrap());
}

#[test]
fn dl_tiny_group_wrong_secret_fails() {
    let params = tiny_group();
    let prover = DlProver::new(params.copy());
    let verifier = DlVerifier::new(params);
    let keys = prover.public_keys(&n(7)).unwrap();
    let commit = prover.commit(&n(5)).unwrap();
    for c in 1..11u8 {
        let s = prover.challenge_response(&n(5), &n(c), &n(3)).unwrap().s;
        assert!(!verifier.check(&keys.y1, &keys.y2, &commit.r1, &commit.r2, &n(c), &s).unwrap());
    }
    // with c = 0 any secret passes
    let s = prover.challenge_response(&n(5), &n(0), &n(3)).unwrap().s;
    assert!(verifier.check(&keys.y1, &keys.y2, &commit.r1, &commit.r2, &n(0), &s).unwrap());
}

#[test]
fn canonical_dl_params_are_valid() {
    let params = dl_params().unwrap();
    assert_eq!(params.q.bytes.len(), 32);
    assert_ne!(params.g.bytes, params.h.bytes);
}

#[test]
fn canonical_ec_params_load() {
    let params = ec_params().unwrap();
    assert_eq!(params.g.bytes, EC_G.to_vec());
    assert_eq!(params.h.bytes, EC_H.to_vec());
    assert_eq!(params.order.bytes.len(), 32);
    assert_eq!(params.order.bytes[31], 0x41);
}

#[test]
fn ec_with_params_refuses_equal_points() {
    assert_eq!(EcParams::with_params(&EC_G, &EC_G).err(), Some(ParamsError::EqualGenerators));
    assert_eq!(EcParams::with_params(&[9, 9], &EC_H).err(), Some(ParamsError::NotAGenerator));
    // the point at infinity generates nothing
    assert_eq!(EcParams::with_params(&[0], &EC_H).err(), Some(ParamsError::NotAGenerator));
}

#[test]
fn ec_decode_compresses_points() {
    let group = EcGroup::from_curve_name(Nid::SECP256K1).unwrap();
    let mut ctx = BigNumContext::new().unwrap();
    let point = EcPoint::from_bytes(&group, &EC_G, &mut ctx).unwrap();
    let uncompressed = point.to_bytes(&group, PointConversionForm::UNCOMPRESSED, &mut ctx).unwrap();
    assert_eq!(uncompressed.len(), 65);
    let params = ec_params().unwrap();
    let decoded = params.decode(&uncompressed).unwrap();
    assert_eq!(decoded.bytes, EC_G.to_vec());
    assert!(params.decode(&[7, 7, 7]).is_err());
}

#[test]
fn ec_exp_and_compose_agree_with_openssl() {
    let params = ec_params().unwrap();
    // [2]G == G + G
    let doubled = params.exp(&params.g, &n(2)).unwrap();
    let summed = params.compose(&params.g, &params.g).unwrap();
    assert_eq!(doubled.bytes, summed.bytes);
    assert_eq!(doubled.bytes.len(), 33);
    assert_ne!(doubled.bytes, params.g.bytes);
}

#[test]
fn ec_generated_params_differ() {
    let params = EcParams::new().unwrap();
    assert_eq!(params.g.bytes.len(), 33);
    assert_ne!(params.g.bytes, params.h.bytes);
}

#[test]
fn frame_exact_bytes() {
    assert_eq!(encode_fields(&vec![vec![1, 2]]), vec![0, 0, 0, 2, 1, 2]);
    assert_eq!(encode_fields(&vec![]), Vec::<u8>::new());
    assert_eq!(encode_fields(&vec![vec![]]), vec![0, 0, 0, 0]);
}

#[test]
fn frame_round_trip() {
    let fields = vec![vec![], vec![1, 2, 3], b"alice".to_vec(), vec![0; 300]];
    let body = encode_fields(&fields);
    assert_eq!(decode_fields(&body), Some(fields));
}

#[test]
fn frame_rejects_truncation() {
    assert_eq!(decode_fields(&[0, 0, 0, 5, 1]), None);
    assert_eq!(decode_fields(&[0, 0]), None);
    assert_eq!(decode_fields(&[]), Some(vec![]));
}

#[test]
fn status_codes_round_trip() {
    let all = [
        Status::NotFound,
        Status::Unauthenticated,
        Status::Internal,
        Status::InvalidArgument(Field::Y1),
        Status::InvalidArgument(Field::Y2),
        Status::InvalidArgument(Field::R1),
        Status::InvalidArgument(Field::R2),
        Status::InvalidArgument(Field::C),
        Status::InvalidArgument(Field::S),
        Status::InvalidArgument(Field::AuthAlgo),
    ];
    for s in all {
        assert_eq!(Status::from_code(s.code()), Some(s));
    }
    assert_eq!(Status::from_code(0), None);
    assert_eq!(Status::NotFound.code(), 1);
}

#[test]
fn algorithm_tags() {
    assert_eq!(AuthAlgo::from_tag(0), Some(AuthAlgo::Dl));
    assert_eq!(AuthAlgo::from_tag(1), Some(AuthAlgo::Ec));
    assert_eq!(AuthAlgo::from_tag(2), None);
    assert_eq!(AuthAlgo::Ec.tag(), 1);
}

#[test]
fn num_bits_exact() {
    assert_eq!(zkp_auth::num::num_bits(&n(0)), 0);
    assert_eq!(zkp_auth::num::num_bits(&n(1)), 1);
    assert_eq!(zkp_auth::num::num_bits(&n(23)), 5);
    assert_eq!(zkp_auth::num::num_bits(&Num::decode(&[1, 0]).unwrap()), 9);
    let params = dl_params().unwrap();
    assert_eq!(zkp_auth::num::num_bits(&params.q), 256);
    assert_eq!(zkp_auth::num::num_bits(&params.p), 257);
}

#[test]
fn generated_dl_params_have_exact_bit_lengths() {
    let params = DlParams::new(64).unwrap();
    assert_eq!(zkp_auth::num::num_bits(&params.p), 65);
    assert_eq!(zkp_auth::num::num_bits(&params.q), 64);
}

#[test]
fn generators_must_lie_below_the_modulus() {
    // 25 ≡ 2 and 24 ≡ 1 modulo 23, but neither is a residue below 23
    assert!(!zkp_auth::dl::is_generator(&n(25), &n(11), &n(23)).unwrap());
    assert!(!zkp_auth::dl::is_generator(&n(24), &n(11), &n(23)).unwrap());
    assert_eq!(DlParams::with_params(n(23), n(25), n(3)).err(), Some(ParamsError::NotAGenerator));
}
