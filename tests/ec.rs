use openssl::bn::{BigNum, BigNumContext};
use openssl::ec::{EcGroup, EcPoint, PointConversionForm};
use openssl::nid::Nid;
use zkp_auth::ec::EcParams;
use zkp_auth::group::Element;
use zkp_auth::num::Num;
use zkp_auth::prover::{EcProver, ProverChallengeResponse, ProverCommit, ProverPublicKeys};
use zkp_auth::verification::EcVerifier;

fn tamper_point(point: &Element) -> Element {
    let group = EcGroup::from_curve_name(Nid::SECP256K1).unwrap();
    let mut ctx = BigNumContext::new().unwrap();
    let p = EcPoint::from_bytes(&group, &point.bytes, &mut ctx).unwrap();
    let mut tampered = EcPoint::new(&group).unwrap();
    tampered.add(&group, &p, group.generator(), &mut ctx).unwrap();
    Element { bytes: tampered.to_bytes(&group, PointConversionForm::COMPRESSED, &mut ctx).unwrap() }
}

fn add_one_scalar(s: &Num) -> Num {
    let mut n = BigNum::from_slice(&s.bytes).unwrap();
    n.add_word(1).unwrap();
    Num { bytes: n.to_vec() }
}

#[test]
fn test_ec_chaum_pedersen_protocol() {
    let params = EcParams::new().unwrap();
    let prover = EcProver::new(params.copy());
    let verifier = EcVerifier::new(params.copy());
    let x = prover.random().unwrap();
    let ProverPublicKeys { y1, y2 } = prover.public_keys(&x).unwrap();
    let k = prover.random().unwrap();
    let ProverCommit { r1, r2 } = prover.commit(&k).unwrap();
    let c = verifier.random().unwrap();
    let ProverChallengeResponse { s } = prover.challenge_response(&k, &c, &x).unwrap();
    let valid = verifier.check(&y1, &y2, &r1, &r2, &c, &s).unwrap();
    assert!(valid, "Ec Chaum-Pedersen protocol verification failed");
}

#[test]
fn test_ec_incorrect_prover_secret() {
    let params = EcParams::new().unwrap();
    let prover = EcProver::new(params.copy());
    let verifier = EcVerifier::new(params.copy());
    let x = prover.random().unwrap();
    let ProverPublicKeys { y1, y2 } = prover.public_keys(&x).unwrap();
    let k = prover.random().unwrap();
    let ProverCommit { r1, r2 } = prover.commit(&k).unwrap();
    let c = verifier.random().unwrap();
    let incorrect_x = prover.random().unwrap();
    let ProverChallengeResponse { s } = prover.challenge_response(&k, &c, &incorrect_x).unwrap();
    let valid = verifier.check(&y1, &y2, &r1, &r2, &c, &s).unwrap();
    assert!(!valid, "Verification should fail with incorrect secret");
}

#[test]
fn test_ec_tampered_public_keys_y1() {
    let params = EcParams::new().unwrap();
    let prover = EcProver::new(params.copy());
    let verifier = EcVerifier::new(params.copy());
    let x = prover.random().unwrap();
    let ProverPublicKeys { y1, y2 } = prover.public_keys(&x).unwrap();
    let k = prover.random().unwrap();
    let ProverCommit { r1, r2 } = prover.commit(&k).unwrap();
    let c = verifier.random().unwrap();
    let ProverChallengeResponse { s } = prover.challenge_response(&k, &c, &x).unwrap();
    let y1 = tamper_point(&y1);
    let valid = verifier.check(&y1, &y2, &r1, &r2, &c, &s).unwrap();
    assert!(!valid, "Verification should fail with tampered public key y1");
}

#[test]
fn test_ec_tampered_public_keys_y2() {
    let params = EcParams::new().unwrap();
    let prover = EcProver::new(params.copy());
    let verifier = EcVerifier::new(params.copy());
    let x = prover.random().unwrap();
    let ProverPublicKeys { y1, y2 } = prover.public_keys(&x).unwrap();
    let k = prover.random().unwrap();
    let ProverCommit { r1, r2 } = prover.commit(&k).unwrap();
    let c = verifier.random().unwrap();
    let ProverChallengeResponse { s } = prover.challenge_response(&k, &c, &x).unwrap();
    let y2 = tamper_point(&y2);
    let valid = verifier.check(&y1, &y2, &r1, &r2, &c, &s).unwrap();
    assert!(!valid, "Verification should fail with tampered public key y2");
}

#[test]
fn test_ec_incorrect_commitment_r1() {
    let params = EcParams::new().unwrap();
    let prover = EcProver::new(params.copy());
    let verifier = EcVerifier::new(params.copy());
    let x = prover.random().unwrap();
    let ProverPublicKeys { y1, y2 } = prover.public_keys(&x).unwrap();
    let k = prover.random().unwrap();
    let ProverCommit { r1, r2 } = prover.commit(&k).unwrap();
    let c = verifier.random().unwrap();
    let ProverChallengeResponse { s } = prover.challenge_response(&k, &c, &x).unwrap();
    let r1 = tamper_point(&r1);
    let valid = verifier.check(&y1, &y2, &r1, &r2, &c, &s).unwrap();
    assert!(!valid, "Verification should fail with incorrect commitment r1");
}

#[test]
fn test_ec_incorrect_commitment_r2() {
    let params = EcParams::new().unwrap();
    let prover = EcProver::new(params.copy());
    let verifier = EcVerifier::new(params.copy());
    let x = prover.random().unwrap();
    let ProverPublicKeys { y1, y2 } = prover.public_keys(&x).unwrap();
    let k = prover.random().unwrap();
    let ProverCommit { r1, r2 } = prover.commit(&k).unwrap();
    let c = verifier.random().unwrap();
    let ProverChallengeResponse { s } = prover.challenge_response(&k, &c, &x).unwrap();
    let r2 = tamper_point(&r2);
    let valid = verifier.check(&y1, &y2, &r1, &r2, &c, &s).unwrap();
    assert!(!valid, "Verification should fail with incorrect commitment r2");
}

#[test]
fn test_ec_incorrect_challenge_response() {
    let params = EcParams::new().unwrap();
    let prover = EcProver::new(params.copy());
    let verifier = EcVerifier::new(params.copy());
    let x = prover.random().unwrap();
    let ProverPublicKeys { y1, y2 } = prover.public_keys(&x).unwrap();
    let k = prover.random().unwrap();
    let ProverCommit { r1, r2 } = prover.commit(&k).unwrap();
    let c = verifier.random().unwrap();
    let ProverChallengeResponse { s } = prover.challenge_response(&k, &c, &x).unwrap();
    let s = add_one_scalar(&s);
    let valid = verifier.check(&y1, &y2, &r1, &r2, &c, &s).unwrap();
    assert!(!valid, "Verification should fail with incorrect challenge response");
}

#[test]
fn test_ec_mismatched_parameters() {
    let params1 = EcParams::new().unwrap();
    let params2 = EcParams::new().unwrap();
    let prover = EcProver::new(params1.copy());
    let verifier = EcVerifier::new(params2.copy());
    let x = prover.random().unwrap();
    let ProverPublicKeys { y1, y2 } = prover.public_keys(&x).unwrap();
    let k = prover.random().unwrap();
    let ProverCommit { r1, r2 } = prover.commit(&k).unwrap();
    let c = verifier.random().unwrap();
    let ProverChallengeResponse { s } = prover.challenge_response(&k, &c, &x).unwrap();
    let valid = verifier.check(&y1, &y2, &r1, &r2, &c, &s).unwrap();
    assert!(!valid, "Verification should fail with mismatched parameters");
}
