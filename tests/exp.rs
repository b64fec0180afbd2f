use openssl::bn::BigNum;
use zkp_auth::dl::DlParams;
use zkp_auth::group::Element;
use zkp_auth::num::Num;
use zkp_auth::prover::{DlProver, ProverChallengeResponse, ProverCommit, ProverPublicKeys};
use zkp_auth::verification::DlVerifier;

fn add_one_element(e: &Element) -> Element {
    let mut n = BigNum::from_slice(&e.bytes).unwrap();
    n.add_word(1).unwrap();
    Element { bytes: n.to_vec() }
}

fn add_one_scalar(s: &Num) -> Num {
    let mut n = BigNum::from_slice(&s.bytes).unwrap();
    n.add_word(1).unwrap();
    Num { bytes: n.to_vec() }
}

#[test]
fn test_exp_chaum_pedersen_protocol() {
    let params = DlParams::new(256).unwrap();
    let prover = DlProver::new(params.copy());
    let verifier = DlVerifier::new(params);
    let x = prover.random().unwrap();
    let ProverPublicKeys { y1, y2 } = prover.public_keys(&x).unwrap();
    let k = prover.random().unwrap();
    let ProverCommit { r1, r2 } = prover.commit(&k).unwrap();
    let c = verifier.random().unwrap();
    let ProverChallengeResponse { s } = prover.challenge_response(&k, &c, &x).unwrap();
    let valid = verifier.check(&y1, &y2, &r1, &r2, &c, &s).unwrap();
    assert!(valid, "Chaum-Pedersen protocol verification failed");
}

#[test]
fn test_exp_incorrect_prover_secret() {
    let params = DlParams::new(256).unwrap();
    let prover = DlProver::new(params.copy());
    let verifier = DlVerifier::new(params);
    let x = prover.random().unwrap();
    let ProverPublicKeys { y1, y2 } = prover.public_keys(&x).unwrap();
    let k = prover.random().unwrap();
    let ProverCommit { r1, r2 } = prover.commit(&k).unwrap();
    let c = verifier.random().unwrap();
    let incorrect_x = prover.random().unwrap();
    let ProverChallengeResponse { s } = prover.challenge_response(&k, &c, &incorrect_x).unwrap();
    let valid = verifier.check(&y1, &y2, &r1, &r2, &c, &s).unwrap();
    assert!(!valid, "Verification should fail with incorrect secret");
}

#[test]
fn test_exp_tampered_public_keys_y1() {
    let params = DlParams::new(256).unwrap();
    let prover = DlProver::new(params.copy());
    let verifier = DlVerifier::new(params);
    let x = prover.random().unwrap();
    let ProverPublicKeys { y1, y2 } = prover.public_keys(&x).unwrap();
    let k = prover.random().unwrap();
    let ProverCommit { r1, r2 } = prover.commit(&k).unwrap();
    let c = verifier.random().unwrap();
    let ProverChallengeResponse { s } = prover.challenge_response(&k, &c, &x).unwrap();
    let y1 = add_one_element(&y1);
    let valid = verifier.check(&y1, &y2, &r1, &r2, &c, &s).unwrap();
    assert!(!valid, "Verification should fail with tampered public keys");
}

#[test]
fn test_exp_tampered_public_keys_y2() {
    let params = DlParams::new(256).unwrap();
    let prover = DlProver::new(params.copy());
    let verifier = DlVerifier::new(params);
    let x = prover.random().unwrap();
    let ProverPublicKeys { y1, y2 } = prover.public_keys(&x).unwrap();
    let k = prover.random().unwrap();
    let ProverCommit { r1, r2 } = prover.commit(&k).unwrap();
    let c = verifier.random().unwrap();
    let ProverChallengeResponse { s } = prover.challenge_response(&k, &c, &x).unwrap();
    let y2 = add_one_element(&y2);
    let valid = verifier.check(&y1, &y2, &r1, &r2, &c, &s).unwrap();
    assert!(!valid, "Verification should fail with tampered public keys");
}

#[test]
fn test_exp_incorrect_commitment_r1() {
    let params = DlParams::new(256).unwrap();
    let prover = DlProver::new(params.copy());
    let verifier = DlVerifier::new(params);
    let x = prover.random().unwrap();
    let ProverPublicKeys { y1, y2 } = prover.public_keys(&x).unwrap();
    let k = prover.random().unwrap();
    let ProverCommit { r1, r2 } = prover.commit(&k).unwrap();
    let c = verifier.random().unwrap();
    let ProverChallengeResponse { s } = prover.challenge_response(&k, &c, &x).unwrap();
    let r1 = add_one_element(&r1);
    let valid = verifier.check(&y1, &y2, &r1, &r2, &c, &s).unwrap();
    assert!(!valid, "Verification should fail with incorrect commitment");
}

#[test]
fn test_exp_incorrect_commitment_r2() {
    let params = DlParams::new(256).unwrap();
    let prover = DlProver::new(params.copy());
    let verifier = DlVerifier::new(params);
    let x = prover.random().unwrap();
    let ProverPublicKeys { y1, y2 } = prover.public_keys(&x).unwrap();
    let k = prover.random().unwrap();
    let ProverCommit { r1, r2 } = prover.commit(&k).unwrap();
    let c = verifier.random().unwrap();
    let ProverChallengeResponse { s } = prover.challenge_response(&k, &c, &x).unwrap();
    let r2 = add_one_element(&r2);
    let valid = verifier.check(&y1, &y2, &r1, &r2, &c, &s).unwrap();
    assert!(!valid, "Verification should fail with incorrect commitment");
}

#[test]
fn test_exp_incorrect_challenge_response() {
    let params = DlParams::new(256).unwrap();
    let prover = DlProver::new(params.copy());
    let verifier = DlVerifier::new(params);
    let x = prover.random().unwrap();
    let ProverPublicKeys { y1, y2 } = prover.public_keys(&x).unwrap();
    let k = prover.random().unwrap();
    let ProverCommit { r1, r2 } = prover.commit(&k).unwrap();
    let c = verifier.random().unwrap();
    let ProverChallengeResponse { s } = prover.challenge_response(&k, &c, &x).unwrap();
    let s = add_one_scalar(&s);
    let valid = verifier.check(&y1, &y2, &r1, &r2, &c, &s).unwrap();
    assert!(!valid, "Verification should fail with incorrect challenge response");
}

#[test]
fn test_exp_mismatched_parameters() {
    let params1 = DlParams::new(256).unwrap();
    let params2 = DlParams::new(256).unwrap();
    let prover = DlProver::new(params1);
    let verifier = DlVerifier::new(params2);
    let x = prover.random().unwrap();
    let ProverPublicKeys { y1, y2 } = prover.public_keys(&x).unwrap();
    let k = prover.random().unwrap();
    let ProverCommit { r1, r2 } = prover.commit(&k).unwrap();
    let c = verifier.random().unwrap();
    let ProverChallengeResponse { s } = prover.challenge_response(&k, &c, &x).unwrap();
    let valid = verifier.check(&y1, &y2, &r1, &r2, &c, &s).unwrap();
    assert!(!valid, "Verification should fail with mismatched parameters");
}
