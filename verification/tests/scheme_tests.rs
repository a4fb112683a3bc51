use mercurial_signatures::MercurialSignatureError;
use mercurial_signatures::MercurialSignatureScheme;
use mercurial_signatures::prepare_rng;
use mercurial_signatures::signature;

#[test]
fn sign_then_verify() {
    let mut rng = prepare_rng();
    let scheme = MercurialSignatureScheme::new(4);
    assert_eq!(scheme.ell(), 4);
    let (sk, pk) = scheme.KeyGen(&mut rng);
    assert_eq!(sk.len(), 4);
    assert_eq!(pk.len(), 4);
    let m = scheme.randomMessage(&mut rng);
    assert_eq!(m.len(), 4);
    let sigma = scheme.Sign(&sk, &m, &mut rng).unwrap();
    assert_eq!(scheme.Verify(&pk, &m, &sigma), Ok(true));
}

#[test]
fn sign_then_verify_length_one() {
    let mut rng = prepare_rng();
    let scheme = MercurialSignatureScheme::new(1);
    let (sk, pk) = scheme.KeyGen(&mut rng);
    let m = scheme.randomMessage(&mut rng);
    let sigma = scheme.Sign(&sk, &m, &mut rng).unwrap();
    assert_eq!(scheme.Verify(&pk, &m, &sigma), Ok(true));
}

#[test]
fn convert_keys_and_signature() {
    let mut rng = prepare_rng();
    let scheme = MercurialSignatureScheme::new(4);
    let (sk, pk) = scheme.KeyGen(&mut rng);
    let m = scheme.randomMessage(&mut rng);
    let sigma = scheme.Sign(&sk, &m, &mut rng).unwrap();
    let rho = scheme.randomZp(&mut rng);
    let new_pk = scheme.ConvertPK(pk, &rho);
    let new_sig = scheme.ConvertSignature(sigma, &rho, &mut rng);
    assert_eq!(scheme.Verify(&new_pk, &m, &new_sig), Ok(true));
}

#[test]
fn converted_secret_key_signs_for_converted_public_key() {
    let mut rng = prepare_rng();
    let scheme = MercurialSignatureScheme::new(4);
    let (sk, pk) = scheme.KeyGen(&mut rng);
    let m = scheme.randomMessage(&mut rng);
    let rho = scheme.randomZp(&mut rng);
    let new_pk = scheme.ConvertPK(pk, &rho);
    let new_sk = scheme.ConvertSK(sk, &rho);
    let sigma = scheme.Sign(&new_sk, &m, &mut rng).unwrap();
    assert_eq!(scheme.Verify(&new_pk, &m, &sigma), Ok(true));
}

#[test]
fn change_representation_verifies_under_same_key() {
    let mut rng = prepare_rng();
    let scheme = MercurialSignatureScheme::new(4);
    let (sk, pk) = scheme.KeyGen(&mut rng);
    let m = scheme.randomMessage(&mut rng);
    let sigma = scheme.Sign(&sk, &m, &mut rng).unwrap();
    let mu = scheme.randomZp(&mut rng);
    let (new_m, new_sig) = scheme.ChangeRepresentation(m.clone(), sigma, &mu, &mut rng);
    assert_eq!(scheme.Verify(&pk, &new_m, &new_sig), Ok(true));
    // the old message no longer matches the adjusted signature
    assert_eq!(scheme.Verify(&pk, &m, &new_sig), Ok(false));
}

#[test]
fn full_scenario_with_conversion_and_representation_change() {
    let mut rng = prepare_rng();
    let scheme = MercurialSignatureScheme::new(4);
    let (sk, pk) = scheme.KeyGen(&mut rng);
    let m = scheme.randomMessage(&mut rng);
    let sigma = scheme.Sign(&sk, &m, &mut rng).unwrap();
    assert_eq!(scheme.Verify(&pk, &m, &sigma), Ok(true));
    let rho = scheme.randomZp(&mut rng);
    let pk2 = scheme.ConvertPK(pk, &rho);
    let sigma2 = scheme.ConvertSignature(sigma, &rho, &mut rng);
    assert_eq!(scheme.Verify(&pk2, &m, &sigma2), Ok(true));
    let mu = scheme.randomZp(&mut rng);
    let (m2, sigma3) = scheme.ChangeRepresentation(m, sigma2, &mu, &mut rng);
    assert_eq!(scheme.Verify(&pk2, &m2, &sigma3), Ok(true));
    // tamper with the Z component: verification must fail
    let other = scheme.Sign(&sk, &m2, &mut rng).unwrap();
    let tampered = signature::from_parts(
        other.Z().clone(),
        sigma3.Y().clone(),
        sigma3.Yhat().clone(),
    );
    assert_eq!(scheme.Verify(&pk2, &m2, &tampered), Ok(false));
}

#[test]
fn tampered_message_component_rejected() {
    let mut rng = prepare_rng();
    let scheme = MercurialSignatureScheme::new(4);
    let (sk, pk) = scheme.KeyGen(&mut rng);
    let m = scheme.randomMessage(&mut rng);
    let sigma = scheme.Sign(&sk, &m, &mut rng).unwrap();
    let other = scheme.randomMessage(&mut rng);
    for i in 0..4 {
        let mut tampered = m.clone();
        tampered[i] = other[i].clone();
        assert_eq!(scheme.Verify(&pk, &tampered, &sigma), Ok(false));
    }
}

#[test]
fn tampered_public_key_component_rejected() {
    let mut rng = prepare_rng();
    let scheme = MercurialSignatureScheme::new(4);
    let (sk, pk) = scheme.KeyGen(&mut rng);
    let m = scheme.randomMessage(&mut rng);
    let sigma = scheme.Sign(&sk, &m, &mut rng).unwrap();
    let (_other_sk, other_pk) = scheme.KeyGen(&mut rng);
    for i in 0..4 {
        let mut tampered = pk.clone();
        tampered[i] = other_pk[i].clone();
        assert_eq!(scheme.Verify(&tampered, &m, &sigma), Ok(false));
    }
}

#[test]
fn tampered_signature_components_rejected() {
    let mut rng = prepare_rng();
    let scheme = MercurialSignatureScheme::new(4);
    let (sk, pk) = scheme.KeyGen(&mut rng);
    let m = scheme.randomMessage(&mut rng);
    let sigma = scheme.Sign(&sk, &m, &mut rng).unwrap();
    let other = scheme.Sign(&sk, &m, &mut rng).unwrap();
    // a fresh signature on the same message uses a different blinding, so
    // splicing any single component across the two must fail
    let bad_z = signature::from_parts(other.Z().clone(), sigma.Y().clone(), sigma.Yhat().clone());
    assert_eq!(scheme.Verify(&pk, &m, &bad_z), Ok(false));
    let bad_y = signature::from_parts(sigma.Z().clone(), other.Y().clone(), sigma.Yhat().clone());
    assert_eq!(scheme.Verify(&pk, &m, &bad_y), Ok(false));
    let bad_yhat = signature::from_parts(
        sigma.Z().clone(),
        sigma.Y().clone(),
        other.Yhat().clone(),
    );
    assert_eq!(scheme.Verify(&pk, &m, &bad_yhat), Ok(false));
}

#[test]
fn verify_under_unrelated_key_rejected() {
    let mut rng = prepare_rng();
    let scheme = MercurialSignatureScheme::new(4);
    let (sk, _pk) = scheme.KeyGen(&mut rng);
    let (_sk2, pk2) = scheme.KeyGen(&mut rng);
    let m = scheme.randomMessage(&mut rng);
    let sigma = scheme.Sign(&sk, &m, &mut rng).unwrap();
    assert_eq!(scheme.Verify(&pk2, &m, &sigma), Ok(false));
}

#[test]
fn length_mismatch_rejected_before_arithmetic() {
    let mut rng = prepare_rng();
    let scheme = MercurialSignatureScheme::new(4);
    let short_scheme = MercurialSignatureScheme::new(3);
    let (sk, pk) = scheme.KeyGen(&mut rng);
    let (short_sk, short_pk) = short_scheme.KeyGen(&mut rng);
    let m = scheme.randomMessage(&mut rng);
    let short_m = short_scheme.randomMessage(&mut rng);
    // signing rejects a short message and a short key
    assert!(matches!(
        scheme.Sign(&sk, &short_m, &mut rng),
        Err(MercurialSignatureError::InvalidInput)
    ));
    assert!(matches!(
        scheme.Sign(&short_sk, &m, &mut rng),
        Err(MercurialSignatureError::InvalidInput)
    ));
    // verification rejects a short message and a short key
    let sigma = scheme.Sign(&sk, &m, &mut rng).unwrap();
    assert_eq!(
        scheme.Verify(&pk, &short_m, &sigma),
        Err(MercurialSignatureError::InvalidInput)
    );
    assert_eq!(
        scheme.Verify(&short_pk, &m, &sigma),
        Err(MercurialSignatureError::InvalidInput)
    );
}

#[test]
fn deterministic_rng_is_reproducible() {
    let mut rng_a = prepare_rng();
    let mut rng_b = prepare_rng();
    let scheme = MercurialSignatureScheme::new(2);
    let (sk_a, pk_a) = scheme.KeyGen(&mut rng_a);
    let (_sk_b, pk_b) = scheme.KeyGen(&mut rng_b);
    // the two generators were seeded alike, so the keys agree: a signature
    // under one verifies under the other
    let m = scheme.randomMessage(&mut rng_a);
    let sigma = scheme.Sign(&sk_a, &m, &mut rng_a).unwrap();
    assert_eq!(scheme.Verify(&pk_b, &m, &sigma), Ok(true));
    assert_eq!(scheme.Verify(&pk_a, &m, &sigma), Ok(true));
}
