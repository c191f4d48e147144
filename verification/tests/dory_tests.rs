use proof_of_sql::dory::{
    extended_dory_inner_product_prove,
    extended_dory_inner_product_verify,
    rand_F_tensors,
    rand_G_vecs,
    test_rng,
    DoryMessages,
    ExtendedProverState,
    ProverSetup,
    PublicParameters,
    VerifierSetup,
    G1,
    GT,
};
use proof_of_sql::transcript::Transcript;

#[test]
fn we_can_prove_and_verify_an_extended_dory_inner_product() {
    let mut rng = test_rng();
    let nu = 3;
    let pp = PublicParameters::test_rand(nu, &mut rng);
    let prover_setup = ProverSetup::new(&pp);
    let verifier_setup = VerifierSetup::new(&pp);
    let (s1_tensor, s2_tensor) = rand_F_tensors(nu, &mut rng);
    let (v1, v2) = rand_G_vecs(nu, &mut rng);
    let prover_state = ExtendedProverState::new_from_tensors(s1_tensor, s2_tensor, v1, v2, nu);
    let verifier_state = prover_state.calculate_verifier_state(&prover_setup);

    let mut transcript = Transcript::new(b"extended_dory_inner_product_test");
    let mut messages = DoryMessages::default();
    extended_dory_inner_product_prove(&mut messages, &mut transcript, prover_state, &prover_setup);

    let mut transcript = Transcript::new(b"extended_dory_inner_product_test");
    assert!(extended_dory_inner_product_verify(
        &mut messages,
        &mut transcript,
        verifier_state,
        &verifier_setup,
    ));
}

#[test]
fn we_can_prove_and_verify_an_extended_dory_inner_product_for_multiple_nu_values() {
    let mut rng = test_rng();
    let max_nu = 5;
    let pp = PublicParameters::test_rand(max_nu, &mut rng);
    let prover_setup = ProverSetup::new(&pp);
    let verifier_setup = VerifierSetup::new(&pp);

    for nu in 0..max_nu {
        let (s1_tensor, s2_tensor) = rand_F_tensors(nu, &mut rng);
        let (v1, v2) = rand_G_vecs(nu, &mut rng);
        let prover_state = ExtendedProverState::new_from_tensors(s1_tensor, s2_tensor, v1, v2, nu);
        let verifier_state = prover_state.calculate_verifier_state(&prover_setup);

        let mut transcript = Transcript::new(b"extended_dory_inner_product_test");
        let mut messages = DoryMessages::default();
        extended_dory_inner_product_prove(
            &mut messages,
            &mut transcript,
            prover_state,
            &prover_setup,
        );

        let mut transcript = Transcript::new(b"extended_dory_inner_product_test");
        assert!(extended_dory_inner_product_verify(
            &mut messages,
            &mut transcript,
            verifier_state,
            &verifier_setup,
        ));
    }
}

#[test]
fn we_fail_to_verify_an_extended_dory_inner_product_when_a_message_is_modified() {
    let mut rng = test_rng();
    let nu = 3;
    let pp = PublicParameters::test_rand(nu, &mut rng);
    let prover_setup = ProverSetup::new(&pp);
    let verifier_setup = VerifierSetup::new(&pp);
    let (s1_tensor, s2_tensor) = rand_F_tensors(nu, &mut rng);
    let (v1, v2) = rand_G_vecs(nu, &mut rng);
    let prover_state = ExtendedProverState::new_from_tensors(s1_tensor, s2_tensor, v1, v2, nu);
    let verifier_state = prover_state.calculate_verifier_state(&prover_setup);

    let mut transcript = Transcript::new(b"extended_dory_inner_product_test");
    let mut messages = DoryMessages::default();
    extended_dory_inner_product_prove(&mut messages, &mut transcript, prover_state, &prover_setup);

    messages.GT_messages[0] = GT::rand(&mut rng);

    let mut transcript = Transcript::new(b"extended_dory_inner_product_test");
    assert!(!extended_dory_inner_product_verify(
        &mut messages,
        &mut transcript,
        verifier_state,
        &verifier_setup,
    ));
}

#[test]
#[allow(non_snake_case)]
fn we_fail_to_verify_an_extended_dory_inner_product_when_there_are_too_few_GT_messages() {
    let mut rng = test_rng();
    let nu = 3;
    let pp = PublicParameters::test_rand(nu, &mut rng);
    let prover_setup = ProverSetup::new(&pp);
    let verifier_setup = VerifierSetup::new(&pp);
    let (s1_tensor, s2_tensor) = rand_F_tensors(nu, &mut rng);
    let (v1, v2) = rand_G_vecs(nu, &mut rng);
    let prover_state = ExtendedProverState::new_from_tensors(s1_tensor, s2_tensor, v1, v2, nu);
    let verifier_state = prover_state.calculate_verifier_state(&prover_setup);

    let mut transcript = Transcript::new(b"extended_dory_inner_product_test");
    let mut messages = DoryMessages::default();
    extended_dory_inner_product_prove(&mut messages, &mut transcript, prover_state, &prover_setup);

    messages.GT_messages.pop();

    let mut transcript = Transcript::new(b"extended_dory_inner_product_test");
    assert!(!extended_dory_inner_product_verify(
        &mut messages,
        &mut transcript,
        verifier_state,
        &verifier_setup,
    ));
}

#[test]
#[allow(non_snake_case)]
fn we_fail_to_verify_an_extended_dory_inner_product_when_there_are_too_many_GT_messages() {
    let mut rng = test_rng();
    let nu = 3;
    let pp = PublicParameters::test_rand(nu, &mut rng);
    let prover_setup = ProverSetup::new(&pp);
    let verifier_setup = VerifierSetup::new(&pp);
    let (s1_tensor, s2_tensor) = rand_F_tensors(nu, &mut rng);
    let (v1, v2) = rand_G_vecs(nu, &mut rng);
    let prover_state = ExtendedProverState::new_from_tensors(s1_tensor, s2_tensor, v1, v2, nu);
    let verifier_state = prover_state.calculate_verifier_state(&prover_setup);

    let mut transcript = Transcript::new(b"extended_dory_inner_product_test");
    let mut messages = DoryMessages::default();
    extended_dory_inner_product_prove(&mut messages, &mut transcript, prover_state, &prover_setup);

    messages.GT_messages.push(GT::rand(&mut rng));

    let mut transcript = Transcript::new(b"extended_dory_inner_product_test");
    assert!(!extended_dory_inner_product_verify(
        &mut messages,
        &mut transcript,
        verifier_state,
        &verifier_setup,
    ));
}

#[test]
#[allow(non_snake_case)]
fn we_fail_to_verify_an_extended_dory_inner_product_when_there_are_too_few_G1_messages() {
    let mut rng = test_rng();
    let nu = 3;
    let pp = PublicParameters::test_rand(nu, &mut rng);
    let prover_setup = ProverSetup::new(&pp);
    let verifier_setup = VerifierSetup::new(&pp);
    let (s1_tensor, s2_tensor) = rand_F_tensors(nu, &mut rng);
    let (v1, v2) = rand_G_vecs(nu, &mut rng);
    let prover_state = ExtendedProverState::new_from_tensors(s1_tensor, s2_tensor, v1, v2, nu);
    let verifier_state = prover_state.calculate_verifier_state(&prover_setup);

    let mut transcript = Transcript::new(b"extended_dory_inner_product_test");
    let mut messages = DoryMessages::default();
    extended_dory_inner_product_prove(&mut messages, &mut transcript, prover_state, &prover_setup);

    messages.G1_messages.pop();

    let mut transcript = Transcript::new(b"extended_dory_inner_product_test");
    assert!(!extended_dory_inner_product_verify(
        &mut messages,
        &mut transcript,
        verifier_state,
        &verifier_setup,
    ));
}

#[test]
#[allow(non_snake_case)]
fn we_fail_to_verify_an_extended_dory_inner_product_when_there_are_too_many_G1_messages() {
    let mut rng = test_rng();
    let nu = 3;
    let pp = PublicParameters::test_rand(nu, &mut rng);
    let prover_setup = ProverSetup::new(&pp);
    let verifier_setup = VerifierSetup::new(&pp);
    let (s1_tensor, s2_tensor) = rand_F_tensors(nu, &mut rng);
    let (v1, v2) = rand_G_vecs(nu, &mut rng);
    let prover_state = ExtendedProverState::new_from_tensors(s1_tensor, s2_tensor, v1, v2, nu);
    let verifier_state = prover_state.calculate_verifier_state(&prover_setup);

    let mut transcript = Transcript::new(b"extended_dory_inner_product_test");
    let mut messages = DoryMessages::default();
    extended_dory_inner_product_prove(&mut messages, &mut transcript, prover_state, &prover_setup);

    messages.G1_messages.push(G1::rand(&mut rng));

    let mut transcript = Transcript::new(b"extended_dory_inner_product_test");
    assert!(!extended_dory_inner_product_verify(
        &mut messages,
        &mut transcript,
        verifier_state,
        &verifier_setup,
    ));
}

#[test]
fn we_fail_to_verify_an_extended_dory_inner_product_when_the_transcripts_differ() {
    let mut rng = test_rng();
    let nu = 3;
    let pp = PublicParameters::test_rand(nu, &mut rng);
    let prover_setup = ProverSetup::new(&pp);
    let verifier_setup = VerifierSetup::new(&pp);
    let (s1_tensor, s2_tensor) = rand_F_tensors(nu, &mut rng);
    let (v1, v2) = rand_G_vecs(nu, &mut rng);
    let prover_state = ExtendedProverState::new_from_tensors(s1_tensor, s2_tensor, v1, v2, nu);
    let verifier_state = prover_state.calculate_verifier_state(&prover_setup);

    let mut transcript = Transcript::new(b"extended_dory_inner_product_test_wrong");
    let mut messages = DoryMessages::default();
    extended_dory_inner_product_prove(&mut messages, &mut transcript, prover_state, &prover_setup);

    let mut transcript = Transcript::new(b"extended_dory_inner_product_test");
    assert!(!extended_dory_inner_product_verify(
        &mut messages,
        &mut transcript,
        verifier_state,
        &verifier_setup,
    ));
}

#[test]
fn we_fail_to_verify_an_extended_dory_inner_product_when_the_setups_differ() {
    let mut rng = test_rng();
    let nu = 3;
    let pp = PublicParameters::test_rand(nu, &mut rng);
    let prover_setup = ProverSetup::new(&pp);
    let pp_wrong = PublicParameters::test_rand(nu, &mut rng);
    let verifier_setup = VerifierSetup::new(&pp_wrong);
    let (s1_tensor, s2_tensor) = rand_F_tensors(nu, &mut rng);
    let (v1, v2) = rand_G_vecs(nu, &mut rng);
    let prover_state = ExtendedProverState::new_from_tensors(s1_tensor, s2_tensor, v1, v2, nu);
    let verifier_state = prover_state.calculate_verifier_state(&prover_setup);

    let mut transcript = Transcript::new(b"extended_dory_inner_product_test");
    let mut messages = DoryMessages::default();
    extended_dory_inner_product_prove(&mut messages, &mut transcript, prover_state, &prover_setup);

    messages.GT_messages[0] = GT::rand(&mut rng);

    let mut transcript = Transcript::new(b"extended_dory_inner_product_test");
    assert!(!extended_dory_inner_product_verify(
        &mut messages,
        &mut transcript,
        verifier_state,
        &verifier_setup,
    ));
}

#[test]
fn we_fail_to_verify_an_extended_dory_inner_product_when_the_base_commitment_is_wrong() {
    let mut rng = test_rng();
    let nu = 3;
    let pp = PublicParameters::test_rand(nu, &mut rng);
    let prover_setup = ProverSetup::new(&pp);
    let verifier_setup = VerifierSetup::new(&pp);
    let (s1_tensor, s2_tensor) = rand_F_tensors(nu, &mut rng);
    let (v1, v2) = rand_G_vecs(nu, &mut rng);
    let prover_state = ExtendedProverState::new_from_tensors(s1_tensor, s2_tensor, v1, v2, nu);
    let mut verifier_state = prover_state.calculate_verifier_state(&prover_setup);

    verifier_state.base_state.C = GT::rand(&mut rng);

    let mut transcript = Transcript::new(b"extended_dory_inner_product_test");
    let mut messages = DoryMessages::default();
    extended_dory_inner_product_prove(&mut messages, &mut transcript, prover_state, &prover_setup);

    let mut transcript = Transcript::new(b"extended_dory_inner_product_test");
    assert!(!extended_dory_inner_product_verify(
        &mut messages,
        &mut transcript,
        verifier_state,
        &verifier_setup,
    ));
}

#[test]
fn we_fail_to_verify_an_extended_dory_inner_product_when_a_scalar_commitment_is_wrong() {
    let mut rng = test_rng();
    let nu = 3;
    let pp = PublicParameters::test_rand(nu, &mut rng);
    let prover_setup = ProverSetup::new(&pp);
    let verifier_setup = VerifierSetup::new(&pp);
    let (s1_tensor, s2_tensor) = rand_F_tensors(nu, &mut rng);
    let (v1, v2) = rand_G_vecs(nu, &mut rng);
    let prover_state = ExtendedProverState::new_from_tensors(s1_tensor, s2_tensor, v1, v2, nu);
    let mut verifier_state = prover_state.calculate_verifier_state(&prover_setup);

    verifier_state.E_1 = G1::rand(&mut rng);

    let mut transcript = Transcript::new(b"extended_dory_inner_product_test");
    let mut messages = DoryMessages::default();
    extended_dory_inner_product_prove(&mut messages, &mut transcript, prover_state, &prover_setup);

    let mut transcript = Transcript::new(b"extended_dory_inner_product_test");
    assert!(!extended_dory_inner_product_verify(
        &mut messages,
        &mut transcript,
        verifier_state,
        &verifier_setup,
    ));
}

#[test]
fn we_can_serialize_and_deserialize_round_trip() {
    let mut rng = test_rng();
    let original_params = PublicParameters::rand(2, &mut rng);

    let serialized_data = original_params.to_bytes();

    let deserialized_params =
        PublicParameters::from_bytes(&serialized_data).expect("should deserialize");

    assert_eq!(original_params.Gamma_1.len(), deserialized_params.Gamma_1.len());
    for i in 0..original_params.Gamma_1.len() {
        assert!(original_params.Gamma_1[i].eq_element(&deserialized_params.Gamma_1[i]));
    }
    assert_eq!(original_params.Gamma_2.len(), deserialized_params.Gamma_2.len());
    for i in 0..original_params.Gamma_2.len() {
        assert!(original_params.Gamma_2[i].eq_element(&deserialized_params.Gamma_2[i]));
    }
    assert!(original_params.H_1.eq_element(&deserialized_params.H_1));
    assert!(original_params.H_2.eq_element(&deserialized_params.H_2));
    assert!(original_params.Gamma_2_fin.eq_element(&deserialized_params.Gamma_2_fin));
    assert_eq!(original_params.max_nu, deserialized_params.max_nu);

    deserialized_params.check().expect("deserialized parameters should be valid");
}

#[test]
fn we_reject_truncated_public_parameter_bytes() {
    let mut rng = test_rng();
    let original_params = PublicParameters::rand(1, &mut rng);
    let mut bytes = original_params.to_bytes();
    bytes.pop();
    assert!(PublicParameters::from_bytes(&bytes).is_err());
}
