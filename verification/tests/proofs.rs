use ark_bls12_381::Bls12_381;
use ark_bls12_381::Fr;
use ark_crypto_primitives::crh::sha256::constraints::DigestVar;
use ark_crypto_primitives::crh::sha256::constraints::Sha256Gadget;
use ark_groth16::Groth16;
use ark_groth16::ProvingKey;
use ark_r1cs_std::alloc::AllocVar;
use ark_r1cs_std::eq::EqGadget;
use ark_r1cs_std::fields::fp::FpVar;
use ark_r1cs_std::fields::FieldVar;
use ark_r1cs_std::select::CondSelectGadget;
use ark_r1cs_std::uint8::UInt8;
use ark_r1cs_std::ToBytesGadget;
use ark_relations::r1cs::ConstraintSynthesizer;
use ark_relations::r1cs::ConstraintSystem;
use ark_relations::r1cs::ConstraintSystemRef;
use ark_relations::r1cs::SynthesisError;
use ark_serialize::CanonicalSerialize;
use ark_snark::SNARK;
use ark_std::rand::rngs::StdRng;
use ark_std::rand::SeedableRng;
use std::cmp::Ordering;
use zk_mastermind::code_circuit::CodeDeclarationCircuit;
use zk_mastermind::crypto::Code;
use zk_mastermind::feedback::evaluate;
use zk_mastermind::game::Phase;
use zk_mastermind::game::Session;
use zk_mastermind::guess_circuit::GuessCircuit;
use zk_mastermind::host::CheatingHost;
use zk_mastermind::host::EvilHost;
use zk_mastermind::host::HonestHost;
use zk_mastermind::host::Host;
use zk_mastermind::proof_service::verify;
use zk_mastermind::proof_service::verify_guess;
use zk_mastermind::proof_service::Proof;

fn cast_fp_var_to_uint8(var: &FpVar<Fr>) -> Result<UInt8<Fr>, SynthesisError> {
    let bytes = FpVar::to_bytes(var)?;
    Ok(bytes[0].clone())
}

fn compute_hash(
    code_place_vars: &[FpVar<Fr>],
    salt_vars: &[UInt8<Fr>],
) -> Result<DigestVar<Fr>, SynthesisError> {
    let mut hash_gadget: Sha256Gadget<Fr> = Sha256Gadget::default();
    for col in code_place_vars.iter() {
        hash_gadget.update(&[cast_fp_var_to_uint8(col)?])?;
    }
    hash_gadget.update(salt_vars)?;
    hash_gadget.finalize()
}

fn bind_hash(
    cs: &ConstraintSystemRef<Fr>,
    code_vars: &[FpVar<Fr>],
    salt: [u8; 32],
    hash: [u8; 32],
) -> Result<(), SynthesisError> {
    let mut salt_vars = Vec::new();
    for byte in salt {
        salt_vars.push(UInt8::new_witness(cs.clone(), || Ok(byte))?);
    }
    let mut hash_vars = Vec::new();
    for byte in hash {
        hash_vars.push(UInt8::new_input(cs.clone(), || Ok(byte))?);
    }
    let digest_var = compute_hash(code_vars, &salt_vars)?;
    for (h1, h2) in hash_vars.iter().zip(digest_var.0) {
        h1.enforce_equal(&h2)?;
    }
    Ok(())
}

fn witnesses(cs: &ConstraintSystemRef<Fr>, code: Code) -> Result<Vec<FpVar<Fr>>, SynthesisError> {
    let mut vars = Vec::new();
    for col in code.colors {
        vars.push(FpVar::new_witness(cs.clone(), || Ok(Fr::from(col)))?);
    }
    Ok(vars)
}

#[derive(Clone)]
struct DeclarationConstraints(CodeDeclarationCircuit);

impl ConstraintSynthesizer<Fr> for DeclarationConstraints {
    fn generate_constraints(self, cs: ConstraintSystemRef<Fr>) -> Result<(), SynthesisError> {
        let circuit = self.0;
        let max_var: FpVar<Fr> = FpVar::new_constant(cs.clone(), Fr::from(8u8))?;
        let code_place_vars = witnesses(&cs, circuit.code)?;
        bind_hash(&cs, &code_place_vars, circuit.salt, circuit.hash)?;
        for col in code_place_vars.iter() {
            FpVar::enforce_cmp(col, &FpVar::zero(), Ordering::Greater, true)?;
            FpVar::enforce_cmp(col, &max_var, Ordering::Less, false)?;
        }
        Ok(())
    }
}

fn histogram(
    cs: &ConstraintSystemRef<Fr>,
    vars: &[FpVar<Fr>],
) -> Result<Vec<FpVar<Fr>>, SynthesisError> {
    let mut sums = Vec::new();
    for number in 0..8u8 {
        let constant = FpVar::new_constant(cs.clone(), Fr::from(number))?;
        let mut sum: FpVar<Fr> = FpVar::zero();
        for col in vars.iter() {
            let is_equal = FpVar::is_eq(col, &constant)?;
            sum = FpVar::conditionally_select(&is_equal, &(&sum + &FpVar::one()), &sum)?;
        }
        sums.push(sum);
    }
    Ok(sums)
}

#[derive(Clone)]
struct GuessConstraints(GuessCircuit);

impl ConstraintSynthesizer<Fr> for GuessConstraints {
    fn generate_constraints(self, cs: ConstraintSystemRef<Fr>) -> Result<(), SynthesisError> {
        let circuit = self.0;
        let code_vars = witnesses(&cs, circuit.code)?;
        let guess_vars = witnesses(&cs, circuit.guess)?;
        bind_hash(&cs, &code_vars, circuit.salt, circuit.hash)?;

        let correct_var = FpVar::new_input(cs.clone(), || Ok(Fr::from(circuit.correct)))?;
        let common_var = FpVar::new_input(cs.clone(), || Ok(Fr::from(circuit.common)))?;

        let mut counter: FpVar<Fr> = FpVar::zero();
        for (code, guess) in code_vars.iter().zip(guess_vars.iter()) {
            let is_equal = FpVar::is_eq(code, guess)?;
            counter =
                FpVar::conditionally_select(&is_equal, &(&counter + &FpVar::one()), &counter)?;
        }
        correct_var.enforce_equal(&counter)?;

        let guess_sum_vars = histogram(&cs, &guess_vars)?;
        let code_sum_vars = histogram(&cs, &code_vars)?;
        let mut counter2: FpVar<Fr> = FpVar::zero();
        for (code, guess) in code_sum_vars.iter().zip(guess_sum_vars.iter()) {
            let is_smaller = FpVar::is_cmp(code, guess, Ordering::Less, true)?;
            counter2 = FpVar::conditionally_select(
                &is_smaller,
                &(&counter2 + code),
                &(&counter2 + guess),
            )?;
        }
        common_var.enforce_equal(&counter2)?;
        Ok(())
    }
}

fn constraints_hold<C: ConstraintSynthesizer<Fr>>(circuit: C) -> bool {
    let cs = ConstraintSystem::<Fr>::new_ref();
    circuit.generate_constraints(cs.clone()).unwrap();
    cs.is_satisfied().unwrap()
}

struct Parameters {
    pk: ProvingKey<Bls12_381>,
    vk: Vec<u8>,
}

fn setup<C: ConstraintSynthesizer<Fr>>(shape: C) -> Parameters {
    let mut rng = StdRng::seed_from_u64(1);
    let (pk, vk) = Groth16::<Bls12_381>::circuit_specific_setup(shape, &mut rng).unwrap();
    let mut bytes = Vec::new();
    vk.serialize_compressed(&mut bytes).unwrap();
    Parameters { pk, vk: bytes }
}

fn setup_declaration() -> Parameters {
    setup(DeclarationConstraints(CodeDeclarationCircuit {
        code: Code { colors: [0; 4] },
        salt: [0; 32],
        hash: [0; 32],
    }))
}

fn setup_guess() -> Parameters {
    setup(GuessConstraints(GuessCircuit {
        code: Code { colors: [0; 4] },
        guess: Code { colors: [0; 4] },
        salt: [0; 32],
        hash: [0; 32],
        correct: 0,
        common: 0,
    }))
}

fn prove_with<C: ConstraintSynthesizer<Fr>>(parameters: &Parameters, circuit: C) -> Proof {
    let mut rng = StdRng::seed_from_u64(2);
    let proof = Groth16::<Bls12_381>::prove(&parameters.pk, circuit, &mut rng).unwrap();
    let mut bytes = Vec::new();
    proof.serialize_compressed(&mut bytes).unwrap();
    Proof { proof: bytes, vk: parameters.vk.clone() }
}

fn prove(parameters: &Parameters, circuit: CodeDeclarationCircuit) -> Option<Proof> {
    if !circuit.is_satisfied() {
        return None;
    }
    Some(prove_with(parameters, DeclarationConstraints(circuit)))
}

fn prove_guess(parameters: &Parameters, circuit: GuessCircuit) -> Option<Proof> {
    if !circuit.is_satisfied() {
        return None;
    }
    Some(prove_with(parameters, GuessConstraints(circuit)))
}

fn copy(proof: &Proof) -> Proof {
    Proof { proof: proof.proof.clone(), vk: proof.vk.clone() }
}

#[test]
fn declaration_constraints_hold_where_the_relation_does() {
    for colors in [[0, 0, 0, 0], [7, 7, 7, 7], [0, 7, 3, 1], [8, 0, 0, 0], [0, 0, 0, 8], [3, 200, 3, 3]]
    {
        let circuit = CodeDeclarationCircuit::from(Code { colors });
        assert_eq!(constraints_hold(DeclarationConstraints(circuit)), circuit.is_satisfied());
        assert_eq!(circuit.is_satisfied(), colors.iter().all(|&c| c < 8));
    }
    let mut circuit = CodeDeclarationCircuit::from(Code { colors: [1, 2, 3, 4] });
    circuit.hash[3] ^= 4;
    assert!(!circuit.is_satisfied());
    assert!(!constraints_hold(DeclarationConstraints(circuit)));
}

#[test]
fn guess_constraints_hold_where_the_relation_does() {
    let secrets = [[0, 1, 2, 3], [1, 1, 1, 1], [7, 0, 7, 0]];
    let guesses = [[0, 1, 2, 3], [3, 2, 1, 0], [1, 1, 0, 0], [7, 4, 4, 4]];
    for secret in secrets {
        for guess in guesses {
            let secret = Code { colors: secret };
            let guess = Code { colors: guess };
            let feedback = evaluate(&secret, &guess);
            let exact = feedback.exact as u8;
            let total = feedback.total() as u8;
            let truth = GuessCircuit::from((secret, guess, exact, total));
            assert!(truth.is_satisfied());
            assert!(constraints_hold(GuessConstraints(truth)));
            for (correct, common) in [(exact + 1, total), (exact, total + 1), (exact, feedback.extra as u8)] {
                let claim = GuessCircuit::from((secret, guess, correct, common));
                assert_eq!(claim.is_satisfied(), (correct, common) == (exact, total));
                assert_eq!(constraints_hold(GuessConstraints(claim)), claim.is_satisfied());
            }
        }
    }
}

#[test]
fn guess_constraints_count_the_colors_of_the_alphabet_only() {
    let secret = Code { colors: [8, 0, 9, 0] };
    let guess = Code { colors: [8, 0, 0, 9] };
    assert_eq!(evaluate(&secret, &guess).total(), 4);
    for (correct, common) in [(2, 2), (2, 4), (0, 2), (2, 3)] {
        let claim = GuessCircuit::from((secret, guess, correct, common));
        assert_eq!(claim.is_satisfied(), (correct, common) == (2, 2));
        assert_eq!(constraints_hold(GuessConstraints(claim)), claim.is_satisfied());
    }
    let secret = Code { colors: [1, 2, 3, 4] };
    let guess = Code { colors: [200, 1, 2, 255] };
    for (correct, common) in [(0, 2), (0, 3), (1, 2)] {
        let claim = GuessCircuit::from((secret, guess, correct, common));
        assert_eq!(claim.is_satisfied(), (correct, common) == (0, 2));
        assert_eq!(constraints_hold(GuessConstraints(claim)), claim.is_satisfied());
    }
}

#[test]
fn declaration_proof_verifies_for_its_hash_only() {
    let parameters = setup_declaration();
    let circuit = CodeDeclarationCircuit::from(Code { colors: [0, 7, 3, 1] });
    let proof = prove(&parameters, circuit).unwrap();
    assert!(verify(circuit.hash, copy(&proof)));

    let mut other = circuit.hash;
    other[0] ^= 1;
    assert!(!verify(other, copy(&proof)));
    assert!(!verify_guess(circuit.hash, 0, 0, copy(&proof)));

    let mut forged = copy(&proof);
    forged.proof[5] ^= 0x20;
    assert!(!verify(circuit.hash, forged));
    let mut truncated = copy(&proof);
    truncated.vk.truncate(100);
    assert!(!verify(circuit.hash, truncated));
}

#[test]
fn declaration_needs_colors_of_the_alphabet() {
    let parameters = setup_declaration();
    for colors in [[0, 0, 0, 0], [7, 7, 7, 7]] {
        let circuit = CodeDeclarationCircuit::from(Code { colors });
        let proof = prove(&parameters, circuit).unwrap();
        assert!(verify(circuit.hash, proof));
    }
    for colors in [[8, 0, 0, 0], [7, 7, 7, 8], [0, 255, 0, 0]] {
        let circuit = CodeDeclarationCircuit::from(Code { colors });
        assert!(!constraints_hold(DeclarationConstraints(circuit)));
        assert!(prove(&parameters, circuit).is_none());
    }
}

#[test]
fn guess_proof_verifies_for_the_true_feedback_only() {
    let parameters = setup_guess();
    let secret = Code { colors: [0, 1, 2, 3] };
    let guess = Code { colors: [0, 1, 3, 2] };
    let feedback = evaluate(&secret, &guess);
    assert_eq!((feedback.exact, feedback.extra), (2, 2));

    let circuit = GuessCircuit::from((secret, guess, 2, 4));
    let proof = prove_guess(&parameters, circuit).unwrap();
    assert!(verify_guess(circuit.hash, 2, 4, copy(&proof)));

    assert!(!verify_guess(circuit.hash, 2, 2, copy(&proof)));
    assert!(!verify_guess(circuit.hash, 1, 4, copy(&proof)));
    assert!(!verify_guess(circuit.hash, 3, 4, copy(&proof)));
    assert!(!verify_guess(circuit.hash, 2, 3, copy(&proof)));
    assert!(!verify_guess(circuit.hash, 4, 2, copy(&proof)));
    let mut other = circuit.hash;
    other[31] ^= 0x80;
    assert!(!verify_guess(other, 2, 4, copy(&proof)));
    assert!(!verify(circuit.hash, copy(&proof)));

    for (correct, common) in [(2, 2), (1, 4), (2, 3), (0, 0)] {
        let claim = GuessCircuit { correct, common, ..circuit };
        assert!(prove_guess(&parameters, claim).is_none());
    }
}

#[test]
fn reversed_guess_is_proved_with_a_total_of_four() {
    let parameters = setup_guess();
    let secret = Code { colors: [0, 1, 2, 3] };
    let guess = Code { colors: [3, 2, 1, 0] };
    let circuit = GuessCircuit::from((secret, guess, 0, 4));
    let proof = prove_guess(&parameters, circuit).unwrap();
    assert!(verify_guess(circuit.hash, 0, 4, copy(&proof)));
    assert!(!verify_guess(circuit.hash, 0, 0, proof));
}

#[test]
fn honest_host_wins_every_verification() {
    let declaration = setup_declaration();
    let guess = setup_guess();
    let mut host = HonestHost::new();
    let mut session = Session::new();

    let (hash, circuit) = host.get_hash_with_proof();
    let proof = prove(&declaration, circuit).unwrap();
    assert!(session.commit(hash, proof));
    assert_eq!(session.phase(), Phase::Committed);
    assert_eq!(session.hash(), hash);

    let secret = circuit.code;
    let word: String = secret.colors.iter().map(|&c| (b'a' + (c + 1) % 8) as char).collect();
    let (exact, extra, circuit) = host.guess(word);
    assert_eq!(exact, 0);
    assert_eq!(circuit.guess.colors.map(|c| (c + 7) % 8), secret.colors);
    let proof = prove_guess(&guess, circuit);
    assert!(session.answer(exact, extra, proof));
    assert_eq!(session.phase(), Phase::Answering);
    assert_eq!(session.guesses_cnt(), 1);

    let word: String = secret.colors.iter().map(|&c| (b'a' + c) as char).collect();
    let (exact, extra, circuit) = host.guess(word);
    assert_eq!((exact, extra), (4, 0));
    let proof = prove_guess(&guess, circuit);
    assert!(session.answer(exact, extra, proof));
    assert_eq!(session.phase(), Phase::Revealed);
    assert!(session.success());
    assert_eq!(session.response(1), ['z', 'z', 'z', 'z']);
}

#[test]
fn evil_host_is_caught_on_its_own_code() {
    let declaration = setup_declaration();
    let guess = setup_guess();
    let mut host = EvilHost::new();
    let mut session = Session::new();

    let (hash, circuit) = host.get_hash_with_proof();
    assert_eq!(circuit.code.colors, [1, 1, 1, 1]);
    let proof = prove(&declaration, circuit).unwrap();
    assert!(session.commit(hash, proof));

    let (exact, extra, circuit) = host.guess("acde".to_string());
    assert_eq!((exact, extra), (0, 0));
    let proof = prove_guess(&guess, circuit);
    assert!(session.answer(exact, extra, proof));
    assert_eq!(session.phase(), Phase::Answering);

    let (exact, extra, circuit) = host.guess("bbbb".to_string());
    assert_eq!((exact, extra), (0, 0));
    assert_eq!(circuit.hash, hash);
    assert!(!circuit.is_satisfied());
    assert!(!constraints_hold(GuessConstraints(circuit)));
    let proof = prove_guess(&guess, circuit);
    assert!(proof.is_none());
    assert!(!session.answer(exact, extra, proof));
    assert_eq!(session.phase(), Phase::Caught);
    assert!(!session.success());
    assert_eq!(session.guesses_cnt(), 1);
}

#[test]
fn cheating_host_proves_against_a_fresh_commitment() {
    let guess = setup_guess();
    let mut host = CheatingHost::new();
    let (committed, declaration) = host.get_hash_with_proof();
    assert!(declaration.is_satisfied());

    let (exact, extra, circuit) = host.guess("aabb".to_string());
    assert_eq!((exact, extra), (0, 0));
    assert!(host.possible_sequences().iter().any(|c| c.colors == circuit.code.colors));
    let proof = prove_guess(&guess, circuit).unwrap();
    assert!(verify_guess(circuit.hash, 0, 0, copy(&proof)));
    assert_ne!(circuit.hash, committed);
    assert!(!verify_guess(committed, 0, 0, proof));
}
