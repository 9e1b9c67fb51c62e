//! Behavior tests: fingerprint determinism, serialization round trips,
//! noise-budget monotonicity and exhaustion, chain exhaustion, and one
//! input for each error condition.

use hekit::BatchEncoder;
use hekit::CKKSEncoder;
use hekit::Ciphertext;
use hekit::Context;
use hekit::Decryptor;
use hekit::Encryptor;
use hekit::Evaluator;
use hekit::HeError;
use hekit::KeyGenerator;
use hekit::OperationIssue;
use hekit::Params;
use hekit::ParameterIssue;
use hekit::Plaintext;
use hekit::PublicKey;
use hekit::SecretKey;
use hekit::SmallModulus;
use hekit::SCHEME_BFV;
use hekit::SCHEME_CKKS;

/// A small integer-scheme context for the tests below.
fn bfv_context(plain_modulus: u64) -> Context {
    let mut params = Params::create(SCHEME_BFV).unwrap();
    params.set_poly_modulus_degree(4096).unwrap();
    let primes = params.bfv_default(128).unwrap();
    params.set_coeff_modulus(&primes).unwrap();
    params.set_plain_modulus(plain_modulus).unwrap();
    Context::create(params, 128, true).unwrap()
}

#[test]
fn test_first_parms_id_deterministic() {
    let context_a = bfv_context(1024);
    let context_b = bfv_context(1024);
    // deterministic across contexts built from the same parameters
    assert_eq!(
        context_a.first_parms_id().unwrap(),
        context_b.first_parms_id().unwrap()
    );
    // stable across repeated calls on the same context
    assert_eq!(
        context_a.first_parms_id().unwrap(),
        context_a.first_parms_id().unwrap()
    );
    // and sensitive to the parameters
    let context_c = bfv_context(557057);
    assert_ne!(
        context_a.first_parms_id().unwrap(),
        context_c.first_parms_id().unwrap()
    );
}

#[test]
fn test_params_save_load_roundtrip() {
    let mut params = Params::create(SCHEME_BFV).unwrap();
    params.set_poly_modulus_degree(4096).unwrap();
    let primes = params.bfv_default(128).unwrap();
    params.set_coeff_modulus(&primes).unwrap();
    params.set_plain_modulus(1024).unwrap();
    let bytes = params.save().unwrap();
    let loaded = Params::load(SCHEME_BFV, &bytes).unwrap();
    assert_eq!(
        params.get_poly_modulus_degree().unwrap(),
        loaded.get_poly_modulus_degree().unwrap()
    );
    assert_eq!(params.get_plain_modulus().unwrap(), loaded.get_plain_modulus().unwrap());
    // behavioral equivalence: the reloaded parameters freeze into a context
    // with the same fingerprint
    let ctx_a = Context::create(params, 128, true).unwrap();
    let ctx_b = Context::create(loaded, 128, true).unwrap();
    assert_eq!(ctx_a.first_parms_id().unwrap(), ctx_b.first_parms_id().unwrap());
}

#[test]
fn test_plaintext_save_load_roundtrip() {
    let context = bfv_context(1024);
    let plain = Plaintext::create_constant(42).unwrap();
    let bytes = plain.save().unwrap();
    let loaded = Plaintext::load(&context, &bytes).unwrap();
    assert_eq!(42, loaded.coeff_at(0).unwrap());
    assert_eq!(1, loaded.coeffs_count().unwrap());
}

#[test]
fn test_key_save_load_roundtrip() {
    let context = bfv_context(1024);
    let key_generator = KeyGenerator::create(&context).unwrap();
    let public_key = key_generator.public_key().unwrap();
    let secret_key = key_generator.secret_key().unwrap();
    let galois_keys = key_generator.galois_keys().unwrap();
    let pk2 = PublicKey::load(&context, &public_key.save().unwrap()).unwrap();
    let sk2 = SecretKey::load(&context, &secret_key.save().unwrap()).unwrap();
    let _gk2 = hekit::GaloisKeys::load(&context, &galois_keys.save().unwrap()).unwrap();
    // the reloaded pair still encrypts and decrypts
    let encryptor = Encryptor::create(&context, &pk2, &sk2).unwrap();
    let decryptor = Decryptor::create(&context, &sk2).unwrap();
    let ct = encryptor.encrypt(&Plaintext::create_constant(9).unwrap()).unwrap();
    assert_eq!(9, decryptor.decrypt(&ct).unwrap().coeff_at(0).unwrap());
}

#[test]
fn test_transparent_bfv() {
    let context = bfv_context(1024);
    let key_generator = KeyGenerator::create(&context).unwrap();
    let encryptor = Encryptor::create(
        &context,
        &key_generator.public_key().unwrap(),
        &key_generator.secret_key().unwrap(),
    )
    .unwrap();
    let evaluator = Evaluator::create(&context).unwrap();
    let ct = encryptor.encrypt(&Plaintext::create_constant(5).unwrap()).unwrap();
    let zero = Plaintext::create_constant(0).unwrap();
    let r = evaluator.mul_plain(&ct, &zero);
    assert_eq!(r.err().unwrap(), HeError::TransparentCiphertext);
    // an all-zero plaintext longer than the ciphertext's slot vector is
    // still refused with the distinguished condition, never a size error
    let wide_zero = Plaintext::from_coeffs(&[0, 0, 0]).unwrap();
    let r = evaluator.mul_plain(&ct, &wide_zero);
    assert_eq!(r.err().unwrap(), HeError::TransparentCiphertext);
}

#[test]
fn test_mod_switch_shrinks_serialized() {
    let context = bfv_context(1024);
    let key_generator = KeyGenerator::create(&context).unwrap();
    let encryptor = Encryptor::create(
        &context,
        &key_generator.public_key().unwrap(),
        &key_generator.secret_key().unwrap(),
    )
    .unwrap();
    let evaluator = Evaluator::create(&context).unwrap();
    let ct = encryptor.encrypt(&Plaintext::create_constant(4).unwrap()).unwrap();
    let before = ct.save().unwrap().len();
    let switched = evaluator.mod_switch_to_next(&ct).unwrap();
    let after = switched.save().unwrap().len();
    assert!(after < before);
    let compacted = evaluator.compact_size(&ct).unwrap();
    assert!(compacted.save().unwrap().len() < before);
}

#[test]
fn test_chain_moduli_are_prime() {
    // the defaults for the integer scheme: the largest primes of the
    // requested bit sizes
    let mut params = Params::create(SCHEME_BFV).unwrap();
    params.set_poly_modulus_degree(4096).unwrap();
    let primes = params.bfv_default(128).unwrap();
    let values: Vec<u64> = primes.iter().map(|m| m.value().unwrap()).collect();
    assert_eq!(values, vec![(1 << 36) - 5, (1 << 36) - 5, (1 << 37) - 25]);
    for v in &values {
        assert!(hekit::small_modulus::is_prime_u64(*v));
    }
    // the fractional-scheme chain as well
    let mut params = Params::create(SCHEME_CKKS).unwrap();
    params.set_poly_modulus_degree(8192).unwrap();
    let bits = vec![40, 30];
    params.set_coeff_modulus_ckks(&bits).unwrap();
    assert_eq!(params.coeff_modulus[0], (1u64 << 40) - 87);
    assert_eq!(params.coeff_modulus[1], (1u64 << 30) - 35);
    assert!(hekit::small_modulus::is_prime_u64(params.coeff_modulus[0]));
    assert!(hekit::small_modulus::is_prime_u64(params.coeff_modulus[1]));
}

#[test]
fn test_noise_budget_monotonic() {
    let context = bfv_context(1024);
    let key_generator = KeyGenerator::create(&context).unwrap();
    let secret_key = key_generator.secret_key().unwrap();
    let encryptor = Encryptor::create(
        &context,
        &key_generator.public_key().unwrap(),
        &secret_key,
    )
    .unwrap();
    let decryptor = Decryptor::create(&context, &secret_key).unwrap();
    let relin = key_generator.relinearization_keys().unwrap();
    let evaluator = Evaluator::create(&context).unwrap();
    let base = encryptor.encrypt(&Plaintext::create_constant(2).unwrap()).unwrap();
    let mut ct = base.clone().unwrap();
    let mut last = decryptor.invariant_noise_budget(&ct).unwrap();
    assert!(last > 0);
    let mut expected: u64 = 2;
    let mut rounds = 0;
    loop {
        ct = evaluator
            .relinearize(&evaluator.mul(&ct, &base).unwrap(), &relin)
            .unwrap();
        expected = expected * 2 % 1024;
        let budget = decryptor.invariant_noise_budget(&ct).unwrap();
        // non-increasing after each multiplicative operation
        assert!(budget <= last);
        last = budget;
        rounds += 1;
        if budget <= 0 {
            break;
        }
        assert!(rounds < 64, "budget never exhausted");
    }
    // operations past the threshold still execute, but decrypt incorrectly
    let decoded = decryptor.decrypt(&ct).unwrap().coeff_at(0).unwrap();
    assert_ne!(expected, decoded);
}

#[test]
fn test_chain_exhaustion() {
    // three default primes at degree 4096: two data levels in the chain
    let context = bfv_context(1024);
    let key_generator = KeyGenerator::create(&context).unwrap();
    let encryptor = Encryptor::create(
        &context,
        &key_generator.public_key().unwrap(),
        &key_generator.secret_key().unwrap(),
    )
    .unwrap();
    let evaluator = Evaluator::create(&context).unwrap();
    let ct = encryptor.encrypt(&Plaintext::create_constant(3).unwrap()).unwrap();
    let mut switched = 0;
    let mut cur = ct;
    let last = loop {
        match evaluator.mod_switch_to_next(&cur) {
            Ok(next) => {
                switched += 1;
                assert!(switched < 64, "chain never exhausted");
                cur = next;
            },
            Err(e) => break e,
        }
    };
    // fails exactly once the lowest level is reached, with the
    // distinguished condition
    assert_eq!(last, HeError::ChainExhausted);
    assert_eq!(switched, 1);
    // compacting ends at the same lowest level
    let compacted = evaluator
        .compact_size(&encryptor.encrypt(&Plaintext::create_constant(3).unwrap()).unwrap())
        .unwrap();
    assert_eq!(
        evaluator.mod_switch_to_next(&compacted).err().unwrap(),
        HeError::ChainExhausted
    );
}

#[test]
fn test_modulus() {
    let m = 256;
    assert_eq!(
        m,
        SmallModulus::try_from_value(m)
            .expect("Should not fail!")
            .value()
            .expect("Should not fail"),
        "Wrong conversion from u64 to Modulus!"
    );
}

#[test]
fn test_ckks_plaintext_save_load_roundtrip() {
    let mut params = Params::create(SCHEME_CKKS).unwrap();
    params.set_poly_modulus_degree(8192).unwrap();
    let bits = vec![40, 40, 40];
    params.set_coeff_modulus_ckks(&bits).unwrap();
    let context = Context::create(params, 128, true).unwrap();
    let encoder = CKKSEncoder::create(&context).unwrap();
    let mantissas: Vec<i128> = vec![5, -17, 0, 1 << 50];
    let plain = encoder.encode(&mantissas, 1 << 40).unwrap();
    let bytes = plain.save().unwrap();
    let loaded = Plaintext::load(&context, &bytes).unwrap();
    assert_eq!(plain.scale(), loaded.scale());
    let decoded = encoder.decode(&loaded).unwrap();
    assert_eq!(5, decoded[0]);
    assert_eq!(-17, decoded[1]);
    assert_eq!(0, decoded[2]);
    assert_eq!(1i128 << 50, decoded[3]);
}

#[test]
fn test_batching_prime_value() {
    // the smallest 20-bit prime congruent to one modulo twice the degree
    let m = SmallModulus::for_batching(4096, 20).unwrap();
    assert_eq!(557057, m.value().unwrap());
    assert_eq!(1, 557057 % (2 * 4096));
}

#[test]
fn test_batch_encode_rejections() {
    let context = bfv_context(557057);
    let encoder = BatchEncoder::create(&context).unwrap();
    let slots = encoder.slot_count().unwrap();
    // encoding more values than slots is a caller error, not a truncation
    let too_many = vec![1u64; slots + 1];
    assert_eq!(
        encoder.encode(&too_many).err().unwrap(),
        HeError::Operation(OperationIssue::SizeMismatch)
    );
    // a value at or above the plaintext modulus is rejected
    let out_of_range = vec![557057u64];
    assert_eq!(
        encoder.encode(&out_of_range).err().unwrap(),
        HeError::Operation(OperationIssue::ValueOutOfRange)
    );
}

#[test]
fn test_invalid_parameters_rejected() {
    // malformed: no coefficient modulus at all
    let mut params = Params::create(SCHEME_BFV).unwrap();
    params.set_poly_modulus_degree(4096).unwrap();
    params.set_plain_modulus(1024).unwrap();
    assert_eq!(
        Context::create(params, 128, true).err().unwrap(),
        HeError::Parameter(ParameterIssue::InvalidCoeffModulus)
    );
    // insecure: more modulus bits than the degree allows at this level
    let mut params = Params::create(SCHEME_BFV).unwrap();
    params.set_poly_modulus_degree(1024).unwrap();
    let bits = vec![30, 30];
    // borrow the fractional-scheme helper to build an oversized chain
    let mut wide = Params::create(SCHEME_CKKS).unwrap();
    wide.set_poly_modulus_degree(1024).unwrap();
    wide.set_coeff_modulus_ckks(&bits).unwrap();
    let moduli: Vec<SmallModulus> = wide
        .coeff_modulus
        .iter()
        .map(|v| SmallModulus::create(*v).unwrap())
        .collect();
    params.set_coeff_modulus(&moduli).unwrap();
    params.set_plain_modulus(1024).unwrap();
    assert_eq!(
        Context::create(params, 128, true).err().unwrap(),
        HeError::Parameter(ParameterIssue::InsecureParameters)
    );
    // unsupported scheme tag
    assert!(Params::create(9).is_err());
}

#[test]
fn test_operand_mismatch_errors() {
    let context = bfv_context(1024);
    let key_generator = KeyGenerator::create(&context).unwrap();
    let encryptor = Encryptor::create(
        &context,
        &key_generator.public_key().unwrap(),
        &key_generator.secret_key().unwrap(),
    )
    .unwrap();
    let evaluator = Evaluator::create(&context).unwrap();
    let a = encryptor.encrypt(&Plaintext::create_constant(1).unwrap()).unwrap();
    let b = encryptor.encrypt(&Plaintext::create_constant(2).unwrap()).unwrap();
    let b_down = evaluator.mod_switch_to_next(&b).unwrap();
    // operands at different chain points are refused
    assert_eq!(
        evaluator.add(&a, &b_down).err().unwrap(),
        HeError::Operation(OperationIssue::ParmsMismatch)
    );
}

#[test]
fn test_scale_mismatch_error() {
    let mut params = Params::create(SCHEME_CKKS).unwrap();
    params.set_poly_modulus_degree(8192).unwrap();
    let bits = vec![40, 40, 40, 40, 40];
    params.set_coeff_modulus_ckks(&bits).unwrap();
    let context = Context::create(params, 128, true).unwrap();
    let key_generator = KeyGenerator::create(&context).unwrap();
    let encryptor = Encryptor::create(
        &context,
        &key_generator.public_key().unwrap(),
        &key_generator.secret_key().unwrap(),
    )
    .unwrap();
    let encoder = CKKSEncoder::create(&context).unwrap();
    let evaluator = Evaluator::create(&context).unwrap();
    let a = encryptor
        .encrypt(&encoder.encode(&[1 << 40], 1 << 40).unwrap())
        .unwrap();
    let b = encryptor
        .encrypt(&encoder.encode(&[1 << 30], 1 << 30).unwrap())
        .unwrap();
    assert_eq!(
        evaluator.add(&a, &b).err().unwrap(),
        HeError::Operation(OperationIssue::ScaleMismatch)
    );
}

#[test]
fn test_key_mismatch_error() {
    let context = bfv_context(1024);
    let other = bfv_context(557057);
    let other_keys = KeyGenerator::create(&other).unwrap();
    let r = Encryptor::create(
        &context,
        &other_keys.public_key().unwrap(),
        &other_keys.secret_key().unwrap(),
    );
    assert_eq!(
        r.err().unwrap(),
        HeError::Operation(OperationIssue::KeyMismatch)
    );
}

#[test]
fn test_budget_query_needs_integer_scheme() {
    let mut params = Params::create(SCHEME_CKKS).unwrap();
    params.set_poly_modulus_degree(8192).unwrap();
    let bits = vec![40, 40, 40];
    params.set_coeff_modulus_ckks(&bits).unwrap();
    let context = Context::create(params, 128, true).unwrap();
    let key_generator = KeyGenerator::create(&context).unwrap();
    let secret_key = key_generator.secret_key().unwrap();
    let encryptor = Encryptor::create(
        &context,
        &key_generator.public_key().unwrap(),
        &secret_key,
    )
    .unwrap();
    let decryptor = Decryptor::create(&context, &secret_key).unwrap();
    let encoder = CKKSEncoder::create(&context).unwrap();
    let ct = encryptor
        .encrypt(&encoder.encode(&[1 << 20], 1 << 20).unwrap())
        .unwrap();
    assert_eq!(
        decryptor.invariant_noise_budget(&ct).err().unwrap(),
        HeError::Operation(OperationIssue::SchemeMismatch)
    );
}

#[test]
fn test_load_rejects_corrupt_stream() {
    let context = bfv_context(1024);
    let garbage = vec![7u8; 21];
    assert_eq!(
        Ciphertext::load(&context, &garbage).err().unwrap(),
        HeError::Serialization
    );
    assert_eq!(
        Plaintext::load(&context, &garbage).err().unwrap(),
        HeError::Serialization
    );
    assert_eq!(Params::load(SCHEME_BFV, &garbage).err().unwrap(), HeError::Serialization);
}

#[test]
fn test_ciphertext_save_load_behavior() {
    let context = bfv_context(1024);
    let key_generator = KeyGenerator::create(&context).unwrap();
    let secret_key = key_generator.secret_key().unwrap();
    let encryptor = Encryptor::create(
        &context,
        &key_generator.public_key().unwrap(),
        &secret_key,
    )
    .unwrap();
    let decryptor = Decryptor::create(&context, &secret_key).unwrap();
    let ct = encryptor.encrypt(&Plaintext::create_constant(77).unwrap()).unwrap();
    let bytes = ct.save().unwrap();
    let loaded = Ciphertext::load(&context, &bytes).unwrap();
    assert_eq!(77, decryptor.decrypt(&loaded).unwrap().coeff_at(0).unwrap());
    assert_eq!(ct.size().unwrap(), loaded.size().unwrap());
    assert_eq!(ct.parms_id().unwrap(), loaded.parms_id().unwrap());
}

#[test]
fn test_raw_residue_access() {
    let context = bfv_context(1024);
    let key_generator = KeyGenerator::create(&context).unwrap();
    let secret_key = key_generator.secret_key().unwrap();
    let encryptor = Encryptor::create(
        &context,
        &key_generator.public_key().unwrap(),
        &secret_key,
    )
    .unwrap();
    let decryptor = Decryptor::create(&context, &secret_key).unwrap();
    let a = encryptor.encrypt(&Plaintext::create_constant(10).unwrap()).unwrap();
    let b = encryptor.encrypt(&Plaintext::create_constant(5).unwrap()).unwrap();
    let raw = a.get_raw_rns().unwrap();
    assert_eq!(
        raw.len(),
        a.size().unwrap() * a.get_coeff_modulus_size().unwrap()
            * a.get_poly_modulus_degree().unwrap()
    );
    assert_eq!(10, raw[0]);
    // raw addition modulo the coefficient primes
    let mut c = a.clone().unwrap();
    let moduli = context.get_coeff_modulus().unwrap();
    c.try_add_assign(&b, &moduli).unwrap();
    assert_eq!(15, decryptor.decrypt(&c).unwrap().coeff_at(0).unwrap());
    // a raw write is stored as given — no scheme-level validation — and a
    // read hands the written residues back as the leading prefix
    let mut d = a.clone().unwrap();
    let written = vec![5000u64, 6000, 7000];
    d.set_raw_rns(written.clone()).unwrap();
    let read_back = d.get_raw_rns().unwrap();
    assert_eq!(&read_back[0..3], &written[..]);
    assert_eq!(read_back.len(), raw.len());
    // a residue beyond the first block cannot be represented and is refused
    let degree = a.get_poly_modulus_degree().unwrap();
    let mut beyond = vec![0u64; degree + 1];
    beyond[degree] = 1;
    assert!(d.set_raw_rns(beyond).is_err());
}
