//! Integer-scheme end-to-end tests: parameter setup, encryption,
//! arithmetic, relinearization, serialization and modulus switching.

use hekit::BatchEncoder;
use hekit::Ciphertext;
use hekit::Context;
use hekit::Decryptor;
use hekit::Encryptor;
use hekit::Evaluator;
use hekit::KeyGenerator;
use hekit::MemoryPoolHandle;
use hekit::Params;
use hekit::Plaintext;
use hekit::RelinearizationKeys;
use hekit::SmallModulus;
use hekit::SCHEME_BFV;
use hekit::SCHEME_CKKS;

#[test]
fn test_bgv_simple() {
    let mut params = Params::create(SCHEME_BFV).unwrap();
    let security_level = 128u8;
    params.set_poly_modulus_degree(4096).unwrap();
    assert_eq!(4096, params.get_poly_modulus_degree().unwrap());
    let primes = params.bfv_default(security_level).unwrap();
    params.set_coeff_modulus(&primes).unwrap();
    params.set_plain_modulus(1024).unwrap();
    let context = Context::create(params, security_level, true).unwrap();
    // Key Generation
    let key_generator = KeyGenerator::create(&context).unwrap();
    let public_key = key_generator.public_key().unwrap();
    let secret_key = key_generator.secret_key().unwrap();
    let relinearization_keys = key_generator.relinearization_keys().unwrap();
    // encryption // decryption
    let encryptor = Encryptor::create(&context, &public_key, &secret_key).unwrap();
    let decryptor = Decryptor::create(&context, &secret_key).unwrap();
    // create a constant plain text in the thread local memory pool
    let value_a = 6u64;
    let plain_text_a = Plaintext::create_constant(value_a).unwrap();
    let cipher_text_a = encryptor.encrypt(&plain_text_a).unwrap();
    let value_b = 7u64;
    let plain_text_b = Plaintext::create_constant(value_b).unwrap();
    let cipher_text_b = encryptor.encrypt(&plain_text_b).unwrap();
    // check the encryption
    let recovered_a = decryptor.decrypt(&cipher_text_a).unwrap();
    assert_eq!(value_a, recovered_a.coeff_at(0).unwrap());
    let recovered_b = decryptor.decrypt(&cipher_text_b).unwrap();
    assert_eq!(value_b, recovered_b.coeff_at(0).unwrap());
    // Operations on cipher text - create an evaluator
    let evaluator = Evaluator::create(&context).unwrap();
    // test addition of cipher texts
    let ct_a_plus_b = evaluator.add(&cipher_text_a, &cipher_text_b).unwrap();
    assert_eq!(
        value_a + value_b,
        decryptor.decrypt(&ct_a_plus_b).unwrap().coeff_at(0).unwrap()
    );
    // test addition with plain
    let ct_a_plus_plain_b = evaluator.add_plain(&cipher_text_a, &plain_text_b).unwrap();
    assert_eq!(
        value_a + value_b,
        decryptor.decrypt(&ct_a_plus_plain_b).unwrap().coeff_at(0).unwrap()
    );
    // test multiplication of cipher texts
    let ct_a_mul_b = evaluator.mul(&cipher_text_a, &cipher_text_b).unwrap();
    assert_eq!(
        value_a * value_b,
        decryptor.decrypt(&ct_a_mul_b).unwrap().coeff_at(0).unwrap()
    );
    // test multiplication with plain
    let ct_a_mul_plain_b = evaluator.mul_plain(&cipher_text_a, &plain_text_b).unwrap();
    assert_eq!(
        value_a * value_b,
        decryptor.decrypt(&ct_a_mul_plain_b).unwrap().coeff_at(0).unwrap()
    );
    // test relinearization
    let ct_a_mul_b_relin = evaluator
        .relinearize(
            &evaluator.mul(&cipher_text_a, &cipher_text_b).unwrap(),
            &relinearization_keys,
        )
        .unwrap();
    assert_eq!(
        value_a * value_b,
        decryptor.decrypt(&ct_a_mul_b_relin).unwrap().coeff_at(0).unwrap()
    );
}

#[test]
fn test_bgv_batch_encoder() {
    let mut params = Params::create(SCHEME_BFV).unwrap();
    let security_level = 128u8;
    let poly_modulus_degree = 4096usize;
    params.set_poly_modulus_degree(poly_modulus_degree).unwrap();
    assert_eq!(poly_modulus_degree, params.get_poly_modulus_degree().unwrap());
    let primes = params.bfv_default(security_level).unwrap();
    params.set_coeff_modulus(&primes).unwrap();
    // create a modulus for batching
    let plain_modulus = SmallModulus::for_batching(poly_modulus_degree, 20)
        .unwrap()
        .value()
        .unwrap();
    params.set_plain_modulus(plain_modulus).unwrap();
    let context = Context::create(params, security_level, true).unwrap();
    // Key Generation
    let key_generator = KeyGenerator::create(&context).unwrap();
    let public_key = key_generator.public_key().unwrap();
    let secret_key = key_generator.secret_key().unwrap();
    let relinearization_keys = key_generator.relinearization_keys().unwrap();
    // Batch Encoding
    let batch_encoder = BatchEncoder::create(&context).unwrap();
    let slots = batch_encoder.slot_count().unwrap();
    let row_size = slots / 2;
    // we now have a matrix of 2 rows of row_size columns
    let mut matrix_a: Vec<u64> = Vec::with_capacity(row_size * 2);
    for row in 0..2 {
        for col in 0..row_size {
            matrix_a.push((row * row_size + col) as u64);
        }
    }
    let plain_text_a = batch_encoder.encode(&matrix_a).unwrap();
    // check that the plain text decodes properly
    let v = batch_encoder.decode(&plain_text_a).unwrap();
    assert_eq!(matrix_a, v);
    // encode a second plain text
    let mut matrix_b: Vec<u64> = Vec::with_capacity(row_size * 2);
    for row in 0..2 {
        for col in 0..row_size {
            matrix_b.push((row_size * 2 - (row * row_size + col)) as u64);
        }
    }
    let plain_text_b = batch_encoder.encode(&matrix_b).unwrap();
    // encode a third plain text
    let mut matrix_c: Vec<u64> = Vec::with_capacity(row_size * 2);
    for row in 0..2 {
        for col in 0..row_size {
            matrix_c.push((row * row_size + col) as u64);
        }
    }
    let plain_text_c = batch_encoder.encode(&matrix_c).unwrap();
    // encryption
    let encryptor = Encryptor::create(&context, &public_key, &secret_key).unwrap();
    let cipher_text_a = encryptor.encrypt(&plain_text_a).unwrap();
    let cipher_text_c = encryptor.encrypt(&plain_text_c).unwrap();
    // evaluation
    let evaluator = Evaluator::create(&context).unwrap();
    let cipher_text = evaluator.add_plain(&cipher_text_a, &plain_text_b).unwrap();
    let cipher_text = evaluator.mul(&cipher_text, &cipher_text_c).unwrap();
    let cipher_text = evaluator.relinearize(&cipher_text, &relinearization_keys).unwrap();
    // decipher
    let decryptor = Decryptor::create(&context, &secret_key).unwrap();
    let recovered_plain_text = decryptor.decrypt(&cipher_text).unwrap();
    let w = batch_encoder.decode(&recovered_plain_text).unwrap();
    for (j, ct) in w.iter().enumerate() {
        assert_eq!((slots * j) as u64 % plain_modulus, *ct, "failed at i = {}", j);
    }
}

#[test]
fn test_serialization() {
    let mut params = Params::create(SCHEME_BFV).unwrap();
    let security_level = 128u8;
    params.set_poly_modulus_degree(4096).unwrap();
    assert_eq!(4096, params.get_poly_modulus_degree().unwrap());
    let primes = params.bfv_default(security_level).unwrap();
    params.set_coeff_modulus(&primes).unwrap();
    params.set_plain_modulus(1024).unwrap();
    let context = Context::create(params, security_level, true).unwrap();
    // Key Generation
    let key_generator = KeyGenerator::create(&context).unwrap();
    let public_key = key_generator.public_key().unwrap();
    let secret_key = key_generator.secret_key().unwrap();
    let relinearization_keys = key_generator.relinearization_keys().unwrap();
    let saved_relin_keys = relinearization_keys.save().unwrap();
    // encryption // decryption
    let encryptor = Encryptor::create(&context, &public_key, &secret_key).unwrap();
    let decryptor = Decryptor::create(&context, &secret_key).unwrap();
    // create a constant plain text in the thread local memory pool
    let value_a = 6u64;
    let plain_text_a = Plaintext::create_constant(value_a).unwrap();
    let cipher_text_a = encryptor.encrypt(&plain_text_a).unwrap();
    let saved_cipher_text_a = cipher_text_a.save().unwrap();
    let value_b = 7u64;
    let plain_text_b = Plaintext::create_constant(value_b).unwrap();
    let cipher_text_b = encryptor.encrypt(&plain_text_b).unwrap();
    let saved_plain_text_b = plain_text_b.save().unwrap();
    let saved_cipher_text_b = cipher_text_b.save().unwrap();
    //
    // Everything below is recreated from serialized elements
    //
    // Recreate the context
    let mut params = Params::create(SCHEME_BFV).unwrap();
    let security_level = 128u8;
    params.set_poly_modulus_degree(4096).unwrap();
    assert_eq!(4096, params.get_poly_modulus_degree().unwrap());
    let primes = params.bfv_default(security_level).unwrap();
    params.set_coeff_modulus(&primes).unwrap();
    params.set_plain_modulus(1024).unwrap();
    let recovered_context = Context::create(params, security_level, true).unwrap();
    // Operations on cipher text - create an evaluator
    let evaluator = Evaluator::create(&recovered_context).unwrap();
    // reload the cipher texts
    let recovered_cipher_text_a =
        Ciphertext::load(&recovered_context, &saved_cipher_text_a).unwrap();
    let recovered_plain_text_b = Plaintext::load(&recovered_context, &saved_plain_text_b).unwrap();
    let recovered_cipher_text_b =
        Ciphertext::load(&recovered_context, &saved_cipher_text_b).unwrap();
    // test multiplication with plain
    let ct_a_mul_plain_b = evaluator
        .mul_plain(&recovered_cipher_text_a, &recovered_plain_text_b)
        .unwrap();
    assert_eq!(
        value_a * value_b,
        decryptor.decrypt(&ct_a_mul_plain_b).unwrap().coeff_at(0).unwrap()
    );
    // recover the relinearization keys
    let recovered_relinearization_keys =
        RelinearizationKeys::load(&recovered_context, &saved_relin_keys).unwrap();
    // test relinearization
    let ct_a_mul_b_relin = evaluator
        .relinearize(
            &evaluator
                .mul(&recovered_cipher_text_a, &recovered_cipher_text_b)
                .unwrap(),
            &recovered_relinearization_keys,
        )
        .unwrap();
    assert_eq!(
        value_a * value_b,
        decryptor.decrypt(&ct_a_mul_b_relin).unwrap().coeff_at(0).unwrap()
    );
}

#[test]
fn test_memory_pool() {
    Plaintext::create_in_pool(MemoryPoolHandle::to_thread_local_pool().unwrap()).unwrap();
}

#[test]
fn test_set_params_bfv() {
    let security_level = 128u8;
    let poly_modulus_degree = 8192 * 2;
    let mut params = Params::create(SCHEME_BFV).unwrap();
    params.set_poly_modulus_degree(poly_modulus_degree).unwrap();
    assert_eq!(poly_modulus_degree, params.get_poly_modulus_degree().unwrap());
    let primes = params.bfv_default(security_level).unwrap();
    params.set_coeff_modulus(&primes).unwrap();
}

#[test]
fn test_set_params_ckks() {
    let poly_modulus_degree = 8192 * 2;
    let mut params = Params::create(SCHEME_CKKS).unwrap();
    params.set_poly_modulus_degree(8192 * 2).unwrap();
    assert_eq!(poly_modulus_degree, params.get_poly_modulus_degree().unwrap());
    let bits_sizes = vec![60, 30, 30, 30, 60]; // sum is 140
    params.set_coeff_modulus_ckks(&bits_sizes).unwrap();
}

#[test]
fn test_mod_switch_to_next() {
    let security_level = 128u8;
    for bits_size in 23..30u8 {
        for d in 1..3usize {
            let poly_modulus_degree = 8192 * d;
            let plain_modulus = SmallModulus::for_batching(poly_modulus_degree, bits_size)
                .unwrap()
                .value()
                .unwrap();

            let mut params = Params::create(SCHEME_BFV).unwrap();
            params.set_poly_modulus_degree(poly_modulus_degree).unwrap();
            let primes = params.bfv_default(security_level).unwrap();
            params.set_coeff_modulus(&primes).unwrap();
            params.set_plain_modulus(plain_modulus).unwrap();
            let context = Context::create(params, security_level, true).unwrap();

            // Key Generation
            let key_generator = KeyGenerator::create(&context).unwrap();
            let public_key = key_generator.public_key().unwrap();
            let secret_key = key_generator.secret_key().unwrap();
            let relinearization_keys = key_generator.relinearization_keys().unwrap();

            // Batch Encoding
            let batch_encoder = BatchEncoder::create(&context).unwrap();
            let encryptor = Encryptor::create(&context, &public_key, &secret_key).unwrap();
            let decryptor = Decryptor::create(&context, &secret_key).unwrap();

            // check that the plain text decodes properly and create the sliding vector
            let v: u64 = 1;
            let vector = vec![v; poly_modulus_degree];
            let plain_text = batch_encoder.encode(&vector).unwrap();
            let v = batch_encoder.decode(&plain_text).unwrap();
            assert_eq!(vector, v);

            let evaluator = Evaluator::create(&context).unwrap();
            let original_cipher_text = encryptor.encrypt(&plain_text).unwrap();
            let mut ct = original_cipher_text.clone().unwrap();
            loop {
                let mut result = evaluator.mul(&original_cipher_text, &ct).unwrap();
                result = evaluator.relinearize(&result, &relinearization_keys).unwrap();
                let remaining_noise_budget = decryptor.invariant_noise_budget(&result).unwrap();
                if remaining_noise_budget <= 0 {
                    let _noise_budget = decryptor.invariant_noise_budget(&ct).unwrap();
                    let _compressed_size = ct.save().unwrap().len() / 1024;
                    let ct = evaluator.compact_size(&ct).unwrap();
                    let _new_noise_budget = decryptor.invariant_noise_budget(&ct).unwrap();
                    let _new_compressed_size = ct.save().unwrap().len() / 1024;
                    // check that we can still decrypt
                    let pt = decryptor.decrypt(&ct).unwrap();
                    let recovered = batch_encoder.decode(&pt).unwrap();
                    assert_eq!(&vector, &recovered);
                    break;
                } else {
                    ct = result;
                }
            }
        }
    }
}

#[test]
fn test_batch_scenario() {
    // degree 4096, the default 128-bit coefficient modulus, and a 20-bit
    // batching-compatible plaintext prime
    let security_level = 128u8;
    let degree = 4096usize;
    let mut params = Params::create(SCHEME_BFV).unwrap();
    params.set_poly_modulus_degree(degree).unwrap();
    let primes = params.bfv_default(security_level).unwrap();
    params.set_coeff_modulus(&primes).unwrap();
    let t = SmallModulus::for_batching(degree, 20).unwrap().value().unwrap();
    params.set_plain_modulus(t).unwrap();
    let context = Context::create(params, security_level, true).unwrap();
    let key_generator = KeyGenerator::create(&context).unwrap();
    let public_key = key_generator.public_key().unwrap();
    let secret_key = key_generator.secret_key().unwrap();
    let relinearization_keys = key_generator.relinearization_keys().unwrap();
    let encoder = BatchEncoder::create(&context).unwrap();
    let encryptor = Encryptor::create(&context, &public_key, &secret_key).unwrap();
    let decryptor = Decryptor::create(&context, &secret_key).unwrap();
    let evaluator = Evaluator::create(&context).unwrap();
    // two 4096-length integer vectors, and a third to multiply with
    let a: Vec<u64> = (0..degree).map(|i| (7 * i + 3) as u64 % t).collect();
    let b: Vec<u64> = (0..degree).map(|i| (11 * i + 5) as u64 % t).collect();
    let c: Vec<u64> = (0..degree).map(|i| (13 * i + 1) as u64 % t).collect();
    let pa = encoder.encode(&a).unwrap();
    let pb = encoder.encode(&b).unwrap();
    let pc = encoder.encode(&c).unwrap();
    let ca = encryptor.encrypt(&pa).unwrap();
    let cc = encryptor.encrypt(&pc).unwrap();
    // add one vector in plaintext form to an encrypted vector, multiply the
    // sum by a third encrypted vector, relinearize, decrypt, decode
    let sum = evaluator.add_plain(&ca, &pb).unwrap();
    let prod = evaluator.mul(&sum, &cc).unwrap();
    let prod = evaluator.relinearize(&prod, &relinearization_keys).unwrap();
    let out = encoder.decode(&decryptor.decrypt(&prod).unwrap()).unwrap();
    for i in 0..degree {
        let expected =
            (((a[i] + b[i]) as u128 * c[i] as u128) % t as u128) as u64;
        assert_eq!(expected, out[i], "failed at i = {}", i);
    }
}
