//! Fractional-scheme end-to-end tests: encoding at a scale, rotations,
//! rescaling, level alignment and the transparent-ciphertext refusal.
//!
//! The encoder works on fixed-point mantissas; these tests convert between
//! floating-point values and mantissas at the chosen scale.

use hekit::CKKSEncoder;
use hekit::Context;
use hekit::Decryptor;
use hekit::Encryptor;
use hekit::Evaluator;
use hekit::KeyGenerator;
use hekit::Params;
use hekit::SCHEME_CKKS;

/// Values to mantissas at a scale.
fn to_fixed(values: &[f64], scale: u128) -> Vec<i128> {
    values.iter().map(|v| (*v * scale as f64).round() as i128).collect()
}

/// One value to a mantissa at a scale.
fn one_fixed(value: f64, scale: u128) -> i128 {
    (value * scale as f64).round() as i128
}

/// Mantissas back to values at a scale.
fn from_fixed(mantissas: &[i128], scale: u128) -> Vec<f64> {
    mantissas.iter().map(|m| *m as f64 / scale as f64).collect()
}

#[test]
fn test_transparent() {
    let mut params = Params::create(SCHEME_CKKS).unwrap();
    params.set_poly_modulus_degree(8192).unwrap();
    let bits_sizes = vec![60, 30, 30, 30, 60]; // sum is 140
    params.set_coeff_modulus_ckks(&bits_sizes).unwrap();
    let context = Context::create(params, 128u8, true).unwrap();

    let scale: u128 = 1u128 << 40;
    // Key Generation
    let key_generator = KeyGenerator::create(&context).unwrap();
    let secret_key = key_generator.secret_key().unwrap();
    let public_key = key_generator.public_key().unwrap();
    // encryption
    let encryptor = Encryptor::create(&context, &public_key, &secret_key).unwrap();

    // Encoder
    let ckks_encoder = CKKSEncoder::create(&context).unwrap();
    let slot_count = ckks_encoder.slot_count().unwrap();

    let price_opt = 127;
    let mut price_input = vec![0.0_f64; slot_count];
    price_input[price_opt] = 1.0;

    let price_opt_plain = ckks_encoder.encode(&to_fixed(&price_input, scale), scale).unwrap();
    let price_opt_encrypted = encryptor.encrypt(&price_opt_plain).unwrap();
    let evaluator = Evaluator::create(&context).unwrap();

    let mut kwh_cost = vec![0.0];
    kwh_cost.resize(slot_count, 0.0);
    let kwh_cost_plain = ckks_encoder.encode(&to_fixed(&kwh_cost, scale), scale).unwrap();

    // must fail due to transparency
    let enc_cost = evaluator.mul_plain(&price_opt_encrypted, &kwh_cost_plain);
    assert_eq!(
        enc_cost.err().unwrap().message(),
        "Transparent output: plaintext must be non zero"
    );
}

#[test]
fn test_ckks_simple() {
    let mut params = Params::create(SCHEME_CKKS).unwrap();
    params.set_poly_modulus_degree(8192).unwrap();
    assert_eq!(8192, params.get_poly_modulus_degree().unwrap());
    let bits_sizes = vec![40, 40, 40, 40, 40];
    params.set_coeff_modulus_ckks(&bits_sizes).unwrap();

    // Context
    let context = Context::create(params, 128u8, true).unwrap();

    // Key Generation
    let key_generator = KeyGenerator::create(&context).unwrap();
    let public_key = key_generator.public_key().unwrap();
    let secret_key = key_generator.secret_key().unwrap();
    let relinearization_keys = key_generator.relinearization_keys().unwrap();

    // encryption // decryption
    let encryptor = Encryptor::create(&context, &public_key, &secret_key).unwrap();
    let decryptor = Decryptor::create(&context, &secret_key).unwrap();

    let evaluator = Evaluator::create(&context).unwrap();
    let ckks_encoder = CKKSEncoder::create(&context).unwrap();

    let input = [0.0, 1.1, 2.2, 3.3];
    let scale: u128 = 1u128 << 30;
    let plain = ckks_encoder.encode(&to_fixed(&input, scale), scale).unwrap();
    let _output = ckks_encoder.decode(&plain).unwrap();

    let encrypted = encryptor.encrypt(&plain).unwrap();

    let encrypted = evaluator.square(&encrypted).unwrap();
    let encrypted = evaluator.relinearize(&encrypted, &relinearization_keys).unwrap();

    let plain = decryptor.decrypt(&encrypted).unwrap();
    let output = from_fixed(&ckks_encoder.decode(&plain).unwrap(), plain.scale());

    let expected = [0.0, 1.21, 4.84, 10.89];
    let epsilon = 0.0001;
    for (e, o) in expected.iter().zip(output.iter()) {
        assert!((*e - *o).abs() < epsilon);
    }
}

#[test]
fn test_ckks_sum() {
    let mut params = Params::create(SCHEME_CKKS).unwrap();
    params.set_poly_modulus_degree(8192).unwrap();
    assert_eq!(8192, params.get_poly_modulus_degree().unwrap());
    let bits_sizes = vec![40, 40, 40, 40, 40];
    params.set_coeff_modulus_ckks(&bits_sizes).unwrap();

    // Context
    let context = Context::create(params, 128u8, true).unwrap();

    // Key Generation
    let key_generator = KeyGenerator::create(&context).unwrap();
    let public_key = key_generator.public_key().unwrap();
    let secret_key = key_generator.secret_key().unwrap();
    let relinearization_keys = key_generator.relinearization_keys().unwrap();
    let galois_keys = key_generator.galois_keys().unwrap();

    // encryption // decryption
    let encryptor = Encryptor::create(&context, &public_key, &secret_key).unwrap();
    let decryptor = Decryptor::create(&context, &secret_key).unwrap();
    let evaluator = Evaluator::create(&context).unwrap();
    let ckks_encoder = CKKSEncoder::create(&context).unwrap();

    let input = [1.0, 2.0, 3.0, 4.0];
    let scale: u128 = 1u128 << 40;
    let plain = ckks_encoder.encode(&to_fixed(&input, scale), scale).unwrap();
    let _output = ckks_encoder.decode(&plain).unwrap();

    let encrypted_initial = encryptor.encrypt(&plain).unwrap();
    let mut previous = encrypted_initial;
    let max_rotations = input.len() / 2;
    for index in (1..=max_rotations).rev() {
        let encrypted = evaluator.rotate(&previous, index as i32, &galois_keys).unwrap();
        let encrypted = evaluator.relinearize(&encrypted, &relinearization_keys).unwrap();
        previous = evaluator.add(&encrypted, &previous).unwrap();
    }
    // Doing rotation, don't forget the internal vector is bigger than 4
    // elements, that's why only the first element matters, as we are sure it
    // has the correct sum.
    let plain = decryptor.decrypt(&previous).unwrap();
    let output = from_fixed(&ckks_encoder.decode(&plain).unwrap(), plain.scale());
    let sum = output[0];
    assert!((sum.round() - 10.0_f64).abs() < f64::EPSILON);
}

#[test]
fn test_ckks_blinded_sum_fast() {
    ckks_blinded_sum(4, true);
    ckks_blinded_sum(100, true);
    ckks_blinded_sum(250, true);
}

fn ckks_blinded_sum(limit: usize, fast: bool) {
    let mut params = Params::create(SCHEME_CKKS).unwrap();
    let poly_modulus_degree = 8192;
    params.set_poly_modulus_degree(poly_modulus_degree).unwrap();
    assert_eq!(poly_modulus_degree, params.get_poly_modulus_degree().unwrap());
    let bits_sizes = vec![40, 40, 40, 40, 40];
    params.set_coeff_modulus_ckks(&bits_sizes).unwrap();
    let scale: u128 = 1u128 << 40;

    // Context
    let context = Context::create(params, 128u8, true).unwrap();

    // Key Generation
    let key_generator = KeyGenerator::create(&context).unwrap();
    let public_key = key_generator.public_key().unwrap();
    let secret_key = key_generator.secret_key().unwrap();
    let relinearization_keys = key_generator.relinearization_keys().unwrap();
    let galois_keys = key_generator.galois_keys().unwrap();

    // encryption // decryption
    let encryptor = Encryptor::create(&context, &public_key, &secret_key).unwrap();
    let decryptor = Decryptor::create(&context, &secret_key).unwrap();
    let evaluator = Evaluator::create(&context).unwrap();
    let ckks_encoder = CKKSEncoder::create(&context).unwrap();

    let max_vector_length = if fast {
        // in fast mode, we set to the size of actual data, but it is not
        // convenient out of test case, because we may reveal input data size
        limit
    } else {
        // to not reveal size of actual data, we do computation over the
        // whole vector
        poly_modulus_degree / 2
    };

    // Vector of zeros to do the sum
    let zeros = vec![0.0_f64; max_vector_length];
    let plain_zeros = ckks_encoder.encode(&to_fixed(&zeros, scale), scale).unwrap();
    let mut encrypted_zeros = encryptor.encrypt(&plain_zeros).unwrap();

    // [0]=1.0, [1]=2.0...
    let mut input = vec![0.0_f64; max_vector_length];
    for (i, item) in input.iter_mut().enumerate().take(limit) {
        *item = 1.0_f64 + (i as f64);
    }
    // encrypt
    let plain = ckks_encoder.encode(&to_fixed(&input, scale), scale).unwrap();
    let encrypted_input = encryptor.encrypt(&plain).unwrap();
    for index in 0..max_vector_length {
        let encrypted = evaluator.rotate(&encrypted_input, index as i32, &galois_keys).unwrap();
        let encrypted = evaluator.relinearize(&encrypted, &relinearization_keys).unwrap();
        encrypted_zeros = evaluator.add(&encrypted, &encrypted_zeros).unwrap();
    }
    let plain = decryptor.decrypt(&encrypted_zeros).unwrap();
    let output = from_fixed(&ckks_encoder.decode(&plain).unwrap(), plain.scale());
    let expected = (1..=limit).sum::<usize>() as f64;
    let sum = output[0];
    assert!((sum.round() - expected).abs() < f64::EPSILON);
}

#[test]
fn test_ckks_valoconso() {
    let mut params = Params::create(SCHEME_CKKS).unwrap();
    params.set_poly_modulus_degree(8192).unwrap();
    // nb mul + 2
    let bits_sizes = vec![60, 30, 30, 30, 60]; // sum is 140
    params.set_coeff_modulus_ckks(&bits_sizes).unwrap();
    let context = Context::create(params, 128u8, true).unwrap();
    let primes = context.get_coeff_modulus().unwrap();
    let p_0 = primes[3] as u128;
    let p_1 = primes[2] as u128;
    let p_2 = primes[1] as u128;

    let scale: u128 = 1u128 << 40;
    // Key Generation
    let key_generator = KeyGenerator::create(&context).unwrap();
    let public_key = key_generator.public_key().unwrap();
    let secret_key = key_generator.secret_key().unwrap();
    let relinearization_keys = key_generator.relinearization_keys().unwrap();
    let galois_keys = key_generator.galois_keys().unwrap();
    // encryption // decryption
    let encryptor = Encryptor::create(&context, &public_key, &secret_key).unwrap();
    let decryptor = Decryptor::create(&context, &secret_key).unwrap();

    // Encoder
    let ckks_encoder = CKKSEncoder::create(&context).unwrap();
    let slot_count = ckks_encoder.slot_count().unwrap();

    //***
    // Provider Side
    //***
    let subscr_opt = 15;
    let mut subscr_input = vec![0.0_f64; slot_count];
    subscr_input[subscr_opt] = 1.0;

    let price_opt = 127;
    let mut price_input = vec![0.0_f64; slot_count];
    price_input[price_opt] = 1.0;

    // use max_value to test overflow
    let mut conso = vec![
        99.999, 99.999, 99.999, 99.999, 99.999, 99.999, 99.999, 99.999, 99.999, 99.999, 99.999,
        99.999, 99.999, 99.999, 99.999, 99.999, 99.999, 99.999, 99.999, 99.999, 99.999, 99.999,
        99.999, 99.999, 99.999, 99.999, 99.999, 99.999, 99.999, 99.999, 99.999,
    ];
    conso.resize(slot_count, 0.0);

    let subscr_opt_plain = ckks_encoder.encode(&to_fixed(&subscr_input, p_0), p_0).unwrap();
    let subscr_opt_encrypted = encryptor.encrypt(&subscr_opt_plain).unwrap();

    let price_opt_plain = ckks_encoder.encode(&to_fixed(&price_input, p_0), p_0).unwrap();
    let price_opt_encrypted = encryptor.encrypt(&price_opt_plain).unwrap();

    let conso_plain = ckks_encoder.encode(&to_fixed(&conso, p_1), p_1).unwrap();
    let conso_encrypted = encryptor.encrypt(&conso_plain).unwrap();

    //***
    // Operations on cipher text - create an evaluator
    //***
    let evaluator = Evaluator::create(&context).unwrap();

    let mut subscr_fee = vec![
        11.11_f64, 22.22, 33.33, 44.44, 55.55, 66.66, 77.77, 88.88, 1.11, 2.22, 3.33, 4.44, 5.55,
        6.66, 7.77, 99.99,
    ];
    subscr_fee.resize(slot_count, 0.0);
    let subscr_fee_plain = ckks_encoder.encode(&to_fixed(&subscr_fee, scale), scale).unwrap();

    let mut kwh_cost = vec![
        0.1_f64, 0.2, 0.3, 0.4, 0.5, 0.6, 0.7, 0.8, 0.9, 0.10, 0.11, 0.12, 0.13, 0.14, 0.15, 0.16,
        0.17, 0.18, 0.19, 0.20, 0.21, 0.22, 0.23, 0.24, 0.25, 0.26, 0.27, 0.28, 0.29, 0.30, 0.31,
        0.32, 0.33, 0.34, 0.35, 0.36, 0.37, 0.38, 0.39, 0.40, 0.41, 0.42, 0.43, 0.44, 0.45, 0.46,
        0.47, 0.48, 0.49, 0.50, 0.51, 0.52, 0.53, 0.54, 0.55, 0.56, 0.57, 0.58, 0.59, 0.60, 0.61,
        0.62, 0.63, 0.64, 0.1, 0.2, 0.3, 0.4, 0.5, 0.6, 0.7, 0.8, 0.9, 0.10, 0.11, 0.12, 0.13,
        0.14, 0.15, 0.16, 0.17, 0.18, 0.19, 0.20, 0.21, 0.22, 0.23, 0.24, 0.25, 0.26, 0.27, 0.28,
        0.29, 0.30, 0.31, 0.32, 0.33, 0.34, 0.35, 0.36, 0.37, 0.38, 0.39, 0.40, 0.41, 0.42, 0.43,
        0.44, 0.45, 0.46, 0.47, 0.48, 0.49, 0.50, 0.51, 0.52, 0.53, 0.54, 0.55, 0.56, 0.57, 0.58,
        0.59, 0.60, 0.61, 0.62, 0.63, 0.9999,
    ];
    kwh_cost.resize(slot_count, 0.0);
    let kwh_cost_plain = ckks_encoder.encode(&to_fixed(&kwh_cost, scale), scale).unwrap();

    //****
    // For Mul Add
    // Step 0 to Init the accumulator
    let mut enc_cost = evaluator.mul_plain(&price_opt_encrypted, &kwh_cost_plain).unwrap();
    enc_cost = evaluator.relinearize(&enc_cost, &relinearization_keys).unwrap();
    enc_cost = evaluator.rescale_to_next(&enc_cost).unwrap();
    let mut step = (slot_count >> 1) as i32;
    while step > 0 {
        let enc_rot = evaluator.rotate(&enc_cost, step, &galois_keys).unwrap();
        enc_cost = evaluator.add(&enc_cost, &enc_rot).unwrap();
        step >>= 1;
    }
    // mul without rescale
    let conso_day = evaluator.mod_switch_to_next(&conso_encrypted).unwrap();
    let mut enc_cost_day = evaluator.mul(&conso_day, &enc_cost).unwrap();
    // Loop
    for day in 1..31 {
        // LUT computation
        let mut enc_cost = evaluator.mul_plain(&price_opt_encrypted, &kwh_cost_plain).unwrap();
        enc_cost = evaluator.relinearize(&enc_cost, &relinearization_keys).unwrap();
        enc_cost = evaluator.rescale_to_next(&enc_cost).unwrap();
        let mut step = (slot_count >> 1) as i32;
        while step > 0 {
            let enc_rot = evaluator.rotate(&enc_cost, step, &galois_keys).unwrap();
            enc_cost = evaluator.add(&enc_cost, &enc_rot).unwrap();
            step >>= 1;
        }
        // Conso rotate mul
        let conso_day = evaluator.mod_switch_to_next(&conso_encrypted).unwrap();
        let conso_day_curr = evaluator.rotate(&conso_day, day as i32, &galois_keys).unwrap();
        // mul without rescale
        let enc_cost_curr = evaluator.mul(&conso_day_curr, &enc_cost).unwrap();
        // Add
        enc_cost_day = evaluator.add(&enc_cost_day, &enc_cost_curr).unwrap();
    }
    enc_cost_day = evaluator.rescale_to_next(&enc_cost_day).unwrap();

    let mut enc_subscr = evaluator.mul_plain(&subscr_opt_encrypted, &subscr_fee_plain).unwrap();
    enc_subscr = evaluator.relinearize(&enc_subscr, &relinearization_keys).unwrap();
    enc_subscr = evaluator.rescale_to_next(&enc_subscr).unwrap();
    let mut step = (slot_count >> 1) as i32;
    while step > 0 {
        let enc_rot = evaluator.rotate(&enc_subscr, step, &galois_keys).unwrap();
        enc_subscr = evaluator.add(&enc_subscr, &enc_rot).unwrap();
        step >>= 1;
    }
    let enc_subscr = evaluator.mod_switch_to_next(&enc_subscr).unwrap();

    let final_val = evaluator.add(&enc_cost_day, &enc_subscr).unwrap();

    let mut selector = vec![0.0_f64; slot_count];
    selector[0] = 1.0;
    let selector_plain = ckks_encoder.encode(&to_fixed(&selector, p_2), p_2).unwrap();
    let parms = final_val.parms_id().unwrap();
    let selector_plain = evaluator.mod_switch_to_plain_text(&selector_plain, &parms).unwrap();
    let final_val = evaluator.mul_plain(&final_val, &selector_plain).unwrap();
    let final_val = evaluator.relinearize(&final_val, &relinearization_keys).unwrap();
    let final_val = evaluator.rescale_to_next(&final_val).unwrap();

    let plain_result = decryptor.decrypt(&enc_cost).unwrap();
    let result = from_fixed(&ckks_encoder.decode(&plain_result).unwrap(), plain_result.scale());
    assert!((result[0] - kwh_cost[price_opt]).abs() < 0.01);

    let plain_result = decryptor.decrypt(&enc_subscr).unwrap();
    let result = from_fixed(&ckks_encoder.decode(&plain_result).unwrap(), plain_result.scale());
    assert!((result[0] - subscr_fee[subscr_opt]).abs() < 0.01);

    let mut total = 0.0;
    for conso_item in conso.iter().take(31) {
        total += kwh_cost[price_opt] * conso_item;
    }
    let plain_result = decryptor.decrypt(&enc_cost_day).unwrap();
    let result = from_fixed(&ckks_encoder.decode(&plain_result).unwrap(), plain_result.scale());
    assert!((result[0] - total).abs() / total < 0.001);

    let plain_result = decryptor.decrypt(&final_val).unwrap();
    let result = from_fixed(&ckks_encoder.decode(&plain_result).unwrap(), plain_result.scale());
    assert!((result[0] - (total + subscr_fee[subscr_opt])).abs() / (total + subscr_fee[subscr_opt])
        < 0.001);
}

#[test]
fn test_ckks_polynomial() {
    let mut params = Params::create(SCHEME_CKKS).unwrap();
    params.set_poly_modulus_degree(8192).unwrap();
    assert_eq!(8192, params.get_poly_modulus_degree().unwrap());
    let bits_sizes = vec![60, 40, 40, 60];
    params.set_coeff_modulus_ckks(&bits_sizes).unwrap();

    // We choose the initial scale to be 2^40.
    let scale: u128 = 1u128 << 40;

    let context = Context::create(params, 128u8, true).unwrap();
    // Key Generation
    let key_generator = KeyGenerator::create(&context).unwrap();
    let public_key = key_generator.public_key().unwrap();
    let secret_key = key_generator.secret_key().unwrap();
    let relinearization_keys = key_generator.relinearization_keys().unwrap();
    // encryption // decryption
    let encryptor = Encryptor::create(&context, &public_key, &secret_key).unwrap();
    let decryptor = Decryptor::create(&context, &secret_key).unwrap();

    // Encoder
    let ckks_encoder = CKKSEncoder::create(&context).unwrap();
    let slot_count = ckks_encoder.slot_count().unwrap();
    let mut input: Vec<f64> = Vec::with_capacity(slot_count);
    let mut curr_point = 0.0;
    let step_size = 1.0 / f64::from((slot_count as u32) - 1);
    for _ in 0..slot_count {
        input.push(curr_point);
        curr_point += step_size;
    }

    // Plaintexts broadcasting PI, 0.4 and 1 to every slot.
    let value_a = std::f64::consts::PI;
    let plain_coeff3 = ckks_encoder.encode_value(one_fixed(value_a, scale), scale).unwrap();
    let value_b = 0.4;
    let plain_coeff1 = ckks_encoder.encode_value(one_fixed(value_b, scale), scale).unwrap();
    let value_c = 1.0;
    let plain_coeff0 = ckks_encoder.encode_value(one_fixed(value_c, scale), scale).unwrap();

    let x_plain = ckks_encoder.encode(&to_fixed(&input, scale), scale).unwrap();
    let x1_encrypted = encryptor.encrypt(&x_plain).unwrap();

    // Operations on cipher text - create an evaluator
    let evaluator = Evaluator::create(&context).unwrap();

    // Compute x^2 and relinearize; the scale has grown to 2^80.
    let x3_encrypted = evaluator.square(&x1_encrypted).unwrap();
    let x3_encrypted = evaluator.relinearize(&x3_encrypted, &relinearization_keys).unwrap();

    // Rescale: in addition to a modulus switch, the scale is reduced by a
    // factor equal to the dropped prime.
    let x3_encrypted = evaluator.rescale_to_next(&x3_encrypted).unwrap();

    // Compute and rescale PI*x.
    let x1_encrypted_coeff3 = evaluator.mul_plain(&x1_encrypted, &plain_coeff3).unwrap();
    let x1_encrypted_coeff3 = evaluator.rescale_to_next(&x1_encrypted_coeff3).unwrap();

    // Compute, relinearize, and rescale (PI*x)*x^2.
    let x3_encrypted = evaluator.mul(&x3_encrypted, &x1_encrypted_coeff3).unwrap();
    let x3_encrypted = evaluator.relinearize(&x3_encrypted, &relinearization_keys).unwrap();
    let mut x3_encrypted = evaluator.rescale_to_next(&x3_encrypted).unwrap();

    // Compute and rescale 0.4*x.
    let x1_encrypted = evaluator.mul_plain(&x1_encrypted, &plain_coeff1).unwrap();
    let mut x1_encrypted = evaluator.rescale_to_next(&x1_encrypted).unwrap();

    // The exact scales of the three terms differ, so normalize them.
    x3_encrypted.set_scale(scale).unwrap();
    x1_encrypted.set_scale(scale).unwrap();

    // Mismatching encryption parameters: use modulus switching (no
    // rescaling) to bring everything to the lowest level in use.
    let parms_id = x3_encrypted.parms_id().unwrap();
    let x1_encrypted = evaluator.mod_switch_to(&x1_encrypted, &parms_id).unwrap();
    let plain_coeff0 = evaluator.mod_switch_to_plain_text(&plain_coeff0, &parms_id).unwrap();

    // All three terms are now compatible and can be added.
    let encrypted_result = evaluator.add(&x3_encrypted, &x1_encrypted).unwrap();
    let encrypted_result = evaluator.add_plain(&encrypted_result, &plain_coeff0).unwrap();

    // First compute the true result
    let mut true_result: Vec<f64> = Vec::with_capacity(input.len());
    for x in input {
        true_result.push((value_a * x * x + value_b) * x + value_c);
    }

    // Decrypt, decode, and check the result
    let plain_result = decryptor.decrypt(&encrypted_result).unwrap();
    let result = from_fixed(&ckks_encoder.decode(&plain_result).unwrap(), plain_result.scale());
    let epsilon = 0.000001;
    for (expected, result) in true_result.iter().zip(result.iter()) {
        assert!((expected - result).abs() / (expected.abs() + result.abs()) < epsilon);
    }
}
