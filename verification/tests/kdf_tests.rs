use gtkrypt_crypto::kdf::{derive_key, KdfParams};

#[test]
fn test_derive_key_produces_32_bytes() {
    let params = KdfParams {
        time_cost: 1,
        memory_cost_kib: 1024, // 1 MiB (fast for tests)
        parallelism: 1,
    };
    let salt = [0u8; 16];
    let key = derive_key(b"test_passphrase", &salt, &params).unwrap();
    assert_eq!(key.len(), 32);
}

#[test]
fn test_different_passwords_produce_different_keys() {
    let params = KdfParams {
        time_cost: 1,
        memory_cost_kib: 1024,
        parallelism: 1,
    };
    let salt = [0u8; 16];
    let key1 = derive_key(b"password_one", &salt, &params).unwrap();
    let key2 = derive_key(b"password_two", &salt, &params).unwrap();
    assert_ne!(key1, key2);
}

#[test]
fn test_different_salts_produce_different_keys() {
    let params = KdfParams {
        time_cost: 1,
        memory_cost_kib: 1024,
        parallelism: 1,
    };
    let salt1 = [0u8; 16];
    let salt2 = [1u8; 16];
    let key1 = derive_key(b"same_password", &salt1, &params).unwrap();
    let key2 = derive_key(b"same_password", &salt2, &params).unwrap();
    assert_ne!(key1, key2);
}

#[test]
fn test_same_inputs_produce_same_key() {
    let params = KdfParams {
        time_cost: 1,
        memory_cost_kib: 1024,
        parallelism: 1,
    };
    let salt = [42u8; 16];
    let key1 = derive_key(b"deterministic", &salt, &params).unwrap();
    let key2 = derive_key(b"deterministic", &salt, &params).unwrap();
    assert_eq!(key1, key2);
}

#[test]
fn test_default_params() {
    let params = KdfParams::default();
    assert_eq!(params.time_cost, 3);
    assert_eq!(params.memory_cost_kib, 65536);
    assert_eq!(params.parallelism, 4);
}

#[test]
fn test_derived_key_is_not_its_input() {
    let params = KdfParams { time_cost: 1, memory_cost_kib: 1024, parallelism: 1 };
    let passphrase = [0x5Au8; 32];
    let salt = [0x5Au8; 32];
    let key = derive_key(&passphrase, &salt, &params).unwrap();
    assert_ne!(key, passphrase);
    assert_ne!(key, [0u8; 32]);
}

#[test]
fn test_different_costs_produce_different_keys() {
    let salt = [3u8; 16];
    let base = KdfParams { time_cost: 1, memory_cost_kib: 1024, parallelism: 1 };
    let more_time = KdfParams { time_cost: 2, memory_cost_kib: 1024, parallelism: 1 };
    let more_memory = KdfParams { time_cost: 1, memory_cost_kib: 2048, parallelism: 1 };
    let more_lanes = KdfParams { time_cost: 1, memory_cost_kib: 1024, parallelism: 2 };
    let k0 = derive_key(b"pw", &salt, &base).unwrap();
    assert_ne!(k0, derive_key(b"pw", &salt, &more_time).unwrap());
    assert_ne!(k0, derive_key(b"pw", &salt, &more_memory).unwrap());
    assert_ne!(k0, derive_key(b"pw", &salt, &more_lanes).unwrap());
}

#[test]
fn test_is_valid_limits() {
    assert!(KdfParams { time_cost: 1, memory_cost_kib: 8, parallelism: 1 }.is_valid());
    assert!(!KdfParams { time_cost: 0, memory_cost_kib: 1024, parallelism: 1 }.is_valid());
    assert!(!KdfParams { time_cost: 1, memory_cost_kib: 7, parallelism: 1 }.is_valid());
    assert!(!KdfParams { time_cost: 1, memory_cost_kib: 15, parallelism: 2 }.is_valid());
    assert!(KdfParams { time_cost: 1, memory_cost_kib: 16, parallelism: 2 }.is_valid());
    assert!(!KdfParams { time_cost: 1, memory_cost_kib: 1024, parallelism: 0 }.is_valid());
    assert!(!KdfParams { time_cost: 1, memory_cost_kib: u32::MAX, parallelism: 0x100_0000 }
        .is_valid());
}

#[test]
fn test_invalid_costs_are_refused_with_the_stage_named() {
    let salt = [0u8; 16];
    let too_little_memory = KdfParams { time_cost: 1, memory_cost_kib: 4, parallelism: 1 };
    assert_eq!(
        derive_key(b"pw", &salt, &too_little_memory).unwrap_err(),
        "Invalid Argon2 params: memory cost is too small"
    );
    let no_time = KdfParams { time_cost: 0, memory_cost_kib: 1024, parallelism: 1 };
    assert_eq!(
        derive_key(b"pw", &salt, &no_time).unwrap_err(),
        "Invalid Argon2 params: time cost is too small"
    );
    let no_lanes = KdfParams { time_cost: 1, memory_cost_kib: 1024, parallelism: 0 };
    assert_eq!(
        derive_key(b"pw", &salt, &no_lanes).unwrap_err(),
        "Invalid Argon2 params: not enough threads"
    );
    let too_many_lanes =
        KdfParams { time_cost: 1, memory_cost_kib: u32::MAX, parallelism: 0x2000_0000 };
    assert_eq!(
        derive_key(b"pw", &salt, &too_many_lanes).unwrap_err(),
        "Invalid Argon2 params: too many threads"
    );
    let lanes_over_limit =
        KdfParams { time_cost: 1, memory_cost_kib: u32::MAX, parallelism: 0x100_0000 };
    assert_eq!(
        derive_key(b"pw", &salt, &lanes_over_limit).unwrap_err(),
        "Invalid Argon2 params: too many threads"
    );
}

#[test]
fn test_short_salt_is_refused_by_the_derivation() {
    let params = KdfParams { time_cost: 1, memory_cost_kib: 1024, parallelism: 1 };
    assert_eq!(
        derive_key(b"pw", &[0u8; 7], &params).unwrap_err(),
        "Argon2id key derivation failed: salt is too short"
    );
    assert!(derive_key(b"pw", &[0u8; 8], &params).is_ok());
    assert!(derive_key(b"", &[0u8; 8], &params).is_ok());
}

#[test]
fn test_derive_key_known_answer() {
    let params = KdfParams { time_cost: 2, memory_cost_kib: 256, parallelism: 1 };
    let key = derive_key(b"password", b"somesalt", &params).unwrap();
    let expected: [u8; 32] = [
        0x9d, 0xfe, 0xb9, 0x10, 0xe8, 0x0b, 0xad, 0x03, 0x11, 0xfe, 0xe2, 0x0f, 0x9c, 0x0e, 0x2b,
        0x12, 0xc1, 0x79, 0x87, 0xb4, 0xca, 0xc9, 0x0c, 0x2e, 0xf5, 0x4d, 0x5b, 0x30, 0x21, 0xc6,
        0x8b, 0xfe,
    ];
    assert_eq!(key, expected);
}
