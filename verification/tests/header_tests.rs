use gtkrypt_crypto::header::{
    build_chunk_aad, declared_header_size, decode_header, derive_chunk_nonce, encode_header,
    extract_aad, header_from_reads, read_header, read_header_from_reader, ContainerHeader,
    HeaderError, AAD_LENGTH,
    CHUNK_SIZE, FIXED_HEADER_V1, FIXED_HEADER_V2, KDF_ID_ARGON2ID, MAGIC, NONCE_LEN, SALT_LEN,
    TAG_LEN, VERSION,
};
use gtkrypt_crypto::kdf::KdfParams;

fn make_test_header(filename: Option<&str>) -> ContainerHeader {
    ContainerHeader {
        version: VERSION,
        kdf_id: KDF_ID_ARGON2ID,
        kdf_params: KdfParams {
            time_cost: 3,
            memory_cost_kib: 65536,
            parallelism: 4,
        },
        salt: [1u8; SALT_LEN],
        nonce: [2u8; NONCE_LEN],
        filename: filename.map(|s| s.to_string()),
        mode: Some(0o600),
        original_file_size: 12345,
        ciphertext_length: 12361, // 12345 + 16 tag
    }
}

#[test]
fn test_roundtrip_encode_decode_no_filename() {
    let header = make_test_header(None);
    let encoded = encode_header(&header);

    let (decoded, consumed) = decode_header(&encoded).unwrap();
    assert_eq!(consumed, encoded.len());
    assert_eq!(decoded.version, header.version);
    assert_eq!(decoded.kdf_id, header.kdf_id);
    assert_eq!(decoded.kdf_params.time_cost, header.kdf_params.time_cost);
    assert_eq!(
        decoded.kdf_params.memory_cost_kib,
        header.kdf_params.memory_cost_kib
    );
    assert_eq!(decoded.kdf_params.parallelism, header.kdf_params.parallelism);
    assert_eq!(decoded.salt, header.salt);
    assert_eq!(decoded.nonce, header.nonce);
    assert_eq!(decoded.filename, None);
    assert_eq!(decoded.mode, header.mode);
    assert_eq!(decoded.original_file_size, header.original_file_size);
    assert_eq!(decoded.ciphertext_length, header.ciphertext_length);
}

#[test]
fn test_roundtrip_encode_decode_with_filename() {
    let header = make_test_header(Some("my_secret_file.txt"));
    let encoded = encode_header(&header);

    let (decoded, consumed) = decode_header(&encoded).unwrap();
    assert_eq!(consumed, encoded.len());
    assert_eq!(decoded.filename, Some("my_secret_file.txt".to_string()));
    assert_eq!(decoded.mode, header.mode);
    assert_eq!(decoded.original_file_size, header.original_file_size);
    assert_eq!(decoded.ciphertext_length, header.ciphertext_length);
}

#[test]
fn test_roundtrip_encode_decode_with_mode_v2() {
    let header = ContainerHeader {
        version: 2,
        kdf_id: KDF_ID_ARGON2ID,
        kdf_params: KdfParams {
            time_cost: 3,
            memory_cost_kib: 65536,
            parallelism: 4,
        },
        salt: [1u8; SALT_LEN],
        nonce: [2u8; NONCE_LEN],
        filename: Some("secret.txt".to_string()),
        mode: Some(0o640),
        original_file_size: 12345,
        ciphertext_length: 12345,
    };

    let encoded = encode_header(&header);
    let (decoded, consumed) = decode_header(&encoded).unwrap();
    assert_eq!(consumed, encoded.len());
    assert_eq!(decoded.version, 2);
    assert_eq!(decoded.mode, Some(0o640));
    assert_eq!(decoded.filename, Some("secret.txt".to_string()));
}

#[test]
fn test_roundtrip_with_unicode_filename() {
    let header = make_test_header(Some("Geheime Datei.txt"));
    let encoded = encode_header(&header);

    let (decoded, _) = decode_header(&encoded).unwrap();
    assert_eq!(decoded.filename, Some("Geheime Datei.txt".to_string()));
}

#[test]
fn test_reject_invalid_magic() {
    let header = make_test_header(None);
    let mut encoded = encode_header(&header);
    encoded[0] = b'X'; // corrupt magic

    let result = decode_header(&encoded);
    assert!(matches!(result, Err(HeaderError::InvalidMagic)));
}

#[test]
fn test_reject_unsupported_version() {
    let header = make_test_header(None);
    let mut encoded = encode_header(&header);
    encoded[8] = 99; // unsupported version

    let result = decode_header(&encoded);
    assert!(matches!(result, Err(HeaderError::UnsupportedVersion(99))));
}

#[test]
fn test_reject_unsupported_kdf() {
    let header = make_test_header(None);
    let mut encoded = encode_header(&header);
    encoded[9] = 42; // unsupported KDF

    let result = decode_header(&encoded);
    assert!(matches!(result, Err(HeaderError::UnsupportedKdf(42))));
}

#[test]
fn test_reject_too_short() {
    let result = decode_header(&[0u8; 10]);
    assert!(matches!(result, Err(HeaderError::TooShort)));
}

#[test]
fn test_aad_length() {
    let header = make_test_header(None);
    let encoded = encode_header(&header);
    let aad = extract_aad(&encoded);
    assert_eq!(aad.len(), AAD_LENGTH);
    assert_eq!(aad.len(), 49);
    // AAD should start with magic
    assert_eq!(&aad[0..8], MAGIC);
}

#[test]
fn test_magic_bytes() {
    assert_eq!(MAGIC, b"GTKRYPT\0");
    assert_eq!(MAGIC.len(), 8);
}

#[test]
fn test_header_field_offsets() {
    let header = make_test_header(None);
    let encoded = encode_header(&header);

    // Verify field layout at expected offsets
    assert_eq!(&encoded[0..8], MAGIC); // magic
    assert_eq!(encoded[8], VERSION); // version
    assert_eq!(encoded[9], KDF_ID_ARGON2ID); // kdf_id
    assert_eq!(
        u32::from_be_bytes([encoded[10], encoded[11], encoded[12], encoded[13]]),
        3
    ); // time_cost
    assert_eq!(
        u32::from_be_bytes([encoded[14], encoded[15], encoded[16], encoded[17]]),
        65536
    ); // memory_cost
    assert_eq!(encoded[18], 4); // parallelism
    assert_eq!(encoded[19], 16); // salt_len
    assert_eq!(&encoded[20..36], &[1u8; 16]); // salt
    assert_eq!(encoded[36], 12); // nonce_len
    assert_eq!(&encoded[37..49], &[2u8; 12]); // nonce
    assert_eq!(u16::from_be_bytes([encoded[49], encoded[50]]), 0); // filename_len
}

#[test]
fn test_derive_chunk_nonce_index_zero() {
    let base_nonce = [0xAA; NONCE_LEN];
    let derived = derive_chunk_nonce(&base_nonce, 0);
    // XOR with 0 should leave the nonce unchanged
    assert_eq!(derived, base_nonce);
}

#[test]
fn test_derive_chunk_nonce_index_one() {
    let base_nonce = [0u8; NONCE_LEN];
    let derived = derive_chunk_nonce(&base_nonce, 1);
    // Only the last byte should be 1
    assert_eq!(derived[11], 1);
    assert_eq!(derived[8], 0);
    assert_eq!(derived[9], 0);
    assert_eq!(derived[10], 0);
}

#[test]
fn test_derive_chunk_nonce_different_indices_produce_different_nonces() {
    let base_nonce = [0x42; NONCE_LEN];
    let n0 = derive_chunk_nonce(&base_nonce, 0);
    let n1 = derive_chunk_nonce(&base_nonce, 1);
    let n2 = derive_chunk_nonce(&base_nonce, 2);
    assert_ne!(n0, n1);
    assert_ne!(n1, n2);
    assert_ne!(n0, n2);
}

#[test]
fn test_build_chunk_aad() {
    let header_aad = vec![0xAA; AAD_LENGTH];
    let aad = build_chunk_aad(&header_aad, 5);
    assert_eq!(aad.len(), AAD_LENGTH + 4);
    assert_eq!(&aad[..AAD_LENGTH], &header_aad[..]);
    assert_eq!(&aad[AAD_LENGTH..], &5u32.to_be_bytes());
}

#[test]
fn test_read_header_from_reader_no_filename() {
    let header = make_test_header(None);
    let encoded = encode_header(&header);
    // Append some extra bytes to simulate ciphertext following the header
    let mut data = encoded.clone();
    data.extend_from_slice(&[0u8; 100]);

    let mut reader = std::io::Cursor::new(data);
    let (decoded, consumed, raw) = read_header_from_reader(&mut reader).unwrap();
    assert_eq!(consumed, encoded.len());
    assert_eq!(raw.len(), encoded.len());
    assert_eq!(decoded.version, header.version);
    assert_eq!(decoded.ciphertext_length, header.ciphertext_length);
}

#[test]
fn test_read_header_from_reader_with_filename() {
    let header = make_test_header(Some("secret.txt"));
    let encoded = encode_header(&header);
    let mut data = encoded.clone();
    data.extend_from_slice(&[0u8; 100]);

    let mut reader = std::io::Cursor::new(data);
    let (decoded, consumed, _raw) = read_header_from_reader(&mut reader).unwrap();
    assert_eq!(consumed, encoded.len());
    assert_eq!(decoded.filename, Some("secret.txt".to_string()));
}

#[test]
fn test_constants_of_the_layout() {
    assert_eq!(VERSION, 2);
    assert_eq!(KDF_ID_ARGON2ID, 1);
    assert_eq!(SALT_LEN, 16);
    assert_eq!(NONCE_LEN, 12);
    assert_eq!(TAG_LEN, 16);
    assert_eq!(CHUNK_SIZE, 65536);
    assert_eq!(AAD_LENGTH, 49);
    assert_eq!(FIXED_HEADER_V1, 67);
    assert_eq!(FIXED_HEADER_V2, 71);
}

#[test]
fn test_encode_exact_bytes_v2() {
    let header = ContainerHeader {
        version: 2,
        kdf_id: 1,
        kdf_params: KdfParams { time_cost: 1, memory_cost_kib: 1024, parallelism: 1 },
        salt: [0x11; SALT_LEN],
        nonce: [0x22; NONCE_LEN],
        filename: Some("ab".to_string()),
        mode: Some(0o640),
        original_file_size: 0x0102_0304_0506_0708,
        ciphertext_length: 13,
    };
    let mut expected: Vec<u8> = Vec::new();
    expected.extend_from_slice(b"GTKRYPT\0");
    expected.extend_from_slice(&[2, 1]);
    expected.extend_from_slice(&[0, 0, 0, 1]);
    expected.extend_from_slice(&[0, 0, 4, 0]);
    expected.extend_from_slice(&[1, 16]);
    expected.extend_from_slice(&[0x11; 16]);
    expected.push(12);
    expected.extend_from_slice(&[0x22; 12]);
    expected.extend_from_slice(&[0, 2]);
    expected.extend_from_slice(b"ab");
    expected.extend_from_slice(&[0, 0, 0x01, 0xA0]);
    expected.extend_from_slice(&[1, 2, 3, 4, 5, 6, 7, 8]);
    expected.extend_from_slice(&[0, 0, 0, 0, 0, 0, 0, 13]);
    assert_eq!(encode_header(&header), expected);
    assert_eq!(expected.len(), 71 + 2);
}

#[test]
fn test_encode_v1_has_no_mode_field() {
    let mut header = make_test_header(None);
    header.version = 1;
    let encoded = encode_header(&header);
    assert_eq!(encoded.len(), 67);
    let (decoded, consumed) = decode_header(&encoded).unwrap();
    assert_eq!(consumed, 67);
    assert_eq!(decoded.version, 1);
    assert_eq!(decoded.mode, None);
    assert_eq!(decoded.original_file_size, 12345);
    assert_eq!(decoded.ciphertext_length, 12361);
}

#[test]
fn test_encode_v2_absent_mode_is_zero() {
    let mut header = make_test_header(None);
    header.mode = None;
    let encoded = encode_header(&header);
    assert_eq!(&encoded[51..55], &[0, 0, 0, 0]);
    let (decoded, _) = decode_header(&encoded).unwrap();
    assert_eq!(decoded.mode, Some(0));
}

#[test]
fn test_multibyte_filename_roundtrips_exactly() {
    let name = "gehëim-文件-🔒.txt";
    let header = make_test_header(Some(name));
    let encoded = encode_header(&header);
    assert_eq!(encoded.len(), 71 + name.len());
    assert_eq!(
        u16::from_be_bytes([encoded[49], encoded[50]]) as usize,
        name.len()
    );
    let (decoded, consumed) = decode_header(&encoded).unwrap();
    assert_eq!(consumed, encoded.len());
    assert_eq!(decoded.filename, Some(name.to_string()));
    assert_eq!(encode_header(&decoded), encoded);
}

#[test]
fn test_encoding_of_decoded_bytes_is_the_bytes() {
    let header = make_test_header(Some("x.bin"));
    let mut data = encode_header(&header);
    let header_len = data.len();
    data.extend_from_slice(&[0xEE; 33]);
    let (decoded, consumed) = decode_header(&data).unwrap();
    assert_eq!(consumed, header_len);
    assert_eq!(encode_header(&decoded), &data[..consumed]);
}

#[test]
fn test_reject_invalid_salt_length() {
    let mut encoded = encode_header(&make_test_header(None));
    encoded[19] = 15;
    assert!(matches!(
        decode_header(&encoded),
        Err(HeaderError::InvalidSaltLength(15))
    ));
}

#[test]
fn test_reject_invalid_nonce_length() {
    let mut encoded = encode_header(&make_test_header(None));
    encoded[36] = 13;
    assert!(matches!(
        decode_header(&encoded),
        Err(HeaderError::InvalidNonceLength(13))
    ));
}

#[test]
fn test_reject_invalid_filename() {
    let mut encoded = encode_header(&make_test_header(Some("abcd")));
    encoded[52] = 0xFF;
    assert!(matches!(
        decode_header(&encoded),
        Err(HeaderError::InvalidFilename)
    ));
}

#[test]
fn test_reject_filename_longer_than_the_data() {
    let mut encoded = encode_header(&make_test_header(None));
    encoded[49] = 0x03;
    encoded[50] = 0xE8;
    assert!(matches!(decode_header(&encoded), Err(HeaderError::TooShort)));
}

#[test]
fn test_reject_missing_size_fields() {
    let encoded = encode_header(&make_test_header(Some("name-that-is-long-enough")));
    let cut = &encoded[..encoded.len() - 1];
    assert!(cut.len() >= 67);
    assert!(matches!(decode_header(cut), Err(HeaderError::TooShort)));
}

#[test]
fn test_error_order_magic_before_version() {
    let mut encoded = encode_header(&make_test_header(None));
    encoded[0] = b'X';
    encoded[8] = 99;
    encoded[9] = 42;
    assert!(matches!(decode_header(&encoded), Err(HeaderError::InvalidMagic)));
}

#[test]
fn test_header_error_messages() {
    assert_eq!(
        HeaderError::TooShort.message(),
        "File is too short to contain a valid header"
    );
    assert_eq!(
        HeaderError::InvalidMagic.message(),
        "Not a gtkrypt file (invalid magic bytes)"
    );
    assert_eq!(
        HeaderError::UnsupportedVersion(99).message(),
        "Unsupported container version: 99"
    );
    assert_eq!(
        HeaderError::UnsupportedKdf(0).message(),
        "Unsupported KDF identifier: 0"
    );
    assert_eq!(
        HeaderError::InvalidSaltLength(255).message(),
        "Invalid salt length: 255 (expected 16)"
    );
    assert_eq!(
        HeaderError::InvalidNonceLength(10).message(),
        "Invalid nonce length: 10 (expected 12)"
    );
    assert_eq!(
        HeaderError::InvalidFilename.message(),
        "Filename is not valid UTF-8"
    );
}

#[test]
fn test_derive_chunk_nonce_xors_big_endian_counter() {
    let base_nonce: [u8; NONCE_LEN] = [1, 2, 3, 4, 5, 6, 7, 8, 0xF0, 0x0F, 0xAA, 0x55];
    let derived = derive_chunk_nonce(&base_nonce, 0x0102_0304);
    assert_eq!(
        derived,
        [1, 2, 3, 4, 5, 6, 7, 8, 0xF1, 0x0D, 0xA9, 0x51]
    );
    let last = derive_chunk_nonce(&base_nonce, u32::MAX);
    assert_eq!(last, [1, 2, 3, 4, 5, 6, 7, 8, 0x0F, 0xF0, 0x55, 0xAA]);
}

#[test]
fn test_build_chunk_aad_exact_bytes() {
    let aad = build_chunk_aad(&[9, 8, 7], 0x0A0B_0C0D);
    assert_eq!(aad, vec![9, 8, 7, 0x0A, 0x0B, 0x0C, 0x0D]);
}

#[test]
fn test_declared_header_size() {
    let v2 = encode_header(&make_test_header(Some("secret.txt")));
    assert_eq!(declared_header_size(&v2), 71 + 10);
    let mut v1 = make_test_header(Some("secret.txt"));
    v1.version = 1;
    let v1 = encode_header(&v1);
    assert_eq!(declared_header_size(&v1), 67 + 10);
}

#[test]
fn test_read_header_matches_decode_on_whole_streams() {
    let encoded = encode_header(&make_test_header(Some("a.txt")));
    let mut stream = encoded.clone();
    stream.extend_from_slice(&[7u8; 40]);
    let (header, consumed) = read_header(&stream).unwrap();
    assert_eq!(consumed, encoded.len());
    assert_eq!(header.filename, Some("a.txt".to_string()));
}

#[test]
fn test_read_header_short_stream_is_too_short_whatever_else_is_wrong() {
    let mut encoded = encode_header(&make_test_header(Some("a-long-file-name.txt")));
    encoded[0] = b'X';
    let cut = &encoded[..70];
    assert!(matches!(read_header(cut), Err(HeaderError::TooShort)));
    assert!(matches!(decode_header(cut), Err(HeaderError::InvalidMagic)));
    assert!(matches!(read_header(&encoded), Err(HeaderError::InvalidMagic)));
}

#[test]
fn test_read_header_from_reader_short_input() {
    let mut reader = std::io::Cursor::new(b"NOT_GTKRYPT_FILE_CONTENT".to_vec());
    assert!(matches!(
        read_header_from_reader(&mut reader),
        Err(HeaderError::TooShort)
    ));
    let encoded = encode_header(&make_test_header(Some("secret.txt")));
    let mut reader = std::io::Cursor::new(encoded[..75].to_vec());
    assert!(matches!(
        read_header_from_reader(&mut reader),
        Err(HeaderError::TooShort)
    ));
}

#[test]
fn test_read_header_from_reader_stops_at_the_header() {
    let encoded = encode_header(&make_test_header(Some("secret.txt")));
    let mut data = encoded.clone();
    data.extend_from_slice(&[0xAB; 5]);
    let mut reader = std::io::Cursor::new(data);
    let (_, consumed, raw) = read_header_from_reader(&mut reader).unwrap();
    assert_eq!(raw, encoded);
    assert_eq!(reader.position() as usize, consumed);
}

fn header_with_name_bytes(name: &[u8]) -> Vec<u8> {
    let mut encoded = encode_header(&make_test_header(None));
    let tail = encoded.split_off(51);
    encoded[49] = (name.len() >> 8) as u8;
    encoded[50] = (name.len() & 0xFF) as u8;
    encoded.extend_from_slice(name);
    encoded.extend_from_slice(&tail);
    encoded
}

#[test]
fn test_filename_bytes_that_are_not_utf8_are_rejected() {
    let ill_formed: [&[u8]; 7] = [
        &[0x80],
        &[0xC0, 0x80],
        &[0xC3],
        &[0xE0, 0x80, 0x80],
        &[0xED, 0xA0, 0x80],
        &[0xF4, 0x90, 0x80, 0x80],
        &[b'a', 0xFF, b'b'],
    ];
    for name in ill_formed {
        let encoded = header_with_name_bytes(name);
        assert!(matches!(
            decode_header(&encoded),
            Err(HeaderError::InvalidFilename)
        ));
    }
}

#[test]
fn test_filename_bytes_at_the_edges_of_utf8_are_accepted() {
    let well_formed: [&[u8]; 6] = [
        &[0x00],
        &[0x7F],
        &[0xC2, 0x80],
        &[0xED, 0x9F, 0xBF],
        &[0xEE, 0x80, 0x80],
        &[0xF4, 0x8F, 0xBF, 0xBF],
    ];
    for name in well_formed {
        let encoded = header_with_name_bytes(name);
        let (header, consumed) = decode_header(&encoded).unwrap();
        assert_eq!(consumed, encoded.len());
        assert_eq!(header.filename.unwrap().as_bytes(), name);
    }
}

#[test]
fn test_header_from_reads_joins_the_two_reads() {
    let encoded = encode_header(&make_test_header(Some("secret.txt")));
    let first = encoded[..67].to_vec();
    let rest = encoded[67..].to_vec();
    assert_eq!(rest.len(), 4 + 10);
    let (header, consumed, raw) = header_from_reads(Some(first), Some(rest)).unwrap();
    assert_eq!(consumed, 81);
    assert_eq!(raw, encoded);
    assert_eq!(header.filename, Some("secret.txt".to_string()));
    assert_eq!(header.mode, Some(0o600));
    assert_eq!(header.ciphertext_length, 12361);
}

#[test]
fn test_header_from_reads_needs_no_second_read_for_67_bytes() {
    let mut header = make_test_header(None);
    header.version = 1;
    let encoded = encode_header(&header);
    assert_eq!(encoded.len(), 67);
    let (decoded, consumed, raw) = header_from_reads(Some(encoded.clone()), None).unwrap();
    assert_eq!(consumed, 67);
    assert_eq!(raw, encoded);
    assert_eq!(decoded.version, 1);
    let (_, consumed, raw) =
        header_from_reads(Some(encoded.clone()), Some(vec![1, 2, 3])).unwrap();
    assert_eq!(consumed, 67);
    assert_eq!(raw, encoded);
}

#[test]
fn test_header_from_reads_is_too_short_where_a_read_gave_nothing() {
    let encoded = encode_header(&make_test_header(Some("secret.txt")));
    assert!(matches!(
        header_from_reads(None, None),
        Err(HeaderError::TooShort)
    ));
    assert!(matches!(
        header_from_reads(None, Some(encoded[67..].to_vec())),
        Err(HeaderError::TooShort)
    ));
    assert!(matches!(
        header_from_reads(Some(encoded[..67].to_vec()), None),
        Err(HeaderError::TooShort)
    ));
    assert!(matches!(
        header_from_reads(Some(encoded[..66].to_vec()), Some(encoded[66..].to_vec())),
        Err(HeaderError::TooShort)
    ));
    let mut bad_magic = encoded[..67].to_vec();
    bad_magic[0] = b'X';
    assert!(matches!(
        header_from_reads(Some(bad_magic.clone()), None),
        Err(HeaderError::TooShort)
    ));
    assert!(matches!(
        header_from_reads(Some(bad_magic), Some(encoded[67..].to_vec())),
        Err(HeaderError::InvalidMagic)
    ));
}

#[test]
fn test_header_from_reads_parses_what_was_read() {
    let encoded = encode_header(&make_test_header(Some("secret.txt")));
    let mut first = encoded[..67].to_vec();
    first[9] = 7;
    assert!(matches!(
        header_from_reads(Some(first), Some(encoded[67..].to_vec())),
        Err(HeaderError::UnsupportedKdf(7))
    ));
    let mut rest = encoded[67..].to_vec();
    rest.pop();
    assert!(matches!(
        header_from_reads(Some(encoded[..67].to_vec()), Some(rest)),
        Err(HeaderError::TooShort)
    ));
    let mut name = encoded.clone();
    name[51] = 0xFF;
    assert!(matches!(
        header_from_reads(Some(name[..67].to_vec()), Some(name[67..].to_vec())),
        Err(HeaderError::InvalidFilename)
    ));
}

#[test]
fn test_read_header_from_reader_returns_the_encoding_of_the_header() {
    let encoded = encode_header(&make_test_header(Some("secret.txt")));
    let mut data = encoded.clone();
    data.extend_from_slice(&[0x55; 9]);
    let mut reader = std::io::Cursor::new(data);
    let (header, consumed, raw) = read_header_from_reader(&mut reader).unwrap();
    assert_eq!(consumed, raw.len());
    assert_eq!(encode_header(&header), raw);
    let mut bad = encoded.clone();
    bad[8] = 9;
    let mut reader = std::io::Cursor::new(bad);
    assert!(matches!(
        read_header_from_reader(&mut reader),
        Err(HeaderError::UnsupportedVersion(9))
    ));
}
