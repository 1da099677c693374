use gtkrypt_crypto::keymaterial::{
    build_key_material, keyfile_digest, passphrase_from_line, MAX_KEYFILE_SIZE,
};

fn hex(bytes: &[u8]) -> String {
    let mut out = String::new();
    for b in bytes {
        out.push_str(&format!("{:02x}", b));
    }
    out
}

#[test]
fn test_passphrase_trimming() {
    let line = "my_passphrase\n".to_string();
    assert_eq!(passphrase_from_line(line).unwrap(), "my_passphrase");
}

#[test]
fn test_passphrase_crlf_trimming() {
    let line = "my_passphrase\r\n".to_string();
    assert_eq!(passphrase_from_line(line).unwrap(), "my_passphrase");
}

#[test]
fn test_passphrase_without_line_end_is_kept() {
    assert_eq!(passphrase_from_line("secret".to_string()).unwrap(), "secret");
    assert_eq!(passphrase_from_line("secret\r".to_string()).unwrap(), "secret\r");
}

#[test]
fn test_only_one_line_end_is_stripped() {
    assert_eq!(passphrase_from_line("secret\n\n".to_string()).unwrap(), "secret\n");
    assert_eq!(
        passphrase_from_line("secret\r\r\n".to_string()).unwrap(),
        "secret\r"
    );
    assert_eq!(passphrase_from_line(" pw \n".to_string()).unwrap(), " pw ");
    assert_eq!(passphrase_from_line("pässwörd\r\n".to_string()).unwrap(), "pässwörd");
}

#[test]
fn test_empty_passphrase_is_rejected() {
    assert_eq!(
        passphrase_from_line(String::new()).unwrap_err(),
        "Passphrase is empty"
    );
    assert_eq!(
        passphrase_from_line("\n".to_string()).unwrap_err(),
        "Passphrase is empty"
    );
    assert_eq!(
        passphrase_from_line("\r\n".to_string()).unwrap_err(),
        "Passphrase is empty"
    );
}

#[test]
fn test_keyfile_digest_is_sha256() {
    assert_eq!(
        hex(&keyfile_digest(b"")),
        "e3b0c44298fc1c149afbf4c8996fb92427ae41e4649b934ca495991b7852b855"
    );
    assert_eq!(
        hex(&keyfile_digest(b"abc")),
        "ba7816bf8f01cfea414140de5dae2223b00361a396177a9cb410ff61f20015ad"
    );
}

#[test]
fn test_keyfile_digest_covers_the_first_64_kib_only() {
    let mut keyfile = vec![0x61u8; MAX_KEYFILE_SIZE];
    let exact = keyfile_digest(&keyfile);
    keyfile.extend_from_slice(b"more bytes that are not read");
    assert_eq!(keyfile_digest(&keyfile), exact);
    keyfile[MAX_KEYFILE_SIZE - 1] = 0x62;
    assert_ne!(keyfile_digest(&keyfile), exact);
    assert_ne!(keyfile_digest(&[0x61u8; 65535]), exact);
}

#[test]
fn test_key_material_without_keyfile_is_the_passphrase() {
    assert_eq!(build_key_material("pässword", &None), "pässword".as_bytes());
}

#[test]
fn test_key_material_with_keyfile_appends_the_digest() {
    let material = build_key_material("pw", &Some(b"abc".to_vec()));
    assert_eq!(material.len(), 2 + 32);
    assert_eq!(&material[..2], b"pw");
    assert_eq!(
        hex(&material[2..]),
        "ba7816bf8f01cfea414140de5dae2223b00361a396177a9cb410ff61f20015ad"
    );
}
