use mailviewer_kde::decrypt::{gpg_error_code, outcome, reason, BlobSearch, DecryptError};

#[test]
fn reads_the_code_of_an_error_line() {
    assert_eq!(gpg_error_code("pkdecrypt_failed 67108875"), Some(11));
    assert_eq!(gpg_error_code("decrypt 17"), Some(17));
    assert_eq!(gpg_error_code("  decrypt\t  +65553 more"), Some(17));
    assert_eq!(gpg_error_code("decrypt"), None);
    assert_eq!(gpg_error_code("decrypt x11"), None);
    assert_eq!(gpg_error_code("decrypt 4294967296"), None);
    assert_eq!(gpg_error_code("decrypt 4294967295"), Some(65535));
}

#[test]
fn tells_a_wrong_passphrase() {
    let status = "[GNUPG:] ENC_TO 1111 18 0\n[GNUPG:] NO_SECKEY 1111\n[GNUPG:] ERROR pkdecrypt_failed 67108875\n";
    assert_eq!(reason(status), DecryptError::WrongPassphrase);
    assert_eq!(reason("[GNUPG:] BAD_PASSPHRASE 1111\n"), DecryptError::WrongPassphrase);
    assert_eq!(reason("[GNUPG:] MISSING_PASSPHRASE\n"), DecryptError::WrongPassphrase);
}

#[test]
fn tells_a_missing_private_key() {
    let status = "[GNUPG:] ENC_TO 1111 18 0\n[GNUPG:] NO_SECKEY 1111\n[GNUPG:] ERROR pkdecrypt_failed 67108881\n";
    assert_eq!(reason(status), DecryptError::NoSecretKey);
    assert_eq!(reason("[GNUPG:] NO_SECKEY 1111\r\n"), DecryptError::NoSecretKey);
    // A wrong passphrase further down still wins.
    assert_eq!(reason("[GNUPG:] NO_SECKEY 1\n[GNUPG:] BAD_PASSPHRASE 1\n"), DecryptError::WrongPassphrase);
}

#[test]
fn reads_only_the_lines_for_a_program() {
    assert_eq!(reason("gpg: BAD_PASSPHRASE\nNO_SECKEY\n"), DecryptError::Failed);
    assert_eq!(reason(""), DecryptError::Failed);
    assert_eq!(reason("[GNUPG:] DECRYPTION_FAILED\n"), DecryptError::Failed);
}

#[test]
fn gives_what_gpg_wrote_when_it_worked() {
    assert_eq!(outcome(true, true, b"inside".to_vec(), ""), Ok(b"inside".to_vec()));
    assert_eq!(outcome(false, true, b"inside".to_vec(), ""), Err(DecryptError::Failed));
    assert_eq!(outcome(true, true, vec![], ""), Err(DecryptError::Failed));
    assert_eq!(
        outcome(true, false, b"partial".to_vec(), "[GNUPG:] BAD_PASSPHRASE 1\n"),
        Err(DecryptError::WrongPassphrase)
    );
}

#[test]
fn has_a_word_for_each_error() {
    assert_eq!(DecryptError::WrongPassphrase.as_str(), "wrong-passphrase");
    assert_eq!(DecryptError::NoSecretKey.as_str(), "no-secret-key");
    assert_eq!(DecryptError::NotEncrypted.as_str(), "not-encrypted");
    assert_eq!(DecryptError::Failed.as_str(), "failed");
}

#[test]
fn takes_the_first_part_that_gives_a_block() {
    let mut s = BlobSearch::new();
    assert!(s.wants_more());
    s.offer(None);
    assert!(s.wants_more());
    s.offer(Some(b"first".to_vec()));
    assert!(!s.wants_more());
    s.offer(Some(b"second".to_vec()));
    assert_eq!(s.finish(b"-----BEGIN PGP MESSAGE-----".to_vec()), Some(b"first".to_vec()));
}

#[test]
fn falls_back_to_an_armored_body() {
    let inline = b"Subject: x\r\n\r\n-----BEGIN PGP MESSAGE-----\r\nhQ\r\n-----END PGP MESSAGE-----\r\n".to_vec();
    assert_eq!(BlobSearch::new().finish(inline.clone()), Some(inline));
    assert_eq!(BlobSearch::new().finish(b"-----BEGIN PGP MESSAGE----".to_vec()), None);
    assert_eq!(BlobSearch::new().finish(b"-----BEGIN PGP MESSAGE-----".to_vec()), Some(b"-----BEGIN PGP MESSAGE-----".to_vec()));
    assert_eq!(BlobSearch::new().finish(vec![]), None);
}
