use mailviewer_kde::keys::{
    describe, expiry_seconds, fingerprints, gpg_failure, is_fingerprint, parse_keys, unescape,
    GpgTask, Key, KeyStore,
};

const LISTING: &str = "\
tru::1:1756000000:0:3:1:5
pub:u:255:22:72C4B10FD93E3587:1756000000:1787536000::u:::scESC::::::ed25519:::0:
fpr:::::::::DFE39FADAAF511D7A38D4DD272C4B10FD93E3587:
uid:u::::1756000000::AAAA::MailViewer Test <test\\x3aexample.com>::::::::::0:
sub:u:255:18:1111111111111111:1756000000:::::e::::::cv25519::
pub:-:255:22:BBBBBBBBBBBBBBBB:1756000000:::-:::scESC::::::ed25519:::0:
fpr:::::::::AAAABBBBCCCCDDDDEEEEFFFF00001111222233334:
uid:-::::1756000000::BBBB::Someone Else <else@example.com>::::::::::0:
";

#[test]
fn reads_the_listing_of_gpg() {
    let keys = parse_keys(LISTING);

    assert_eq!(keys.len(), 2);
    assert_eq!(keys[0].fingerprint, "DFE39FADAAF511D7A38D4DD272C4B10FD93E3587");
    assert_eq!(keys[0].user, "MailViewer Test <test:example.com>");
    assert_eq!(keys[0].expires, "1787536000");
    assert_eq!(keys[1].user, "Someone Else <else@example.com>");
    assert_eq!(keys[1].expires, "");
}

#[test]
fn only_takes_a_real_fingerprint() {
    assert!(is_fingerprint("DFE39FADAAF511D7A38D4DD272C4B10FD93E3587"));
    assert!(!is_fingerprint("DFE39FAD"));
    // The one that matters: nothing that could reach the command line.
    assert!(!is_fingerprint("DFE39FADAAF511D7A38D4DD272C4B10FD93E358 --delete"));
}

#[test]
fn a_fingerprint_is_counted_in_bytes_and_takes_both_cases() {
    assert!(is_fingerprint("dfe39fadaaf511d7a38d4dd272c4b10fd93e3587"));
    assert!(!is_fingerprint("DFE39FADAAF511D7A38D4DD272C4B10FD93E358G"));
    // Forty characters, but not forty bytes.
    assert!(!is_fingerprint("DFE39FADAAF511D7A38D4DD272C4B10FD93E358é"));
    assert!(!is_fingerprint(""));
}

#[test]
fn keeps_only_the_first_fingerprint_and_user_of_a_key() {
    let listing = "sec:u:255:22:X:1:99:\nfpr:::::::::AAAA:\nfpr:::::::::BBBB:\nuid:::::::::First:\nuid:::::::::Second:\n";
    let keys = parse_keys(listing);
    assert_eq!(keys.len(), 1);
    assert_eq!(keys[0].fingerprint, "AAAA");
    assert_eq!(keys[0].user, "First");
    assert_eq!(keys[0].expires, "99");
    assert!(!keys[0].secret);
}

#[test]
fn drops_a_key_without_a_fingerprint() {
    let listing = "pub:u:255:22:X:1:::\nuid:::::::::Nobody:\npub:u:255:22:Y:1:::\r\nfpr:::::::::CCCC:\r\n";
    let keys = parse_keys(listing);
    assert_eq!(keys.len(), 1);
    assert_eq!(keys[0].fingerprint, "CCCC");
    assert_eq!(keys[0].user, "");
}

#[test]
fn records_before_any_key_change_nothing() {
    assert!(parse_keys("fpr:::::::::AAAA:\nuid:::::::::Someone:\n").is_empty());
    assert!(parse_keys("").is_empty());
}

#[test]
fn puts_escapes_back() {
    assert_eq!(unescape("a\\x3ab"), "a:b");
    assert_eq!(unescape("\\x41\\x62"), "Ab");
    // Not two hexadecimal digits: left as it is.
    assert_eq!(unescape("\\xZZ"), "\\xZZ");
    assert_eq!(unescape("end\\x4"), "end\\x4");
    assert_eq!(unescape("end\\x"), "end\\x");
    // What the standard library reads as a number in base 16, a sign included.
    assert_eq!(unescape("\\x+a"), "\n");
    // A byte above 127 is the character of that code.
    assert_eq!(unescape("\\xe9"), "é");
    assert_eq!(unescape("plain text"), "plain text");
}

#[test]
fn takes_the_fingerprints_of_a_listing() {
    assert_eq!(
        fingerprints(LISTING),
        vec![
            "DFE39FADAAF511D7A38D4DD272C4B10FD93E3587".to_string(),
            "AAAABBBBCCCCDDDDEEEEFFFF00001111222233334".to_string()
        ]
    );
}

#[test]
fn marks_the_keys_whose_private_half_is_here() {
    let store = KeyStore::open("/data");
    let secret = "sec:u:255:22:X:1:::\nfpr:::::::::AAAABBBBCCCCDDDDEEEEFFFF00001111222233334:\n";
    let keys = store.list(LISTING, secret);
    assert_eq!(keys.len(), 2);
    assert!(!keys[0].secret);
    assert!(keys[1].secret);
    assert_eq!(keys[1].user, "Someone Else <else@example.com>");
    assert!(store.list("", secret).is_empty());
}

#[test]
fn the_keyring_lives_in_the_data_folder() {
    assert_eq!(KeyStore::open("/home/user/.local/share/app").home(), "/home/user/.local/share/app/gnupg");
    assert_eq!(KeyStore::open("/data/").home(), "/data/gnupg");
    assert_eq!(KeyStore::open("").home(), "gnupg");
    assert!(!KeyStore::open("/home/user").home().ends_with(".gnupg"));
}

fn args(inv: &mailviewer_kde::keys::Invocation) -> Vec<&str> {
    inv.arguments.iter().map(|a| a.as_str()).collect()
}

#[test]
fn every_command_names_the_keyring() {
    let store = KeyStore::open("/data");
    let tasks = vec![
        GpgTask::ListKeys,
        GpgTask::ListSecretKeys,
        GpgTask::Import("/tmp/key.asc".to_string()),
        GpgTask::DeleteSecretKeys("F".to_string()),
        GpgTask::DeleteKeys("F".to_string()),
        GpgTask::Decrypt("/tmp/m.asc".to_string()),
        GpgTask::StopAgent,
    ];
    for task in &tasks {
        let inv = store.invocation(task);
        assert_eq!(args(&inv)[0], "--homedir");
        assert_eq!(args(&inv)[1], "/data/gnupg");
    }
}

#[test]
fn builds_the_commands_gpg_is_given() {
    let store = KeyStore::open("/data");
    let list = store.invocation(&GpgTask::ListKeys);
    assert_eq!(list.program, "gpg");
    assert_eq!(
        args(&list),
        vec!["--homedir", "/data/gnupg", "--batch", "--no-tty", "--quiet", "--with-colons", "--list-keys"]
    );
    let secret = store.invocation(&GpgTask::ListSecretKeys);
    assert_eq!(args(&secret)[6], "--list-secret-keys");
    let import = store.invocation(&GpgTask::Import("k.asc".to_string()));
    assert_eq!(args(&import)[5..].to_vec(), vec!["--import", "k.asc"]);
    let decrypt = store.invocation(&GpgTask::Decrypt("c.asc".to_string()));
    assert_eq!(
        args(&decrypt),
        vec![
            "--homedir", "/data/gnupg", "--batch", "--quiet", "--no-tty", "--pinentry-mode",
            "loopback", "--passphrase-fd", "0", "--status-fd", "2", "--decrypt", "c.asc"
        ]
    );
    let stop = store.invocation(&GpgTask::StopAgent);
    assert_eq!(stop.program, "gpgconf");
    assert_eq!(args(&stop), vec!["--homedir", "/data/gnupg", "--kill", "all"]);
}

#[test]
fn removes_the_private_half_first() {
    let store = KeyStore::open("/data");
    let fp = "DFE39FADAAF511D7A38D4DD272C4B10FD93E3587";
    let (secret, public) = match store.remove(fp) {
        Ok(pair) => pair,
        Err(e) => panic!("refused a fingerprint: {e}"),
    };
    assert_eq!(args(&secret)[5..].to_vec(), vec!["--batch", "--yes", "--delete-secret-keys", fp]);
    assert_eq!(args(&public)[5..].to_vec(), vec!["--batch", "--yes", "--delete-keys", fp]);
}

#[test]
fn refuses_to_remove_what_is_not_a_fingerprint() {
    let store = KeyStore::open("/data");
    match store.remove("DFE39FADAAF511D7A38D4DD272C4B10FD93E358 --delete") {
        Ok(_) => panic!("took something that is not a fingerprint"),
        Err(e) => assert_eq!(e, "not a fingerprint"),
    }
}

#[test]
fn says_what_gpg_said_last() {
    assert_eq!(gpg_failure("gpg: first\ngpg: keyblock resource: No such file  \r\n"), "gpg: keyblock resource: No such file");
    assert_eq!(gpg_failure("  only line\t"), "only line");
    assert_eq!(gpg_failure(""), "gpg failed");
}

fn key(user: &str, secret: bool, expires: &str) -> Key {
    Key {
        fingerprint: "DFE39FADAAF511D7A38D4DD272C4B10FD93E3587".to_string(),
        user: user.to_string(),
        secret,
        expires: expires.to_string(),
    }
}

#[test]
fn shows_a_key_with_its_notes() {
    assert_eq!(
        describe(&key("MailViewer Test <test@example.com>", true, "1798761600"), Some("2027-01-01")),
        "MailViewer Test <test@example.com>  (private key, expires 2027-01-01)"
    );
    assert_eq!(describe(&key("Someone", false, ""), None), "Someone");
    assert_eq!(describe(&key("Someone", false, "1"), None), "Someone  (expires)");
    assert_eq!(describe(&key("Someone", true, ""), None), "Someone  (private key)");
    assert_eq!(describe(&key("", false, ""), None), "DFE39FADAAF511D7A38D4DD272C4B10FD93E3587");
}

#[test]
fn reads_the_expiry_as_seconds() {
    assert_eq!(expiry_seconds("1787536000"), Some(1787536000));
    assert_eq!(expiry_seconds("-5"), Some(-5));
    assert_eq!(expiry_seconds("+5"), Some(5));
    assert_eq!(expiry_seconds("-9223372036854775808"), Some(i64::MIN));
    assert_eq!(expiry_seconds("9223372036854775807"), Some(i64::MAX));
    assert_eq!(expiry_seconds("9223372036854775808"), None);
    assert_eq!(expiry_seconds(""), None);
    assert_eq!(expiry_seconds("-"), None);
    assert_eq!(expiry_seconds("12a"), None);
}
