use mailviewer_kde::signature::{
    describe, summary, Reason, Signature, SignatureCollector, GREEN, KEY_EXPIRED, KEY_MISSING,
    KEY_REVOKED, RED, SIG_EXPIRED, SYS_ERROR,
};

fn who() -> String {
    "MailViewer Test <test@example.com>".to_string()
}

#[test]
fn an_empty_status_is_a_signature_from_an_uncertified_key() {
    assert_eq!(Signature::from_status(0, who()), Signature::GoodUnknownKey { who: who() });
    assert_eq!(Signature::from_status(GREEN, who()), Signature::Good { who: who() });
}

#[test]
fn a_missing_key_comes_before_anything_else() {
    assert_eq!(Signature::from_status(KEY_MISSING | RED | GREEN, who()), Signature::NoKey { who: who() });
    assert_eq!(Signature::from_status(-1, who()), Signature::NoKey { who: who() });
}

#[test]
fn each_bit_gives_its_reason() {
    assert_eq!(Signature::from_status(RED | GREEN, who()), Signature::Bad { why: Reason::Changed });
    assert_eq!(Signature::from_status(KEY_REVOKED | KEY_EXPIRED, who()), Signature::Bad { why: Reason::KeyRevoked });
    assert_eq!(Signature::from_status(KEY_EXPIRED, who()), Signature::Bad { why: Reason::KeyExpired });
    assert_eq!(Signature::from_status(SIG_EXPIRED | SYS_ERROR, who()), Signature::Bad { why: Reason::SignatureExpired });
    assert_eq!(Signature::from_status(SYS_ERROR | GREEN, who()), Signature::Bad { why: Reason::GpgError });
    // Bits nothing reads change nothing.
    assert_eq!(Signature::from_status(1 | 8 | 256, who()), Signature::GoodUnknownKey { who: who() });
}

#[test]
fn says_it_in_words_for_the_window() {
    assert_eq!(Signature::Good { who: who() }.status(), "good");
    assert_eq!(Signature::GoodUnknownKey { who: who() }.status(), "good-untrusted");
    assert_eq!(Signature::NoKey { who: who() }.status(), "no-key");
    assert_eq!(Signature::Bad { why: Reason::Changed }.status(), "bad");
    assert_eq!(Signature::NoKey { who: who() }.detail(), who());
    assert_eq!(Signature::Bad { why: Reason::KeyRevoked }.detail(), "key-revoked");
    assert_eq!(Reason::Changed.as_str(), "changed");
    assert_eq!(Reason::KeyExpired.as_str(), "key-expired");
    assert_eq!(Reason::SignatureExpired.as_str(), "signature-expired");
    assert_eq!(Reason::GpgError.as_str(), "gpg-error");
}

#[test]
fn names_who_signed() {
    assert_eq!(describe("MailViewer Test", "test@example.com", "DFE3"), "MailViewer Test <test@example.com>");
    assert_eq!(describe("MailViewer Test", "", "DFE3"), "MailViewer Test");
    assert_eq!(describe("", "test@example.com", "DFE3"), "test@example.com");
    assert_eq!(describe("", "", "DFE3"), "DFE3");
    assert_eq!(describe("", "", ""), "");
}

#[test]
fn gathers_the_signatures_of_every_signed_part() {
    let mut c = SignatureCollector::new();
    assert!(c.wants_more());
    c.take(Ok(vec![Some((0, who())), None, Some((RED, who()))]));
    c.take(Ok(vec![]));
    c.take(Ok(vec![Some((KEY_MISSING, "else".to_string()))]));
    let found = c.finish().unwrap();
    assert_eq!(
        found,
        vec![
            Signature::GoodUnknownKey { who: who() },
            Signature::Bad { why: Reason::Changed },
            Signature::NoKey { who: "else".to_string() },
        ]
    );
}

#[test]
fn a_failed_part_decides_the_message() {
    let mut c = SignatureCollector::new();
    c.take(Ok(vec![Some((GREEN, who()))]));
    c.take(Err("gpg went away".to_string()));
    assert!(!c.wants_more());
    c.take(Ok(vec![Some((GREEN, who()))]));
    c.take(Err("later".to_string()));
    assert_eq!(c.finish(), Err("gpg went away".to_string()));
}

#[test]
fn says_nothing_about_a_message_without_a_signature() {
    assert_eq!(SignatureCollector::new().finish(), Ok(vec![]));
}

#[test]
fn sums_it_up_for_the_window() {
    assert_eq!(summary(&Ok(vec![])), ("none".to_string(), String::new()));
    assert_eq!(
        summary(&Ok(vec![Signature::Good { who: who() }, Signature::Bad { why: Reason::Changed }])),
        ("good".to_string(), who())
    );
    assert_eq!(
        summary(&Ok(vec![Signature::Bad { why: Reason::KeyExpired }])),
        ("bad".to_string(), "key-expired".to_string())
    );
    assert_eq!(summary(&Err("no message found".to_string())), ("error".to_string(), "no message found".to_string()));
}
