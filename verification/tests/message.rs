use mailviewer_kde::message::{attachment_label, Protection};

#[test]
fn says_how_a_message_is_protected() {
    assert_eq!(Protection::Encrypted.as_str(), "encrypted");
    assert_eq!(Protection::Signed.as_str(), "signed");
    assert_eq!(Protection::Unprotected.as_str(), "");
}

#[test]
fn lists_an_attachment_with_its_type_and_size() {
    assert_eq!(
        attachment_label("report.pdf", Some("application/pdf"), "1.2 MB"),
        "report.pdf  (application/pdf, 1.2 MB)"
    );
    assert_eq!(attachment_label("blob", None, "12 B"), "blob  (unknown, 12 B)");
}
