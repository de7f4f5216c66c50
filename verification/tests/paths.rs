use mailviewer_kde::paths::{candidates_from, translation_candidates};

fn candidates(exe: &str) -> Vec<String> {
    translation_candidates(Some(exe))
}

#[test]
fn looks_under_the_prefix_it_was_installed_in() {
    assert!(candidates("/app/bin/mailviewer-kde")
        .contains(&"/app/share/mailviewer-kde/translations".to_string()));
    assert!(candidates("/usr/bin/mailviewer-kde")
        .contains(&"/usr/share/mailviewer-kde/translations".to_string()));
}

#[test]
fn looks_next_to_the_binary_first() {
    assert_eq!(
        candidates("/home/user/mailviewer-kde/target/release/mailviewer-kde")[0],
        "/home/user/mailviewer-kde/target/release/i18n".to_string()
    );
}

#[test]
fn looks_in_the_working_directory_last() {
    assert_eq!(translation_candidates(None), vec!["i18n".to_string()]);
    assert_eq!(
        candidates("/usr/bin/mailviewer-kde"),
        vec![
            "/usr/bin/i18n".to_string(),
            "/usr/share/mailviewer-kde/translations".to_string(),
            "i18n".to_string()
        ]
    );
}

#[test]
fn a_binary_at_the_root_has_no_prefix() {
    assert_eq!(candidates("/mailviewer-kde"), vec!["/i18n".to_string(), "i18n".to_string()]);
    assert_eq!(
        candidates("mailviewer-kde"),
        vec!["i18n".to_string(), "i18n".to_string()]
    );
    assert_eq!(candidates(""), vec!["i18n".to_string()]);
}

#[test]
fn joins_the_folders_it_is_given() {
    assert_eq!(
        candidates_from(Some("/opt/x/bin/"), Some("/opt/x")),
        vec![
            "/opt/x/bin/i18n".to_string(),
            "/opt/x/share/mailviewer-kde/translations".to_string(),
            "i18n".to_string()
        ]
    );
    assert_eq!(candidates_from(None, Some("/opt")), vec!["i18n".to_string()]);
}
