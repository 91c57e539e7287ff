use typos_lsp::diagnostics::Severity;
use typos_lsp::settings::{config_path, resolve_severity, severity_from_name};

#[test]
fn severity_names() {
    assert_eq!(severity_from_name("error"), Some(Severity::Error));
    assert_eq!(severity_from_name("warning"), Some(Severity::Warning));
    assert_eq!(severity_from_name("information"), Some(Severity::Information));
    assert_eq!(severity_from_name("info"), Some(Severity::Information));
    assert_eq!(severity_from_name("hint"), Some(Severity::Hint));
    assert_eq!(severity_from_name("Warning"), None);
    assert_eq!(severity_from_name(""), None);
}

#[test]
fn severity_resolution() {
    assert_eq!(resolve_severity(None, Some("Warning")), Severity::Warning);
    assert_eq!(resolve_severity(None, Some("HINT")), Severity::Hint);
    assert_eq!(resolve_severity(None, Some("bogus")), Severity::Information);
    assert_eq!(resolve_severity(None, None), Severity::Information);
    assert_eq!(resolve_severity(Some(Severity::Error), Some("bogus")), Severity::Error);
    assert_eq!(resolve_severity(Some(Severity::Error), Some("Info")), Severity::Information);
}

#[test]
fn config_path_expansion() {
    assert_eq!(config_path("/etc/typos.toml"), "/etc/typos.toml");
    assert_eq!(config_path("~user/typos.toml"), "~user/typos.toml");
    let expanded = config_path("~/typos.toml");
    assert!(expanded.ends_with("/typos.toml"));
    // the home directory takes the place of the tilde
    assert!(!expanded.starts_with('~'));
}
