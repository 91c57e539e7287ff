use typos_lsp::actions::{
    decide_command, plan_code_actions, ClientDiagnostic, CommandDecision, DiagnosticPayload,
    IgnoreTargets, IGNORE_IN_PROJECT,
};
use typos_lsp::diagnostics::DiagnosticData;

fn typo_diag(typo: &str, corrections: &[&str]) -> ClientDiagnostic {
    ClientDiagnostic {
        from_typos: true,
        payload: DiagnosticPayload::Typo(DiagnosticData {
            corrections: corrections.iter().map(|s| s.to_string()).collect(),
            typo: Some(typo.to_string()),
        }),
    }
}

fn corrections_only(corrections: &[&str]) -> ClientDiagnostic {
    ClientDiagnostic {
        from_typos: true,
        payload: DiagnosticPayload::Typo(DiagnosticData {
            corrections: corrections.iter().map(|s| s.to_string()).collect(),
            typo: None,
        }),
    }
}

#[test]
fn one_fix_per_correction() {
    let plans = plan_code_actions(&vec![typo_diag("fo", &["of", "for"])], &None);
    assert_eq!(plans.len(), 2);
    assert_eq!(plans[0].title, "of");
    assert_eq!(plans[0].edit.as_deref(), Some("of"));
    assert_eq!(plans[0].is_preferred, None);
    assert_eq!(plans[0].diagnostic, 0);
    assert!(plans[0].command.is_none());
    assert_eq!(plans[1].title, "for");
    assert_eq!(plans[1].edit.as_deref(), Some("for"));
}

#[test]
fn single_correction_is_preferred() {
    let plans = plan_code_actions(&vec![typo_diag("apropriate", &["appropriate"])], &None);
    assert_eq!(plans.len(), 1);
    assert_eq!(plans[0].title, "appropriate");
    assert_eq!(plans[0].is_preferred, Some(true));
}

#[test]
fn ignore_commands_when_targets_known() {
    let targets = Some(IgnoreTargets {
        project_config: "/work/typos.toml".to_string(),
        explicit_config: Some("/home/me/custom_typos.toml".to_string()),
    });
    let plans = plan_code_actions(&vec![typo_diag("fo", &["of"])], &targets);
    assert_eq!(plans.len(), 3);
    assert_eq!(plans[1].title, "Ignore `fo` in the project");
    let c = plans[1].command.as_ref().unwrap();
    assert_eq!(c.title, "Ignore `fo` in the project");
    assert_eq!(c.command, IGNORE_IN_PROJECT);
    assert_eq!(c.typo, "fo");
    assert_eq!(c.config_file_path, "/work/typos.toml");
    assert!(plans[1].edit.is_none());
    assert_eq!(plans[2].title, "Ignore `fo` in the configuration file");
    assert_eq!(plans[2].command.as_ref().unwrap().config_file_path, "/home/me/custom_typos.toml");
}

#[test]
fn corrections_alone_give_only_the_edits() {
    let targets = Some(IgnoreTargets {
        project_config: "/typos.toml".to_string(),
        explicit_config: None,
    });
    let plans = plan_code_actions(&vec![corrections_only(&["of", "for"])], &targets);
    assert_eq!(plans.len(), 2);
    assert_eq!(plans[0].title, "of");
    assert_eq!(plans[1].title, "for");
    assert!(plans.iter().all(|p| p.command.is_none() && p.is_preferred.is_none()));
    let plans = plan_code_actions(&vec![corrections_only(&["appropriate"])], &targets);
    assert_eq!(plans.len(), 1);
    assert_eq!(plans[0].edit.as_deref(), Some("appropriate"));
    assert_eq!(plans[0].is_preferred, Some(true));
}

#[test]
fn other_diagnostics_get_no_fix() {
    let diags = vec![
        ClientDiagnostic { from_typos: false, payload: DiagnosticPayload::Missing },
        ClientDiagnostic { from_typos: true, payload: DiagnosticPayload::Missing },
        ClientDiagnostic { from_typos: true, payload: DiagnosticPayload::Unreadable },
        typo_diag("fo", &["of"]),
    ];
    let plans = plan_code_actions(&diags, &None);
    assert_eq!(plans.len(), 1);
    assert_eq!(plans[0].diagnostic, 3);
}

#[test]
fn commands() {
    assert!(matches!(decide_command("other", None), CommandDecision::Unknown));
    assert!(matches!(decide_command(IGNORE_IN_PROJECT, None), CommandDecision::NoArguments));
    assert!(matches!(decide_command(IGNORE_IN_PROJECT, Some(None)), CommandDecision::BadArguments));
    match decide_command(
        "ignore-in-project",
        Some(Some(("fo".to_string(), "/work/typos.toml".to_string()))),
    ) {
        CommandDecision::IgnoreInProject { typo, config_file_path } => {
            assert_eq!(typo, "fo");
            assert_eq!(config_file_path, "/work/typos.toml");
        }
        _ => panic!("expected the ignore command"),
    }
}
