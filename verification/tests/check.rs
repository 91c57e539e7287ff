use typos_cli::policy::Policy;
use typos_lsp::check::{check_str, FoundTypo, LocatedTypo, TypoStatus};
use typos_lsp::diagnostics::{message_for, to_diagnostic, typo_diagnostics, Severity};
use typos_lsp::ignores::Ignores;

fn corrections(status: &TypoStatus) -> Vec<String> {
    match status {
        TypoStatus::Corrections(c) => c.clone(),
        _ => vec![],
    }
}

#[test]
fn check_finds_typos_at_positions() {
    let policy = Policy::default();
    let found = check_str("this is an apropriate test\nfo typos\n", &policy, &[]);
    assert_eq!(found.len(), 2);
    assert_eq!(found[0].typo.typo, "apropriate");
    assert_eq!((found[0].line_num, found[0].line_pos), (0, 11));
    assert_eq!(corrections(&found[0].typo.corrections), vec!["appropriate".to_string()]);
    assert_eq!(found[1].typo.typo, "fo");
    assert_eq!((found[1].line_num, found[1].line_pos), (1, 0));
}

#[test]
fn check_unicode_positions() {
    let policy = Policy::default();
    let found = check_str("¿Qué hace él?", &policy, &[]);
    assert_eq!(found.len(), 1);
    assert_eq!(found[0].typo.typo, "hace");
    assert_eq!((found[0].line_num, found[0].line_pos), (0, 5));
    let found = check_str("e\u{303} hace", &policy, &[]);
    assert_eq!((found[0].line_num, found[0].line_pos), (0, 3));
}

#[test]
fn check_skips_ignored_spans() {
    let policy = Policy::default();
    let found = check_str("apropriate\nfo typos\n", &policy, &["apro[a-z]+".to_string()]);
    assert_eq!(found.len(), 1);
    assert_eq!(found[0].typo.typo, "fo");
    // a pattern that does not compile hides nothing
    let found = check_str("apropriate", &policy, &["(".to_string()]);
    assert_eq!(found.len(), 1);
}

#[test]
fn diagnostics_for_typos() {
    let policy = Policy::default();
    let diags = typo_diagnostics(
        "this is an apropriate test\nfo typos\n",
        &policy,
        &[],
        Some(Severity::Warning),
    );
    assert_eq!(diags.len(), 2);
    assert_eq!(diags[0].message, "`apropriate` should be `appropriate`");
    assert_eq!((diags[0].line, diags[0].start_character, diags[0].end_character), (0, 11, 21));
    assert_eq!(diags[0].severity, Some(Severity::Warning));
    let data = diags[0].data.as_ref().unwrap();
    assert_eq!(data.typo, None);
    assert_eq!(data.corrections, vec!["appropriate".to_string()]);
    assert_eq!(diags[1].message, "`fo` should be `of`, `for`, `do`, `go`, `to`");
    assert_eq!((diags[1].line, diags[1].start_character, diags[1].end_character), (1, 0, 2));
}

#[test]
fn diagnostic_range_after_accented_letters() {
    let policy = Policy::default();
    let diags = typo_diagnostics("¿Qué hace él?", &policy, &[], None);
    assert_eq!(diags[0].message, "`hace` should be `have`");
    assert_eq!((diags[0].line, diags[0].start_character, diags[0].end_character), (0, 5, 9));
    assert_eq!(diags[0].severity, None);
}

#[test]
fn messages() {
    assert_eq!(message_for("teh", &TypoStatus::Invalid), "`teh` is disallowed");
    assert_eq!(
        message_for("fo", &TypoStatus::Corrections(vec!["of".to_string(), "for".to_string()])),
        "`fo` should be `of`, `for`"
    );
    assert_eq!(message_for("x", &TypoStatus::Corrections(vec![])), "`x` should be ");
}

#[test]
fn ignores_first_or_last_byte() {
    let ignores = Ignores::new(b"abc def ghi", &["def".to_string()]);
    assert!(ignores.is_ignored(4..7));
    assert!(ignores.is_ignored(2..5)); // last byte in the block
    assert!(ignores.is_ignored(6..9)); // first byte in the block
    assert!(!ignores.is_ignored(0..3));
    assert!(!ignores.is_ignored(8..11));
    // a span that covers the block without its first or last byte touching it
    assert!(!ignores.is_ignored(3..8));
    // an empty span at 0 checks byte 0 twice
    assert!(!ignores.is_ignored(0..0));
}

#[test]
fn ignores_nothing_in_invalid_utf8() {
    let ignores = Ignores::new(&[0xff, b'a', b'b'], &["ab".to_string()]);
    assert!(!ignores.is_ignored(1..3));
}

#[test]
fn diagnostic_end_counts_utf16_units() {
    let located = |typo: &str| LocatedTypo {
        typo: FoundTypo { byte_offset: 7, typo: typo.to_string(), corrections: TypoStatus::Invalid },
        line_num: 2,
        line_pos: 3,
    };
    let d = to_diagnostic(located("\u{e9}"), None);
    assert_eq!((d.line, d.start_character, d.end_character), (2, 3, 4));
    let d = to_diagnostic(located("a\u{1F600}b"), Some(Severity::Hint));
    assert_eq!(d.end_character, 7);
    assert_eq!(d.message, "`a\u{1F600}b` is disallowed");
    assert!(d.data.is_none());
}
