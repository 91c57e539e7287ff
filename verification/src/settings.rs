//! Settings that the client passes when it initializes the server: the severity of
//! the diagnostics and an explicit configuration file.

use crate::diagnostics::Severity;
use vstd::prelude::*;
use vstd::string::StringExecFns;

verus! {

/// The lower-case form of `s` as `str::to_lowercase` computes it.
pub uninterp spec fn lowercase_of(s: Seq<char>) -> Seq<char>;

/// Calls `str::to_lowercase`. Its result, a function of `s` alone given by Unicode's
/// case mapping, is named `lowercase_of`.
#[verifier::external_body]
fn to_lowercase(s: &str) -> (r: String)
    ensures
        r@ == lowercase_of(s@),
{
    s.to_lowercase()
}

/// The severity that a lower-case name stands for.
pub open spec fn severity_named(name: Seq<char>) -> Option<Severity> {
    if name == "error"@ {
        Some(Severity::Error)
    } else if name == "warning"@ {
        Some(Severity::Warning)
    } else if name == "information"@ || name == "info"@ {
        Some(Severity::Information)
    } else if name == "hint"@ {
        Some(Severity::Hint)
    } else {
        None
    }
}

/// The severity named by the lower-case `name`: `error`, `warning`, `information` or
/// `info`, `hint`; `None` for any other name.
pub fn severity_from_name(name: &str) -> (r: Option<Severity>)
    ensures
        r == severity_named(name@),
{
    let name = String::from_str(name);
    if name == String::from_str("error") {
        Some(Severity::Error)
    } else if name == String::from_str("warning") {
        Some(Severity::Warning)
    } else if name == String::from_str("information") || name == String::from_str("info") {
        Some(Severity::Information)
    } else if name == String::from_str("hint") {
        Some(Severity::Hint)
    } else {
        None
    }
}

/// The severity in force after initialization: the one that the `diagnosticSeverity`
/// setting names, compared without regard to case; else the severity already set;
/// else `Information`.
pub open spec fn resolved_severity(current: Option<Severity>, setting: Option<Seq<char>>) -> Severity {
    let named = match setting {
        Some(s) => severity_named(lowercase_of(s)),
        None => None,
    };
    match named {
        Some(v) => v,
        None => match current {
            Some(v) => v,
            None => Severity::Information,
        },
    }
}

/// The severity in force after initialization, given the severity already set and the
/// text of the `diagnosticSeverity` setting when the client sent one.
pub fn resolve_severity(current: Option<Severity>, setting: Option<&str>) -> (r: Severity)
    ensures
        r == resolved_severity(
            current,
            match setting {
                Some(s) => Some(s@),
                None => None,
            },
        ),
{
    let named = match setting {
        Some(s) => {
            let lowered = to_lowercase(s);
            severity_from_name(lowered.as_str())
        },
        None => None,
    };
    match named {
        Some(v) => v,
        None => match current {
            Some(v) => v,
            None => Severity::Information,
        },
    }
}

/// Whether `shellexpand::tilde` leaves `s` as it is whatever the home directory: when
/// `s` does not start with `~`, or when the `~` is followed by something other than a
/// path separator.
pub open spec fn tilde_keeps(s: Seq<char>) -> bool {
    s.len() == 0 || s[0] != '~' || (s.len() > 1 && s[1] != '/' && s[1] != '\\')
}

/// Calls `shellexpand::tilde`. Its source returns the input unchanged unless it is
/// `~` or starts with `~` and a separator; then it puts the home directory in place of
/// the `~` when one is known and returns the input unchanged otherwise. The home
/// directory comes from the environment and is not stated.
#[verifier::external_body]
fn expand_tilde(s: &str) -> (r: String)
    ensures
        tilde_keeps(s@) ==> r@ == s@,
        !tilde_keeps(s@) ==> r@ == s@ || exists|home: Seq<char>| r@ == home + s@.skip(1),
{
    shellexpand::tilde(s).to_string()
}

/// The path of the explicit configuration file given by the `config` setting, with a
/// leading `~` expanded to the home directory.
pub fn config_path(setting: &str) -> (r: String)
    ensures
        tilde_keeps(setting@) ==> r@ == setting@,
        !tilde_keeps(setting@) ==> r@ == setting@ || exists|home: Seq<char>|
            r@ == home + setting@.skip(1),
{
    expand_tilde(setting)
}

/// Without a recognised `diagnosticSeverity` setting and without a severity set before,
/// diagnostics are shown as information; a recognised setting wins over any earlier
/// severity, whatever the case of its letters.
pub proof fn law_severity(current: Option<Severity>, setting: Seq<char>)
    ensures
        resolved_severity(None, None) == Severity::Information,
        severity_named(lowercase_of(setting)) is Some ==> resolved_severity(current, Some(setting))
            == severity_named(lowercase_of(setting))->Some_0,
        severity_named(lowercase_of(setting)) is None ==> resolved_severity(current, Some(setting))
            == resolved_severity(current, None),
{
}

} // verus!
