//! Quick fixes offered for the typo diagnostics of a document, and the command that
//! adds a typo to the ignored words of a configuration file.

use crate::diagnostics::{quoted, DiagnosticData};
use crate::ignores::texts_of;
use vstd::prelude::*;
use vstd::string::StringExecFns;

verus! {

/// Name of the command that ignores a typo in a configuration file.
pub const IGNORE_IN_PROJECT: &'static str = "ignore-in-project";

/// Source name of the diagnostics this server publishes.
pub const SOURCE: &'static str = "typos";

/// What a diagnostic sent back by the client carries as data.
pub enum DiagnosticPayload {
    /// The client kept no data.
    Missing,
    /// The data is not that of a typo diagnostic.
    Unreadable,
    Typo(DiagnosticData),
}

/// A diagnostic that the client asks quick fixes for.
pub struct ClientDiagnostic {
    /// Whether its source is this server (`typos`).
    pub from_typos: bool,
    pub payload: DiagnosticPayload,
}

/// The configuration files in which a typo of the document can be ignored: the one of
/// its workspace folder and, when the server was given one, the explicit one.
pub struct IgnoreTargets {
    pub project_config: String,
    pub explicit_config: Option<String>,
}

/// The arguments of the command that ignores `typo` in `config_file_path`.
pub struct IgnoreCommand {
    pub title: String,
    pub command: String,
    pub typo: String,
    pub config_file_path: String,
}

/// A quick fix for the diagnostic at index `diagnostic` of the request: either an edit
/// that replaces the diagnostic's range by `edit`, or a command.
pub struct CodeActionPlan {
    pub title: String,
    pub diagnostic: usize,
    pub edit: Option<String>,
    pub command: Option<IgnoreCommand>,
    pub is_preferred: Option<bool>,
}

pub struct CommandView {
    pub title: Seq<char>,
    pub command: Seq<char>,
    pub typo: Seq<char>,
    pub config_file_path: Seq<char>,
}

pub struct PlanView {
    pub title: Seq<char>,
    pub diagnostic: int,
    pub edit: Option<Seq<char>>,
    pub command: Option<CommandView>,
    pub is_preferred: Option<bool>,
}

impl View for IgnoreCommand {
    type V = CommandView;

    open spec fn view(&self) -> CommandView {
        CommandView {
            title: self.title@,
            command: self.command@,
            typo: self.typo@,
            config_file_path: self.config_file_path@,
        }
    }
}

impl View for CodeActionPlan {
    type V = PlanView;

    open spec fn view(&self) -> PlanView {
        PlanView {
            title: self.title@,
            diagnostic: self.diagnostic as int,
            edit: match self.edit {
                Some(e) => Some(e@),
                None => None,
            },
            command: match self.command {
                Some(c) => Some(c@),
                None => None,
            },
            is_preferred: self.is_preferred,
        }
    }
}

pub open spec fn plans_view(v: Seq<CodeActionPlan>) -> Seq<PlanView> {
    v.map_values(|p: CodeActionPlan| p@)
}

/// The fix that replaces the typo of diagnostic `i` by the correction `c`, preferred
/// when it is the only correction (`n` is their number).
pub open spec fn correction_plan(i: int, c: Seq<char>, n: nat) -> PlanView {
    PlanView {
        title: c,
        diagnostic: i,
        edit: Some(c),
        command: None,
        is_preferred: if n == 1 { Some(true) } else { None },
    }
}

/// The fix of diagnostic `i` that runs the ignore command for `typo` on `path`, titled
/// "Ignore `typo`" followed by `place`.
pub open spec fn ignore_plan(i: int, typo: Seq<char>, place: Seq<char>, path: Seq<char>) -> PlanView {
    let title = "Ignore "@ + quoted(typo) + place;
    PlanView {
        title,
        diagnostic: i,
        edit: None,
        command: Some(
            CommandView {
                title,
                command: IGNORE_IN_PROJECT@,
                typo,
                config_file_path: path,
            },
        ),
        is_preferred: None,
    }
}

/// The fixes offered for diagnostic `i`: nothing unless it comes from this server and
/// its data reads as a list of corrections; then one edit per correction, and, only
/// when the data also names the typo and the document has ignore targets, a command
/// that ignores the typo in the project's configuration file and, when there is one,
/// another for the explicit configuration file.
pub open spec fn plans_for(i: int, d: ClientDiagnostic, targets: Option<IgnoreTargets>) -> Seq<
    PlanView,
> {
    if !d.from_typos {
        Seq::empty()
    } else {
        match d.payload {
            DiagnosticPayload::Typo(data) => {
                let cs = texts_of(data.corrections@);
                Seq::new(cs.len(), |k: int| correction_plan(i, cs[k], cs.len())) + match (
                    targets,
                    data.typo,
                ) {
                    (Some(t), Some(typo)) => seq![
                        ignore_plan(i, typo@, " in the project"@, t.project_config@),
                    ] + match t.explicit_config {
                        Some(p) => seq![
                            ignore_plan(i, typo@, " in the configuration file"@, p@),
                        ],
                        None => Seq::empty(),
                    },
                    _ => Seq::empty(),
                }
            },
            _ => Seq::empty(),
        }
    }
}

/// The fixes offered for `diags`, diagnostic after diagnostic.
pub open spec fn planned(diags: Seq<ClientDiagnostic>, targets: Option<IgnoreTargets>) -> Seq<
    PlanView,
>
    decreases diags.len(),
{
    if diags.len() == 0 {
        Seq::empty()
    } else {
        planned(diags.drop_last(), targets) + plans_for(
            diags.len() - 1,
            diags.last(),
            targets,
        )
    }
}

fn ignore_fix(i: usize, typo: &String, place: &str, path: &String) -> (r: CodeActionPlan)
    ensures
        r@ == ignore_plan(i as int, typo@, place@, path@),
{
    let mut title = String::from_str("Ignore ");
    title.append("`");
    title.append(typo.as_str());
    title.append("`");
    title.append(place);
    assert(title@ =~= "Ignore "@ + quoted(typo@) + place@);
    let command = IgnoreCommand {
        title: title.clone(),
        command: String::from_str(IGNORE_IN_PROJECT),
        typo: typo.clone(),
        config_file_path: path.clone(),
    };
    CodeActionPlan { title, diagnostic: i, edit: None, command: Some(command), is_preferred: None }
}

/// The quick fixes for the diagnostics of a code action request (see `planned`).
pub fn plan_code_actions(diags: &Vec<ClientDiagnostic>, targets: &Option<IgnoreTargets>) -> (r: Vec<
    CodeActionPlan,
>)
    ensures
        plans_view(r@) == planned(diags@, *targets),
{
    let mut out: Vec<CodeActionPlan> = Vec::new();
    let mut i: usize = 0;
    while i < diags.len()
        invariant
            i <= diags@.len(),
            plans_view(out@) == planned(diags@.take(i as int), *targets),
        decreases diags@.len() - i,
    {
        let ghost before = plans_view(out@);
        proof {
            assert(diags@.take(i + 1).drop_last() =~= diags@.take(i as int));
            assert(diags@.take(i + 1).last() == diags@[i as int]);
        }
        let d = &diags[i];
        if d.from_typos {
            match &d.payload {
                DiagnosticPayload::Typo(data) => {
                    let cs = &data.corrections;
                    let n = cs.len();
                    let ghost cv = texts_of(cs@);
                    let mut k: usize = 0;
                    while k < n
                        invariant
                            k <= n,
                            n == cs@.len(),
                            cv == texts_of(cs@),
                            plans_view(out@) == before + Seq::new(
                                k as nat,
                                |j: int| correction_plan(i as int, cv[j], cv.len()),
                            ),
                        decreases n - k,
                    {
                        let c = cs[k].clone();
                        let e = cs[k].clone();
                        let preferred = if n == 1 {
                            Some(true)
                        } else {
                            None
                        };
                        let ghost prev = plans_view(out@);
                        out.push(
                            CodeActionPlan {
                                title: c,
                                diagnostic: i,
                                edit: Some(e),
                                command: None,
                                is_preferred: preferred,
                            },
                        );
                        assert(plans_view(out@) =~= prev.push(
                            correction_plan(i as int, cv[k as int], cv.len()),
                        ));
                        assert(plans_view(out@) =~= before + Seq::new(
                            (k + 1) as nat,
                            |j: int| correction_plan(i as int, cv[j], cv.len()),
                        ));
                        k = k + 1;
                    }
                    let ghost with_edits = plans_view(out@);
                    let ghost edits = Seq::new(
                        cv.len(),
                        |j: int| correction_plan(i as int, cv[j], cv.len()),
                    );
                    assert(with_edits =~= before + edits);
                    match (targets, &data.typo) {
                        (Some(t), Some(typo)) => {
                            let p = ignore_fix(i, typo, " in the project", &t.project_config);
                            let ghost pv = p@;
                            out.push(p);
                            assert(plans_view(out@) =~= with_edits.push(pv));
                            match &t.explicit_config {
                                Some(path) => {
                                    let q = ignore_fix(
                                        i,
                                        typo,
                                        " in the configuration file",
                                        path,
                                    );
                                    let ghost qv = q@;
                                    out.push(q);
                                    assert(plans_view(out@) =~= with_edits.push(pv).push(qv));
                                    assert(plans_view(out@) =~= with_edits + seq![pv] + seq![qv]);
                                },
                                None => {
                                    assert(plans_view(out@) =~= with_edits + seq![pv] + Seq::empty());
                                },
                            }
                        },
                        _ => {
                            assert(plans_view(out@) =~= with_edits + Seq::empty());
                        },
                    }
                    assert(plans_view(out@) =~= before + plans_for(i as int, diags@[i as int], *targets));
                },
                _ => {
                    assert(plans_view(out@) =~= before + plans_for(i as int, diags@[i as int], *targets));
                },
            }
        } else {
            assert(plans_view(out@) =~= before + plans_for(i as int, diags@[i as int], *targets));
        }
        i = i + 1;
    }
    assert(diags@.take(diags@.len() as int) =~= diags@);
    out
}

/// What to do with a command sent by the client.
pub enum CommandDecision {
    /// Ignore the typo in the configuration file.
    IgnoreInProject { typo: String, config_file_path: String },
    /// The ignore command came with arguments that could not be read.
    BadArguments,
    /// The ignore command came without arguments.
    NoArguments,
    /// A command this server does not know.
    Unknown,
}

/// Decides on the command `command`, whose first argument, if any, was read as the
/// arguments of the ignore command (`Some(None)` when it could not be read).
pub fn decide_command(command: &str, first_argument: Option<Option<(String, String)>>) -> (r:
    CommandDecision)
    ensures
        command@ != IGNORE_IN_PROJECT@ ==> r is Unknown,
        command@ == IGNORE_IN_PROJECT@ ==> match first_argument {
            None => r is NoArguments,
            Some(None) => r is BadArguments,
            Some(Some((typo, path))) => r == CommandDecision::IgnoreInProject {
                typo,
                config_file_path: path,
            },
        },
{
    if String::from_str(command) != String::from_str(IGNORE_IN_PROJECT) {
        return CommandDecision::Unknown;
    }
    match first_argument {
        None => CommandDecision::NoArguments,
        Some(None) => CommandDecision::BadArguments,
        Some(Some((typo, config_file_path))) => CommandDecision::IgnoreInProject {
            typo,
            config_file_path,
        },
    }
}

/// For a typo diagnostic, the fixes start with one edit per correction, in order, each
/// titled and replacing with that correction, preferred exactly when it is the only one.
pub proof fn law_edit_fixes(i: int, d: ClientDiagnostic, targets: Option<IgnoreTargets>, k: int)
    requires
        d.from_typos,
        d.payload is Typo,
        0 <= k < d.payload->Typo_0.corrections@.len(),
    ensures
        ({
            let cs = d.payload->Typo_0.corrections@;
            let p = plans_for(i, d, targets)[k];
            &&& p.title == cs[k]@
            &&& p.edit == Some(cs[k]@)
            &&& p.command is None
            &&& (p.is_preferred == Some(true)) == (cs.len() == 1)
            &&& p.is_preferred is Some ==> cs.len() == 1
        }),
{
    let cs = texts_of(d.payload->Typo_0.corrections@);
    assert(cs[k] == d.payload->Typo_0.corrections@[k]@);
}

/// Every fix offered for the diagnostic at index `i` refers to that diagnostic.
pub proof fn law_fixes_refer_to_their_diagnostic(i: int, d: ClientDiagnostic, targets: Option<IgnoreTargets>)
    ensures
        forall|k: int|
            0 <= k < plans_for(i, d, targets).len() ==> (#[trigger] plans_for(i, d, targets)[k]).diagnostic
                == i,
{
}

/// The fixes of a request point at its diagnostics, in order: every fix refers to one
/// of the diagnostics sent, and those for a diagnostic come after those for the ones
/// before it.
pub proof fn law_fixes_point_into_the_request(diags: Seq<ClientDiagnostic>, targets: Option<IgnoreTargets>)
    ensures
        forall|k: int|
            0 <= k < planned(diags, targets).len() ==> 0 <= (#[trigger] planned(diags, targets)[k]).diagnostic
                < diags.len(),
        forall|a: int, b: int|
            0 <= a < b < planned(diags, targets).len() ==> (#[trigger] planned(diags, targets)[a]).diagnostic
                <= (#[trigger] planned(diags, targets)[b]).diagnostic,
    decreases diags.len(),
{
    if diags.len() > 0 {
        let init = diags.drop_last();
        law_fixes_point_into_the_request(init, targets);
        let head = planned(init, targets);
        let tail = plans_for(diags.len() - 1, diags.last(), targets);
        law_fixes_refer_to_their_diagnostic(diags.len() - 1, diags.last(), targets);
        let all = planned(diags, targets);
        assert(all == head + tail);
        assert forall|k: int| 0 <= k < all.len() implies 0 <= (#[trigger] all[k]).diagnostic < diags.len() by {
            if k < head.len() {
                assert(all[k] == head[k]);
            } else {
                assert(all[k] == tail[k - head.len()]);
            }
        }
        assert forall|a: int, b: int| 0 <= a < b < all.len() implies (#[trigger] all[a]).diagnostic
            <= (#[trigger] all[b]).diagnostic by {
            if b < head.len() {
                assert(all[a] == head[a] && all[b] == head[b]);
            } else if a < head.len() {
                assert(all[a] == head[a]);
                assert(all[b] == tail[b - head.len()]);
            } else {
                assert(all[a] == tail[a - head.len()]);
                assert(all[b] == tail[b - head.len()]);
            }
        }
    }
}

} // verus!
