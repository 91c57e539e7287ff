//! Workspace folders, the routes that map file paths to the typos configuration of the
//! folder that holds them, and the choice of the policy used for a document.

use crate::ignores::texts_of;
use vstd::prelude::*;
use vstd::string::StringExecFns;

verus! {

/// A workspace folder of the client.
pub struct WorkspaceFolder {
    pub uri: String,
    pub name: String,
}

pub open spec fn folder_view(f: WorkspaceFolder) -> (Seq<char>, Seq<char>) {
    (f.uri@, f.name@)
}

pub open spec fn folders_view(v: Seq<WorkspaceFolder>) -> Seq<(Seq<char>, Seq<char>)> {
    v.map_values(|f: WorkspaceFolder| folder_view(f))
}

/// The folders of `s`, in order, that are not in `removed`.
pub open spec fn without(s: Seq<(Seq<char>, Seq<char>)>, removed: Seq<(Seq<char>, Seq<char>)>) -> Seq<
    (Seq<char>, Seq<char>),
>
    decreases s.len(),
{
    if s.len() == 0 {
        Seq::empty()
    } else {
        without(s.drop_last(), removed) + if removed.contains(s.last()) {
            Seq::empty()
        } else {
            seq![s.last()]
        }
    }
}

/// Whether two folders have the same URI and name.
pub fn same_folder(a: &WorkspaceFolder, b: &WorkspaceFolder) -> (r: bool)
    ensures
        r == (folder_view(*a) == folder_view(*b)),
{
    a.uri == b.uri && a.name == b.name
}

fn is_removed(f: &WorkspaceFolder, removed: &Vec<WorkspaceFolder>) -> (r: bool)
    ensures
        r == folders_view(removed@).contains(folder_view(*f)),
{
    let mut k: usize = 0;
    while k < removed.len()
        invariant
            k <= removed@.len(),
            forall|j: int| 0 <= j < k ==> folder_view(removed@[j]) != folder_view(*f),
        decreases removed@.len() - k,
    {
        if same_folder(&removed[k], f) {
            assert(folders_view(removed@)[k as int] == folder_view(*f));
            return true;
        }
        k = k + 1;
    }
    assert forall|j: int| 0 <= j < folders_view(removed@).len() implies folders_view(removed@)[j]
        != folder_view(*f) by {
        assert(folders_view(removed@)[j] == folder_view(removed@[j]));
    }
    false
}

/// Adds the folders `added` after the current ones, then drops every folder equal to
/// one of `removed`.
pub fn update_workspace_folders(
    folders: &mut Vec<WorkspaceFolder>,
    added: Vec<WorkspaceFolder>,
    removed: &Vec<WorkspaceFolder>,
)
    ensures
        folders_view(final(folders)@) == without(
            folders_view(old(folders)@) + folders_view(added@),
            folders_view(removed@),
        ),
{
    let ghost all = folders_view(folders@) + folders_view(added@);
    let mut current: Vec<WorkspaceFolder> = Vec::new();
    std::mem::swap(&mut current, folders);
    let mut added = added;
    current.append(&mut added);
    assert(folders_view(current@) =~= all);
    let n = current.len();
    let mut rev: Vec<WorkspaceFolder> = Vec::new();
    while current.len() > 0
        invariant
            current@.len() + rev@.len() == n,
            n == all.len(),
            folders_view(current@) == all.take(current@.len() as int),
            forall|j: int| 0 <= j < rev@.len() ==> folder_view(#[trigger] rev@[j]) == all[n - 1 - j],
        decreases current@.len(),
    {
        let ghost cur = current@;
        let f = current.pop().unwrap();
        assert(folders_view(cur)[cur.len() - 1] == folder_view(cur[cur.len() - 1]));
        assert(folder_view(f) == all[current@.len() as int]);
        rev.push(f);
        assert(folders_view(current@) =~= all.take(current@.len() as int));
    }
    let mut i: usize = 0;
    while i < n
        invariant
            i <= n,
            n == all.len(),
            rev@.len() == n - i,
            forall|j: int| 0 <= j < rev@.len() ==> folder_view(#[trigger] rev@[j]) == all[n - 1 - j],
            folders_view(folders@) == without(all.take(i as int), folders_view(removed@)),
        decreases n - i,
    {
        let f = rev.pop().unwrap();
        assert(folder_view(f) == all[i as int]);
        proof {
            assert(all.take(i + 1).drop_last() =~= all.take(i as int));
        }
        if !is_removed(&f, removed) {
            let ghost before = folders_view(folders@);
            folders.push(f);
            assert(folders_view(folders@) =~= before + seq![all[i as int]]);
        } else {
            assert(without(all.take(i + 1), folders_view(removed@)) =~= without(
                all.take(i as int),
                folders_view(removed@),
            ) + Seq::empty());
        }
        i = i + 1;
    }
    assert(all.take(n as int) =~= all);
}

/// `path` with each `:` replaced by `%3A`.
pub open spec fn sanitised(path: Seq<char>) -> Seq<char>
    decreases path.len(),
{
    if path.len() == 0 {
        Seq::empty()
    } else {
        sanitised(path.drop_last()) + if path.last() == ':' {
            "%3A"@
        } else {
            seq![path.last()]
        }
    }
}

/// The path of a URI as the router matches it: Windows paths may hold a drive colon
/// that some clients do not percent-encode, and the router reads a colon as the start
/// of a parameter, so each `:` becomes `%3A`.
pub fn uri_path_sanitised(path: &str) -> (r: String)
    ensures
        r@ == sanitised(path@),
{
    let mut out = String::new();
    let n = path.unicode_len();
    let mut i: usize = 0;
    while i < n
        invariant
            i <= n,
            n == path@.len(),
            out@ == sanitised(path@.take(i as int)),
        decreases n - i,
    {
        let c = path.get_char(i);
        assert(path@.take(i + 1).drop_last() =~= path@.take(i as int));
        if c == ':' {
            out.append("%3A");
        } else {
            let ghost before = out@;
            out.append(path.substring_char(i, i + 1));
            assert(path@.subrange(i as int, i + 1) =~= seq![c]);
        }
        i = i + 1;
    }
    assert(path@.take(n as int) =~= path@);
    out
}

/// A route of the router and the directory whose configuration serves the files
/// under it.
pub struct Route {
    pub route: String,
    pub directory: String,
}

/// What the routing needs of a workspace folder: the path of its URI and, when the URI
/// names a file, the file system path.
pub struct FolderPaths {
    pub uri_path: String,
    pub file_path: Option<String>,
}

/// The routes for the folders, in order, followed by the catch-all routes; if a folder
/// has no file system path, the routes of the folders before it and the index of that
/// folder.
pub struct RoutePlan {
    pub routes: Vec<Route>,
    pub failed_folder: Option<usize>,
}

pub open spec fn route_view(r: Route) -> (Seq<char>, Seq<char>) {
    (r.route@, r.directory@)
}

pub open spec fn routes_view(v: Seq<Route>) -> Seq<(Seq<char>, Seq<char>)> {
    v.map_values(|r: Route| route_view(r))
}

/// The route of a workspace folder: its sanitised URI path followed by a wildcard.
pub open spec fn folder_route(uri_path: Seq<char>) -> Seq<char> {
    sanitised(uri_path) + "/{*p}"@
}

/// The routes for files outside every workspace folder: on Windows one per drive
/// (`Some` list of drive letters), `/{drive}%3A/{*p}` served from `{drive}:\`; else
/// `/{*p}` served from `/`.
pub open spec fn catch_all(drives: Option<Seq<char>>) -> Seq<(Seq<char>, Seq<char>)> {
    match drives {
        None => seq![("/{*p}"@, "/"@)],
        Some(ds) => Seq::new(
            ds.len(),
            |k: int| ("/"@ + seq![ds[k]] + "%3A/{*p}"@, seq![ds[k]] + ":\\"@),
        ),
    }
}

/// The routes of the folders `f[0..i]`, with the directory of each.
pub open spec fn folder_routes(f: Seq<FolderPaths>) -> Seq<(Seq<char>, Seq<char>)> {
    Seq::new(
        f.len(),
        |k: int| (folder_route(f[k].uri_path@), f[k].file_path->Some_0@),
    )
}

/// Whether `f` names a file system path.
pub open spec fn has_file_path(f: FolderPaths) -> bool {
    f.file_path is Some
}

fn route_of(s: &str, rest: &str, directory: String) -> (r: Route)
    ensures
        r.route@ == sanitised(s@) + rest@,
        r.directory@ == directory@,
{
    let mut route = uri_path_sanitised(s);
    route.append(rest);
    Route { route, directory }
}

/// Calls `char::to_string`, which std documents as the text made of the one
/// character `c`.
#[verifier::external_body]
fn char_to_string(c: char) -> (r: String)
    ensures
        r@ == seq![c],
{
    c.to_string()
}

/// The routes to insert for `folders`, then the catch-all routes (see `catch_all`).
/// The planning stops at the first folder without a file system path.
pub fn plan_routes(folders: &Vec<FolderPaths>, drives: Option<Vec<char>>) -> (r: RoutePlan)
    ensures
        match r.failed_folder {
            Some(i) => {
                &&& i < folders@.len()
                &&& !has_file_path(folders@[i as int])
                &&& forall|k: int| 0 <= k < i ==> has_file_path(#[trigger] folders@[k])
                &&& routes_view(r.routes@) == folder_routes(folders@.take(i as int))
            },
            None => {
                &&& forall|k: int| 0 <= k < folders@.len() ==> has_file_path(#[trigger] folders@[k])
                &&& routes_view(r.routes@) == folder_routes(folders@) + catch_all(
                    match drives {
                        Some(d) => Some(d@),
                        None => None,
                    },
                )
            },
        },
{
    let mut routes: Vec<Route> = Vec::new();
    let mut i: usize = 0;
    while i < folders.len()
        invariant
            i <= folders@.len(),
            forall|k: int| 0 <= k < i ==> has_file_path(#[trigger] folders@[k]),
            routes_view(routes@) == folder_routes(folders@.take(i as int)),
        decreases folders@.len() - i,
    {
        let f = &folders[i];
        match &f.file_path {
            Some(p) => {
                let ghost before = routes_view(routes@);
                let route = route_of(f.uri_path.as_str(), "/{*p}", p.clone());
                let ghost rv = route_view(route);
                assert(rv == (folder_route(folders@[i as int].uri_path@), folders@[i as int].file_path->Some_0@));
                routes.push(route);
                assert(routes_view(routes@) =~= before.push(rv));
                assert(folder_routes(folders@.take(i + 1)) =~= folder_routes(folders@.take(i as int)).push(rv));
                assert(routes_view(routes@) =~= folder_routes(folders@.take(i + 1)));
            },
            None => {
                return RoutePlan { routes, failed_folder: Some(i) };
            },
        }
        i = i + 1;
    }
    assert(folders@.take(folders@.len() as int) =~= folders@);
    let ghost with_folders = routes_view(routes@);
    match drives {
        None => {
            routes.push(Route { route: String::from_str("/{*p}"), directory: String::from_str("/") });
            assert(routes_view(routes@) =~= with_folders + catch_all(None));
        },
        Some(ds) => {
            let ghost dv = ds@;
            let mut k: usize = 0;
            while k < ds.len()
                invariant
                    k <= ds@.len(),
                    dv == ds@,
                    routes_view(routes@) == with_folders + catch_all(Some(dv)).take(k as int),
                decreases ds@.len() - k,
            {
                let letter = char_to_string(ds[k]);
                let mut route = String::from_str("/");
                route.append(letter.as_str());
                route.append("%3A/{*p}");
                let mut directory = letter;
                directory.append(":\\");
                let ghost c = dv[k as int];
                assert(route@ =~= "/"@ + seq![c] + "%3A/{*p}"@);
                assert(directory@ =~= seq![c] + ":\\"@);
                let ghost before = routes_view(routes@);
                routes.push(Route { route, directory });
                assert(routes_view(routes@) =~= before.push(catch_all(Some(dv))[k as int]));
                assert(routes_view(routes@) =~= with_folders + catch_all(Some(dv)).take(k + 1));
                k = k + 1;
            }
            assert(catch_all(Some(dv)).take(ds@.len() as int) =~= catch_all(Some(dv)));
        },
    }
    RoutePlan { routes, failed_folder: None }
}

/// The drive letters whose bits are set in `mask`, bit 0 standing for `letter`, bit 1
/// for the next letter, and so on.
pub open spec fn drive_letters(mask: u32, letter: int) -> Seq<char>
    decreases mask,
{
    if mask == 0 {
        Seq::empty()
    } else {
        (if mask % 2 == 1 {
            seq![letter as char]
        } else {
            Seq::empty()
        }) + drive_letters(mask / 2, letter + 1)
    }
}

/// The drive letters of the bit mask of logical drives that Windows reports: bit 0 for
/// `A`, bit 1 for `B`, and so on.
pub fn drives_from_mask(mask: u32) -> (r: Vec<char>)
    ensures
        r@ == drive_letters(mask, 'A' as int),
{
    let mut drives: Vec<char> = Vec::new();
    let mut bitmask = mask;
    let mut letter: u8 = 65;
    assert(mask <= (0xffff_ffffu32 >> 0u32)) by (bit_vector);
    while bitmask > 0
        invariant
            65 <= letter <= 97,
            bitmask <= (0xffff_ffffu32 >> (letter - 65) as u32),
            drives@ + drive_letters(bitmask, letter as int) == drive_letters(mask, 'A' as int),
        decreases bitmask,
    {
        proof {
            lemma_halve(bitmask, (letter - 65) as u32);
        }
        if bitmask & 1 != 0 {
            assert(bitmask % 2 == 1) by (bit_vector)
                requires
                    bitmask & 1 != 0,
            ;
            let ghost before = drives@;
            drives.push(letter as char);
            assert(drives@ + drive_letters(bitmask >> 1, letter + 1) =~= before + drive_letters(
                bitmask,
                letter as int,
            ));
        } else {
            assert(bitmask % 2 == 0) by (bit_vector)
                requires
                    bitmask & 1 == 0,
            ;
            assert(drive_letters(bitmask, letter as int) =~= drive_letters(
                bitmask >> 1,
                letter + 1,
            ));
        }
        bitmask = bitmask >> 1;
        letter = letter + 1;
    }
    assert(drives@ + Seq::empty() =~= drives@);
    drives
}

proof fn lemma_halve(b: u32, s: u32)
    requires
        b > 0,
        s <= 32,
        b <= (0xffff_ffffu32 >> s),
    ensures
        s < 32,
        b >> 1 == b / 2,
        (b >> 1) <= (0xffff_ffffu32 >> (s + 1) as u32),
{
    assert(s < 32 && b >> 1 == b / 2 && (b >> 1) <= (0xffff_ffffu32 >> (s + 1) as u32)) by (bit_vector)
        requires
            b > 0,
            s <= 32,
            b <= (0xffff_ffffu32 >> s),
    ;
}

/// The names of the configuration files that typos reads, in the order it looks for
/// them.
pub open spec fn config_file_names() -> Seq<Seq<char>> {
    seq!["typos.toml"@, "_typos.toml"@, ".typos.toml"@, "Cargo.toml"@, "pyproject.toml"@]
}

/// Copies `typos_cli::config::SUPPORTED_FILE_NAMES`; its source lists `typos.toml`,
/// `_typos.toml`, `.typos.toml`, `Cargo.toml` and `pyproject.toml`, in that order.
#[verifier::external_body]
fn supported_config_file_names() -> (r: Vec<String>)
    ensures
        texts_of(r@) == config_file_names(),
{
    typos_cli::config::SUPPORTED_FILE_NAMES.iter().map(|s| s.to_string()).collect()
}

/// The exclusion globs of a workspace folder: `!` before each configuration file name,
/// so that configuration files are never checked, then `!` before each pattern of
/// `extend-exclude`.
pub open spec fn exclusion_globs_for(extend_exclude: Seq<Seq<char>>) -> Seq<Seq<char>> {
    Seq::new(config_file_names().len(), |k: int| "!"@ + config_file_names()[k]) + Seq::new(
        extend_exclude.len(),
        |k: int| "!"@ + extend_exclude[k],
    )
}

fn negated(patterns: &Vec<String>, out: &mut Vec<String>)
    ensures
        texts_of(final(out)@) == texts_of(old(out)@) + Seq::new(
            patterns@.len(),
            |k: int| "!"@ + patterns@[k]@,
        ),
{
    let ghost start = texts_of(out@);
    let mut i: usize = 0;
    while i < patterns.len()
        invariant
            i <= patterns@.len(),
            texts_of(out@) == start + Seq::new(i as nat, |k: int| "!"@ + patterns@[k]@),
        decreases patterns@.len() - i,
    {
        let mut g = String::from_str("!");
        g.append(patterns[i].as_str());
        let ghost before = texts_of(out@);
        out.push(g);
        assert(texts_of(out@) =~= before.push("!"@ + patterns@[i as int]@));
        assert(texts_of(out@) =~= start + Seq::new((i + 1) as nat, |k: int| "!"@ + patterns@[k]@));
        i = i + 1;
    }
}

/// The overrides with which the files of a workspace folder are skipped (see
/// `exclusion_globs_for`).
pub fn exclusion_globs(extend_exclude: &Vec<String>) -> (r: Vec<String>)
    ensures
        texts_of(r@) == exclusion_globs_for(texts_of(extend_exclude@)),
{
    let names = supported_config_file_names();
    let mut out: Vec<String> = Vec::new();
    negated(&names, &mut out);
    negated(extend_exclude, &mut out);
    assert(texts_of(out@) =~= exclusion_globs_for(texts_of(extend_exclude@)));
    out
}

/// Default name of the configuration file of a directory that has none.
pub const DEFAULT_CONFIG_FILE: &'static str = "typos.toml";

/// Among the supported configuration files of a directory, probed in order, the first
/// one that holds a typos configuration (`has_config[k]` tells whether file `k` does).
pub fn chosen_config_file(has_config: &Vec<bool>) -> (r: Option<usize>)
    ensures
        match r {
            Some(k) => k < has_config@.len() && has_config@[k as int] && forall|j: int|
                0 <= j < k ==> !has_config@[j],
            None => forall|j: int| 0 <= j < has_config@.len() ==> !has_config@[j],
        },
{
    let mut k: usize = 0;
    while k < has_config.len()
        invariant
            k <= has_config@.len(),
            forall|j: int| 0 <= j < k ==> !has_config@[j],
        decreases has_config@.len() - k,
    {
        if has_config[k] {
            return Some(k);
        }
        k = k + 1;
    }
    None
}

/// Which policy checks a document.
#[derive(PartialEq, Eq, Structural, Clone, Copy, Debug)]
pub enum PolicyChoice {
    /// The default policy of typos.
    Default,
    /// The policy of the workspace folder whose route matches the document.
    Workspace,
    /// None: the document is not checked.
    Skip,
}

/// The policy for a document: the default one when its URI names no file or no route
/// matches its path; else none when the folder excludes it (`extend-exclude` or a
/// configuration file); else the folder's policy. Files are always checked: the
/// `check-file` setting has no effect here.
pub open spec fn policy_for(file_path_known: bool, route_found: bool, excluded: bool) -> PolicyChoice {
    if !file_path_known || !route_found {
        PolicyChoice::Default
    } else if excluded {
        PolicyChoice::Skip
    } else {
        PolicyChoice::Workspace
    }
}

pub fn choose_policy(file_path_known: bool, route_found: bool, excluded: bool) -> (r: PolicyChoice)
    ensures
        r == policy_for(file_path_known, route_found, excluded),
{
    if !file_path_known || !route_found {
        PolicyChoice::Default
    } else if excluded {
        PolicyChoice::Skip
    } else {
        PolicyChoice::Workspace
    }
}

/// The configuration files, existing or not, in which a new ignore rule could go.
pub struct ConfigFileSuggestions {
    /// The (possible) configuration file in the directory where the server was started,
    /// always offered.
    pub project_root: String,
    /// The explicit configuration file given to the server at startup.
    pub explicit: Option<String>,
}

/// A sanitised path holds no `:`, which the router would read as a parameter.
pub proof fn law_sanitised_has_no_colon(path: Seq<char>)
    ensures
        forall|i: int| 0 <= i < sanitised(path).len() ==> sanitised(path)[i] != ':',
    decreases path.len(),
{
    if path.len() > 0 {
        law_sanitised_has_no_colon(path.drop_last());
        let head = sanitised(path.drop_last());
        let tail = if path.last() == ':' { "%3A"@ } else { seq![path.last()] };
        assert(sanitised(path) == head + tail);
        assert("%3A"@ == seq!['%', '3', 'A']) by {
            reveal_strlit("%3A");
        }
        assert forall|i: int| 0 <= i < sanitised(path).len() implies sanitised(path)[i] != ':' by {
            if i >= head.len() {
                assert(sanitised(path)[i] == tail[i - head.len()]);
            } else {
                assert(sanitised(path)[i] == head[i]);
            }
        }
    }
}

/// After an update of the workspace folders no removed folder is left, and every other
/// folder that was there or was added is kept.
pub proof fn law_folders_update(
    s: Seq<(Seq<char>, Seq<char>)>,
    removed: Seq<(Seq<char>, Seq<char>)>,
    f: (Seq<char>, Seq<char>),
)
    ensures
        without(s, removed).contains(f) <==> s.contains(f) && !removed.contains(f),
    decreases s.len(),
{
    if s.len() > 0 {
        law_folders_update(s.drop_last(), removed, f);
        let init = without(s.drop_last(), removed);
        let last = s.last();
        if without(s, removed).contains(f) {
            let i = choose|i: int| 0 <= i < without(s, removed).len() && without(s, removed)[i] == f;
            if i < init.len() {
                assert(init[i] == f);
                let j = choose|j: int| 0 <= j < s.drop_last().len() && s.drop_last()[j] == f;
                assert(s[j] == f);
            } else {
                assert(f == last);
                assert(s[s.len() - 1] == f);
            }
        }
        if s.contains(f) && !removed.contains(f) {
            let j = choose|j: int| 0 <= j < s.len() && s[j] == f;
            if j < s.len() - 1 {
                assert(s.drop_last()[j] == f);
                let i = choose|i: int| 0 <= i < init.len() && init[i] == f;
                assert(without(s, removed)[i] == f);
            } else {
                assert(without(s, removed)[init.len() as int] == f);
            }
        }
    }
}

/// A path without `:` is its own sanitised form, so sanitising twice changes nothing.
pub proof fn law_sanitised_twice(path: Seq<char>)
    ensures
        sanitised(sanitised(path)) == sanitised(path),
{
    law_sanitised_has_no_colon(path);
    lemma_sanitised_without_colon(sanitised(path));
}

proof fn lemma_sanitised_without_colon(path: Seq<char>)
    requires
        forall|i: int| 0 <= i < path.len() ==> path[i] != ':',
    ensures
        sanitised(path) == path,
    decreases path.len(),
{
    if path.len() > 0 {
        assert(path.last() == path[path.len() - 1]);
        lemma_sanitised_without_colon(path.drop_last());
        assert(path.drop_last() + seq![path.last()] =~= path);
    }
}

/// Every configuration file name and every `extend-exclude` pattern is negated into
/// the exclusion globs, in order, and nothing else is: there are as many globs as
/// names and patterns together.
pub proof fn law_every_exclusion_negated(extend_exclude: Seq<Seq<char>>)
    ensures
        exclusion_globs_for(extend_exclude).len() == config_file_names().len()
            + extend_exclude.len(),
        forall|k: int|
            0 <= k < config_file_names().len() ==> (#[trigger] exclusion_globs_for(
                extend_exclude,
            )[k]) == "!"@ + config_file_names()[k],
        forall|k: int|
            0 <= k < extend_exclude.len() ==> exclusion_globs_for(extend_exclude).contains(
                "!"@ + #[trigger] extend_exclude[k],
            ) && exclusion_globs_for(extend_exclude)[config_file_names().len() + k] == "!"@
                + extend_exclude[k],
{
    let g = exclusion_globs_for(extend_exclude);
    let n = config_file_names().len();
    assert forall|k: int| 0 <= k < extend_exclude.len() implies g.contains(
        "!"@ + #[trigger] extend_exclude[k],
    ) && g[n + k] == "!"@ + extend_exclude[k] by {
        assert(g[n + k] == "!"@ + extend_exclude[k]);
    }
}

} // verus!
