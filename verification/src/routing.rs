//! Which configuration checks a document: the router from URI paths to workspace
//! configurations, the exclusion globs of each configuration, and the policy chosen
//! for a document from its URI.

use crate::ignores::texts_of;
use crate::workspace::{
    exclusion_globs, exclusion_globs_for, law_sanitised_twice, policy_for, sanitised,
    uri_path_sanitised, PolicyChoice,
};
use ignore::overrides::{Override, OverrideBuilder};
use matchit::Router;
use std::str::FromStr;
use tower_lsp_server::ls_types::Uri;
use vstd::prelude::*;

verus! {

#[verifier::external_type_specification]
#[verifier::external_body]
#[verifier::reject_recursive_types(T)]
pub struct ExRouter<T>(Router<T>);

#[verifier::external_type_specification]
#[verifier::external_body]
pub struct ExOverride(Override);

#[verifier::external_type_specification]
#[verifier::external_body]
pub struct ExOverrideBuilder(OverrideBuilder);

/// The routes of a router, in the order they were inserted, each with its value.
pub uninterp spec fn router_routes(router: Router<usize>) -> Seq<(Seq<char>, usize)>;

/// Whether no insertion into `router` has been refused since it was made, so that it
/// holds exactly the routes of `router_routes`.
pub uninterp spec fn router_whole(router: Router<usize>) -> bool;

/// Whether `matchit` refuses to insert `route` into a router that holds `routes`
/// (a conflict with one of them, or a malformed route).
pub uninterp spec fn route_refused(routes: Seq<(Seq<char>, usize)>, route: Seq<char>) -> bool;

/// The value that `matchit` finds for `path` among `routes`, or `None` when no route
/// matches.
pub uninterp spec fn route_match(routes: Seq<(Seq<char>, usize)>, path: Seq<char>) -> Option<usize>;

/// Whether the glob set `overrides` ignores the file `path`.
pub uninterp spec fn excluded_by(overrides: Override, path: Seq<char>) -> bool;

/// The path component of `uri` as written, when `uri` parses as a URI.
pub uninterp spec fn uri_path_of(uri: Seq<char>) -> Option<Seq<char>>;

/// The number of `{` in `s`.
pub open spec fn brace_count(s: Seq<char>) -> nat
    decreases s.len(),
{
    if s.len() == 0 {
        0
    } else {
        brace_count(s.drop_last()) + if s.last() == '{' { 1nat } else { 0nat }
    }
}

/// `matchit::Router::new`: a router with no route.
#[verifier::external_body]
fn new_router() -> (r: Router<usize>)
    ensures
        router_whole(r),
        router_routes(r) == Seq::<(Seq<char>, usize)>::empty(),
{
    Router::new()
}

/// `matchit::Router::insert`. It refuses the route exactly when `route_refused` says
/// so; on success the route is added after the others. After a refusal what the
/// router holds is left unsaid: the source may have changed its tree before refusing.
/// The source panics when a route has more than 25 named parameters, each of which
/// opens with `{`; at most 25 `{` rule that out.
#[verifier::external_body]
fn insert_route(router: &mut Router<usize>, route: &str, value: usize) -> (r: bool)
    requires
        router_whole(*old(router)),
        brace_count(route@) <= 25,
    ensures
        r <==> !route_refused(router_routes(*old(router)), route@),
        r ==> router_whole(*final(router)) && router_routes(*final(router)) == router_routes(
            *old(router),
        ).push((route@, value)),
{
    router.insert(route, value).is_ok()
}

/// The routes `routes`, each with its index as value.
pub open spec fn indexed_routes(routes: Seq<Seq<char>>) -> Seq<(Seq<char>, usize)> {
    Seq::new(routes.len(), |k: int| (routes[k], k as usize))
}

/// Whether inserting `routes` one after the other into a new router is refused first
/// at index `k`, all the routes before it being accepted.
pub open spec fn first_refused(routes: Seq<Seq<char>>, k: int) -> bool {
    &&& 0 <= k < routes.len()
    &&& route_refused(indexed_routes(routes.take(k)), routes[k])
    &&& forall|j: int| 0 <= j < k ==> !route_refused(indexed_routes(routes.take(j)), #[trigger] routes[j])
}

fn insert_all(router: &mut Router<usize>, routes: &Vec<String>, n: usize) -> (r: Option<usize>)
    requires
        n <= routes@.len(),
        router_whole(*old(router)),
        router_routes(*old(router)) == Seq::<(Seq<char>, usize)>::empty(),
        forall|k: int| 0 <= k < routes@.len() ==> brace_count(#[trigger] routes@[k]@) <= 25,
    ensures
        match r {
            None => {
                &&& router_whole(*final(router))
                &&& router_routes(*final(router)) == indexed_routes(
                    texts_of(routes@).take(n as int),
                )
                &&& forall|j: int|
                    0 <= j < n ==> !route_refused(
                        indexed_routes(texts_of(routes@).take(j)),
                        #[trigger] texts_of(routes@)[j],
                    )
            },
            Some(k) => k < n && first_refused(texts_of(routes@), k as int),
        },
{
    let ghost texts = texts_of(routes@);
    let mut k: usize = 0;
    while k < n
        invariant
            k <= n <= routes@.len(),
            texts == texts_of(routes@),
            forall|i: int| 0 <= i < routes@.len() ==> brace_count(#[trigger] routes@[i]@) <= 25,
            router_whole(*router),
            router_routes(*router) == indexed_routes(texts.take(k as int)),
            forall|j: int| 0 <= j < k ==> !route_refused(indexed_routes(texts.take(j)), #[trigger] texts[j]),
        decreases n - k,
    {
        let ghost before = router_routes(*router);
        assert(texts[k as int] == routes@[k as int]@);
        if !insert_route(router, routes[k].as_str(), k) {
            return Some(k);
        }
        assert(indexed_routes(texts.take(k + 1)) =~= before.push((routes@[k as int]@, k)));
        k = k + 1;
    }
    None
}

/// A router of `routes`, in order, the value of each being its index. When the router
/// refuses a route, the index of the first refused one comes back with a router of the
/// routes before it, built anew.
pub fn build_router(routes: &Vec<String>) -> (r: (Router<usize>, Option<usize>))
    requires
        forall|k: int| 0 <= k < routes@.len() ==> brace_count(#[trigger] routes@[k]@) <= 25,
    ensures
        router_whole(r.0),
        match r.1 {
            None => {
                &&& router_routes(r.0) == indexed_routes(texts_of(routes@))
                &&& forall|j: int|
                    0 <= j < routes@.len() ==> !route_refused(
                        indexed_routes(texts_of(routes@).take(j)),
                        #[trigger] texts_of(routes@)[j],
                    )
            },
            Some(k) => {
                &&& first_refused(texts_of(routes@), k as int)
                &&& router_routes(r.0) == indexed_routes(
                    texts_of(routes@).take(k as int),
                )
            },
        },
{
    let ghost texts = texts_of(routes@);
    let mut router = new_router();
    match insert_all(&mut router, routes, routes.len()) {
        None => {
            assert(texts.take(routes@.len() as int) =~= texts);
            (router, None)
        },
        Some(k) => {
            let mut again = new_router();
            let rebuilt = insert_all(&mut again, routes, k);
            match rebuilt {
                None => (again, Some(k)),
                Some(j) => {
                    // the first pass accepted every route before `k`
                    assert(false);
                    (again, Some(k))
                },
            }
        },
    }
}

/// `matchit::Router::at`, keeping the matched value. Its result, a function of the
/// routes and the path alone, is named `route_match`.
#[verifier::external_body]
fn match_route(router: &Router<usize>, path: &str) -> (r: Option<usize>)
    requires
        router_whole(*router),
    ensures
        r == route_match(router_routes(*router), path@),
{
    router.at(path).ok().map(|m| *m.value)
}

/// The directory that the globs of an override builder are relative to.
pub uninterp spec fn builder_root(builder: OverrideBuilder) -> Seq<char>;

/// The globs added to an override builder, in order.
pub uninterp spec fn builder_globs(builder: OverrideBuilder) -> Seq<Seq<char>>;

/// Whether `OverrideBuilder::add` refuses `glob` (a glob that does not parse).
pub uninterp spec fn glob_invalid(glob: Seq<char>) -> bool;

/// Whether `OverrideBuilder::build` succeeds on the globs `globs` relative to `root`.
pub uninterp spec fn override_built(root: Seq<char>, globs: Seq<Seq<char>>) -> bool;

/// Whether the override matcher built from `globs` relative to `root` ignores the file
/// `path`: the last glob that matches it decides, and a glob with `!` ignores.
pub uninterp spec fn glob_excluded(root: Seq<char>, globs: Seq<Seq<char>>, path: Seq<char>) -> bool;

/// `OverrideBuilder::new(root)`: a builder with no glob, matching relative to `root`.
#[verifier::external_body]
fn new_override_builder(root: &str) -> (r: OverrideBuilder)
    ensures
        builder_root(r) == root@,
        builder_globs(r) == Seq::<Seq<char>>::empty(),
{
    OverrideBuilder::new(root)
}

/// `OverrideBuilder::add(glob)`: refused exactly when `glob_invalid` says so; else the
/// glob is added after the others. After a refusal the builder is left unsaid.
#[verifier::external_body]
fn add_glob(builder: &mut OverrideBuilder, glob: &str) -> (r: bool)
    ensures
        r <==> !glob_invalid(glob@),
        r ==> builder_root(*final(builder)) == builder_root(*old(builder)) && builder_globs(
            *final(builder),
        ) == builder_globs(*old(builder)).push(glob@),
{
    builder.add(glob).is_ok()
}

/// `OverrideBuilder::build`: succeeds exactly when `override_built` says so, and the
/// matcher then ignores exactly the files that `glob_excluded` names.
#[verifier::external_body]
fn build_override(builder: &OverrideBuilder) -> (r: Option<Override>)
    ensures
        r is Some <==> override_built(builder_root(*builder), builder_globs(*builder)),
        r matches Some(o) ==> forall|p: Seq<char>|
            #[trigger] excluded_by(o, p) == glob_excluded(
                builder_root(*builder),
                builder_globs(*builder),
                p,
            ),
{
    builder.build().ok()
}

/// The matcher of the exclusion globs of a workspace folder at `root` (see
/// `exclusion_globs_for`): configuration files and `extend-exclude` patterns are
/// ignored. `None` when a glob does not parse or the matcher cannot be built.
pub fn exclusion_overrides(root: &str, extend_exclude: &Vec<String>) -> (r: Option<Override>)
    ensures
        r is Some <==> (forall|k: int|
            0 <= k < exclusion_globs_for(texts_of(extend_exclude@)).len() ==> !glob_invalid(
                #[trigger] exclusion_globs_for(texts_of(extend_exclude@))[k],
            )) && override_built(root@, exclusion_globs_for(texts_of(extend_exclude@))),
        r matches Some(o) ==> forall|p: Seq<char>|
            #[trigger] excluded_by(o, p) == glob_excluded(
                root@,
                exclusion_globs_for(texts_of(extend_exclude@)),
                p,
            ),
{
    let globs = exclusion_globs(extend_exclude);
    let ghost gs = texts_of(globs@);
    let mut builder = new_override_builder(root);
    let mut k: usize = 0;
    while k < globs.len()
        invariant
            k <= globs@.len(),
            gs == texts_of(globs@),
            gs == exclusion_globs_for(texts_of(extend_exclude@)),
            builder_root(builder) == root@,
            builder_globs(builder) == gs.take(k as int),
            forall|j: int| 0 <= j < k ==> !glob_invalid(#[trigger] gs[j]),
        decreases globs@.len() - k,
    {
        assert(gs[k as int] == globs@[k as int]@);
        if !add_glob(&mut builder, globs[k].as_str()) {
            assert(glob_invalid(exclusion_globs_for(texts_of(extend_exclude@))[k as int]));
            return None;
        }
        assert(gs.take(k + 1) =~= gs.take(k as int).push(gs[k as int]));
        k = k + 1;
    }
    assert(gs.take(k as int) =~= gs);
    build_override(&builder)
}

/// `Override::matched(path, false).is_ignore()`, named `excluded_by`.
#[verifier::external_body]
fn is_excluded(overrides: &Override, path: &str) -> (r: bool)
    ensures
        r == excluded_by(*overrides, path@),
{
    overrides.matched(path, false).is_ignore()
}

/// Parses `uri` with `Uri::from_str` and gives its path component as written
/// (`path().as_str()`), named `uri_path_of`.
#[verifier::external_body]
fn uri_path(uri: &str) -> (r: Option<String>)
    ensures
        match r {
            Some(p) => uri_path_of(uri@) == Some(p@),
            None => uri_path_of(uri@) is None,
        },
{
    Uri::from_str(uri).ok().map(|u| u.path().as_str().to_string())
}

/// Parses `uri` with `Uri::from_str` and converts it with `Uri::to_file_path`. The
/// conversion depends on the platform the server is built for (on Windows it reads a
/// drive or a host), so which path it gives is left unsaid. On every platform it gives
/// `None` when the path component is empty, and a path when that component starts
/// with `/`: the source then returns the decoded path, or on Windows that path
/// without its first character or with the host in front.
#[verifier::external_body]
fn file_path_of(uri: &str) -> (r: Option<String>)
    ensures
        r is Some ==> (uri_path_of(uri@) matches Some(p) && p.len() > 0),
        (uri_path_of(uri@) matches Some(p) && p.len() > 0 && p[0] == '/') ==> r is Some,
{
    Uri::from_str(uri).ok().and_then(|u| u.to_file_path().map(|p| p.to_string_lossy().to_string()))
}

/// The route that serves `uri`: the one that matches its sanitised path, if any.
pub open spec fn route_for(uri: Seq<char>, routes: Seq<(Seq<char>, usize)>) -> Option<usize> {
    match uri_path_of(uri) {
        Some(p) => route_match(routes, sanitised(p)),
        None => None,
    }
}

/// The value of the route that serves `uri` (see `route_for`).
pub fn route_for_uri(uri: &str, router: &Router<usize>) -> (r: Option<usize>)
    requires
        router_whole(*router),
    ensures
        r == route_for(uri@, router_routes(*router)),
{
    match uri_path(uri) {
        Some(p) => {
            let path = uri_path_sanitised(p.as_str());
            match_route(router, path.as_str())
        },
        None => None,
    }
}

/// How a document is checked: the choice of policy, the workspace configuration
/// whose route serves it, and its file system path.
pub struct DocumentPolicy {
    pub choice: PolicyChoice,
    pub instance: Option<usize>,
    pub file_path: Option<String>,
}

/// The policy of a document with URI `uri` and file path `file_path`: with a file
/// path and a route whose configuration is one of `overrides`, the configuration
/// serves it unless its globs exclude the file; else the default policy.
pub open spec fn document_policy(
    uri: Seq<char>,
    file_path: Option<Seq<char>>,
    routes: Seq<(Seq<char>, usize)>,
    overrides: Seq<Override>,
) -> (PolicyChoice, Option<usize>) {
    match file_path {
        Some(f) => match route_for(uri, routes) {
            Some(i) => if i < overrides.len() {
                (policy_for(true, true, excluded_by(overrides[i as int], f)), Some(i))
            } else {
                (policy_for(true, false, false), None)
            },
            None => (policy_for(true, false, false), None),
        },
        None => (policy_for(false, false, false), None),
    }
}

/// The policy that checks the document `uri` whose file system path is `file_path`:
/// the default one without a file path or when no route serves the document, none when
/// the globs of its configuration exclude the file, else the policy of that
/// configuration (`overrides[i]` holds the globs of the configuration of the route with
/// value `i`).
pub fn policy_for_file(
    uri: &str,
    file_path: Option<String>,
    router: &Router<usize>,
    overrides: &Vec<Override>,
) -> (r: DocumentPolicy)
    requires
        router_whole(*router),
    ensures
        r.file_path == file_path,
        (r.choice, r.instance) == document_policy(
            uri@,
            match file_path {
                Some(f) => Some(f@),
                None => None,
            },
            router_routes(*router),
            overrides@,
        ),
{
    match file_path {
        None => DocumentPolicy { choice: PolicyChoice::Default, instance: None, file_path: None },
        Some(f) => {
            match route_for_uri(uri, router) {
                Some(i) => {
                    if i < overrides.len() {
                        let choice = if is_excluded(&overrides[i], f.as_str()) {
                            PolicyChoice::Skip
                        } else {
                            PolicyChoice::Workspace
                        };
                        DocumentPolicy { choice, instance: Some(i), file_path: Some(f) }
                    } else {
                        DocumentPolicy {
                            choice: PolicyChoice::Default,
                            instance: None,
                            file_path: Some(f),
                        }
                    }
                },
                None => DocumentPolicy {
                    choice: PolicyChoice::Default,
                    instance: None,
                    file_path: Some(f),
                },
            }
        },
    }
}

/// The policy that checks the document `uri`: its file system path comes from
/// `Uri::to_file_path`, which depends on the platform, and the rest is
/// `policy_for_file` on that path.
pub fn workspace_policy(uri: &str, router: &Router<usize>, overrides: &Vec<Override>) -> (r:
    DocumentPolicy)
    requires
        router_whole(*router),
    ensures
        r.file_path is Some ==> (uri_path_of(uri@) matches Some(p) && p.len() > 0),
        (uri_path_of(uri@) matches Some(p) && p.len() > 0 && p[0] == '/') ==> r.file_path is Some,
        (r.choice, r.instance) == document_policy(
            uri@,
            match r.file_path {
                Some(f) => Some(f@),
                None => None,
            },
            router_routes(*router),
            overrides@,
        ),
{
    let file_path = file_path_of(uri);
    policy_for_file(uri, file_path, router, overrides)
}

/// Files are always checked: a file that a workspace configuration serves and whose
/// globs do not exclude it gets that configuration's policy, whatever the type of the
/// file; one that they exclude is not checked.
pub proof fn law_files_always_checked(
    uri: Seq<char>,
    file_path: Seq<char>,
    routes: Seq<(Seq<char>, usize)>,
    overrides: Seq<Override>,
)
    requires
        route_for(uri, routes) matches Some(i) && i < overrides.len(),
    ensures
        ({
            let i = route_for(uri, routes)->Some_0;
            let d = document_policy(uri, Some(file_path), routes, overrides);
            &&& d.1 == Some(i)
            &&& d.0 == (if excluded_by(overrides[i as int], file_path) {
                PolicyChoice::Skip
            } else {
                PolicyChoice::Workspace
            })
        }),
{
}

/// Drive colons do not change the route: a URI whose path writes `:` as `%3A` is served
/// by the same route as one that writes it plainly, and generally two URIs whose paths
/// agree once sanitised are served alike.
pub proof fn law_colons_routed_alike(u1: Seq<char>, u2: Seq<char>, routes: Seq<(Seq<char>, usize)>)
    requires
        uri_path_of(u1) is Some,
        uri_path_of(u2) is Some,
        uri_path_of(u2)->Some_0 == sanitised(uri_path_of(u1)->Some_0) || sanitised(
            uri_path_of(u2)->Some_0,
        ) == sanitised(uri_path_of(u1)->Some_0),
    ensures
        route_for(u1, routes) == route_for(u2, routes),
{
    law_sanitised_twice(uri_path_of(u1)->Some_0);
}

/// The default policy serves a document without a file path, or one that no route
/// serves, and no workspace configuration is named for it then.
pub proof fn law_default_policy(
    uri: Seq<char>,
    file_path: Option<Seq<char>>,
    routes: Seq<(Seq<char>, usize)>,
    overrides: Seq<Override>,
)
    requires
        file_path is None || route_for(uri, routes) is None,
    ensures
        document_policy(uri, file_path, routes, overrides) == (PolicyChoice::Default, None::<usize>),
{
}

} // verus!
