use crate::ctx::{project_refs_below, KelpieContext};
use crate::facts::{find_latest, latest, latest_index, ConfigError, FsFacts, Halt, Query};
use crate::manifest::{
    built, declared_entrypoint, Dependency, Package, PackageBuilder, PackageId, PackageType, Project, ProjectId, ProjectKind,
    TomlConfig, TomlDependencies, TomlDependency, Workspace,
};
use crate::members::{find_workspace_members, listing_result};
use crate::paths::{file_name_of, joined, parent_of, path_file_name, path_join, path_parent};
use vstd::prelude::*;

verus! {

/// The first shape rule that a decoded manifest breaks, checked in this order: a
/// workspace inside a workspace member, both sections, dependencies declared twice,
/// neither section.
pub open spec fn shape_error(cfg: TomlConfig, is_workspace_member: bool) -> Option<ConfigError> {
    if is_workspace_member && cfg.workspace is Some {
        Some(ConfigError::WorkspaceInMember)
    } else if cfg.workspace is Some && cfg.package is Some {
        Some(ConfigError::BothWorkspaceAndPackage)
    } else if (match cfg.workspace {
        Some(w) => w.dependencies is Some,
        None => false,
    }) && cfg.dependencies is Some {
        Some(ConfigError::DependenciesInTwoPlaces)
    } else if cfg.workspace is None && cfg.package is None {
        Some(ConfigError::NoWorkspaceOrPackage)
    } else {
        None
    }
}

/// A manifest passes the shape rules only with exactly one of a workspace and a package
/// section; with both, or with neither, it is rejected with the matching error.
pub proof fn lemma_exactly_one_section(cfg: TomlConfig)
    ensures
        shape_error(cfg, false) is None ==> (cfg.workspace is Some <==> cfg.package is None),
        cfg.workspace is Some && cfg.package is Some ==> shape_error(cfg, false) == Some(
            ConfigError::BothWorkspaceAndPackage,
        ),
        cfg.workspace is None && cfg.package is None ==> shape_error(cfg, false) == Some(
            ConfigError::NoWorkspaceOrPackage,
        ),
{
}

/// A workspace member's manifest that declares a workspace is rejected, whatever else
/// it holds.
pub proof fn lemma_member_workspace_rejected(cfg: TomlConfig)
    requires
        cfg.workspace is Some,
    ensures
        shape_error(cfg, true) == Some(ConfigError::WorkspaceInMember),
{
}

/// Checks the shape rules of a decoded manifest.
pub fn check_manifest_shape(cfg: &TomlConfig, is_workspace_member: bool) -> (r: Option<ConfigError>)
    ensures
        r == shape_error(*cfg, is_workspace_member),
{
    if is_workspace_member && cfg.workspace.is_some() {
        return Some(ConfigError::WorkspaceInMember);
    }
    if cfg.workspace.is_some() && cfg.package.is_some() {
        return Some(ConfigError::BothWorkspaceAndPackage);
    }
    let workspace_deps = match &cfg.workspace {
        Some(w) => w.dependencies.is_some(),
        None => false,
    };
    if workspace_deps && cfg.dependencies.is_some() {
        return Some(ConfigError::DependenciesInTwoPlaces);
    }
    if cfg.workspace.is_none() && cfg.package.is_none() {
        return Some(ConfigError::NoWorkspaceOrPackage);
    }
    None
}

/// Whether a declared dependency is resolved through a path.
pub open spec fn is_path_dependency(d: TomlDependency) -> bool {
    match d {
        TomlDependency::Detailed(det) => det.path is Some,
        _ => false,
    }
}

/// Whether a declared dependency names a version.
pub open spec fn has_version(d: TomlDependency) -> bool {
    match d {
        TomlDependency::Version(_) => true,
        TomlDependency::Detailed(det) => det.version is Some,
    }
}

/// The version a declared dependency names.
pub open spec fn declared_version(d: TomlDependency) -> Seq<char> {
    match d {
        TomlDependency::Version(v) => v@,
        TomlDependency::Detailed(det) => match det.version {
            Some(v) => v@,
            None => Seq::empty(),
        },
    }
}

/// Whether canonical manifest path `c` is among the manifests being loaded.
pub open spec fn is_loading(facts: FsFacts, loading: Seq<usize>, c: Seq<char>) -> bool {
    match latest_index(facts.manifests@, c) {
        Some(k) => loading.contains(k as usize),
        None => false,
    }
}

/// Whether every entry of `loading` is a distinct index of a manifest fact.
pub open spec fn loading_ok(facts: FsFacts, loading: Seq<usize>) -> bool {
    &&& loading.no_duplicates()
    &&& forall|i: int| 0 <= i < loading.len() ==> #[trigger] loading[i] < facts.manifests@.len()
}

proof fn lemma_distinct_below(s: Seq<usize>, n: nat)
    requires
        s.no_duplicates(),
        forall|i: int| 0 <= i < s.len() ==> #[trigger] s[i] < n,
    ensures
        s.len() <= n,
    decreases n,
{
    if n == 0 {
        if s.len() > 0 {
            assert(s[0] < n);
        }
    } else if s.contains((n - 1) as usize) {
        let j = choose|j: int| 0 <= j < s.len() && s[j] == (n - 1) as usize;
        let t = s.remove(j);
        assert forall|i: int| 0 <= i < t.len() implies #[trigger] t[i] < n - 1 by {
            if i < j {
                assert(t[i] == s[i]);
            } else {
                assert(t[i] == s[i + 1]);
            }
        }
        assert forall|a: int, b: int| 0 <= a < t.len() && 0 <= b < t.len() && a != b implies t[a]
            != t[b] by {
            let sa = if a < j { a } else { a + 1 };
            let sb = if b < j { b } else { b + 1 };
            assert(t[a] == s[sa]);
            assert(t[b] == s[sb]);
        }
        lemma_distinct_below(t, (n - 1) as nat);
    } else {
        assert forall|i: int| 0 <= i < s.len() implies #[trigger] s[i] < n - 1 by {
            assert(s[i] != (n - 1) as usize);
        }
        lemma_distinct_below(s, (n - 1) as nat);
    }
}

proof fn lemma_extends_trans(a: &KelpieContext, b: &KelpieContext, c: &KelpieContext)
    requires
        b.extends(a),
        c.extends(b),
    ensures
        c.extends(a),
{
    assert(c.projects@.take(a.projects@.len() as int) =~= c.projects@.take(
        b.projects@.len() as int,
    ).take(a.projects@.len() as int));
    assert(c.packages@.take(a.packages@.len() as int) =~= c.packages@.take(
        b.packages@.len() as int,
    ).take(a.packages@.len() as int));
    assert(c.path_to_project@.take(a.path_to_project@.len() as int) =~= c.path_to_project@.take(
        b.path_to_project@.len() as int,
    ).take(a.path_to_project@.len() as int));
    assert(c.name_to_package@.take(a.name_to_package@.len() as int) =~= c.name_to_package@.take(
        b.name_to_package@.len() as int,
    ).take(a.name_to_package@.len() as int));
}

proof fn lemma_extends_refl(a: &KelpieContext)
    ensures
        a.extends(a),
{
    assert(a.projects@.take(a.projects@.len() as int) =~= a.projects@);
    assert(a.packages@.take(a.packages@.len() as int) =~= a.packages@);
    assert(a.path_to_project@.take(a.path_to_project@.len() as int) =~= a.path_to_project@);
    assert(a.name_to_package@.take(a.name_to_package@.len() as int) =~= a.name_to_package@);
}

proof fn lemma_extends_keeps_package(a: &KelpieContext, b: &KelpieContext, i: int)
    requires
        b.extends(a),
        0 <= i < a.packages@.len(),
    ensures
        b.packages@[i] == a.packages@[i],
{
    assert(b.packages@.take(a.packages@.len() as int)[i] == b.packages@[i]);
}

/// Whether every question that `r` asks is one the facts leave unanswered.
pub open spec fn need_unanswered<T>(facts: FsFacts, r: Result<T, Halt>) -> bool {
    match r {
        Err(Halt::Need(Query::Canonicalize(p))) => latest(facts.canonical@, p@) is None,
        Err(Halt::Need(Query::Exists(p))) => latest(facts.exists@, p@) is None,
        Err(Halt::Need(Query::ReadManifest(p))) => latest(facts.manifests@, p@) is None,
        Err(Halt::Need(Query::Glob(p))) => latest(facts.globs@, p@) is None,
        _ => true,
    }
}

/// Whether `new` grew from `old` by appending entries only, keeping every path-index
/// entry and registering none of the manifests that `loading` names.
pub open spec fn grows(old: KelpieContext, new: KelpieContext, facts: FsFacts, loading: Seq<usize>) -> bool {
    &&& new.wf()
    &&& new.extends(&old)
    &&& forall|x: Seq<char>|
        #[trigger] latest(old.path_to_project@, x) is Some ==> latest(new.path_to_project@, x)
            == latest(old.path_to_project@, x)
    &&& forall|x: Seq<char>|
        is_loading(facts, loading, x) && #[trigger] latest(old.path_to_project@, x) is None
            ==> latest(new.path_to_project@, x) is None
}

proof fn lemma_grows_refl(a: KelpieContext, facts: FsFacts, loading: Seq<usize>)
    requires
        a.wf(),
    ensures
        grows(a, a, facts, loading),
{
    lemma_extends_refl(&a);
}

proof fn lemma_grows_trans(
    a: KelpieContext,
    b: KelpieContext,
    c: KelpieContext,
    facts: FsFacts,
    loading: Seq<usize>,
)
    requires
        grows(a, b, facts, loading),
        grows(b, c, facts, loading),
    ensures
        grows(a, c, facts, loading),
{
    lemma_extends_trans(&a, &b, &c);
    assert forall|x: Seq<char>| #[trigger] latest(a.path_to_project@, x) is Some implies latest(
        c.path_to_project@,
        x,
    ) == latest(a.path_to_project@, x) by {
        assert(latest(b.path_to_project@, x) is Some);
    }
    assert forall|x: Seq<char>|
        is_loading(facts, loading, x) && #[trigger] latest(a.path_to_project@, x) is None implies latest(
        c.path_to_project@,
        x,
    ) is None by {
        assert(latest(b.path_to_project@, x) is None);
    }
}

/// Growth that keeps the manifests of a larger loading set unregistered keeps those of
/// a smaller one too.
proof fn lemma_grows_inner(a: KelpieContext, b: KelpieContext, facts: FsFacts, loading: Seq<usize>, k: usize)
    requires
        grows(a, b, facts, loading.push(k)),
    ensures
        grows(a, b, facts, loading),
{
    assert forall|x: Seq<char>|
        is_loading(facts, loading, x) && #[trigger] latest(a.path_to_project@, x) is None implies latest(
        b.path_to_project@,
        x,
    ) is None by {
        let j = latest_index(facts.manifests@, x).unwrap();
        let i = choose|i: int| 0 <= i < loading.len() && loading[i] == j as usize;
        assert(loading.push(k)[i] == j as usize);
    }
}

proof fn lemma_latest_push<V>(s: Seq<(String, V)>, e: (String, V), x: Seq<char>)
    ensures
        latest(s.push(e), x) == if e.0@ == x {
            Some(e.1)
        } else {
            latest(s, x)
        },
{
    assert(s.push(e).drop_last() =~= s);
}

/// Whether project `id` of `new` is the package that section `pkg` of the manifest at
/// `c` declares, registered by name, with one resolved dependency per declared entry.
pub open spec fn registers_package(
    new: KelpieContext,
    id: ProjectId,
    c: Seq<char>,
    pkg: crate::manifest::TomlPackage,
    deps: Option<TomlDependencies>,
) -> bool {
    match new.projects@[id.0 as int].kind {
        ProjectKind::Package(pid) => {
            let p = new.packages@[pid.0 as int];
            let declared = declared_deps(deps);
            let resolved = new.projects@[id.0 as int].dependencies@;
            &&& pid.0 < new.packages@.len()
            &&& package_matches(p, c, pkg)
            &&& exists|k: int|
                0 <= k < new.name_to_package@.len() && (#[trigger] new.name_to_package@[k]).0
                    == pkg.name && new.name_to_package@[k].1 == pid
            &&& resolved.len() == declared.len()
            &&& forall|i: int| 0 <= i < resolved.len() ==> resolved_as(new, #[trigger] declared[i], resolved[i])
        },
        ProjectKind::Workspace(_) => false,
    }
}

/// The entries of an optional dependency map; none when it is absent.
pub open spec fn declared_deps(deps: Option<TomlDependencies>) -> Seq<(String, TomlDependency)> {
    match deps {
        Some(d) => d@,
        None => Seq::empty(),
    }
}

/// Whether package record `p` is what section `pkg` of the manifest at `c` declares.
pub open spec fn package_matches(p: Package, c: Seq<char>, pkg: crate::manifest::TomlPackage) -> bool {
            &&& p.name == pkg.name
            &&& p.version == pkg.version
            &&& p.author == pkg.author
            &&& p.description == pkg.description
            &&& p.license == pkg.license
            &&& p.repository == pkg.repository
            &&& p.homepage == pkg.homepage
            &&& (p.keywords is None <==> pkg.keywords is None)
            &&& (p.keywords matches Some(k) ==> pkg.keywords matches Some(q) && k@ == q@)
            &&& p.ty == crate::manifest::declared_type(pkg)
            &&& p.entrypoint@ == declared_entrypoint(pkg)
            &&& p.root@ == manifest_dir(c)
}

/// Whether `mid` is `old` with the package that section `pkg` of the manifest at `c`
/// declares registered, under its name, as the next package.
pub open spec fn adds_package(old: KelpieContext, mid: KelpieContext, c: Seq<char>, pkg: crate::manifest::TomlPackage) -> bool {
    let pid = PackageId(old.packages@.len() as usize);
    &&& mid.projects@ == old.projects@
    &&& mid.path_to_project@ == old.path_to_project@
    &&& mid.packages@.len() == old.packages@.len() + 1
    &&& mid.packages@.take(old.packages@.len() as int) == old.packages@
    &&& package_matches(mid.packages@.last(), c, pkg)
    &&& mid.packages@.last().id == pid
    &&& mid.name_to_package@ == old.name_to_package@.push((pkg.name, pid))
}

/// Whether project `id` of `new` is a workspace whose members are loaded packages and
/// whose dependencies resolve the workspace's declared entries one by one.
pub open spec fn registers_workspace(new: KelpieContext, id: ProjectId, w: crate::manifest::TomlWorkspace) -> bool {
    match new.projects@[id.0 as int].kind {
        ProjectKind::Workspace(ws) => {
            let declared = match w.dependencies {
                Some(d) => d@,
                None => Seq::empty(),
            };
            let resolved = new.projects@[id.0 as int].dependencies@;
            &&& forall|i: int| 0 <= i < ws.members@.len() ==> (#[trigger] ws.members@[i]).0 < new.packages@.len()
            &&& (w.members is None ==> ws.members@.len() == 0)
            &&& resolved.len() == declared.len()
            &&& forall|i: int| 0 <= i < resolved.len() ==> resolved_as(new, #[trigger] declared[i], resolved[i])
        },
        ProjectKind::Package(_) => false,
    }
}

/// The directory of a manifest: its parent, or the path itself where it has none.
pub open spec fn manifest_dir(c: Seq<char>) -> Seq<char> {
    match parent_of(c) {
        Some(d) => d,
        None => c,
    }
}

/// The path of the entrypoint that a package section declares, for a manifest at `c`.
pub open spec fn entrypoint_path(c: Seq<char>, pkg: crate::manifest::TomlPackage) -> Seq<char> {
    joined(manifest_dir(c), declared_entrypoint(pkg))
}

/// What loading a package manifest yields: a question about its entrypoint, a failure
/// that leaves the context as it was when the entrypoint is missing, or, once the
/// entrypoint exists, the registered package (always, when it declares no dependencies).
pub open spec fn package_load_result(
    old: KelpieContext,
    new: KelpieContext,
    facts: FsFacts,
    inner: Seq<usize>,
    c: Seq<char>,
    pkg: crate::manifest::TomlPackage,
    deps: Option<TomlDependencies>,
    r: Result<ProjectId, Halt>,
) -> bool
{
    match latest(facts.exists@, entrypoint_path(c, pkg)) {
        None => r matches Err(Halt::Need(Query::Exists(q))) && q@ == entrypoint_path(c, pkg) && new
            == old,
        Some(false) => r == Err::<ProjectId, Halt>(
            Halt::Failed(ConfigError::EntrypointMissing(pkg.name)),
        ) && new == old,
        Some(true) => {
            let declared = declared_deps(deps);
            &&& (deps is None ==> r is Ok)
            &&& (r matches Ok(id) ==> registers_package(new, id, c, pkg, deps))
        },
    }
}

/// How loading a package manifest whose entrypoint exists depends on resolving its
/// dependencies: from the context with the package registered, the dependency map
/// resolves as `resolves` says, and its error, if any, is the result.
pub open spec fn package_resolution(
    old: KelpieContext,
    new: KelpieContext,
    facts: FsFacts,
    inner: Seq<usize>,
    c: Seq<char>,
    pkg: crate::manifest::TomlPackage,
    deps: Option<TomlDependencies>,
    r: Result<ProjectId, Halt>,
) -> bool {
    match latest(facts.exists@, entrypoint_path(c, pkg)) {
        Some(true) => {
            let declared = declared_deps(deps);
            exists|mid: KelpieContext, z: KelpieContext, rr: Result<Seq<Dependency>, Halt>|
                adds_package(old, mid, c, pkg) && #[trigger] resolves(
                    mid,
                    z,
                    facts,
                    inner,
                    manifest_dir(c),
                    declared,
                    rr,
                ) && match rr {
                    Err(e) => r == Err::<ProjectId, Halt>(e) && new == z,
                    Ok(ds) => r is Ok && (r matches Ok(id) ==> new.projects@[id.0 as int].dependencies@
                        == ds),
                }
        },
        _ => true,
    }
}

/// What loading the manifest at `path` yields, in context `old` becoming `new`, while
/// the manifests that `loading` names are being loaded.
pub open spec fn load_result(
    old: KelpieContext,
    new: KelpieContext,
    facts: FsFacts,
    path: Seq<char>,
    is_workspace_member: bool,
    loading: Seq<usize>,
    r: Result<ProjectId, Halt>,
) -> bool
{
    &&& grows(old, new, facts, loading)
    &&& need_unanswered(facts, r)
    &&& match r {
        Ok(id) => id.0 < new.projects@.len(),
        Err(_) => true,
    }
    &&& match latest(facts.canonical@, path) {
        None => r matches Err(Halt::Need(Query::Canonicalize(q))) && q@ == path && new == old,
        Some(None) => r matches Err(Halt::Failed(ConfigError::CannotCanonicalize(q))) && q@ == path
            && new == old,
        Some(Some(c)) => match latest(old.path_to_project@, c@) {
            Some(id) => r == Ok::<ProjectId, Halt>(id) && new == old,
            None => {
                &&& (r is Err ==> latest(new.path_to_project@, c@) is None)
                &&& match latest(facts.manifests@, c@) {
                    None => r == Err::<ProjectId, Halt>(Halt::Need(Query::ReadManifest(c))) && new
                        == old,
                    Some(Err(msg)) => r == Err::<ProjectId, Halt>(
                        Halt::Failed(ConfigError::Manifest(c, msg)),
                    ) && new == old,
                    Some(Ok(cfg)) => if is_loading(facts, loading, c@) {
                        r == Err::<ProjectId, Halt>(Halt::Failed(ConfigError::PathCycle(c))) && new
                            == old
                    } else if shape_error(cfg, is_workspace_member) is Some {
                        r == Err::<ProjectId, Halt>(
                            Halt::Failed(shape_error(cfg, is_workspace_member).unwrap()),
                        ) && new == old
                    } else {
                        &&& (r matches Ok(id) ==> latest(new.path_to_project@, c@) == Some(id))
                        &&& (cfg.package matches Some(pkg) ==> package_load_result(
                            old,
                            new,
                            facts,
                            loading.push(latest_index(facts.manifests@, c@).unwrap() as usize),
                            c@,
                            pkg,
                            cfg.dependencies,
                            r,
                        ))
                        &&& (cfg.workspace matches Some(w) ==> (r matches Ok(id)
                            ==> registers_workspace(new, id, w)))
                    },
                }
            },
        },
    }
}

/// The name a missing member manifest is reported under: its directory's name.
pub open spec fn member_label(dir: Seq<char>) -> Seq<char> {
    match file_name_of(dir) {
        Some(f) => f,
        None => "<unknown>"@,
    }
}

/// What loading the member in directory `dir` gives, in context `b` becoming `z`: its
/// manifest must exist; loaded as a member, a package project gives its package.
pub open spec fn member_step(
    b: KelpieContext,
    z: KelpieContext,
    facts: FsFacts,
    loading: Seq<usize>,
    dir: String,
    o: Result<Option<PackageId>, Halt>,
) -> bool {
    let cp = joined(dir@, "config.toml"@);
    match latest(facts.exists@, cp) {
        None => z == b && (o matches Err(Halt::Need(Query::Exists(q))) && q@ == cp),
        Some(false) => z == b && (o matches Err(Halt::Failed(ConfigError::MemberConfigMissing(n)))
            && n@ == member_label(dir@)),
        Some(true) => exists|lr: Result<ProjectId, Halt>|
            #[trigger] load_result(b, z, facts, cp, true, loading, lr) && match lr {
                Err(e) => o == Err::<Option<PackageId>, Halt>(e),
                Ok(pj) => match z.projects@[pj.0 as int].kind {
                    ProjectKind::Package(pid) => o == Ok::<Option<PackageId>, Halt>(Some(pid)),
                    ProjectKind::Workspace(_) => o == Ok::<Option<PackageId>, Halt>(None),
                },
            },
    }
}

/// The packages among member outcomes, in order.
pub open spec fn somes(s: Seq<Option<PackageId>>) -> Seq<PackageId>
    decreases s.len(),
{
    if s.len() == 0 {
        Seq::empty()
    } else {
        match s.last() {
            Some(p) => somes(s.drop_last()).push(p),
            None => somes(s.drop_last()),
        }
    }
}

proof fn lemma_somes_push(s: Seq<Option<PackageId>>, x: Option<PackageId>)
    ensures
        somes(s.push(x)) == match x {
            Some(p) => somes(s).push(p),
            None => somes(s),
        },
{
    assert(s.push(x).drop_last() =~= s);
}

/// Whether `states` and `outs` trace loading the member directories `paths` in order,
/// from context `a` to `z`, until the first member that fails.
pub open spec fn members_trace(
    a: KelpieContext,
    z: KelpieContext,
    facts: FsFacts,
    loading: Seq<usize>,
    paths: Seq<String>,
    states: Seq<KelpieContext>,
    outs: Seq<Option<PackageId>>,
    r: Result<Seq<PackageId>, Halt>,
) -> bool {
    let n = outs.len() as int;
    &&& n <= paths.len()
    &&& states.len() >= n + 1
    &&& states[0] == a
    &&& forall|i: int|
        0 <= i < n ==> member_step(
            states[i],
            states[i + 1],
            facts,
            loading,
            paths[i],
            Ok::<Option<PackageId>, Halt>(#[trigger] outs[i]),
        )
    &&& match r {
        Ok(ids) => n == paths.len() && ids == somes(outs) && states.len() == n + 1 && states[n] == z,
        Err(e) => n < paths.len() && states.len() == n + 2 && states[n + 1] == z && member_step(
            states[n],
            states[n + 1],
            facts,
            loading,
            paths[n],
            Err::<Option<PackageId>, Halt>(e),
        ),
    }
}

/// What loading the members that declarations `members` stand for gives: their
/// directories are listed as `listing_result` says, then loaded in that order.
pub open spec fn members_result(
    a: KelpieContext,
    z: KelpieContext,
    facts: FsFacts,
    cwd: Seq<char>,
    loading: Seq<usize>,
    members: Seq<String>,
    r: Result<Seq<PackageId>, Halt>,
) -> bool {
    exists|listing: Result<Seq<String>, Halt>|
        #[trigger] listing_result(facts, cwd, members, listing) && match listing {
            Err(e) => r == Err::<Seq<PackageId>, Halt>(e) && z == a,
            Ok(paths) => exists|states: Seq<KelpieContext>, outs: Seq<Option<PackageId>>|
                #[trigger] members_trace(a, z, facts, loading, paths, states, outs, r),
        }
}

/// Members of a workspace section that declares none: no packages.
pub open spec fn members_outcome(
    a: KelpieContext,
    z: KelpieContext,
    facts: FsFacts,
    cwd: Seq<char>,
    loading: Seq<usize>,
    members: Option<Vec<String>>,
    r: Result<Seq<PackageId>, Halt>,
) -> bool {
    match members {
        None => z == a && r == Ok::<Seq<PackageId>, Halt>(Seq::empty()),
        Some(m) => members_result(a, z, facts, cwd, loading, m@, r),
    }
}

/// How loading a workspace manifest at `c` gives its result: its members load first,
/// then its dependency map resolves; the first error is the result, and otherwise the
/// workspace holds exactly those members and dependencies.
pub open spec fn workspace_resolution(
    old: KelpieContext,
    new: KelpieContext,
    facts: FsFacts,
    cwd: Seq<char>,
    inner: Seq<usize>,
    c: Seq<char>,
    w: crate::manifest::TomlWorkspace,
    r: Result<ProjectId, Halt>,
) -> bool {
    exists|m1: KelpieContext, mr: Result<Seq<PackageId>, Halt>|
        #[trigger] members_outcome(old, m1, facts, cwd, inner, w.members, mr) && match mr {
            Err(e) => r == Err::<ProjectId, Halt>(e) && new == m1,
            Ok(ids) => exists|z: KelpieContext, rr: Result<Seq<Dependency>, Halt>|
                #[trigger] resolves(m1, z, facts, inner, manifest_dir(c), declared_deps(w.dependencies), rr)
                    && match rr {
                    Err(e) => r == Err::<ProjectId, Halt>(e) && new == z,
                    Ok(ds) => r is Ok && (r matches Ok(id) ==> (new.projects@[id.0 as int].kind
                        matches ProjectKind::Workspace(ws) && ws.members@ == ids
                        && new.projects@[id.0 as int].dependencies@ == ds)),
                },
        }
}

/// For a package manifest that is loaded afresh, how the result follows from resolving
/// its dependencies (see `package_resolution`).
pub open spec fn load_resolution(
    old: KelpieContext,
    new: KelpieContext,
    facts: FsFacts,
    cwd: Seq<char>,
    path: Seq<char>,
    is_workspace_member: bool,
    loading: Seq<usize>,
    r: Result<ProjectId, Halt>,
) -> bool {
    match latest(facts.canonical@, path) {
        Some(Some(c)) => match latest(old.path_to_project@, c@) {
            None => match latest(facts.manifests@, c@) {
                Some(Ok(cfg)) => !is_loading(facts, loading, c@) && shape_error(cfg, is_workspace_member)
                    is None ==> (cfg.package matches Some(pkg) ==> package_resolution(
                    old,
                    new,
                    facts,
                    loading.push(latest_index(facts.manifests@, c@).unwrap() as usize),
                    c@,
                    pkg,
                    cfg.dependencies,
                    r,
                )) && (cfg.workspace matches Some(w) ==> workspace_resolution(
                    old,
                    new,
                    facts,
                    cwd,
                    loading.push(latest_index(facts.manifests@, c@).unwrap() as usize),
                    c@,
                    w,
                    r,
                )),
                _ => true,
            },
            _ => true,
        },
        _ => true,
    }
}

/// What resolving the dependency map `deps` yields, in context `old` becoming `new`.
pub open spec fn resolve_result(
    old: KelpieContext,
    new: KelpieContext,
    facts: FsFacts,
    loading: Seq<usize>,
    base: Seq<char>,
    deps: Seq<(String, TomlDependency)>,
    r: Result<Vec<Dependency>, Halt>,
) -> bool {
    &&& grows(old, new, facts, loading)
    &&& need_unanswered(facts, r)
    &&& (all_registered(old, deps) ==> r is Ok && new == old)
    &&& (!has_path_dependency(deps) ==> new == old)
    &&& match r {
        Ok(ds) => {
            &&& ds@.len() == deps.len()
            &&& forall|i: int|
                0 <= i < ds@.len() ==> resolved_as(new, #[trigger] deps[i], ds@[i]) && path_resolved(
                    new,
                    facts,
                    base,
                    deps[i],
                    ds@[i],
                )
            &&& !has_path_dependency(deps) ==> forall|i: int|
                0 <= i < ds@.len() ==> latest(old.name_to_package@, (#[trigger] deps[i]).0@) == Some(
                    ds@[i].id,
                )
        },
        Err(_) => true,
    }
    &&& match r {
        Ok(ds) => resolves(old, new, facts, loading, base, deps, Ok(ds@)),
        Err(e) => resolves(old, new, facts, loading, base, deps, Err(e)),
    }
}

/// What resolving one dependency `entry` gives, in context `b` becoming `z`: a name is
/// looked up among the registered packages; a path is canonicalized and its manifest
/// loaded, which must give a library package.
pub open spec fn entry_outcome(
    b: KelpieContext,
    z: KelpieContext,
    facts: FsFacts,
    loading: Seq<usize>,
    base: Seq<char>,
    entry: (String, TomlDependency),
    o: Result<Dependency, Halt>,
) -> bool
{
    let name = entry.0;
    match entry.1 {
        TomlDependency::Version(v) => z == b && match latest(b.name_to_package@, name@) {
            Some(id) => o == Ok::<Dependency, Halt>(Dependency { id, version: v }),
            None => o == Err::<Dependency, Halt>(
                Halt::Failed(ConfigError::UnresolvedDependency(name)),
            ),
        },
        TomlDependency::Detailed(det) => match det.version {
            None => z == b && o == Err::<Dependency, Halt>(
                Halt::Failed(ConfigError::MissingVersion(name)),
            ),
            Some(v) => match det.path {
                None => z == b && match latest(b.name_to_package@, name@) {
                    Some(id) => o == Ok::<Dependency, Halt>(Dependency { id, version: v }),
                    None => o == Err::<Dependency, Halt>(
                        Halt::Failed(ConfigError::UnresolvedDependency(name)),
                    ),
                },
                Some(p) => {
                    let m = dependency_manifest(base, p@);
                    match latest(facts.canonical@, m) {
                        None => z == b && (o matches Err(Halt::Need(Query::Canonicalize(q))) && q@
                            == m),
                        Some(None) => z == b && o == Err::<Dependency, Halt>(
                            Halt::Failed(ConfigError::UnresolvedPathDependency(name)),
                        ),
                        Some(Some(_)) => exists|lr: Result<ProjectId, Halt>|
                            #[trigger] load_result(b, z, facts, m, false, loading, lr) && match lr {
                                Err(e) => o == Err::<Dependency, Halt>(e),
                                Ok(pj) => match z.projects@[pj.0 as int].kind {
                                    ProjectKind::Workspace(_) => o == Err::<Dependency, Halt>(
                                        Halt::Failed(ConfigError::ImportFromWorkspace(name)),
                                    ),
                                    ProjectKind::Package(pid) => if z.packages@[pid.0 as int].ty
                                        != PackageType::Library {
                                        o == Err::<Dependency, Halt>(
                                            Halt::Failed(ConfigError::ImportBinary(name)),
                                        )
                                    } else {
                                        o == Ok::<Dependency, Halt>(Dependency { id: pid, version: v })
                                    },
                                },
                            },
                    }
                },
            },
        },
    }
}

/// Whether `states` and `outs` trace resolving the entries of `deps` in order, from
/// context `a` to `z`: entry `i` takes `states[i]` to `states[i + 1]` and resolves to
/// `outs[i]`, until the first entry that fails, whose error is the result.
pub open spec fn resolve_trace(
    a: KelpieContext,
    z: KelpieContext,
    facts: FsFacts,
    loading: Seq<usize>,
    base: Seq<char>,
    deps: Seq<(String, TomlDependency)>,
    states: Seq<KelpieContext>,
    outs: Seq<Dependency>,
    r: Result<Seq<Dependency>, Halt>,
) -> bool
{
    let n = outs.len() as int;
    &&& n <= deps.len()
    &&& states.len() >= n + 1
    &&& states[0] == a
    &&& forall|i: int|
        0 <= i < n ==> entry_outcome(
            states[i],
            states[i + 1],
            facts,
            loading,
            base,
            deps[i],
            Ok::<Dependency, Halt>(#[trigger] outs[i]),
        )
    &&& match r {
        Ok(ds) => n == deps.len() && ds == outs && states.len() == n + 1 && states[n] == z,
        Err(e) => n < deps.len() && states.len() == n + 2 && states[n + 1] == z && entry_outcome(
            states[n],
            states[n + 1],
            facts,
            loading,
            base,
            deps[n],
            Err::<Dependency, Halt>(e),
        ),
    }
}

/// What resolving the entries of `deps` in order gives, in context `a` becoming `z`:
/// the first entry that fails decides the error, and the entries before it are
/// resolved one after another.
pub open spec fn resolves(
    a: KelpieContext,
    z: KelpieContext,
    facts: FsFacts,
    loading: Seq<usize>,
    base: Seq<char>,
    deps: Seq<(String, TomlDependency)>,
    r: Result<Seq<Dependency>, Halt>,
) -> bool
{
    exists|states: Seq<KelpieContext>, outs: Seq<Dependency>|
        #[trigger] resolve_trace(a, z, facts, loading, base, deps, states, outs, r)
}

/// The manifest that a path dependency written `p` points at, from directory `base`.
pub open spec fn dependency_manifest(base: Seq<char>, p: Seq<char>) -> Seq<char> {
    joined(joined(base, p), "config.toml"@)
}

/// Whether `d` resolves a path dependency `entry` to the package registered for the
/// canonical path of the manifest it points at (any other entry passes).
pub open spec fn path_resolved(
    ctx: KelpieContext,
    facts: FsFacts,
    base: Seq<char>,
    entry: (String, TomlDependency),
    d: Dependency,
) -> bool {
    match entry.1 {
        TomlDependency::Detailed(det) => match det.path {
            Some(p) => match latest(facts.canonical@, dependency_manifest(base, p@)) {
                Some(Some(c)) => match latest(ctx.path_to_project@, c@) {
                    Some(pj) => pj.0 < ctx.projects@.len() && ctx.projects@[pj.0 as int].kind
                        == ProjectKind::Package(d.id),
                    None => false,
                },
                _ => false,
            },
            None => true,
        },
        _ => true,
    }
}

proof fn lemma_path_resolved_kept(
    a: KelpieContext,
    b: KelpieContext,
    facts: FsFacts,
    loading: Seq<usize>,
    base: Seq<char>,
    entry: (String, TomlDependency),
    d: Dependency,
)
    requires
        grows(a, b, facts, loading),
        path_resolved(a, facts, base, entry, d),
    ensures
        path_resolved(b, facts, base, entry, d),
{
    if let TomlDependency::Detailed(det) = entry.1 {
        if let Some(p) = det.path {
            if let Some(Some(c)) = latest(facts.canonical@, dependency_manifest(base, p@)) {
                let pj = latest(a.path_to_project@, c@).unwrap();
                assert(latest(b.path_to_project@, c@) == latest(a.path_to_project@, c@));
                assert(b.projects@.take(a.projects@.len() as int)[pj.0 as int] == b.projects@[pj.0 as int]);
            }
        }
    }
}

/// Whether every entry of a dependency map names a version and a package that is
/// registered by name; resolving such a map reads nothing and always succeeds.
pub open spec fn all_registered(ctx: KelpieContext, deps: Seq<(String, TomlDependency)>) -> bool {
    forall|i: int|
        0 <= i < deps.len() ==> !is_path_dependency((#[trigger] deps[i]).1) && has_version(deps[i].1)
            && latest(ctx.name_to_package@, deps[i].0@) is Some
}

/// Whether some entry of a dependency map is a path dependency; only then can
/// resolving the map load further manifests, whose errors are passed on.
pub open spec fn has_path_dependency(deps: Seq<(String, TomlDependency)>) -> bool {
    exists|i: int| 0 <= i < deps.len() && is_path_dependency((#[trigger] deps[i]).1)
}

/// Whether `d` is a correct resolution of the declared dependency `entry` in `ctx`: it
/// names an existing package and the declared version; a path dependency lands on a
/// library, and any other on a package of the declared name.
pub open spec fn resolved_as(ctx: KelpieContext, entry: (String, TomlDependency), d: Dependency) -> bool {
    &&& d.id.0 < ctx.packages@.len()
    &&& d.version@ == declared_version(entry.1)
    &&& has_version(entry.1)
    &&& is_path_dependency(entry.1) ==> ctx.packages@[d.id.0 as int].ty == PackageType::Library
    &&& !is_path_dependency(entry.1) ==> ctx.packages@[d.id.0 as int].name@ == entry.0@
}

proof fn lemma_resolved_kept(a: KelpieContext, b: KelpieContext, entry: (String, TomlDependency), d: Dependency)
    requires
        b.extends(&a),
        resolved_as(a, entry, d),
    ensures
        resolved_as(b, entry, d),
{
    lemma_extends_keeps_package(&a, &b, d.id.0 as int);
}

fn copy_string_option(o: &Option<String>) -> (r: Option<String>)
    ensures
        r == *o,
{
    match o {
        Some(x) => Some(x.clone()),
        None => None,
    }
}

fn copy_strings(v: &Vec<String>) -> (r: Vec<String>)
    ensures
        r@ == v@,
{
    let mut r: Vec<String> = Vec::new();
    let mut i: usize = 0;
    while i < v.len()
        invariant
            i <= v@.len(),
            r@ == v@.take(i as int),
        decreases v@.len() - i,
    {
        r.push(v[i].clone());
        proof {
            assert(v@.take(i + 1) =~= v@.take(i as int).push(v@[i as int]));
        }
        i = i + 1;
    }
    proof {
        assert(v@.take(i as int) =~= v@);
    }
    r
}

/// A copy of a package section with the same name, version, kind and entrypoint.
fn copy_package(p: &crate::manifest::TomlPackage) -> (r: crate::manifest::TomlPackage)
    ensures
        r.name == p.name,
        r.version == p.version,
        r.ty == p.ty,
        r.entrypoint == p.entrypoint,
        r.author == p.author,
        r.description == p.description,
        r.license == p.license,
        r.repository == p.repository,
        r.homepage == p.homepage,
        r.keywords matches Some(k) ==> p.keywords matches Some(q) && k@ == q@,
        r.keywords is None <==> p.keywords is None,
{
    crate::manifest::TomlPackage {
        name: p.name.clone(),
        version: p.version.clone(),
        author: copy_string_option(&p.author),
        description: copy_string_option(&p.description),
        license: copy_string_option(&p.license),
        repository: copy_string_option(&p.repository),
        homepage: copy_string_option(&p.homepage),
        keywords: match &p.keywords {
            Some(k) => Some(copy_strings(k)),
            None => None,
        },
        ty: p.ty,
        entrypoint: copy_string_option(&p.entrypoint),
    }
}

/// The loading set with manifest `k` added.
fn enter_loading(facts: &FsFacts, loading: &Vec<usize>, k: usize) -> (r: Vec<usize>)
    requires
        loading_ok(*facts, loading@),
        k < facts.manifests@.len(),
        !loading@.contains(k),
    ensures
        r@ == loading@.push(k),
        loading_ok(*facts, r@),
        r@.len() <= facts.manifests@.len(),
{
    let mut inner = copy_indices(loading);
    inner.push(k);
    proof {
        assert forall|a: int, b: int|
            0 <= a < inner@.len() && 0 <= b < inner@.len() && a != b implies inner@[a] != inner@[b] by {
            if a < loading@.len() && b < loading@.len() {
                assert(loading@[a] != loading@[b]);
            } else if a < loading@.len() {
                assert(inner@[a] == loading@[a]);
            } else if b < loading@.len() {
                assert(inner@[b] == loading@[b]);
            }
        }
        assert forall|i: int| 0 <= i < inner@.len() implies #[trigger] inner@[i] < facts.manifests@.len() by {
            if i < loading@.len() {
                assert(inner@[i] == loading@[i]);
            }
        }
        lemma_distinct_below(inner@, facts.manifests@.len());
    }
    inner
}

fn contains_index(v: &Vec<usize>, k: usize) -> (r: bool)
    ensures
        r == v@.contains(k),
{
    let mut i: usize = 0;
    while i < v.len()
        invariant
            i <= v@.len(),
            forall|j: int| 0 <= j < i ==> v@[j] != k,
        decreases v@.len() - i,
    {
        if v[i] == k {
            return true;
        }
        i = i + 1;
    }
    false
}

fn copy_indices(v: &Vec<usize>) -> (r: Vec<usize>)
    ensures
        r@ == v@,
{
    let mut r: Vec<usize> = Vec::new();
    let mut i: usize = 0;
    while i < v.len()
        invariant
            i <= v@.len(),
            r@ == v@.take(i as int),
        decreases v@.len() - i,
    {
        r.push(v[i]);
        proof {
            assert(v@.take(i + 1) =~= v@.take(i as int).push(v@[i as int]));
        }
        i = i + 1;
    }
    proof {
        assert(v@.take(i as int) =~= v@);
    }
    r
}

impl KelpieContext {
    /// Loads the manifest at `manifest_path` with everything it reaches, registering
    /// each project and package once; a manifest already loaded is not read again.
    pub fn load_from_manifest(
        &mut self,
        facts: &FsFacts,
        manifest_path: &String,
        is_workspace_member: bool,
        cwd: &String,
    ) -> (r: Result<ProjectId, Halt>)
        requires
            old(self).wf(),
        ensures
            load_result(
                *old(self),
                *final(self),
                *facts,
                manifest_path@,
                is_workspace_member,
                Seq::empty(),
                r,
            ),
            load_resolution(
                *old(self),
                *final(self),
                *facts,
                cwd@,
                manifest_path@,
                is_workspace_member,
                Seq::empty(),
                r,
            ),
    {
        let loading: Vec<usize> = Vec::new();
        self.load_manifest(facts, manifest_path, is_workspace_member, cwd, &loading)
    }

    fn load_manifest(
        &mut self,
        facts: &FsFacts,
        manifest_path: &String,
        is_workspace_member: bool,
        cwd: &String,
        loading: &Vec<usize>,
    ) -> (r: Result<ProjectId, Halt>)
        requires
            old(self).wf(),
            loading_ok(*facts, loading@),
        ensures
            load_result(
                *old(self),
                *final(self),
                *facts,
                manifest_path@,
                is_workspace_member,
                loading@,
                r,
            ),
            load_resolution(
                *old(self),
                *final(self),
                *facts,
                cwd@,
                manifest_path@,
                is_workspace_member,
                loading@,
                r,
            ),
        decreases facts.manifests@.len() - loading@.len(), 4int,
    {
        proof {
            lemma_grows_refl(*self, *facts, loading@);
        }
        let canonical = match find_latest(&facts.canonical, manifest_path) {
            None => {
                return Err(Halt::Need(Query::Canonicalize(manifest_path.clone())));
            },
            Some(k) => match &facts.canonical[k].1 {
                None => {
                    return Err(Halt::Failed(ConfigError::CannotCanonicalize(manifest_path.clone())));
                },
                Some(c) => c.clone(),
            },
        };
        if let Some(existing) = self.find_project_by_path(&canonical) {
            return Ok(existing);
        }
        let k = match find_latest(&facts.manifests, &canonical) {
            None => {
                return Err(Halt::Need(Query::ReadManifest(canonical)));
            },
            Some(k) => k,
        };
        let cfg = match &facts.manifests[k].1 {
            Err(msg) => {
                return Err(Halt::Failed(ConfigError::Manifest(canonical, msg.clone())));
            },
            Ok(cfg) => cfg,
        };
        if contains_index(loading, k) {
            return Err(Halt::Failed(ConfigError::PathCycle(canonical)));
        }
        if let Some(e) = check_manifest_shape(cfg, is_workspace_member) {
            return Err(Halt::Failed(e));
        }
        let dir = match path_parent(canonical.as_str()) {
            Some(p) => p,
            None => canonical.clone(),
        };
        assert(dir@ == manifest_dir(canonical@));
        if let Some(ws) = &cfg.workspace {
            self.register_workspace(facts, ws, &dir, canonical, cwd, loading, k)
        } else if let Some(pkg) = &cfg.package {
            self.register_package(facts, pkg, &cfg.dependencies, &dir, canonical, cwd, loading, k)
        } else {
            Err(Halt::Failed(ConfigError::NoWorkspaceOrPackage))
        }
    }

    fn register_workspace(
        &mut self,
        facts: &FsFacts,
        ws: &crate::manifest::TomlWorkspace,
        dir: &String,
        canonical: String,
        cwd: &String,
        loading: &Vec<usize>,
        k: usize,
    ) -> (r: Result<ProjectId, Halt>)
        requires
            old(self).wf(),
            loading_ok(*facts, loading@),
            k < facts.manifests@.len(),
            latest_index(facts.manifests@, canonical@) == Some(k as int),
            !loading@.contains(k),
            latest(old(self).path_to_project@, canonical@) is None,
            dir@ == manifest_dir(canonical@),
        ensures
            grows(*old(self), *final(self), *facts, loading@),
            need_unanswered(*facts, r),
            match r {
                Ok(id) => {
                    &&& latest(final(self).path_to_project@, canonical@) == Some(id)
                    &&& id.0 < final(self).projects@.len()
                    &&& registers_workspace(*final(self), id, *ws)
                },
                Err(_) => latest(final(self).path_to_project@, canonical@) is None,
            },
            workspace_resolution(*old(self), *final(self), *facts, cwd@, loading@.push(k), canonical@, *ws, r),
        decreases facts.manifests@.len() - loading@.len(), 3int,
    {
        let ghost before = *self;
        let inner = enter_loading(facts, loading, k);
        proof {
            lemma_grows_refl(*self, *facts, inner@);
            assert(inner@[loading@.len() as int] == k);
            assert(is_loading(*facts, inner@, canonical@));
        }
        let members = match &ws.members {
            Some(m) => match self.load_members(facts, m, cwd, &inner) {
                Ok(ids) => ids,
                Err(e) => {
                    proof {
                        lemma_grows_inner(before, *self, *facts, loading@, k);
                        assert(members_outcome(before, *self, *facts, cwd@, inner@, ws.members, Err(e)));
                    }
                    return Err(e);
                },
            },
            None => Vec::new(),
        };
        let ghost mid = *self;
        proof {
            assert(members_outcome(before, mid, *facts, cwd@, inner@, ws.members, Ok(members@)));
            assert(inner@ == loading@.push(k));
        }
        let deps = match &ws.dependencies {
            Some(d) => match self.resolve_dependencies_within(facts, d, dir, cwd, &inner) {
                Ok(ds) => ds,
                Err(e) => {
                    proof {
                        lemma_grows_trans(before, mid, *self, *facts, inner@);
                        lemma_grows_inner(before, *self, *facts, loading@, k);
                        assert(resolves(mid, *self, *facts, inner@, manifest_dir(canonical@), declared_deps(ws.dependencies), Err(e)));
                    }
                    return Err(e);
                },
            },
            None => {
                proof {
                    lemma_grows_refl(*self, *facts, inner@);
                    assert(resolve_trace(mid, mid, *facts, inner@, dir@, declared_deps(ws.dependencies), seq![mid], Seq::empty(), Ok(Seq::empty())));
                }
                Vec::new()
            },
        };
        let ghost z = *self;
        proof {
            assert(resolves(mid, z, *facts, inner@, manifest_dir(canonical@), declared_deps(ws.dependencies), Ok(deps@)));
            lemma_grows_trans(before, mid, *self, *facts, inner@);
            lemma_grows_inner(before, *self, *facts, loading@, k);
            assert forall|i: int| 0 <= i < deps@.len() implies (#[trigger] deps@[i]).id.0
                < self.packages@.len() by {
                assert(resolved_as(*self, ws.dependencies.unwrap()@[i], deps@[i]));
            }
            assert forall|i: int| 0 <= i < members@.len() implies (#[trigger] members@[i]).0
                < self.packages@.len() by {
                assert(self.packages@.len() >= mid.packages@.len());
            }
        }
        let project = Project::new(ProjectKind::Workspace(Workspace { members }), deps);
        let ghost pre = *self;
        let id = self.add_project(project, canonical);
        proof {
            lemma_latest_push(pre.path_to_project@, (canonical, id), canonical@);
            assert forall|x: Seq<char>| x != canonical@ implies #[trigger] latest(
                self.path_to_project@,
                x,
            ) == latest(pre.path_to_project@, x) by {
                lemma_latest_push(pre.path_to_project@, (canonical, id), x);
            }
            lemma_extends_trans(&before, &pre, self);
            assert(grows(pre, *self, *facts, loading@));
            lemma_grows_trans(before, pre, *self, *facts, loading@);
            assert forall|i: int| 0 <= i < deps@.len() implies resolved_as(
                *self,
                #[trigger] ws.dependencies.unwrap()@[i],
                deps@[i],
            ) by {
                lemma_resolved_kept(pre, *self, ws.dependencies.unwrap()@[i], deps@[i]);
            }
            assert(self.projects@[id.0 as int].kind == ProjectKind::Workspace(Workspace { members }));
            assert(self.projects@[id.0 as int].dependencies@ == deps@);
        }
        Ok(id)
    }

    fn register_package(
        &mut self,
        facts: &FsFacts,
        pkg: &crate::manifest::TomlPackage,
        deps_decl: &Option<TomlDependencies>,
        dir: &String,
        canonical: String,
        cwd: &String,
        loading: &Vec<usize>,
        k: usize,
    ) -> (r: Result<ProjectId, Halt>)
        requires
            old(self).wf(),
            loading_ok(*facts, loading@),
            k < facts.manifests@.len(),
            latest_index(facts.manifests@, canonical@) == Some(k as int),
            !loading@.contains(k),
            latest(old(self).path_to_project@, canonical@) is None,
            dir@ == manifest_dir(canonical@),
        ensures
            grows(*old(self), *final(self), *facts, loading@),
            need_unanswered(*facts, r),
            package_load_result(*old(self), *final(self), *facts, loading@.push(k), canonical@, *pkg, *deps_decl, r),
            package_resolution(*old(self), *final(self), *facts, loading@.push(k), canonical@, *pkg, *deps_decl, r),
            match r {
                Ok(id) => {
                    &&& latest(final(self).path_to_project@, canonical@) == Some(id)
                    &&& id.0 < final(self).projects@.len()
                },
                Err(_) => latest(final(self).path_to_project@, canonical@) is None,
            },
        decreases facts.manifests@.len() - loading@.len(), 3int,
    {
        let ghost before = *self;
        proof {
            lemma_grows_refl(*self, *facts, loading@);
        }
        let builder = PackageBuilder::from_toml(copy_package(pkg), dir.clone());
        let entry = path_join(dir.as_str(), builder.entrypoint.as_str());
        match find_latest(&facts.exists, &entry) {
            None => {
                return Err(Halt::Need(Query::Exists(entry)));
            },
            Some(e) => {
                if !facts.exists[e].1 {
                    return Err(Halt::Failed(ConfigError::EntrypointMissing(builder.name.clone())));
                }
            },
        }
        let inner = enter_loading(facts, loading, k);
        let ghost b = builder;
        let package_id = self.add_package(builder);
        let ghost mid = *self;
        let ghost declared = declared_deps(*deps_decl);
        proof {
            assert(mid.packages@.last() == built(b, package_id));
            assert(package_matches(mid.packages@.last(), canonical@, *pkg));
            assert(mid.packages@.take(before.packages@.len() as int) =~= before.packages@);
            assert(adds_package(before, mid, canonical@, *pkg));
            assert(inner@ == loading@.push(latest_index(facts.manifests@, canonical@).unwrap() as usize));
            lemma_extends_trans(&before, &before, &mid);
            assert(grows(before, mid, *facts, inner@));
            assert(inner@[loading@.len() as int] == k);
            assert(is_loading(*facts, inner@, canonical@));
        }
        let deps = match deps_decl {
            Some(d) => match self.resolve_dependencies_within(facts, d, dir, cwd, &inner) {
                Ok(ds) => ds,
                Err(e) => {
                    proof {
                        lemma_grows_trans(before, mid, *self, *facts, inner@);
                        lemma_grows_inner(before, *self, *facts, loading@, k);
                        assert(resolves(mid, *self, *facts, inner@, dir@, declared, Err(e)));
                        assert(resolves(mid, *self, *facts, loading@.push(k), manifest_dir(canonical@), declared, Err(e)));
                        assert(adds_package(*old(self), mid, canonical@, *pkg));
                    }
                    return Err(e);
                },
            },
            None => {
                proof {
                    lemma_grows_refl(*self, *facts, inner@);
                    assert(resolve_trace(mid, mid, *facts, inner@, dir@, declared, seq![mid], Seq::empty(), Ok(Seq::empty())));
                }
                Vec::new()
            },
        };
        let ghost z = *self;
        proof {
            assert(deps@ =~= Seq::<Dependency>::empty() || deps_decl is Some);
            assert(resolves(mid, z, *facts, inner@, dir@, declared, Ok(deps@)));
            assert(resolves(mid, z, *facts, loading@.push(k), manifest_dir(canonical@), declared, Ok(deps@)));
        }
        proof {
            lemma_grows_trans(before, mid, *self, *facts, inner@);
            lemma_grows_inner(before, *self, *facts, loading@, k);
            assert forall|i: int| 0 <= i < deps@.len() implies (#[trigger] deps@[i]).id.0
                < self.packages@.len() by {
                assert(resolved_as(*self, deps_decl.unwrap()@[i], deps@[i]));
            }
            lemma_extends_keeps_package(&mid, self, package_id.0 as int);
            assert(mid.name_to_package@[mid.name_to_package@.len() - 1] == (b.name, package_id));
            assert(self.name_to_package@.take(mid.name_to_package@.len() as int)[mid.name_to_package@.len() - 1]
                == self.name_to_package@[mid.name_to_package@.len() - 1]);
        }
        let project = Project::new(ProjectKind::Package(package_id), deps);
        let ghost pre = *self;
        let id = self.add_project(project, canonical);
        proof {
            lemma_latest_push(pre.path_to_project@, (canonical, id), canonical@);
            assert forall|x: Seq<char>| x != canonical@ implies #[trigger] latest(
                self.path_to_project@,
                x,
            ) == latest(pre.path_to_project@, x) by {
                lemma_latest_push(pre.path_to_project@, (canonical, id), x);
            }
            lemma_extends_trans(&before, &pre, self);
            assert(grows(pre, *self, *facts, loading@));
            lemma_grows_trans(before, pre, *self, *facts, loading@);
            assert(self.projects@[id.0 as int].kind == ProjectKind::Package(package_id));
            let declared = declared_deps(*deps_decl);
            assert forall|i: int| 0 <= i < deps@.len() implies resolved_as(
                *self,
                #[trigger] declared[i],
                deps@[i],
            ) by {
                lemma_resolved_kept(pre, *self, declared[i], deps@[i]);
            }
            let nk = mid.name_to_package@.len() - 1;
            assert(self.name_to_package@[nk] == (pkg.name, package_id));
            assert(self.projects@[id.0 as int].dependencies@ == deps@);
            assert(adds_package(*old(self), mid, canonical@, *pkg));
        }
        Ok(id)
    }

    fn load_members(
        &mut self,
        facts: &FsFacts,
        members: &Vec<String>,
        cwd: &String,
        loading: &Vec<usize>,
    ) -> (r: Result<Vec<PackageId>, Halt>)
        requires
            old(self).wf(),
            loading_ok(*facts, loading@),
            loading@.len() <= facts.manifests@.len(),
        ensures
            grows(*old(self), *final(self), *facts, loading@),
            need_unanswered(*facts, r),
            match r {
                Ok(ids) => forall|i: int|
                    0 <= i < ids@.len() ==> (#[trigger] ids@[i]).0 < final(self).packages@.len(),
                Err(_) => true,
            },
            members_result(
                *old(self),
                *final(self),
                *facts,
                cwd@,
                loading@,
                members@,
                match r {
                    Ok(ids) => Ok(ids@),
                    Err(e) => Err(e),
                },
            ),
        decreases facts.manifests@.len() - loading@.len(), 5int,
    {
        proof {
            lemma_grows_refl(*self, *facts, loading@);
        }
        let paths = match find_workspace_members(members, cwd, facts) {
            Ok(p) => p,
            Err(e) => {
                proof {
                    assert(listing_result(*facts, cwd@, members@, Err(e)));
                    assert(members_result(*old(self), *self, *facts, cwd@, loading@, members@, Err(e)));
                }
                return Err(e);
            },
        };
        let ghost listing: Result<Seq<String>, Halt> = Ok(paths@);
        proof {
            assert(listing_result(*facts, cwd@, members@, listing));
        }
        let mut ids: Vec<PackageId> = Vec::new();
        let ghost mut states: Seq<KelpieContext> = seq![*self];
        let ghost mut outs: Seq<Option<PackageId>> = Seq::empty();
        let mut i: usize = 0;
        while i < paths.len()
            invariant
                grows(*old(self), *self, *facts, loading@),
                loading_ok(*facts, loading@),
                loading@.len() <= facts.manifests@.len(),
                i <= paths@.len(),
                forall|j: int| 0 <= j < ids@.len() ==> (#[trigger] ids@[j]).0 < self.packages@.len(),
                listing == Ok::<Seq<String>, Halt>(paths@),
                listing_result(*facts, cwd@, members@, listing),
                outs.len() == i,
                states.len() == i + 1,
                states[0] == *old(self),
                states[i as int] == *self,
                ids@ == somes(outs),
                forall|j: int|
                    0 <= j < i ==> member_step(
                        states[j],
                        states[j + 1],
                        *facts,
                        loading@,
                        paths@[j],
                        Ok::<Option<PackageId>, Halt>(#[trigger] outs[j]),
                    ),
            decreases paths@.len() - i,
        {
            proof {
                reveal_strlit("config.toml");
            }
            let ghost prev = *self;
            let config_path = path_join(paths[i].as_str(), "config.toml");
            let o: Result<Option<PackageId>, Halt> = match find_latest(&facts.exists, &config_path) {
                None => Err(Halt::Need(Query::Exists(config_path))),
                Some(e) => {
                    if !facts.exists[e].1 {
                        let name = match path_file_name(paths[i].as_str()) {
                            Some(n) => n,
                            None => {
                                proof {
                                    reveal_strlit("<unknown>");
                                }
                                String::from_str("<unknown>")
                            },
                        };
                        Err(Halt::Failed(ConfigError::MemberConfigMissing(name)))
                    } else {
                        let loaded = self.load_manifest(facts, &config_path, true, cwd, loading);
                        proof {
                            lemma_grows_trans(*old(self), prev, *self, *facts, loading@);
                            assert(load_result(prev, *self, *facts, joined(paths@[i as int]@, "config.toml"@), true, loading@, loaded));
                        }
                        match loaded {
                            Err(e) => Err(e),
                            Ok(member_project_id) => match &self.projects[member_project_id.0].kind {
                                ProjectKind::Package(package) => {
                                    proof {
                                        assert(project_refs_below(self.projects@[member_project_id.0 as int], self.packages@.len()));
                                    }
                                    Ok(Some(*package))
                                },
                                ProjectKind::Workspace(_) => Ok(None),
                            },
                        }
                    }
                },
            };
            proof {
                assert(member_step(prev, *self, *facts, loading@, paths@[i as int], o));
            }
            match o {
                Err(e) => {
                    proof {
                        let st = states.push(*self);
                        assert(members_trace(*old(self), *self, *facts, loading@, paths@, st, outs, Err(e)));
                        assert(listing_result(*facts, cwd@, members@, listing));
                        assert(members_result(*old(self), *self, *facts, cwd@, loading@, members@, Err(e)));
                    }
                    return Err(e);
                },
                Ok(found) => {
                    proof {
                        lemma_somes_push(outs, found);
                        states = states.push(*self);
                        outs = outs.push(found);
                    }
                    if let Some(package) = found {
                        ids.push(package);
                    }
                },
            }
            i = i + 1;
        }
        proof {
            assert(members_trace(*old(self), *self, *facts, loading@, paths@, states, outs, Ok(ids@)));
            assert(listing_result(*facts, cwd@, members@, listing));
            assert(members_result(*old(self), *self, *facts, cwd@, loading@, members@, Ok(ids@)));
        }
        Ok(ids)
    }

    /// Resolves a dependency map against the manifest directory `base_path`.
    ///
    /// A path dependency loads the manifest it points at. Any other dependency is looked
    /// up by name among the packages registered so far, so it resolves only to a package
    /// loaded earlier: an earlier workspace member (members load in sorted order) or a
    /// package reached through an earlier path dependency.
    pub fn resolve_dependencies(
        &mut self,
        facts: &FsFacts,
        toml_deps: &TomlDependencies,
        base_path: &String,
        cwd: &String,
    ) -> (r: Result<Vec<Dependency>, Halt>)
        requires
            old(self).wf(),
        ensures
            resolve_result(*old(self), *final(self), *facts, Seq::empty(), base_path@, toml_deps@, r),
    {
        let loading: Vec<usize> = Vec::new();
        self.resolve_dependencies_within(facts, toml_deps, base_path, cwd, &loading)
    }

    fn resolve_dependencies_within(
        &mut self,
        facts: &FsFacts,
        toml_deps: &TomlDependencies,
        base_path: &String,
        cwd: &String,
        loading: &Vec<usize>,
    ) -> (r: Result<Vec<Dependency>, Halt>)
        requires
            old(self).wf(),
            loading_ok(*facts, loading@),
            loading@.len() <= facts.manifests@.len(),
        ensures
            resolve_result(*old(self), *final(self), *facts, loading@, base_path@, toml_deps@, r),
        decreases facts.manifests@.len() - loading@.len(), 5int,
    {
        proof {
            lemma_grows_refl(*self, *facts, loading@);
        }
        let mut dependencies: Vec<Dependency> = Vec::new();
        let mut i: usize = 0;
        let ghost mut states: Seq<KelpieContext> = seq![*self];
        while i < toml_deps.len()
            invariant
                grows(*old(self), *self, *facts, loading@),
                loading_ok(*facts, loading@),
                loading@.len() <= facts.manifests@.len(),
                i <= toml_deps@.len(),
                dependencies@.len() == i,
                forall|j: int|
                    0 <= j < i ==> resolved_as(*self, #[trigger] toml_deps@[j], dependencies@[j])
                        && path_resolved(*self, *facts, base_path@, toml_deps@[j], dependencies@[j]),
                all_registered(*old(self), toml_deps@) ==> *self == *old(self),
                !has_path_dependency(toml_deps@) ==> *self == *old(self),
                !has_path_dependency(toml_deps@) ==> forall|j: int|
                    0 <= j < i ==> latest(old(self).name_to_package@, (#[trigger] toml_deps@[j]).0@)
                        == Some(dependencies@[j].id),
                states.len() == i + 1,
                states[0] == *old(self),
                states[i as int] == *self,
                forall|j: int|
                    0 <= j < i ==> entry_outcome(
                        states[j],
                        states[j + 1],
                        *facts,
                        loading@,
                        base_path@,
                        toml_deps@[j],
                        Ok::<Dependency, Halt>(#[trigger] dependencies@[j]),
                    ),
            decreases toml_deps@.len() - i,
        {
            let name = &toml_deps[i].0;
            let ghost prev = *self;
            proof {
                if all_registered(*old(self), toml_deps@) {
                    assert(!is_path_dependency(toml_deps@[i as int].1));
                    assert(has_version(toml_deps@[i as int].1));
                }
            }
            proof {
                lemma_extends_refl(self);
            }
            let o: Result<Dependency, Halt> = match &toml_deps[i].1 {
                TomlDependency::Version(version) => {
                    match find_latest(&self.name_to_package, name) {
                        Some(k) => Ok(Dependency { id: self.name_to_package[k].1, version: version.clone() }),
                        None => Err(Halt::Failed(ConfigError::UnresolvedDependency(name.clone()))),
                    }
                },
                TomlDependency::Detailed(detailed) => match &detailed.version {
                    None => Err(Halt::Failed(ConfigError::MissingVersion(name.clone()))),
                    Some(version) => match &detailed.path {
                        None => match find_latest(&self.name_to_package, name) {
                            Some(k) => Ok(Dependency { id: self.name_to_package[k].1, version: version.clone() }),
                            None => Err(Halt::Failed(ConfigError::UnresolvedDependency(name.clone()))),
                        },
                        Some(path) => {
                            proof {
                                reveal_strlit("config.toml");
                            }
                            let dir = path_join(base_path.as_str(), path.as_str());
                            let config_path = path_join(dir.as_str(), "config.toml");
                            match find_latest(&facts.canonical, &config_path) {
                                None => Err(Halt::Need(Query::Canonicalize(config_path))),
                                Some(c) => {
                                    if facts.canonical[c].1.is_none() {
                                        Err(Halt::Failed(ConfigError::UnresolvedPathDependency(name.clone())))
                                    } else {
                                        let loaded = self.load_manifest(facts, &config_path, false, cwd, loading);
                                        proof {
                                            lemma_grows_trans(*old(self), prev, *self, *facts, loading@);
                                            assert(load_result(prev, *self, *facts, dependency_manifest(base_path@, path@), false, loading@, loaded));
                                        }
                                        match loaded {
                                            Err(e) => Err(e),
                                            Ok(project_id) => match &self.projects[project_id.0].kind {
                                                ProjectKind::Workspace(_) => {
                                                    Err(Halt::Failed(ConfigError::ImportFromWorkspace(name.clone())))
                                                },
                                                ProjectKind::Package(id) => {
                                                    proof {
                                                        assert(project_refs_below(self.projects@[project_id.0 as int], self.packages@.len()));
                                                    }
                                                    if self.packages[id.0].ty != PackageType::Library {
                                                        Err(Halt::Failed(ConfigError::ImportBinary(name.clone())))
                                                    } else {
                                                        Ok(Dependency { id: *id, version: version.clone() })
                                                    }
                                                },
                                            },
                                        }
                                    }
                                },
                            }
                        },
                    },
                },
            };
            proof {
                if !is_path_dependency(toml_deps@[i as int].1) {
                    assert(*self == prev);
                }
                assert(entry_outcome(prev, *self, *facts, loading@, base_path@, toml_deps@[i as int], o));
            }
            let dep = match o {
                Err(e) => {
                    proof {
                        let st = states.push(*self);
                        assert(resolve_trace(*old(self), *self, *facts, loading@, base_path@, toml_deps@, st, dependencies@, Err(e)));
                        if !is_path_dependency(toml_deps@[i as int].1) {
                            lemma_grows_refl(prev, *facts, loading@);
                        }
                    }
                    return Err(e);
                },
                Ok(d) => d,
            };
            proof {
                if !is_path_dependency(toml_deps@[i as int].1) {
                    lemma_grows_refl(prev, *facts, loading@);
                }
                assert forall|j: int| 0 <= j < i implies resolved_as(*self, #[trigger] toml_deps@[j], dependencies@[j])
                    && path_resolved(*self, *facts, base_path@, toml_deps@[j], dependencies@[j]) by {
                    lemma_resolved_kept(prev, *self, toml_deps@[j], dependencies@[j]);
                    lemma_path_resolved_kept(prev, *self, *facts, loading@, base_path@, toml_deps@[j], dependencies@[j]);
                }
                if !has_path_dependency(toml_deps@) {
                    assert(!is_path_dependency(toml_deps@[i as int].1));
                }
            }
            dependencies.push(dep);
            proof {
                states = states.push(*self);
            }
            i = i + 1;
        }
        proof {
            assert(resolve_trace(*old(self), *self, *facts, loading@, base_path@, toml_deps@, states, dependencies@, Ok(dependencies@)));
        }
        Ok(dependencies)
    }
}

/// Where the search for a manifest, starting in directory `d` and moving to each
/// parent in turn, ends: `Some((true, m))` at the first manifest `m` known to exist,
/// `Some((false, m))` at the first `m` whose existence is not known yet, `None` when
/// it runs out of parents.
pub open spec fn config_search(facts: FsFacts, d: Seq<char>) -> Option<(bool, Seq<char>)>
    decreases d.len(),
{
    let m = joined(d, "config.toml"@);
    match latest(facts.exists@, m) {
        None => Some((false, m)),
        Some(true) => Some((true, m)),
        Some(false) => match parent_of(d) {
            Some(p) => if p.len() < d.len() {
                config_search(facts, p)
            } else {
                None
            },
            None => None,
        },
    }
}

/// Finds the manifest in `start_path` or its nearest ancestor that has one, and loads it.
pub fn find_config(
    start_path: &String,
    ctx: &mut KelpieContext,
    facts: &FsFacts,
    cwd: &String,
) -> (r: Result<ProjectId, Halt>)
    requires
        old(ctx).wf(),
    ensures
        final(ctx).wf(),
        need_unanswered(*facts, r),
        match latest(facts.canonical@, start_path@) {
            None => r matches Err(Halt::Need(Query::Canonicalize(q))) && q@ == start_path@
                && *final(ctx) == *old(ctx),
            Some(None) => r matches Err(Halt::Failed(ConfigError::CannotCanonicalize(q)))
                && q@ == start_path@ && *final(ctx) == *old(ctx),
            Some(Some(c)) => match config_search(*facts, c@) {
                None => r == Err::<ProjectId, Halt>(Halt::Failed(ConfigError::ConfigNotFound))
                    && *final(ctx) == *old(ctx),
                Some((false, m)) => r matches Err(Halt::Need(Query::Exists(q))) && q@ == m
                    && *final(ctx) == *old(ctx),
                Some((true, m)) => load_result(*old(ctx), *final(ctx), *facts, m, false, Seq::empty(), r)
                    && load_resolution(*old(ctx), *final(ctx), *facts, cwd@, m, false, Seq::empty(), r),
            },
        },
{
    let mut current = match find_latest(&facts.canonical, start_path) {
        None => {
            return Err(Halt::Need(Query::Canonicalize(start_path.clone())));
        },
        Some(k) => match &facts.canonical[k].1 {
            None => {
                return Err(Halt::Failed(ConfigError::CannotCanonicalize(start_path.clone())));
            },
            Some(c) => c.clone(),
        },
    };
    let ghost start = current@;
    loop
        invariant
            *ctx == *old(ctx),
            ctx.wf(),
            latest(facts.canonical@, start_path@) matches Some(Some(c)) && c@ == start,
            config_search(*facts, current@) == config_search(*facts, start),
        decreases current@.len(),
    {
        proof {
            reveal_strlit("config.toml");
        }
        let manifest_path = path_join(current.as_str(), "config.toml");
        match find_latest(&facts.exists, &manifest_path) {
            None => {
                return Err(Halt::Need(Query::Exists(manifest_path)));
            },
            Some(e) => {
                if facts.exists[e].1 {
                    return ctx.load_from_manifest(facts, &manifest_path, false, cwd);
                }
            },
        }
        match path_parent(current.as_str()) {
            Some(parent) => {
                current = parent;
            },
            None => {
                return Err(Halt::Failed(ConfigError::ConfigNotFound));
            },
        }
    }
}

/// A manifest that was loaded once is not loaded again: a second load through any
/// path with the same canonical form yields the same project and leaves the context
/// as it was.
pub proof fn lemma_reload_is_memoized(
    c0: KelpieContext,
    c1: KelpieContext,
    c2: KelpieContext,
    facts: FsFacts,
    first: Seq<char>,
    second: Seq<char>,
    first_member: bool,
    second_member: bool,
    id: ProjectId,
    r2: Result<ProjectId, Halt>,
)
    requires
        load_result(c0, c1, facts, first, first_member, Seq::empty(), Ok(id)),
        load_result(c1, c2, facts, second, second_member, Seq::empty(), r2),
        latest(facts.canonical@, second) == latest(facts.canonical@, first),
    ensures
        r2 == Ok::<ProjectId, Halt>(id),
        c2 == c1,
{
}

} // verus!
