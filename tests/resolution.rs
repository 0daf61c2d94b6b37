use kelpie_core::ctx::KelpieContext;
use kelpie_core::facts::{ConfigError, FsFacts, Halt, Query};
use kelpie_core::loader::find_config;
use kelpie_core::manifest::{
    DetailedDependency, PackageId, PackageType, ProjectId, ProjectKind, TomlConfig,
    TomlDependencies, TomlDependency, TomlPackage, TomlWorkspace,
};
use kelpie_core::order::DependencyGraph;

enum Entry {
    Dir,
    File,
    Manifest(TomlConfig),
}

/// An in-memory file tree that answers the resolver's queries.
struct Tree {
    entries: Vec<(String, Entry)>,
}

impl Tree {
    fn new() -> Self {
        let mut t = Tree { entries: Vec::new() };
        t.dir("/");
        t
    }

    fn dir(&mut self, path: &str) {
        if !self.entries.iter().any(|(p, _)| p == path) {
            self.entries.push((path.to_string(), Entry::Dir));
        }
    }

    fn parents(&mut self, path: &str) {
        let mut p = std::path::Path::new(path).parent();
        while let Some(d) = p {
            let s = d.to_string_lossy().into_owned();
            if !s.is_empty() {
                self.dir(&s);
            }
            p = d.parent();
        }
    }

    fn file(&mut self, path: &str) {
        self.parents(path);
        self.entries.push((path.to_string(), Entry::File));
    }

    fn manifest(&mut self, path: &str, cfg: TomlConfig) {
        self.parents(path);
        self.entries.push((path.to_string(), Entry::Manifest(cfg)));
    }

    fn find(&self, path: &str) -> Option<&Entry> {
        self.entries.iter().find(|(p, _)| p == path).map(|(_, e)| e)
    }

    fn glob(&self, pattern: &str) -> Vec<(String, bool)> {
        let mut out = Vec::new();
        for (p, e) in &self.entries {
            if component_match(pattern, p) {
                out.push((p.clone(), matches!(e, Entry::Dir)));
            }
        }
        out
    }

    fn answer(&self, facts: &mut FsFacts, q: Query) {
        match q {
            Query::Canonicalize(p) => {
                let c = self.find(&p).map(|_| p.clone());
                facts.canonical.push((p, c));
            },
            Query::Exists(p) => {
                let e = self.find(&p).is_some();
                facts.exists.push((p, e));
            },
            Query::ReadManifest(p) => {
                let r = match self.find(&p) {
                    Some(Entry::Manifest(cfg)) => Ok(cfg.clone()),
                    _ => Err("not a manifest".to_string()),
                };
                facts.manifests.push((p, r));
            },
            Query::Glob(p) => {
                let r = self.glob(&p);
                facts.globs.push((p, Ok(r)));
            },
        }
    }
}

fn segment_match(pat: &str, s: &str) -> bool {
    match pat.find('*') {
        None => pat == s,
        Some(i) => {
            let (pre, rest) = (&pat[..i], &pat[i + 1..]);
            if !s.starts_with(pre) {
                return false;
            }
            let tail = &s[pre.len()..];
            (0..=tail.len()).any(|k| tail.is_char_boundary(k) && segment_match(rest, &tail[k..]))
        },
    }
}

fn component_match(pattern: &str, path: &str) -> bool {
    let a: Vec<&str> = pattern.split('/').collect();
    let b: Vec<&str> = path.split('/').collect();
    a.len() == b.len() && a.iter().zip(b.iter()).all(|(x, y)| segment_match(x, y))
}

/// Runs resolution from `start`, answering each query from the tree until it ends.
fn resolve(tree: &Tree, start: &str) -> (KelpieContext, Result<ProjectId, ConfigError>) {
    let mut facts = FsFacts::new();
    let cwd = start.to_string();
    for _ in 0..1000 {
        let mut ctx = KelpieContext::new();
        match find_config(&start.to_string(), &mut ctx, &facts, &cwd) {
            Ok(id) => return (ctx, Ok(id)),
            Err(Halt::Failed(e)) => return (ctx, Err(e)),
            Err(Halt::Need(q)) => tree.answer(&mut facts, q),
        }
    }
    panic!("resolution did not settle");
}

/// What the command line prints for a failed resolution.
fn printed(r: &Result<ProjectId, ConfigError>) -> String {
    match r {
        Ok(_) => "ok".to_string(),
        Err(e) => format!("error {}", e.message()),
    }
}

fn package(name: &str) -> TomlPackage {
    TomlPackage {
        name: name.to_string(),
        version: "0.1.0".to_string(),
        author: None,
        description: None,
        license: None,
        repository: None,
        homepage: None,
        keywords: None,
        ty: None,
        entrypoint: None,
    }
}

fn package_manifest(name: &str, deps: Option<TomlDependencies>) -> TomlConfig {
    TomlConfig { workspace: None, package: Some(package(name)), dependencies: deps }
}

fn workspace_manifest(members: &[&str], deps: Option<TomlDependencies>) -> TomlConfig {
    TomlConfig {
        workspace: Some(TomlWorkspace {
            members: Some(members.iter().map(|m| m.to_string()).collect()),
            dependencies: deps,
        }),
        package: None,
        dependencies: None,
    }
}

fn path_dep(name: &str, path: &str, version: Option<&str>) -> (String, TomlDependency) {
    (
        name.to_string(),
        TomlDependency::Detailed(DetailedDependency {
            version: version.map(|v| v.to_string()),
            path: Some(path.to_string()),
        }),
    )
}

fn lib_package(tree: &mut Tree, dir: &str, name: &str, deps: Option<TomlDependencies>) {
    tree.manifest(&format!("{}/config.toml", dir), package_manifest(name, deps));
    tree.file(&format!("{}/src/lib.rs", dir));
}

fn package_named(ctx: &KelpieContext, id: PackageId) -> String {
    ctx.get_package(id).unwrap().name.clone()
}

#[test]
fn cannot_have_workspace_in_workspace_member() {
    let mut tree = Tree::new();
    tree.manifest("/p/config.toml", workspace_manifest(&["member1"], None));
    let mut member = workspace_manifest(&["sub_member"], None);
    member.package = Some(package("member1"));
    tree.manifest("/p/member1/config.toml", member);
    let (_, r) = resolve(&tree, "/p");
    assert_eq!(printed(&r), "error cannot have workspace in a workspace member config file");
    assert_eq!(r.unwrap_err(), ConfigError::WorkspaceInMember);
}

#[test]
fn workspace_must_have_valid_member_paths() {
    let mut tree = Tree::new();
    tree.manifest("/p/config.toml", workspace_manifest(&["non_existent_package"], None));
    let (_, r) = resolve(&tree, "/p");
    assert_eq!(printed(&r), "error no config file found in workspace member: non_existent_package");
    assert_eq!(r.unwrap_err(), ConfigError::MemberConfigMissing("non_existent_package".to_string()));
}

#[test]
fn workspace_supports_glob_patterns() {
    let mut tree = Tree::new();
    tree.manifest("/p/config.toml", workspace_manifest(&["packages/*"], None));
    lib_package(&mut tree, "/p/packages/pkg1", "pkg1", None);
    lib_package(&mut tree, "/p/packages/pkg2", "pkg2", None);
    let (ctx, r) = resolve(&tree, "/p");
    let id = r.unwrap();
    match &ctx.get_project(id).unwrap().kind {
        ProjectKind::Workspace(w) => {
            let names: Vec<String> = w.members.iter().map(|m| package_named(&ctx, *m)).collect();
            assert_eq!(names, vec!["pkg1".to_string(), "pkg2".to_string()]);
        },
        ProjectKind::Package(_) => panic!("expected a workspace"),
    }
    let mut graph = DependencyGraph::new();
    graph.build_from_project(&ctx, id);
    let order = graph.get_compilation_order().unwrap();
    let mut names: Vec<String> = order.iter().map(|p| package_named(&ctx, *p)).collect();
    names.sort();
    assert_eq!(names, vec!["pkg1".to_string(), "pkg2".to_string()]);
}

#[test]
fn empty_glob_pattern_is_error() {
    let mut tree = Tree::new();
    tree.manifest("/p/config.toml", workspace_manifest(&["packages/*"], None));
    let (_, r) = resolve(&tree, "/p");
    assert_eq!(printed(&r), "error no matching paths found for workspace members");
    assert_eq!(r.unwrap_err(), ConfigError::NoMatchingMembers);
}

#[test]
fn relative_glob_patterns() {
    let mut tree = Tree::new();
    tree.manifest("/p/config.toml", workspace_manifest(&["./nested/*/pkg"], None));
    lib_package(&mut tree, "/p/nested/a/pkg", "pkg-a", None);
    lib_package(&mut tree, "/p/nested/b/pkg", "pkg-b", None);
    let (ctx, r) = resolve(&tree, "/p");
    let id = r.unwrap();
    match &ctx.get_project(id).unwrap().kind {
        ProjectKind::Workspace(w) => assert_eq!(w.members.len(), 2),
        ProjectKind::Package(_) => panic!("expected a workspace"),
    }
}

#[test]
fn ignores_non_directory_glob_matches() {
    let mut tree = Tree::new();
    tree.manifest("/p/config.toml", workspace_manifest(&["pkg*"], None));
    lib_package(&mut tree, "/p/pkg1", "pkg1", None);
    tree.file("/p/pkg-file.txt");
    let (ctx, r) = resolve(&tree, "/p");
    let id = r.unwrap();
    match &ctx.get_project(id).unwrap().kind {
        ProjectKind::Workspace(w) => {
            assert_eq!(w.members.len(), 1);
            assert_eq!(package_named(&ctx, w.members[0]), "pkg1");
        },
        ProjectKind::Package(_) => panic!("expected a workspace"),
    }
}

#[test]
fn empty_config_file_is_invalid() {
    let mut tree = Tree::new();
    tree.manifest("/p/config.toml", TomlConfig { workspace: None, package: None, dependencies: None });
    let (_, r) = resolve(&tree, "/p");
    assert_eq!(printed(&r), "error no workspace or package defined in config file");
    assert_eq!(r.unwrap_err(), ConfigError::NoWorkspaceOrPackage);
}

#[test]
fn workspace_members_must_have_package_section() {
    let mut tree = Tree::new();
    tree.manifest("/p/config.toml", workspace_manifest(&["member1"], None));
    let deps: TomlDependencies =
        vec![("some_dep".to_string(), TomlDependency::Version("1.0".to_string()))];
    tree.manifest(
        "/p/member1/config.toml",
        TomlConfig { workspace: None, package: None, dependencies: Some(deps) },
    );
    let (_, r) = resolve(&tree, "/p");
    assert_eq!(printed(&r), "error no workspace or package defined in config file");
    assert_eq!(r.unwrap_err(), ConfigError::NoWorkspaceOrPackage);
}

#[test]
fn invalid_glob_pattern_is_error() {
    let mut tree = Tree::new();
    tree.manifest("/p/config.toml", workspace_manifest(&["[invalid-pattern"], None));
    let (_, r) = resolve(&tree, "/p");
    assert_eq!(printed(&r), "error no config file found in workspace member: [invalid-pattern");
    assert_eq!(r.unwrap_err(), ConfigError::MemberConfigMissing("[invalid-pattern".to_string()));
}

#[test]
fn cannot_have_both_workspace_and_deps() {
    let mut tree = Tree::new();
    let ws_deps: TomlDependencies =
        vec![("some_dep".to_string(), TomlDependency::Version("1".to_string()))];
    let root_deps: TomlDependencies =
        vec![("some_dep".to_string(), TomlDependency::Version("1.0".to_string()))];
    let mut cfg = workspace_manifest(&["pkg1"], Some(ws_deps));
    cfg.dependencies = Some(root_deps);
    tree.manifest("/p/config.toml", cfg);
    lib_package(&mut tree, "/p/pkg1", "pkg1", None);
    let (_, r) = resolve(&tree, "/p");
    assert_eq!(printed(&r), "error when in workspace mode, dependencies should be defined in the workspace config file");
    assert_eq!(r.unwrap_err(), ConfigError::DependenciesInTwoPlaces);
}

#[test]
fn dependency_version_is_required() {
    let mut tree = Tree::new();
    lib_package(&mut tree, "/p", "test", Some(vec![path_dep("kelpie", "kelpie", None)]));
    lib_package(&mut tree, "/p/kelpie", "kelpie", None);
    let (_, r) = resolve(&tree, "/p");
    assert_eq!(printed(&r), "error missing version for dependency: kelpie");
    assert_eq!(r.unwrap_err(), ConfigError::MissingVersion("kelpie".to_string()));
}

#[test]
fn dependency_path_has_to_exist() {
    let mut tree = Tree::new();
    lib_package(&mut tree, "/p", "test", Some(vec![path_dep("kelpie", "kelpie", Some("0.1.0"))]));
    let (_, r) = resolve(&tree, "/p");
    assert_eq!(printed(&r), "error couldn't resolve path dependency: kelpie");
    assert_eq!(r.unwrap_err(), ConfigError::UnresolvedPathDependency("kelpie".to_string()));
}

#[test]
fn both_workspace_and_package_is_rejected() {
    let mut tree = Tree::new();
    let mut cfg = workspace_manifest(&["a"], None);
    cfg.package = Some(package("root"));
    tree.manifest("/p/config.toml", cfg);
    let (_, r) = resolve(&tree, "/p");
    assert_eq!(printed(&r), "error cannot have both workspace and package in one config file");
    assert_eq!(r.unwrap_err(), ConfigError::BothWorkspaceAndPackage);
}

#[test]
fn diamond_path_dependencies_share_one_package() {
    let mut tree = Tree::new();
    lib_package(
        &mut tree,
        "/p",
        "app",
        Some(vec![path_dep("left", "left", Some("1")), path_dep("right", "right", Some("1"))]),
    );
    lib_package(&mut tree, "/p/left", "left", Some(vec![path_dep("base", "../base", Some("1"))]));
    lib_package(&mut tree, "/p/right", "right", Some(vec![path_dep("base", "../base", Some("1"))]));
    lib_package(&mut tree, "/p/base", "base", None);
    tree.dir("/p/left/../base");
    tree.manifest("/p/left/../base/config.toml", package_manifest("base", None));
    tree.manifest("/p/right/../base/config.toml", package_manifest("base", None));
    // Canonical forms: both spellings of the base manifest resolve to one path.
    let mut facts = FsFacts::new();
    facts.canonical.push(("/p/left/../base/config.toml".to_string(), Some("/p/base/config.toml".to_string())));
    facts.canonical.push(("/p/right/../base/config.toml".to_string(), Some("/p/base/config.toml".to_string())));
    let cwd = "/p".to_string();
    let mut result = None;
    for _ in 0..1000 {
        let mut ctx = KelpieContext::new();
        match find_config(&cwd, &mut ctx, &facts, &cwd) {
            Ok(id) => {
                result = Some((ctx, id));
                break;
            },
            Err(Halt::Failed(e)) => panic!("unexpected failure {:?}", e),
            Err(Halt::Need(q)) => tree.answer(&mut facts, q),
        }
    }
    let (ctx, _) = result.unwrap();
    let bases = ctx.packages.iter().filter(|p| p.name == "base").count();
    assert_eq!(bases, 1);
    assert_eq!(ctx.packages.len(), 4);
}

#[test]
fn path_dependency_on_binary_is_rejected() {
    let mut tree = Tree::new();
    lib_package(&mut tree, "/p", "app", Some(vec![path_dep("tool", "tool", Some("1"))]));
    let mut tool = package("tool");
    tool.ty = Some(PackageType::Binary);
    tree.manifest(
        "/p/tool/config.toml",
        TomlConfig { workspace: None, package: Some(tool), dependencies: None },
    );
    tree.file("/p/tool/src/main.rs");
    let (_, r) = resolve(&tree, "/p");
    assert_eq!(r.unwrap_err(), ConfigError::ImportBinary("tool".to_string()));
}

#[test]
fn path_dependency_on_workspace_is_rejected() {
    let mut tree = Tree::new();
    lib_package(&mut tree, "/p", "app", Some(vec![path_dep("ws", "ws", Some("1"))]));
    tree.manifest("/p/ws/config.toml", workspace_manifest(&["ws/a"], None));
    lib_package(&mut tree, "/p/ws/a", "a", None);
    let (_, r) = resolve(&tree, "/p");
    assert_eq!(r.unwrap_err(), ConfigError::ImportFromWorkspace("ws".to_string()));
}

#[test]
fn path_dependency_cycle_is_reported() {
    let mut tree = Tree::new();
    lib_package(&mut tree, "/p", "a", Some(vec![path_dep("b", "b", Some("1"))]));
    lib_package(&mut tree, "/p/b", "b", Some(vec![path_dep("a", "..", Some("1"))]));
    tree.manifest("/p/b/../config.toml", package_manifest("a", Some(vec![path_dep("b", "b", Some("1"))])));
    let mut facts = FsFacts::new();
    facts.canonical.push(("/p/b/../config.toml".to_string(), Some("/p/config.toml".to_string())));
    let cwd = "/p".to_string();
    let mut outcome = None;
    for _ in 0..1000 {
        let mut ctx = KelpieContext::new();
        match find_config(&cwd, &mut ctx, &facts, &cwd) {
            Ok(_) => break,
            Err(Halt::Failed(e)) => {
                outcome = Some(e);
                break;
            },
            Err(Halt::Need(q)) => tree.answer(&mut facts, q),
        }
    }
    assert_eq!(outcome, Some(ConfigError::PathCycle("/p/config.toml".to_string())));
}

#[test]
fn entrypoint_must_exist() {
    let mut tree = Tree::new();
    tree.manifest("/p/config.toml", package_manifest("app", None));
    let (_, r) = resolve(&tree, "/p");
    assert_eq!(r.unwrap_err(), ConfigError::EntrypointMissing("app".to_string()));
}

#[test]
fn manifest_is_found_in_an_ancestor() {
    let mut tree = Tree::new();
    lib_package(&mut tree, "/p", "app", None);
    tree.dir("/p/src/deep");
    let (ctx, r) = resolve(&tree, "/p/src/deep");
    let id = r.unwrap();
    match ctx.get_project(id).unwrap().kind {
        ProjectKind::Package(pid) => assert_eq!(package_named(&ctx, pid), "app"),
        ProjectKind::Workspace(_) => panic!("expected a package"),
    }
}

#[test]
fn missing_manifest_everywhere_is_reported() {
    let mut tree = Tree::new();
    tree.dir("/p");
    let (_, r) = resolve(&tree, "/p");
    assert_eq!(r.unwrap_err(), ConfigError::ConfigNotFound);
}

#[test]
fn named_dependency_resolves_through_registry() {
    let mut tree = Tree::new();
    tree.manifest("/p/config.toml", workspace_manifest(&["a", "b"], None));
    lib_package(&mut tree, "/p/a", "a", None);
    lib_package(
        &mut tree,
        "/p/b",
        "b",
        Some(vec![("a".to_string(), TomlDependency::Version("0.1.0".to_string()))]),
    );
    let (ctx, r) = resolve(&tree, "/p");
    let id = r.unwrap();
    let mut graph = DependencyGraph::new();
    graph.build_from_project(&ctx, id);
    let order = graph.get_compilation_order().unwrap();
    let names: Vec<String> = order.iter().map(|p| package_named(&ctx, *p)).collect();
    assert_eq!(names, vec!["a".to_string(), "b".to_string()]);
}

#[test]
fn unknown_named_dependency_is_reported() {
    let mut tree = Tree::new();
    lib_package(
        &mut tree,
        "/p",
        "app",
        Some(vec![("ghost".to_string(), TomlDependency::Version("1".to_string()))]),
    );
    let (_, r) = resolve(&tree, "/p");
    assert_eq!(r.unwrap_err(), ConfigError::UnresolvedDependency("ghost".to_string()));
}
