use kelpie_core::ctx::KelpieContext;
use kelpie_core::facts::{ConfigError, FsFacts, Halt, Query};
use kelpie_core::loader::check_manifest_shape;
use kelpie_core::manifest::{
    Dependency, PackageBuilder, PackageId, PackageType, Project, ProjectKind, TomlConfig,
    TomlPackage, TomlWorkspace, Workspace,
};
use kelpie_core::members::find_workspace_members;
use kelpie_core::order::DependencyGraph;

fn toml_package(name: &str) -> TomlPackage {
    TomlPackage {
        name: name.to_string(),
        version: "1.2.3".to_string(),
        author: Some("someone".to_string()),
        description: None,
        license: None,
        repository: None,
        homepage: None,
        keywords: Some(vec!["k".to_string()]),
        ty: None,
        entrypoint: None,
    }
}

fn strings(v: &[&str]) -> Vec<String> {
    v.iter().map(|s| s.to_string()).collect()
}

#[test]
fn from_toml_defaults_to_library_entrypoint() {
    let b = PackageBuilder::from_toml(toml_package("a"), "/x".to_string());
    assert_eq!(b.ty, PackageType::Library);
    assert_eq!(b.entrypoint, "src/lib.rs");
    assert_eq!(b.name, "a");
    assert_eq!(b.version, "1.2.3");
    assert_eq!(b.author, Some("someone".to_string()));
    assert_eq!(b.root, "/x");
}

#[test]
fn from_toml_binary_default_and_override() {
    let mut p = toml_package("b");
    p.ty = Some(PackageType::Binary);
    let b = PackageBuilder::from_toml(p, "/x".to_string());
    assert_eq!(b.entrypoint, "src/main.rs");
    let mut q = toml_package("c");
    q.entrypoint = Some("lib/entry.rs".to_string());
    let c = PackageBuilder::from_toml(q, "/x".to_string());
    assert_eq!(c.entrypoint, "lib/entry.rs");
    assert_eq!(c.ty, PackageType::Library);
}

#[test]
fn build_keeps_fields_and_id() {
    let b = PackageBuilder::from_toml(toml_package("a"), "/x".to_string());
    let p = b.build(PackageId(7));
    assert_eq!(p.id, PackageId(7));
    assert_eq!(p.name, "a");
}

#[test]
fn shape_rules_in_order() {
    let ws = TomlWorkspace { members: None, dependencies: Some(vec![]) };
    let both = TomlConfig { workspace: Some(ws.clone()), package: Some(toml_package("a")), dependencies: None };
    assert_eq!(check_manifest_shape(&both, false), Some(ConfigError::BothWorkspaceAndPackage));
    assert_eq!(check_manifest_shape(&both, true), Some(ConfigError::WorkspaceInMember));
    let neither = TomlConfig { workspace: None, package: None, dependencies: None };
    assert_eq!(check_manifest_shape(&neither, false), Some(ConfigError::NoWorkspaceOrPackage));
    let twice = TomlConfig { workspace: Some(ws), package: None, dependencies: Some(vec![]) };
    assert_eq!(check_manifest_shape(&twice, false), Some(ConfigError::DependenciesInTwoPlaces));
    let ok = TomlConfig { workspace: None, package: Some(toml_package("a")), dependencies: Some(vec![]) };
    assert_eq!(check_manifest_shape(&ok, false), None);
    assert_eq!(check_manifest_shape(&ok, true), None);
}

#[test]
fn members_are_sorted_deduplicated_directories() {
    let mut facts = FsFacts::new();
    facts.globs.push((
        "/w/pkgs/*".to_string(),
        Ok(vec![
            ("/w/pkgs/zeta".to_string(), true),
            ("/w/pkgs/alpha".to_string(), true),
            ("/w/pkgs/notes.txt".to_string(), false),
        ]),
    ));
    let members = strings(&["pkgs/*", "pkgs/alpha", "./pkgs/*", "lit"]);
    let r = find_workspace_members(&members, &"/w".to_string(), &facts).unwrap();
    assert_eq!(r, strings(&["/w/lit", "/w/pkgs/alpha", "/w/pkgs/zeta"]));
}

#[test]
fn members_ask_for_unknown_glob() {
    let facts = FsFacts::new();
    match find_workspace_members(&strings(&["a/*"]), &"/w".to_string(), &facts) {
        Err(Halt::Need(Query::Glob(p))) => assert_eq!(p, "/w/a/*"),
        other => panic!("unexpected {:?}", other),
    }
}

#[test]
fn members_empty_is_error() {
    let mut facts = FsFacts::new();
    facts.globs.push(("/w/a/*".to_string(), Ok(vec![("/w/a/f".to_string(), false)])));
    match find_workspace_members(&strings(&["a/*"]), &"/w".to_string(), &facts) {
        Err(Halt::Failed(e)) => assert_eq!(e, ConfigError::NoMatchingMembers),
        other => panic!("unexpected {:?}", other),
    }
}

#[test]
fn members_invalid_glob_syntax_is_error() {
    let facts = FsFacts::new();
    match find_workspace_members(&strings(&["[x*"]), &"/w".to_string(), &facts) {
        Err(Halt::Failed(ConfigError::InvalidGlob(m, _))) => assert_eq!(m, "[x*"),
        other => panic!("unexpected {:?}", other),
    }
}

#[test]
fn members_glob_failure_is_error() {
    let mut facts = FsFacts::new();
    facts.globs.push(("/w/a/*".to_string(), Err("denied".to_string())));
    match find_workspace_members(&strings(&["a/*"]), &"/w".to_string(), &facts) {
        Err(Halt::Failed(e)) => assert_eq!(e, ConfigError::GlobEntry("denied".to_string())),
        other => panic!("unexpected {:?}", other),
    }
}

fn ctx_with(names: &[&str]) -> (KelpieContext, Vec<PackageId>) {
    let mut ctx = KelpieContext::new();
    let ids = names
        .iter()
        .map(|n| ctx.add_package(PackageBuilder::from_toml(toml_package(n), "/r".to_string())))
        .collect();
    (ctx, ids)
}

fn dep(id: PackageId) -> Dependency {
    Dependency { id, version: "1".to_string() }
}

#[test]
fn compilation_order_puts_dependencies_first() {
    let (mut ctx, ids) = ctx_with(&["app", "mid", "base"]);
    let project = Project::new(ProjectKind::Package(ids[1]), vec![dep(ids[2])]);
    ctx.add_project(project, "/r/mid/config.toml".to_string());
    let root = ctx.add_project(
        Project::new(ProjectKind::Package(ids[0]), vec![dep(ids[1]), dep(ids[2])]),
        "/r/config.toml".to_string(),
    );
    let mut g = DependencyGraph::new();
    g.build_from_project(&ctx, root);
    g.add_dependency(ids[1], ids[2]);
    let order = g.get_compilation_order().unwrap();
    assert_eq!(order, vec![ids[2], ids[1], ids[0]]);
}

#[test]
fn workspace_members_get_workspace_and_own_edges() {
    let (mut ctx, ids) = ctx_with(&["a", "b", "shared"]);
    ctx.add_project(Project::new(ProjectKind::Package(ids[0]), vec![dep(ids[1])]), "/r/a/config.toml".to_string());
    ctx.add_project(Project::new(ProjectKind::Package(ids[1]), vec![]), "/r/b/config.toml".to_string());
    ctx.add_project(Project::new(ProjectKind::Package(ids[2]), vec![]), "/r/s/config.toml".to_string());
    let ws = ctx.add_project(
        Project::new(ProjectKind::Workspace(Workspace { members: vec![ids[0], ids[1]] }), vec![dep(ids[2])]),
        "/r/config.toml".to_string(),
    );
    let mut g = DependencyGraph::new();
    g.build_from_project(&ctx, ws);
    let order = g.get_compilation_order().unwrap();
    let pos = |p: PackageId| order.iter().position(|x| *x == p).unwrap();
    assert_eq!(order.len(), 3);
    assert!(pos(ids[2]) < pos(ids[0]));
    assert!(pos(ids[2]) < pos(ids[1]));
    assert!(pos(ids[1]) < pos(ids[0]));
}

#[test]
fn mutual_dependency_is_a_cycle() {
    let mut g = DependencyGraph::new();
    g.add_dependency(PackageId(0), PackageId(1));
    g.add_dependency(PackageId(1), PackageId(0));
    assert_eq!(g.get_compilation_order(), Err(ConfigError::CircularDependency));
}

#[test]
fn self_dependency_is_a_cycle() {
    let mut g = DependencyGraph::new();
    g.add_dependency(PackageId(3), PackageId(3));
    assert_eq!(g.get_compilation_order(), Err(ConfigError::CircularDependency));
}

#[test]
fn duplicate_edges_are_added_once() {
    let mut g = DependencyGraph::new();
    g.add_dependency(PackageId(0), PackageId(1));
    g.add_dependency(PackageId(0), PackageId(1));
    assert_eq!(g.get_compilation_order().unwrap(), vec![PackageId(1), PackageId(0)]);
}

#[test]
fn name_index_keeps_last_registration() {
    let (ctx, ids) = ctx_with(&["dup", "other", "dup"]);
    assert_eq!(ctx.get_package_by_name("dup").unwrap().id, ids[2]);
    assert!(ctx.get_package_by_name("missing").is_none());
}

#[test]
fn project_lookup_by_path_and_package() {
    let (mut ctx, ids) = ctx_with(&["a"]);
    let pid = ctx.add_project(Project::new(ProjectKind::Package(ids[0]), vec![]), "/r/config.toml".to_string());
    assert_eq!(ctx.find_project_by_path(&"/r/config.toml".to_string()), Some(pid));
    assert_eq!(ctx.find_project_by_path(&"/q/config.toml".to_string()), None);
    assert_eq!(ctx.find_project_by_package_id(ids[0]), Some(pid));
    assert!(ctx.get_project(pid).is_some());
}

#[test]
fn project_can_be_edited_in_place() {
    let (mut ctx, ids) = ctx_with(&["a", "b"]);
    let pid = ctx.add_project(Project::new(ProjectKind::Package(ids[0]), vec![]), "/r/config.toml".to_string());
    ctx.get_project_mut(pid).unwrap().dependencies.push(dep(ids[1]));
    assert_eq!(ctx.get_project(pid).unwrap().dependencies.len(), 1);
    assert!(ctx.get_project_mut(kelpie_core::manifest::ProjectId(9)).is_none());
}

#[test]
fn error_messages_are_stable() {
    assert_eq!(ConfigError::ImportBinary("t".to_string()).message(), "can't import package t which is a binary");
    assert_eq!(ConfigError::ImportFromWorkspace("w".to_string()).message(), "can't import package w from workspace");
    assert_eq!(ConfigError::UnresolvedDependency("d".to_string()).message(), "couldn't resolve dependency: d");
    assert_eq!(ConfigError::CircularDependency.message(), "Circular dependency detected in the project");
    assert_eq!(ConfigError::EntrypointMissing("p".to_string()).message(), "entrypoint of package p doesn't exist");
    assert_eq!(
        ConfigError::InvalidGlob("[*".to_string(), "bad".to_string()).message(),
        "invalid glob pattern '[*': bad"
    );
    assert_eq!(
        ConfigError::ConfigNotFound.message(),
        "No config.toml found in current directory or any parent directory"
    );
}

#[test]
fn default_values_are_empty() {
    let ctx = KelpieContext::default();
    assert!(ctx.packages.is_empty() && ctx.projects.is_empty());
    let g = DependencyGraph::default();
    assert_eq!(g.get_compilation_order().unwrap(), Vec::<PackageId>::new());
}

#[test]
fn package_root_without_dependencies_is_a_node() {
    let (mut ctx, ids) = ctx_with(&["solo"]);
    let root = ctx.add_project(Project::new(ProjectKind::Package(ids[0]), vec![]), "/r/config.toml".to_string());
    let mut g = DependencyGraph::new();
    g.build_from_project(&ctx, root);
    g.build_from_project(&ctx, root);
    assert_eq!(g.get_compilation_order().unwrap(), vec![ids[0]]);
}
