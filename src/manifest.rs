use vstd::prelude::*;

verus! {

/// Name of the manifest file looked for in every package or workspace directory.
pub const CONFIG_FILE: &'static str = "config.toml";

/// A decoded manifest, mirroring the file's shape, not yet validated.
#[derive(Clone, Debug)]
pub struct TomlConfig {
    pub workspace: Option<TomlWorkspace>,
    pub package: Option<TomlPackage>,
    pub dependencies: Option<TomlDependencies>,
}

/// The `[workspace]` section of a manifest.
#[derive(Clone, Debug)]
pub struct TomlWorkspace {
    pub members: Option<Vec<String>>,
    pub dependencies: Option<TomlDependencies>,
}

/// The `[package]` section of a manifest.
#[derive(Clone, Debug)]
pub struct TomlPackage {
    pub name: String,
    pub version: String,
    pub author: Option<String>,
    pub description: Option<String>,
    pub license: Option<String>,
    pub repository: Option<String>,
    pub homepage: Option<String>,
    pub keywords: Option<Vec<String>>,
    pub ty: Option<PackageType>,
    pub entrypoint: Option<String>,
}

#[derive(Clone, Copy, Debug, PartialEq, Eq, Structural)]
pub enum PackageType {
    Library,
    Binary,
}

/// A dependency map: dependency name and its declared form, in file order.
pub type TomlDependencies = Vec<(String, TomlDependency)>;

/// One declared dependency: a bare version string or a detailed table.
#[derive(Clone, Debug)]
pub enum TomlDependency {
    Version(String),
    Detailed(DetailedDependency),
}

#[derive(Clone, Debug)]
pub struct DetailedDependency {
    pub version: Option<String>,
    pub path: Option<String>,
}

/// Identity of a package: its index in the context's package arena.
#[derive(Clone, Copy, Debug, PartialEq, Eq, Hash, Structural)]
pub struct PackageId(pub usize);

/// Identity of a project: its index in the context's project arena.
#[derive(Clone, Copy, Debug, PartialEq, Eq, Hash, Structural)]
pub struct ProjectId(pub usize);

/// The resolved unit of one manifest file.
#[derive(Clone, Debug)]
pub struct Project {
    pub kind: ProjectKind,
    pub dependencies: Vec<Dependency>,
}

impl Project {
    pub fn new(kind: ProjectKind, dependencies: Vec<Dependency>) -> (r: Self)
        ensures
            r.kind == kind,
            r.dependencies == dependencies,
    {
        Self { kind, dependencies }
    }
}

#[derive(Clone, Debug)]
pub enum ProjectKind {
    Workspace(Workspace),
    Package(PackageId),
}

#[derive(Clone, Debug)]
pub struct Workspace {
    pub members: Vec<PackageId>,
}

/// A resolved dependency: the target package and the version string declared for it.
#[derive(Clone, Debug)]
pub struct Dependency {
    pub id: PackageId,
    pub version: String,
}

#[derive(Clone, Debug)]
pub struct Package {
    pub id: PackageId,
    pub name: String,
    pub version: String,
    pub author: Option<String>,
    pub description: Option<String>,
    pub license: Option<String>,
    pub repository: Option<String>,
    pub homepage: Option<String>,
    pub keywords: Option<Vec<String>>,
    pub ty: PackageType,
    pub entrypoint: String,
    /// Directory of the package's manifest; the entrypoint is relative to it.
    pub root: String,
}

/// A package that has not been given an identity yet.
#[derive(Clone, Debug)]
pub struct PackageBuilder {
    pub name: String,
    pub version: String,
    pub author: Option<String>,
    pub description: Option<String>,
    pub license: Option<String>,
    pub repository: Option<String>,
    pub homepage: Option<String>,
    pub keywords: Option<Vec<String>>,
    pub ty: PackageType,
    pub entrypoint: String,
    pub root: String,
}

/// The entrypoint used when the manifest names none.
pub open spec fn default_entrypoint(ty: PackageType) -> Seq<char> {
    match ty {
        PackageType::Library => "src/lib.rs"@,
        PackageType::Binary => "src/main.rs"@,
    }
}

/// The kind a package section declares, `Library` when it declares none.
pub open spec fn declared_type(p: TomlPackage) -> PackageType {
    match p.ty {
        Some(t) => t,
        None => PackageType::Library,
    }
}

/// The entrypoint a package section declares, or the default for its kind.
pub open spec fn declared_entrypoint(p: TomlPackage) -> Seq<char> {
    match p.entrypoint {
        Some(e) => e@,
        None => default_entrypoint(declared_type(p)),
    }
}

/// The package a builder turns into once given an identity.
pub open spec fn built(b: PackageBuilder, id: PackageId) -> Package {
    Package {
        id,
        name: b.name,
        version: b.version,
        author: b.author,
        description: b.description,
        license: b.license,
        repository: b.repository,
        homepage: b.homepage,
        keywords: b.keywords,
        ty: b.ty,
        entrypoint: b.entrypoint,
        root: b.root,
    }
}

impl PackageBuilder {
    pub fn from_toml(toml_package: TomlPackage, root: String) -> (r: Self)
        ensures
            r.name == toml_package.name,
            r.version == toml_package.version,
            r.author == toml_package.author,
            r.description == toml_package.description,
            r.license == toml_package.license,
            r.repository == toml_package.repository,
            r.homepage == toml_package.homepage,
            r.keywords == toml_package.keywords,
            r.ty == declared_type(toml_package),
            r.entrypoint@ == declared_entrypoint(toml_package),
            r.root == root,
    {
        let ty = match toml_package.ty {
            Some(t) => t,
            None => PackageType::Library,
        };
        let entrypoint = match toml_package.entrypoint {
            Some(e) => e,
            None => match ty {
                PackageType::Library => {
                    proof { reveal_strlit("src/lib.rs"); }
                    String::from_str("src/lib.rs")
                },
                PackageType::Binary => {
                    proof { reveal_strlit("src/main.rs"); }
                    String::from_str("src/main.rs")
                },
            },
        };
        Self {
            name: toml_package.name,
            version: toml_package.version,
            author: toml_package.author,
            description: toml_package.description,
            license: toml_package.license,
            repository: toml_package.repository,
            homepage: toml_package.homepage,
            keywords: toml_package.keywords,
            ty,
            entrypoint,
            root,
        }
    }

    pub fn build(self, id: PackageId) -> (r: Package)
        ensures
            r == built(self, id),
    {
        Package {
            id,
            name: self.name,
            version: self.version,
            author: self.author,
            description: self.description,
            license: self.license,
            repository: self.repository,
            homepage: self.homepage,
            keywords: self.keywords,
            ty: self.ty,
            entrypoint: self.entrypoint,
            root: self.root,
        }
    }
}

} // verus!
