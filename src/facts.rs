use crate::manifest::TomlConfig;
use vstd::prelude::*;
use vstd::string::StringExecFns;

verus! {

/// The value most recently recorded for key `k` in an association list.
pub open spec fn latest<V>(s: Seq<(String, V)>, k: Seq<char>) -> Option<V>
    decreases s.len(),
{
    if s.len() == 0 {
        None
    } else if s.last().0@ == k {
        Some(s.last().1)
    } else {
        latest(s.drop_last(), k)
    }
}

/// Position of the entry that `latest` reads, if there is one.
pub open spec fn latest_index<V>(s: Seq<(String, V)>, k: Seq<char>) -> Option<int>
    decreases s.len(),
{
    if s.len() == 0 {
        None
    } else if s.last().0@ == k {
        Some(s.len() - 1)
    } else {
        latest_index(s.drop_last(), k)
    }
}

/// Index of the entry that `latest` reads, if there is one.
pub fn find_latest<V>(s: &Vec<(String, V)>, k: &String) -> (r: Option<usize>)
    ensures
        match r {
            Some(i) => i < s@.len() && s@[i as int].0@ == k@ && latest(s@, k@) == Some(
                s@[i as int].1,
            ),
            None => latest(s@, k@) is None,
        },
        match r {
            Some(i) => latest_index(s@, k@) == Some(i as int),
            None => latest_index(s@, k@) is None,
        },
{
    let mut i: usize = s.len();
    proof {
        assert(s@.take(s@.len() as int) =~= s@);
    }
    while i > 0
        invariant
            i <= s@.len(),
            latest(s@, k@) == latest(s@.take(i as int), k@),
            latest_index(s@, k@) == latest_index(s@.take(i as int), k@),
        decreases i,
    {
        proof {
            assert(s@.take(i as int).drop_last() =~= s@.take(i - 1));
        }
        if s[i - 1].0 == *k {
            return Some(i - 1);
        }
        i = i - 1;
    }
    None
}

/// A question about the file system that resolution needs answered before it can go on.
#[derive(Clone, Debug)]
pub enum Query {
    /// The canonical form of a path, if the path exists.
    Canonicalize(String),
    /// Whether a path exists.
    Exists(String),
    /// The decoded manifest at a canonical path.
    ReadManifest(String),
    /// The entries that a glob pattern matches, each with whether it is a directory.
    Glob(String),
}

/// A glob match: the path and whether it is a directory.
pub type GlobEntry = (String, bool);

/// What is known of the file system: answers to earlier queries, keyed by their argument.
#[derive(Clone, Debug)]
pub struct FsFacts {
    pub canonical: Vec<(String, Option<String>)>,
    pub exists: Vec<(String, bool)>,
    pub manifests: Vec<(String, Result<TomlConfig, String>)>,
    pub globs: Vec<(String, Result<Vec<GlobEntry>, String>)>,
}

impl FsFacts {
    pub fn new() -> (r: Self)
        ensures
            r.canonical@.len() == 0,
            r.exists@.len() == 0,
            r.manifests@.len() == 0,
            r.globs@.len() == 0,
    {
        FsFacts { canonical: Vec::new(), exists: Vec::new(), manifests: Vec::new(), globs: Vec::new() }
    }
}

/// Why a resolution failed.
#[derive(Clone, Debug, PartialEq, Eq)]
pub enum ConfigError {
    /// No manifest in the start directory or any of its ancestors.
    ConfigNotFound,
    /// A path that does not exist could not be canonicalized.
    CannotCanonicalize(String),
    /// A manifest could not be read or decoded; the path and the reason.
    Manifest(String, String),
    BothWorkspaceAndPackage,
    NoWorkspaceOrPackage,
    WorkspaceInMember,
    DependenciesInTwoPlaces,
    /// A workspace member directory holds no manifest; the directory's name.
    MemberConfigMissing(String),
    /// A member pattern is not valid glob syntax; the pattern and the reason.
    InvalidGlob(String, String),
    /// Expanding a glob pattern failed; the reason.
    GlobEntry(String),
    NoMatchingMembers,
    MissingVersion(String),
    UnresolvedPathDependency(String),
    ImportFromWorkspace(String),
    ImportBinary(String),
    UnresolvedDependency(String),
    EntrypointMissing(String),
    /// A manifest was reached again while it was still being loaded.
    PathCycle(String),
    CircularDependency,
}


/// The text that reports an error to a user.
pub open spec fn message_of(e: ConfigError) -> Seq<char> {
    match e {
            ConfigError::ConfigNotFound => "No config.toml found in current directory or any parent directory"@,
            ConfigError::CannotCanonicalize(p) => "couldn't canonicalize path: "@ + p@,
            ConfigError::BothWorkspaceAndPackage => "cannot have both workspace and package in one config file"@,
            ConfigError::NoWorkspaceOrPackage => "no workspace or package defined in config file"@,
            ConfigError::WorkspaceInMember => "cannot have workspace in a workspace member config file"@,
            ConfigError::DependenciesInTwoPlaces => "when in workspace mode, dependencies should be defined in the workspace config file"@,
            ConfigError::MemberConfigMissing(n) => "no config file found in workspace member: "@ + n@,
            ConfigError::GlobEntry(e) => "failed to process glob entry: "@ + e@,
            ConfigError::NoMatchingMembers => "no matching paths found for workspace members"@,
            ConfigError::MissingVersion(n) => "missing version for dependency: "@ + n@,
            ConfigError::UnresolvedPathDependency(n) => "couldn't resolve path dependency: "@ + n@,
            ConfigError::ImportFromWorkspace(n) => "can't import package "@ + n@ + " from workspace"@,
            ConfigError::ImportBinary(n) => "can't import package "@ + n@ + " which is a binary"@,
            ConfigError::UnresolvedDependency(n) => "couldn't resolve dependency: "@ + n@,
            ConfigError::EntrypointMissing(n) => "entrypoint of package "@ + n@ + " doesn't exist"@,
            ConfigError::PathCycle(p) => "circular path dependency through "@ + p@,
            ConfigError::CircularDependency => "Circular dependency detected in the project"@,
            ConfigError::Manifest(p, e) => "invalid config file "@ + p@ + ": "@ + e@,
            ConfigError::InvalidGlob(m, e) => "invalid glob pattern '"@ + m@ + "': "@ + e@,
    }
}

impl ConfigError {
    /// The text that reports this error to a user.
    pub fn message(&self) -> (r: String)
        ensures
            r@ == message_of(*self),
    {
        match self {
            ConfigError::ConfigNotFound => {
                proof {
                    reveal_strlit("No config.toml found in current directory or any parent directory");
                }
                String::from_str("No config.toml found in current directory or any parent directory")
            },
            ConfigError::CannotCanonicalize(p) => {
                proof {
                    reveal_strlit("couldn't canonicalize path: ");
                }
                String::from_str("couldn't canonicalize path: ").concat(p.as_str())
            },
            ConfigError::BothWorkspaceAndPackage => {
                proof {
                    reveal_strlit("cannot have both workspace and package in one config file");
                }
                String::from_str("cannot have both workspace and package in one config file")
            },
            ConfigError::NoWorkspaceOrPackage => {
                proof {
                    reveal_strlit("no workspace or package defined in config file");
                }
                String::from_str("no workspace or package defined in config file")
            },
            ConfigError::WorkspaceInMember => {
                proof {
                    reveal_strlit("cannot have workspace in a workspace member config file");
                }
                String::from_str("cannot have workspace in a workspace member config file")
            },
            ConfigError::DependenciesInTwoPlaces => {
                proof {
                    reveal_strlit("when in workspace mode, dependencies should be defined in the workspace config file");
                }
                String::from_str("when in workspace mode, dependencies should be defined in the workspace config file")
            },
            ConfigError::MemberConfigMissing(n) => {
                proof {
                    reveal_strlit("no config file found in workspace member: ");
                }
                String::from_str("no config file found in workspace member: ").concat(n.as_str())
            },
            ConfigError::GlobEntry(e) => {
                proof {
                    reveal_strlit("failed to process glob entry: ");
                }
                String::from_str("failed to process glob entry: ").concat(e.as_str())
            },
            ConfigError::NoMatchingMembers => {
                proof {
                    reveal_strlit("no matching paths found for workspace members");
                }
                String::from_str("no matching paths found for workspace members")
            },
            ConfigError::MissingVersion(n) => {
                proof {
                    reveal_strlit("missing version for dependency: ");
                }
                String::from_str("missing version for dependency: ").concat(n.as_str())
            },
            ConfigError::UnresolvedPathDependency(n) => {
                proof {
                    reveal_strlit("couldn't resolve path dependency: ");
                }
                String::from_str("couldn't resolve path dependency: ").concat(n.as_str())
            },
            ConfigError::ImportFromWorkspace(n) => {
                proof {
                    reveal_strlit("can't import package ");
                    reveal_strlit(" from workspace");
                }
                String::from_str("can't import package ").concat(n.as_str()).concat(" from workspace")
            },
            ConfigError::ImportBinary(n) => {
                proof {
                    reveal_strlit("can't import package ");
                    reveal_strlit(" which is a binary");
                }
                String::from_str("can't import package ").concat(n.as_str()).concat(" which is a binary")
            },
            ConfigError::UnresolvedDependency(n) => {
                proof {
                    reveal_strlit("couldn't resolve dependency: ");
                }
                String::from_str("couldn't resolve dependency: ").concat(n.as_str())
            },
            ConfigError::EntrypointMissing(n) => {
                proof {
                    reveal_strlit("entrypoint of package ");
                    reveal_strlit(" doesn't exist");
                }
                String::from_str("entrypoint of package ").concat(n.as_str()).concat(" doesn't exist")
            },
            ConfigError::PathCycle(p) => {
                proof {
                    reveal_strlit("circular path dependency through ");
                }
                String::from_str("circular path dependency through ").concat(p.as_str())
            },
            ConfigError::CircularDependency => {
                proof {
                    reveal_strlit("Circular dependency detected in the project");
                }
                String::from_str("Circular dependency detected in the project")
            },
            ConfigError::Manifest(p, e) => {
                proof {
                    reveal_strlit("invalid config file ");
                    reveal_strlit(": ");
                }
                String::from_str("invalid config file ").concat(p.as_str()).concat(": ").concat(e.as_str())
            },
            ConfigError::InvalidGlob(m, e) => {
                proof {
                    reveal_strlit("invalid glob pattern '");
                    reveal_strlit("': ");
                }
                String::from_str("invalid glob pattern '").concat(m.as_str()).concat("': ").concat(e.as_str())
            },
        }
    }
}

/// Why resolution stopped: a question to answer first, or a failure.
#[derive(Clone, Debug)]
pub enum Halt {
    Need(Query),
    Failed(ConfigError),
}

} // verus!
