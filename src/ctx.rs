use crate::facts::{find_latest, latest};
use crate::manifest::{built, Package, PackageBuilder, PackageId, Project, ProjectId, ProjectKind};
use vstd::prelude::*;

verus! {

/// Whether every package identity that a project mentions is below `n`.
pub open spec fn project_refs_below(p: Project, n: nat) -> bool {
    &&& forall|d: int| 0 <= d < p.dependencies@.len() ==> (#[trigger] p.dependencies@[d]).id.0 < n
    &&& match p.kind {
        ProjectKind::Package(id) => id.0 < n,
        ProjectKind::Workspace(w) => forall|m: int|
            0 <= m < w.members@.len() ==> (#[trigger] w.members@[m]).0 < n,
    }
}

/// Whether a project is the one registered for package `pid`.
pub open spec fn is_project_of(p: Project, pid: PackageId) -> bool {
    p.kind == ProjectKind::Package(pid)
}

/// Everything discovered during one resolution: two arenas and the indices into them.
#[derive(Debug)]
pub struct KelpieContext {
    pub projects: Vec<Project>,
    pub packages: Vec<Package>,
    /// Canonical manifest path to the project loaded from it.
    pub path_to_project: Vec<(String, ProjectId)>,
    /// Package name to the package last registered under it.
    pub name_to_package: Vec<(String, PackageId)>,
}

impl KelpieContext {
    /// Every identity stored anywhere in the context names an existing entry.
    pub open spec fn wf(&self) -> bool {
        &&& forall|i: int|
            0 <= i < self.packages@.len() ==> (#[trigger] self.packages@[i]).id == PackageId(
                i as usize,
            )
        &&& forall|i: int|
            0 <= i < self.projects@.len() ==> project_refs_below(
                #[trigger] self.projects@[i],
                self.packages@.len(),
            )
        &&& forall|k: int|
            0 <= k < self.path_to_project@.len() ==> (#[trigger] self.path_to_project@[k]).1.0
                < self.projects@.len()
        &&& forall|k: int|
            0 <= k < self.name_to_package@.len() ==> (#[trigger] self.name_to_package@[k]).1.0
                < self.packages@.len() && self.packages@[self.name_to_package@[k].1.0 as int].name@
                == self.name_to_package@[k].0@
    }

    /// `self` holds everything `old` held, with new entries only appended.
    pub open spec fn extends(&self, old: &KelpieContext) -> bool {
        &&& old.projects@.len() <= self.projects@.len()
        &&& old.packages@.len() <= self.packages@.len()
        &&& old.path_to_project@.len() <= self.path_to_project@.len()
        &&& old.name_to_package@.len() <= self.name_to_package@.len()
        &&& self.projects@.take(old.projects@.len() as int) == old.projects@
        &&& self.packages@.take(old.packages@.len() as int) == old.packages@
        &&& self.path_to_project@.take(old.path_to_project@.len() as int) == old.path_to_project@
        &&& self.name_to_package@.take(old.name_to_package@.len() as int) == old.name_to_package@
    }

    pub fn new() -> (r: Self)
        ensures
            r.wf(),
            r.projects@.len() == 0,
            r.packages@.len() == 0,
            r.path_to_project@.len() == 0,
            r.name_to_package@.len() == 0,
    {
        KelpieContext {
            projects: Vec::new(),
            packages: Vec::new(),
            path_to_project: Vec::new(),
            name_to_package: Vec::new(),
        }
    }

    pub fn get_project(&self, id: ProjectId) -> (r: Option<&Project>)
        ensures
            match r {
                Some(p) => id.0 < self.projects@.len() && *p == self.projects@[id.0 as int],
                None => id.0 >= self.projects@.len(),
            },
    {
        if id.0 < self.projects.len() {
            Some(&self.projects[id.0])
        } else {
            None
        }
    }

    pub fn get_project_mut(&mut self, id: ProjectId) -> (r: Option<&mut Project>)
        ensures
            id.0 < old(self).projects@.len() <==> r is Some,
            r matches Some(p) ==> *p == old(self).projects@[id.0 as int],
    {
        if id.0 < self.projects.len() {
            Some(&mut self.projects[id.0])
        } else {
            None
        }
    }

    pub fn get_package(&self, id: PackageId) -> (r: Option<&Package>)
        ensures
            match r {
                Some(p) => id.0 < self.packages@.len() && *p == self.packages@[id.0 as int],
                None => id.0 >= self.packages@.len(),
            },
    {
        if id.0 < self.packages.len() {
            Some(&self.packages[id.0])
        } else {
            None
        }
    }

    /// The package last registered under `name`.
    pub fn get_package_by_name(&self, name: &str) -> (r: Option<&Package>)
        requires
            self.wf(),
        ensures
            match latest(self.name_to_package@, name@) {
                Some(id) => r == Some(&self.packages@[id.0 as int]),
                None => r is None,
            },
    {
        let key = String::from_str(name);
        match find_latest(&self.name_to_package, &key) {
            Some(k) => Some(&self.packages[self.name_to_package[k].1.0]),
            None => None,
        }
    }

    /// The project loaded from a canonical manifest path, if it was loaded.
    pub fn find_project_by_path(&self, canonical_path: &String) -> (r: Option<ProjectId>)
        requires
            self.wf(),
        ensures
            r == latest(self.path_to_project@, canonical_path@),
            r matches Some(id) ==> id.0 < self.projects@.len(),
    {
        match find_latest(&self.path_to_project, canonical_path) {
            Some(k) => Some(self.path_to_project[k].1),
            None => None,
        }
    }

    /// The first project registered for package `pid`.
    pub fn find_project_by_package_id(&self, pid: PackageId) -> (r: Option<ProjectId>)
        ensures
            match r {
                Some(id) => id.0 < self.projects@.len() && is_project_of(
                    self.projects@[id.0 as int],
                    pid,
                ) && forall|j: int| 0 <= j < id.0 ==> !is_project_of(#[trigger] self.projects@[j], pid),
                None => forall|j: int|
                    0 <= j < self.projects@.len() ==> !is_project_of(#[trigger] self.projects@[j], pid),
            },
    {
        let mut i: usize = 0;
        while i < self.projects.len()
            invariant
                i <= self.projects@.len(),
                forall|j: int| 0 <= j < i ==> !is_project_of(#[trigger] self.projects@[j], pid),
            decreases self.projects@.len() - i,
        {
            match self.projects[i].kind {
                ProjectKind::Package(p) => {
                    if p == pid {
                        return Some(ProjectId(i));
                    }
                },
                ProjectKind::Workspace(_) => {},
            }
            i = i + 1;
        }
        None
    }

    /// Registers a project loaded from `manifest_path` and returns its new identity.
    pub fn add_project(&mut self, project: Project, manifest_path: String) -> (r: ProjectId)
        requires
            old(self).wf(),
            project_refs_below(project, old(self).packages@.len()),
        ensures
            final(self).wf(),
            final(self).extends(old(self)),
            r.0 == old(self).projects@.len(),
            final(self).projects@ == old(self).projects@.push(project),
            final(self).path_to_project@ == old(self).path_to_project@.push((manifest_path, r)),
            final(self).packages@ == old(self).packages@,
            final(self).name_to_package@ == old(self).name_to_package@,
    {
        let id = ProjectId(self.projects.len());
        self.projects.push(project);
        self.path_to_project.push((manifest_path, id));
        proof {
            let s = *final(self);
            assert(s.projects@.take(old(self).projects@.len() as int) =~= old(self).projects@);
            assert(s.path_to_project@.take(old(self).path_to_project@.len() as int)
                =~= old(self).path_to_project@);
            assert(s.packages@.take(old(self).packages@.len() as int) =~= old(self).packages@);
            assert(s.name_to_package@.take(old(self).name_to_package@.len() as int)
                =~= old(self).name_to_package@);
            assert forall|i: int| 0 <= i < s.projects@.len() implies project_refs_below(
                #[trigger] s.projects@[i],
                s.packages@.len(),
            ) by {
                if i < old(self).projects@.len() {
                    assert(s.projects@[i] == old(self).projects@[i]);
                }
            }
        }
        id
    }

    /// Registers a package under its name, replacing any earlier entry of that name.
    pub fn add_package(&mut self, package_builder: PackageBuilder) -> (r: PackageId)
        requires
            old(self).wf(),
        ensures
            final(self).wf(),
            final(self).extends(old(self)),
            r.0 == old(self).packages@.len(),
            final(self).packages@ == old(self).packages@.push(built(package_builder, r)),
            final(self).name_to_package@ == old(self).name_to_package@.push(
                (package_builder.name, r),
            ),
            final(self).projects@ == old(self).projects@,
            final(self).path_to_project@ == old(self).path_to_project@,
    {
        let name = package_builder.name.clone();
        let id = PackageId(self.packages.len());
        let package = package_builder.build(id);
        self.packages.push(package);
        self.name_to_package.push((name, id));
        proof {
            let s = *final(self);
            assert(s.projects@.take(old(self).projects@.len() as int) =~= old(self).projects@);
            assert(s.path_to_project@.take(old(self).path_to_project@.len() as int)
                =~= old(self).path_to_project@);
            assert(s.packages@.take(old(self).packages@.len() as int) =~= old(self).packages@);
            assert(s.name_to_package@.take(old(self).name_to_package@.len() as int)
                =~= old(self).name_to_package@);
            assert forall|k: int|
                0 <= k < s.name_to_package@.len() implies (#[trigger] s.name_to_package@[k]).1.0
                < s.packages@.len() && s.packages@[s.name_to_package@[k].1.0 as int].name@
                == s.name_to_package@[k].0@ by {
                if k < old(self).name_to_package@.len() {
                    assert(s.name_to_package@[k] == old(self).name_to_package@[k]);
                    assert(s.packages@[s.name_to_package@[k].1.0 as int] == old(self).packages@[s.name_to_package@[k].1.0 as int]);
                }
            }
            assert forall|i: int| 0 <= i < s.projects@.len() implies project_refs_below(
                #[trigger] s.projects@[i],
                s.packages@.len(),
            ) by {
                let p = s.projects@[i];
                assert(project_refs_below(old(self).projects@[i], old(self).packages@.len()));
                match p.kind {
                    ProjectKind::Package(_) => {},
                    ProjectKind::Workspace(w) => {
                        assert forall|m: int| 0 <= m < w.members@.len() implies (
                        #[trigger] w.members@[m]).0 < s.packages@.len() by {}
                    },
                }
            }
        }
        id
    }
}

impl Default for KelpieContext {
    fn default() -> (r: Self)
        ensures
            r.wf(),
            r.projects@.len() == 0,
            r.packages@.len() == 0,
            r.path_to_project@.len() == 0,
            r.name_to_package@.len() == 0,
    {
        KelpieContext::new()
    }
}

} // verus!
