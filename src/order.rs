use crate::ctx::{is_project_of, KelpieContext};
use crate::facts::ConfigError;
use crate::manifest::{Dependency, PackageId, ProjectId, ProjectKind};
use vstd::prelude::*;

verus! {

/// `v` lists the nodes `0..n` once each, every edge's source before its target.
pub open spec fn is_topological(n: nat, edges: Seq<(usize, usize)>, v: Seq<usize>) -> bool {
    &&& v.len() == n
    &&& v.no_duplicates()
    &&& forall|p: int| 0 <= p < v.len() ==> (#[trigger] v[p]) < n
    &&& forall|i: usize| i < n ==> v.contains(i)
    &&& forall|k: int, p: int, q: int|
        #![trigger edges[k], v[p], v[q]]
        0 <= k < edges.len() && 0 <= p < v.len() && 0 <= q < v.len() && v[p] == edges[k].0
            && v[q] == edges[k].1 ==> p < q
}

/// Relies on petgraph::algo::toposort over a graph with nodes `0..n` and the given
/// edges: it returns every node once, each before its successors, or reports a
/// cycle exactly when no such order exists.
#[verifier::external_body]
fn toposort_indices(n: usize, edges: &Vec<(usize, usize)>) -> (r: Result<Vec<usize>, usize>)
    requires
        forall|k: int| 0 <= k < edges@.len() ==> (#[trigger] edges@[k]).0 < n && edges@[k].1 < n,
    ensures
        match r {
            Ok(v) => is_topological(n as nat, edges@, v@),
            Err(_) => !exists|v: Seq<usize>| is_topological(n as nat, edges@, v),
        },
{
    let mut g = petgraph::graph::DiGraph::<(), (), usize>::with_capacity(n, edges.len());
    for _ in 0..n {
        g.add_node(());
    }
    g.extend_with_edges(edges.iter().copied());
    match petgraph::algo::toposort(&g, None) {
        Ok(order) => Ok(order.into_iter().map(|x| x.index()).collect()),
        Err(cycle) => Err(cycle.node_id().index()),
    }
}

/// A directed graph over packages; an edge runs from a dependent to its dependency.
#[derive(Debug)]
pub struct DependencyGraph {
    nodes: Vec<PackageId>,
    edges: Vec<(usize, usize)>,
}

impl DependencyGraph {
    pub closed spec fn node_seq(&self) -> Seq<PackageId> {
        self.nodes@
    }

    pub closed spec fn edge_seq(&self) -> Seq<(usize, usize)> {
        self.edges@
    }

    pub closed spec fn wf(&self) -> bool {
        &&& self.nodes@.no_duplicates()
        &&& forall|k: int|
            0 <= k < self.edges@.len() ==> (#[trigger] self.edges@[k]).0 < self.nodes@.len()
                && self.edges@[k].1 < self.nodes@.len()
    }

    /// Whether `p` is a node of the graph.
    pub open spec fn has_node(&self, p: PackageId) -> bool {
        self.node_seq().contains(p)
    }

    /// Whether the graph holds the edge `dependent -> dependency`.
    pub open spec fn has_edge(&self, dependent: PackageId, dependency: PackageId) -> bool {
        exists|k: int|
            0 <= k < self.edge_seq().len() && self.node_seq()[(#[trigger] self.edge_seq()[k]).0 as int]
                == dependent && self.node_seq()[self.edge_seq()[k].1 as int] == dependency
    }

    /// Whether some order of the nodes puts every edge's source before its target.
    pub open spec fn is_acyclic(&self) -> bool {
        exists|v: Seq<usize>| is_topological(self.node_seq().len(), self.edge_seq(), v)
    }

    pub fn new() -> (r: Self)
        ensures
            r.wf(),
            r.node_seq().len() == 0,
            r.edge_seq().len() == 0,
    {
        DependencyGraph { nodes: Vec::new(), edges: Vec::new() }
    }

    fn add_package(&mut self, package_id: PackageId) -> (r: usize)
        requires
            old(self).wf(),
        ensures
            final(self).wf(),
            r < final(self).nodes@.len(),
            final(self).nodes@[r as int] == package_id,
            final(self).nodes@ == old(self).nodes@ || final(self).nodes@ == old(self).nodes@.push(
                package_id,
            ),
            old(self).nodes@.contains(package_id) ==> final(self).nodes@ == old(self).nodes@,
            final(self).edges@ == old(self).edges@,
            forall|p: PackageId| final(self).has_node(p) <==> (old(self).has_node(p) || p == package_id),
            forall|a: PackageId, b: PackageId| final(self).has_edge(a, b) <==> old(self).has_edge(a, b),
    {
        let mut i: usize = 0;
        while i < self.nodes.len()
            invariant
                *self == *old(self),
                self.wf(),
                i <= self.nodes@.len(),
                forall|j: int| 0 <= j < i ==> self.nodes@[j] != package_id,
            decreases self.nodes@.len() - i,
        {
            if self.nodes[i] == package_id {
                return i;
            }
            i = i + 1;
        }
        self.nodes.push(package_id);
        proof {
            assert(!old(self).nodes@.contains(package_id));
            assert forall|p: PackageId| self.has_node(p) <==> (old(self).has_node(p) || p == package_id) by {
                if old(self).has_node(p) {
                    let j = choose|j: int| 0 <= j < old(self).nodes@.len() && old(self).nodes@[j] == p;
                    assert(self.nodes@[j] == p);
                }
                if self.has_node(p) && p != package_id {
                    let j = choose|j: int| 0 <= j < self.nodes@.len() && self.nodes@[j] == p;
                    assert(j < old(self).nodes@.len());
                    assert(old(self).nodes@[j] == p);
                }
                assert(self.nodes@[self.nodes@.len() - 1] == package_id);
            }
            assert forall|a: PackageId, b: PackageId| self.has_edge(a, b) <==> old(self).has_edge(a, b) by {
                if self.has_edge(a, b) {
                    let k = choose|k: int|
                        0 <= k < self.edge_seq().len() && self.node_seq()[(
                        #[trigger] self.edge_seq()[k]).0 as int] == a && self.node_seq()[self.edge_seq()[k].1 as int] == b;
                    assert(old(self).edge_seq()[k] == self.edge_seq()[k]);
                    assert(old(self).node_seq()[self.edges@[k].0 as int] == a);
                    assert(old(self).node_seq()[self.edges@[k].1 as int] == b);
                }
                if old(self).has_edge(a, b) {
                    let k = choose|k: int|
                        0 <= k < old(self).edge_seq().len() && old(self).node_seq()[(
                        #[trigger] old(self).edge_seq()[k]).0 as int] == a && old(self).node_seq()[old(self).edge_seq()[k].1 as int] == b;
                    assert(old(self).edge_seq()[k] == self.edge_seq()[k]);
                    assert(self.node_seq()[self.edges@[k].0 as int] == a);
                    assert(self.node_seq()[self.edges@[k].1 as int] == b);
                }
            }
            assert forall|a: int, b: int|
                0 <= a < self.nodes@.len() && 0 <= b < self.nodes@.len() && a != b implies self.nodes@[a]
                != self.nodes@[b] by {
                if a < old(self).nodes@.len() && b < old(self).nodes@.len() {
                    assert(old(self).nodes@[a] != old(self).nodes@[b]);
                } else if a < old(self).nodes@.len() {
                    assert(old(self).nodes@[a] == self.nodes@[a]);
                } else if b < old(self).nodes@.len() {
                    assert(old(self).nodes@[b] == self.nodes@[b]);
                }
            }
        }
        self.nodes.len() - 1
    }

    /// Adds the edge `dependent -> dependency` unless it is already there.
    pub fn add_dependency(&mut self, dependent: PackageId, dependency: PackageId)
        requires
            old(self).wf(),
        ensures
            final(self).wf(),
            final(self).has_edge(dependent, dependency),
            forall|a: PackageId, b: PackageId|
                final(self).has_edge(a, b) <==> (old(self).has_edge(a, b) || (a == dependent && b
                    == dependency)),
            forall|p: PackageId|
                final(self).has_node(p) <==> (old(self).has_node(p) || p == dependent || p
                    == dependency),
    {
        let ghost g0 = *old(self);
        let a = self.add_package(dependent);
        let ghost g1 = *self;
        let b = self.add_package(dependency);
        proof {
            assert(self.nodes@[a as int] == g1.nodes@[a as int]);
        }
        let ghost g2 = *self;
        let mut k: usize = 0;
        let mut found = false;
        while k < self.edges.len()
            invariant
                *self == g2,
                self.wf(),
                k <= self.edges@.len(),
                found ==> exists|j: int| 0 <= j < k && self.edges@[j] == (a, b),
                !found ==> forall|j: int| 0 <= j < k ==> #[trigger] self.edges@[j] != (a, b),
            decreases self.edges@.len() - k,
        {
            if self.edges[k].0 == a && self.edges[k].1 == b {
                found = true;
            }
            k = k + 1;
        }
        if !found {
            self.edges.push((a, b));
        }
        proof {
            assert(self.nodes@.take(g0.nodes@.len() as int) =~= g0.nodes@);
            assert(self.nodes@ == g2.nodes@);
            assert forall|j: int| 0 <= j < g0.nodes@.len() implies self.nodes@[j] == g0.nodes@[j] by {
                assert(self.nodes@.take(g0.nodes@.len() as int)[j] == self.nodes@[j]);
            }
            if found {
                let j = choose|j: int| 0 <= j < k && self.edges@[j] == (a, b);
                assert(self.edge_seq()[j] == (a, b));
            } else {
                assert(self.edge_seq()[self.edges@.len() - 1] == (a, b));
            }
            assert(self.has_edge(dependent, dependency));
            assert forall|x: PackageId, y: PackageId|
                self.has_edge(x, y) <==> (g0.has_edge(x, y) || (x == dependent && y
                    == dependency)) by {
                if g0.has_edge(x, y) {
                    let kk = choose|kk: int|
                        0 <= kk < g0.edge_seq().len() && g0.node_seq()[(
                        #[trigger] g0.edge_seq()[kk]).0 as int] == x && g0.node_seq()[g0.edge_seq()[kk].1 as int] == y;
                    assert(self.edges@[kk] == g0.edges@[kk]);
                    assert(self.edge_seq()[kk] == g0.edge_seq()[kk]);
                }
                if self.has_edge(x, y) && !(x == dependent && y == dependency) {
                    let kk = choose|kk: int|
                        0 <= kk < self.edge_seq().len() && self.node_seq()[(
                        #[trigger] self.edge_seq()[kk]).0 as int] == x && self.node_seq()[self.edge_seq()[kk].1 as int] == y;
                    assert(kk < g0.edges@.len());
                    assert(self.edges@[kk] == g0.edges@[kk]);
                    assert(g0.edge_seq()[kk] == self.edge_seq()[kk]);
                }
            }
            assert forall|p: PackageId|
                self.has_node(p) <==> (g0.has_node(p) || p == dependent || p == dependency) by {
                if self.has_node(p) {
                    let j = choose|j: int| 0 <= j < self.nodes@.len() && self.nodes@[j] == p;
                    if j < g0.nodes@.len() {
                        assert(g0.nodes@[j] == p);
                    }
                }
                if g0.has_node(p) {
                    let j = choose|j: int| 0 <= j < g0.nodes@.len() && g0.nodes@[j] == p;
                    assert(self.nodes@[j] == p);
                }
            }
        }
    }

    /// Whether `order` lists every node once, each dependency before its dependents.
    pub open spec fn is_build_order(&self, order: Seq<PackageId>) -> bool {
        &&& order.len() == self.node_seq().len()
        &&& order.no_duplicates()
        &&& forall|p: int| 0 <= p < order.len() ==> self.has_node(#[trigger] order[p])
        &&& forall|x: PackageId| self.has_node(x) ==> order.contains(x)
        &&& forall|a: PackageId, b: PackageId, p: int, q: int|
            #![trigger self.has_edge(a, b), order[p], order[q]]
            self.has_edge(a, b) && 0 <= p < order.len() && 0 <= q < order.len() && order[p] == a
                && order[q] == b ==> q < p
    }

    /// Orders the packages so that every dependency comes before its dependents.
    pub fn get_compilation_order(&self) -> (r: Result<Vec<PackageId>, ConfigError>)
        requires
            self.wf(),
        ensures
            match r {
                Ok(order) => self.is_build_order(order@),
                Err(e) => e == ConfigError::CircularDependency,
            },
            r is Ok <==> self.is_acyclic(),
    {
        let n = self.nodes.len();
        match toposort_indices(n, &self.edges) {
            Ok(v) => {
                let mut out: Vec<PackageId> = Vec::new();
                let mut i: usize = 0;
                while i < n
                    invariant
                        self.wf(),
                        n == self.nodes@.len(),
                        is_topological(n as nat, self.edges@, v@),
                        i <= n,
                        out@.len() == i,
                        forall|j: int|
                            0 <= j < i ==> #[trigger] out@[j] == self.nodes@[v@[n - 1 - j] as int],
                    decreases n - i,
                {
                    out.push(self.nodes[v[n - 1 - i]]);
                    i = i + 1;
                }
                proof {
                    self.lemma_reversed_is_build_order(v@, out@);
                    assert(is_topological(self.node_seq().len(), self.edge_seq(), v@));
                }
                Ok(out)
            },
            Err(_) => Err(ConfigError::CircularDependency),
        }
    }

    proof fn lemma_reversed_is_build_order(&self, v: Seq<usize>, out: Seq<PackageId>)
        requires
            self.wf(),
            self.nodes@.len() <= usize::MAX,
            is_topological(self.nodes@.len(), self.edges@, v),
            out.len() == v.len(),
            forall|j: int|
                0 <= j < v.len() ==> #[trigger] out[j] == self.nodes@[v[v.len() - 1 - j] as int],
        ensures
            self.is_build_order(out),
    {
        let n = v.len() as int;
        assert forall|a: int, b: int| 0 <= a < n && 0 <= b < n && a != b implies out[a] != out[b] by {
            assert(v[n - 1 - a] != v[n - 1 - b]);
        }
        assert forall|p: int| 0 <= p < n implies self.has_node(#[trigger] out[p]) by {
            assert(self.node_seq()[v[n - 1 - p] as int] == out[p]);
        }
        assert forall|x: PackageId| self.has_node(x) implies out.contains(x) by {
            let i = choose|i: int| 0 <= i < self.nodes@.len() && self.nodes@[i] == x;
            assert(v.contains(i as usize));
            let p = choose|p: int| 0 <= p < n && v[p] == i as usize;
            let j = n - 1 - p;
            assert(out[j] == self.nodes@[v[n - 1 - j] as int]);
            assert(n - 1 - j == p);
            assert(v[n - 1 - j] as int == i);
            assert(out[j] == x);
        }
        assert forall|a: PackageId, b: PackageId, p: int, q: int|
            #![trigger self.has_edge(a, b), out[p], out[q]]
            self.has_edge(a, b) && 0 <= p < n && 0 <= q < n && out[p] == a && out[q] == b
                implies q < p by {
            let k = choose|k: int|
                0 <= k < self.edge_seq().len() && self.node_seq()[(
                #[trigger] self.edge_seq()[k]).0 as int] == a && self.node_seq()[self.edge_seq()[k].1 as int] == b;
            let e = self.edges@[k];
            assert(self.nodes@[v[n - 1 - p] as int] == self.nodes@[e.0 as int]);
            assert(v[n - 1 - p] == e.0);
            assert(self.nodes@[v[n - 1 - q] as int] == self.nodes@[e.1 as int]);
            assert(v[n - 1 - q] == e.1);
            assert(self.edges@[k] == e);
        }
    }

    /// Adds an edge from `from` to the target of every dependency in `deps`.
    fn add_edges_from(&mut self, from: PackageId, deps: &Vec<Dependency>)
        requires
            old(self).wf(),
        ensures
            final(self).wf(),
            forall|a: PackageId, b: PackageId|
                final(self).has_edge(a, b) <==> (old(self).has_edge(a, b) || (a == from && targets(
                    deps@,
                    b,
                ))),
            forall|p: PackageId|
                final(self).has_node(p) <==> (old(self).has_node(p) || p == from || targets(deps@, p)),
    {
        self.add_package(from);
        let mut d: usize = 0;
        while d < deps.len()
            invariant
                self.wf(),
                d <= deps@.len(),
                forall|a: PackageId, b: PackageId|
                    self.has_edge(a, b) <==> (old(self).has_edge(a, b) || (a == from && targets(
                        deps@.take(d as int),
                        b,
                    ))),
                forall|p: PackageId|
                    self.has_node(p) <==> (old(self).has_node(p) || p == from || targets(
                        deps@.take(d as int),
                        p,
                    )),
            decreases deps@.len() - d,
        {
            self.add_dependency(from, deps[d].id);
            proof {
                assert(deps@.take(d + 1) =~= deps@.take(d as int).push(deps@[d as int]));
                lemma_targets_push(deps@.take(d as int), deps@[d as int]);
            }
            d = d + 1;
        }
        proof {
            assert(deps@.take(d as int) =~= deps@);
            assert forall|a: PackageId, b: PackageId|
                self.has_edge(a, b) <==> (old(self).has_edge(a, b) || (a == from && targets(deps@, b))) by {
                assert(self.has_edge(a, b) <==> (old(self).has_edge(a, b) || (a == from && targets(
                    deps@.take(d as int),
                    b,
                ))));
            }
            assert forall|p: PackageId|
                self.has_node(p) <==> (old(self).has_node(p) || p == from || targets(deps@, p)) by {
                assert(self.has_node(p) <==> (old(self).has_node(p) || p == from || targets(
                    deps@.take(d as int),
                    p,
                )));
            }
        }
    }

    /// Adds the edges of one workspace member: to the workspace's dependencies and
    /// to those of the member's own project.
    fn add_member_edges(&mut self, ctx: &KelpieContext, member_id: PackageId, workspace_deps: &Vec<Dependency>)
        requires
            old(self).wf(),
            ctx.wf(),
        ensures
            final(self).wf(),
            forall|a: PackageId, b: PackageId|
                final(self).has_edge(a, b) <==> (old(self).has_edge(a, b) || (a == member_id
                    && member_edge(ctx, workspace_deps@, a, b))),
            forall|p: PackageId|
                final(self).has_node(p) <==> (old(self).has_node(p) || p == member_id
                    || member_edge(ctx, workspace_deps@, member_id, p)),
    {
        let ghost g0 = *old(self);
        self.add_edges_from(member_id, workspace_deps);
        let ghost g1 = *self;
        let own = ctx.find_project_by_package_id(member_id);
        if let Some(member_project_id) = own {
            let member_project = &ctx.projects[member_project_id.0];
            self.add_edges_from(member_id, &member_project.dependencies);
            proof {
                assert forall|b: PackageId|
                    own_edge(ctx, member_id, b) <==> targets(member_project.dependencies@, b) by {
                    if own_edge(ctx, member_id, b) {
                        let pi = choose|pi: int|
                            0 <= pi < ctx.projects@.len() && is_project_of(
                                #[trigger] ctx.projects@[pi],
                                member_id,
                            ) && (forall|j: int|
                                0 <= j < pi ==> !is_project_of(#[trigger] ctx.projects@[j], member_id))
                                && targets(ctx.projects@[pi].dependencies@, b);
                        assert(!(pi < member_project_id.0));
                        assert(!(member_project_id.0 < pi));
                    }
                    if targets(member_project.dependencies@, b) {
                        assert(is_project_of(ctx.projects@[member_project_id.0 as int], member_id));
                    }
                }
                assert forall|p: PackageId|
                    self.has_node(p) <==> (old(self).has_node(p) || p == member_id || member_edge(
                        ctx,
                        workspace_deps@,
                        member_id,
                        p,
                    )) by {
                    assert(self.has_node(p) <==> (g1.has_node(p) || p == member_id || targets(
                        member_project.dependencies@,
                        p,
                    )));
                    assert(own_edge(ctx, member_id, p) <==> targets(member_project.dependencies@, p));
                }
            }
        } else {
            proof {
                assert forall|b: PackageId| !own_edge(ctx, member_id, b) by {}
            }
        }
    }

    /// Adds the edges that project `project_id` declares; for a workspace, every
    /// member gets the workspace's dependencies and those of its own project.
    pub fn build_from_project(&mut self, ctx: &KelpieContext, project_id: ProjectId)
        requires
            old(self).wf(),
            ctx.wf(),
        ensures
            final(self).wf(),
            forall|a: PackageId, b: PackageId|
                final(self).has_edge(a, b) <==> (old(self).has_edge(a, b) || project_edge(
                    ctx,
                    project_id,
                    a,
                    b,
                )),
            forall|p: PackageId|
                final(self).has_node(p) <==> (old(self).has_node(p) || project_node(ctx, project_id, p)),
    {
        if let Some(project) = ctx.get_project(project_id) {
            match &project.kind {
                ProjectKind::Package(package_id) => {
                    self.add_edges_from(*package_id, &project.dependencies);
                    proof {
                        assert forall|p: PackageId|
                            project_node(ctx, project_id, p) <==> (p == *package_id || targets(
                                project.dependencies@,
                                p,
                            )) by {}
                        assert forall|a: PackageId, b: PackageId|
                            project_edge(ctx, project_id, a, b) <==> (a == *package_id && targets(
                                project.dependencies@,
                                b,
                            )) by {}
                    }
                },
                ProjectKind::Workspace(workspace) => {
                    let mut m: usize = 0;
                    while m < workspace.members.len()
                        invariant
                            self.wf(),
                            ctx.wf(),
                            project_id.0 < ctx.projects@.len(),
                            *project == ctx.projects@[project_id.0 as int],
                            project.kind == ProjectKind::Workspace(*workspace),
                            m <= workspace.members@.len(),
                            forall|p: PackageId|
                                self.has_node(p) <==> (old(self).has_node(p) || exists|j: int|
                                    0 <= j < m && (p == #[trigger] workspace.members@[j]
                                        || member_edge(ctx, project.dependencies@, workspace.members@[j], p))),
                            forall|a: PackageId, b: PackageId|
                                self.has_edge(a, b) <==> (old(self).has_edge(a, b) || (
                                workspace.members@.take(m as int).contains(a) && member_edge(
                                    ctx,
                                    project.dependencies@,
                                    a,
                                    b,
                                ))),
                        decreases workspace.members@.len() - m,
                    {
                        let member_id = workspace.members[m];
                        let m_next = m + 1;
                        self.add_member_edges(ctx, member_id, &project.dependencies);
                        proof {
                            assert(workspace.members@.take(m_next as int) =~= workspace.members@.take(
                                m as int,
                            ).push(member_id));
                            assert forall|a: PackageId|
                                workspace.members@.take(m_next as int).contains(a) <==> (
                                workspace.members@.take(m as int).contains(a) || a == member_id) by {
                                if workspace.members@.take(m_next as int).contains(a) {
                                    let j = choose|j: int|
                                        0 <= j < m_next && #[trigger] workspace.members@.take(
                                            m_next as int,
                                        )[j] == a;
                                    if j < m {
                                        assert(workspace.members@.take(m as int)[j] == a);
                                    }
                                }
                                if workspace.members@.take(m as int).contains(a) {
                                    let j = choose|j: int|
                                        0 <= j < m && #[trigger] workspace.members@.take(m as int)[j]
                                            == a;
                                    assert(workspace.members@.take(m_next as int)[j] == a);
                                }
                                if a == member_id {
                                    assert(workspace.members@.take(m_next as int)[m as int] == a);
                                }
                            }
                        }
                        proof {
                            assert forall|p: PackageId|
                                self.has_node(p) <==> (old(self).has_node(p) || exists|j: int|
                                    0 <= j < m_next && (p == #[trigger] workspace.members@[j]
                                        || member_edge(ctx, project.dependencies@, workspace.members@[j], p))) by {
                                if p == member_id || member_edge(ctx, project.dependencies@, member_id, p) {
                                    assert(workspace.members@[m as int] == member_id);
                                }
                            }
                        }
                        m = m_next;
                    }
                    proof {
                        assert(workspace.members@.take(m as int) =~= workspace.members@);
                        assert forall|a: PackageId, b: PackageId|
                            project_edge(ctx, project_id, a, b) <==> (workspace.members@.contains(a)
                                && member_edge(ctx, project.dependencies@, a, b)) by {}
                        assert forall|p: PackageId|
                            project_node(ctx, project_id, p) <==> exists|j: int|
                                0 <= j < m && (p == #[trigger] workspace.members@[j] || member_edge(
                                    ctx,
                                    project.dependencies@,
                                    workspace.members@[j],
                                    p,
                                )) by {}
                    }
                },
            }
        } else {
            proof {
                assert forall|a: PackageId, b: PackageId| !project_edge(ctx, project_id, a, b) by {}
                assert forall|p: PackageId| !project_node(ctx, project_id, p) by {}
            }
        }
    }
}

impl Default for DependencyGraph {
    fn default() -> (r: Self)
        ensures
            r.wf(),
            r.node_seq().len() == 0,
            r.edge_seq().len() == 0,
    {
        DependencyGraph::new()
    }
}

/// Whether some dependency in `deps` targets `b`.
pub open spec fn targets(deps: Seq<crate::manifest::Dependency>, b: PackageId) -> bool {
    exists|d: int| 0 <= d < deps.len() && (#[trigger] deps[d]).id == b
}

proof fn lemma_targets_push(deps: Seq<crate::manifest::Dependency>, x: crate::manifest::Dependency)
    ensures
        forall|b: PackageId| targets(deps.push(x), b) <==> (targets(deps, b) || x.id == b),
{
    assert forall|b: PackageId| targets(deps.push(x), b) <==> (targets(deps, b) || x.id == b) by {
        if targets(deps, b) {
            let d = choose|d: int| 0 <= d < deps.len() && (#[trigger] deps[d]).id == b;
            assert(deps.push(x)[d] == deps[d]);
        }
        if x.id == b {
            assert(deps.push(x)[deps.len() as int] == x);
        }
        if targets(deps.push(x), b) {
            let d = choose|d: int| 0 <= d < deps.len() + 1 && (#[trigger] deps.push(x)[d]).id == b;
            if d < deps.len() {
                assert(deps.push(x)[d] == deps[d]);
            }
        }
    }
}

/// Whether the first project registered for package `a` declares a dependency on `b`.
pub open spec fn own_edge(ctx: &KelpieContext, a: PackageId, b: PackageId) -> bool {
    exists|pi: int|
        0 <= pi < ctx.projects@.len() && is_project_of(#[trigger] ctx.projects@[pi], a) && (forall|j: int|
            0 <= j < pi ==> !is_project_of(#[trigger] ctx.projects@[j], a)) && targets(
            ctx.projects@[pi].dependencies@,
            b,
        )
}

/// Whether workspace member `a` depends on `b`: through the workspace's own
/// dependencies or through those of the member's project.
pub open spec fn member_edge(
    ctx: &KelpieContext,
    workspace_deps: Seq<crate::manifest::Dependency>,
    a: PackageId,
    b: PackageId,
) -> bool {
    targets(workspace_deps, b) || own_edge(ctx, a, b)
}

/// Whether `p` is a package that project `root` brings into the graph: the package
/// itself or a workspace member, and each of their dependencies.
pub open spec fn project_node(ctx: &KelpieContext, root: ProjectId, p: PackageId) -> bool {
    root.0 < ctx.projects@.len() && match ctx.projects@[root.0 as int].kind {
        ProjectKind::Package(pid) => p == pid || targets(ctx.projects@[root.0 as int].dependencies@, p),
        ProjectKind::Workspace(w) => exists|j: int|
            0 <= j < w.members@.len() && (p == #[trigger] w.members@[j] || member_edge(
                ctx,
                ctx.projects@[root.0 as int].dependencies@,
                w.members@[j],
                p,
            )),
    }
}

/// Whether the edge `a -> b` is one that project `root` declares.
pub open spec fn project_edge(ctx: &KelpieContext, root: ProjectId, a: PackageId, b: PackageId) -> bool {
    root.0 < ctx.projects@.len() && match ctx.projects@[root.0 as int].kind {
        ProjectKind::Package(pid) => a == pid && targets(
            ctx.projects@[root.0 as int].dependencies@,
            b,
        ),
        ProjectKind::Workspace(w) => w.members@.contains(a) && member_edge(
            ctx,
            ctx.projects@[root.0 as int].dependencies@,
            a,
            b,
        ),
    }
}

/// Two packages that depend on each other admit no compilation order.
pub proof fn lemma_mutual_dependency_is_cycle(g: &DependencyGraph, a: PackageId, b: PackageId)
    requires
        g.wf(),
        g.has_edge(a, b),
        g.has_edge(b, a),
    ensures
        !g.is_acyclic(),
{
    let k1 = choose|k: int|
        0 <= k < g.edge_seq().len() && g.node_seq()[(#[trigger] g.edge_seq()[k]).0 as int] == a
            && g.node_seq()[g.edge_seq()[k].1 as int] == b;
    let k2 = choose|k: int|
        0 <= k < g.edge_seq().len() && g.node_seq()[(#[trigger] g.edge_seq()[k]).0 as int] == b
            && g.node_seq()[g.edge_seq()[k].1 as int] == a;
    let e1 = g.edges@[k1];
    let e2 = g.edges@[k2];
    assert(e1.0 == e2.1);
    assert(e1.1 == e2.0);
    if g.is_acyclic() {
        let v = choose|v: Seq<usize>| is_topological(g.node_seq().len(), g.edge_seq(), v);
        assert(v.contains(e1.0));
        assert(v.contains(e1.1));
        let p = choose|p: int| 0 <= p < v.len() && v[p] == e1.0;
        let q = choose|q: int| 0 <= q < v.len() && v[q] == e1.1;
        assert(g.edge_seq()[k1] == e1);
        assert(g.edge_seq()[k2] == e2);
        assert(p < q);
        assert(q < p);
    }
}

/// Building the same project into a graph a second time adds no node and no edge.
pub proof fn lemma_build_is_idempotent(
    ctx: &KelpieContext,
    root: ProjectId,
    g0: &DependencyGraph,
    g1: &DependencyGraph,
    g2: &DependencyGraph,
)
    requires
        forall|a: PackageId, b: PackageId|
            g1.has_edge(a, b) <==> (g0.has_edge(a, b) || project_edge(ctx, root, a, b)),
        forall|p: PackageId| g1.has_node(p) <==> (g0.has_node(p) || project_node(ctx, root, p)),
        forall|a: PackageId, b: PackageId|
            g2.has_edge(a, b) <==> (g1.has_edge(a, b) || project_edge(ctx, root, a, b)),
        forall|p: PackageId| g2.has_node(p) <==> (g1.has_node(p) || project_node(ctx, root, p)),
    ensures
        forall|a: PackageId, b: PackageId| g2.has_edge(a, b) <==> g1.has_edge(a, b),
        forall|p: PackageId| g2.has_node(p) <==> g1.has_node(p),
{
}

} // verus!
