//! The registry of built modules and the dependency edges between them.

use crate::js_module::{JsModule, JsModuleView};
use crate::text::{contains_text, same_text, texts};
use vstd::prelude::*;
use vstd::string::*;
use vstd::set_lib::lemma_len_subset;

verus! {

/// Why the graph refuses an operation.
#[derive(Clone, Copy, Debug, PartialEq, Eq, Structural)]
pub enum GraphError {
    /// A module with this id is in the graph already.
    DuplicateModule,
}

/// The modules built so far, the edges from each module to the modules it
/// depends on, and the entrypoints. Modules, edges and entrypoints are kept in
/// the order in which they were added, each at most once.
pub struct ModuleGraph {
    modules: Vec<JsModule>,
    entrypoints: Vec<String>,
    dependency_map: Vec<(String, String)>,
}

/// The mathematical content of a [`ModuleGraph`].
pub struct ModuleGraphView {
    /// The modules, in the order in which they were added.
    pub modules: Seq<JsModuleView>,
    /// The entrypoint ids, in the order in which they were added.
    pub entrypoints: Seq<Seq<char>>,
    /// The edges `(from, to)`, in the order in which they were added.
    pub edges: Seq<(Seq<char>, Seq<char>)>,
}

/// The views of a list of modules, in order.
pub open spec fn module_views(modules: Seq<JsModule>) -> Seq<JsModuleView> {
    modules.map_values(|m: JsModule| m@)
}

/// The views of a list of edges, in order.
pub open spec fn edge_views(edges: Seq<(String, String)>) -> Seq<(Seq<char>, Seq<char>)> {
    edges.map_values(|e: (String, String)| (e.0@, e.1@))
}

impl ModuleGraphView {
    /// The ids of the modules, in the order in which they were added.
    pub open spec fn module_ids(self) -> Seq<Seq<char>> {
        self.modules.map_values(|m: JsModuleView| m.id)
    }

    /// Whether a module with the id `id` is in the graph.
    pub open spec fn has_module(self, id: Seq<char>) -> bool {
        self.module_ids().contains(id)
    }

    /// Whether the graph holds the edge from `from` to `to`.
    pub open spec fn has_edge(self, from: Seq<char>, to: Seq<char>) -> bool {
        self.edges.contains((from, to))
    }

    /// The ids that `from` depends on directly, in first-seen order.
    pub open spec fn dependencies_of(self, from: Seq<char>) -> Seq<Seq<char>> {
        self.edges.filter(|e: (Seq<char>, Seq<char>)| e.0 == from).map_values(
            |e: (Seq<char>, Seq<char>)| e.1,
        )
    }

    /// Whether `path` is a walk along edges: each id has an edge to the next.
    pub open spec fn is_path(self, path: Seq<Seq<char>>) -> bool {
        &&& path.len() >= 1
        &&& forall|k: int| 0 <= k < path.len() - 1 ==> self.has_edge(#[trigger] path[k], path[k + 1])
    }

    /// Whether `to` can be reached from `from` along one edge or more.
    pub open spec fn reaches(self, from: Seq<char>, to: Seq<char>) -> bool {
        exists|path: Seq<Seq<char>>|
            #[trigger] self.is_path(path) && path.len() >= 2 && path[0] == from && path.last()
                == to
    }

    /// The ids that `id` depends on, directly or through others, without `id`
    /// itself.
    pub open spec fn transitive_deps(self, id: Seq<char>) -> Set<Seq<char>> {
        Set::new(|x: Seq<char>| x != id && self.reaches(id, x))
    }

    /// No module id, no edge and no entrypoint occurs twice.
    pub open spec fn wf(self) -> bool {
        &&& self.module_ids().no_duplicates()
        &&& self.edges.no_duplicates()
        &&& self.entrypoints.no_duplicates()
    }

    /// Every id that an edge or an entrypoint mentions is the id of a module.
    pub open spec fn closed(self) -> bool {
        &&& forall|k: int|
            0 <= k < self.edges.len() ==> self.has_module((#[trigger] self.edges[k]).0)
                && self.has_module(self.edges[k].1)
        &&& forall|k: int|
            0 <= k < self.entrypoints.len() ==> self.has_module(#[trigger] self.entrypoints[k])
    }
}

impl View for ModuleGraph {
    type V = ModuleGraphView;

    closed spec fn view(&self) -> ModuleGraphView {
        ModuleGraphView {
            modules: module_views(self.modules@),
            entrypoints: texts(self.entrypoints@),
            edges: edge_views(self.dependency_map@),
        }
    }
}

impl ModuleGraph {
    /// Whether the graph keeps its promise that nothing occurs twice.
    pub open spec fn wf(&self) -> bool {
        self@.wf()
    }

    /// An empty graph.
    pub fn new() -> (graph: Self)
        ensures
            graph.wf(),
            graph@.modules.len() == 0,
            graph@.entrypoints.len() == 0,
            graph@.edges.len() == 0,
    {
        Self { modules: Vec::new(), dependency_map: Vec::new(), entrypoints: Vec::new() }
    }

    /// The position of the module with the id `id`.
    fn find_module(&self, id: &str) -> (r: Option<usize>)
        ensures
            r is Some <==> self@.has_module(id@),
            r matches Some(i) ==> i < self.modules.len() && self.modules@[i as int].id@ == id@,
    {
        let ghost ids = self@.module_ids();
        let mut i: usize = 0;
        while i < self.modules.len()
            invariant
                i <= self.modules.len(),
                ids == self@.module_ids(),
                !ids.take(i as int).contains(id@),
            decreases self.modules.len() - i,
        {
            if same_text(self.modules[i].id.as_str(), id) {
                assert(ids[i as int] == id@);
                return Some(i);
            }
            assert(ids.take(i + 1) =~= ids.take(i as int).push(ids[i as int]));
            i += 1;
        }
        assert(ids.take(self.modules.len() as int) =~= ids);
        None
    }

    /// Adds a built module. A graph holds each id once: a module whose id is
    /// taken is refused, and the graph stays as it is.
    pub fn add_module(&mut self, module: JsModule) -> (r: Result<(), GraphError>)
        requires
            old(self).wf(),
        ensures
            final(self).wf(),
            r is Ok <==> !old(self)@.has_module(module@.id),
            r is Ok ==> final(self)@ == (ModuleGraphView {
                modules: old(self)@.modules.push(module@),
                ..old(self)@
            }),
            r is Err ==> r == Err::<(), GraphError>(GraphError::DuplicateModule) && final(self)@
                == old(self)@,
    {
        if self.find_module(module.id.as_str()).is_some() {
            return Err(GraphError::DuplicateModule);
        }
        let ghost before = self@;
        self.modules.push(module);
        proof {
            assert(self@.modules =~= before.modules.push(module@));
            assert(self@.module_ids() =~= before.module_ids().push(module@.id));
        }
        Ok(())
    }

    /// Whether a module with the id `id` was added.
    pub fn has_module(&self, id: &str) -> (r: bool)
        ensures
            r == self@.has_module(id@),
    {
        self.find_module(id).is_some()
    }

    /// The module with the id `id`, if one was added.
    pub fn get_module(&self, id: &str) -> (r: Option<&JsModule>)
        ensures
            r is Some <==> self@.has_module(id@),
            r matches Some(m) ==> m@.id == id@ && self@.modules.contains(m@),
    {
        match self.find_module(id) {
            Some(i) => {
                assert(self@.modules[i as int] == self.modules@[i as int]@);
                Some(&self.modules[i])
            },
            None => None,
        }
    }

    /// Whether the edge from `id` to `dep_id` was added.
    pub fn has_dependency(&self, id: &str, dep_id: &str) -> (r: bool)
        ensures
            r == self@.has_edge(id@, dep_id@),
    {
        let ghost edges = self@.edges;
        let mut i: usize = 0;
        while i < self.dependency_map.len()
            invariant
                i <= self.dependency_map.len(),
                edges == self@.edges,
                !edges.take(i as int).contains((id@, dep_id@)),
            decreases self.dependency_map.len() - i,
        {
            let edge = &self.dependency_map[i];
            if same_text(edge.0.as_str(), id) && same_text(edge.1.as_str(), dep_id) {
                assert(edges[i as int] == (id@, dep_id@));
                return true;
            }
            assert(edges.take(i + 1) =~= edges.take(i as int).push(edges[i as int]));
            i += 1;
        }
        assert(edges.take(self.dependency_map.len() as int) =~= edges);
        false
    }

    /// Records that the module `id` depends on the module `dep_id`. The edge is
    /// put after the edges added before; adding it again changes nothing.
    pub fn add_dependency(&mut self, id: &str, dep_id: &str)
        requires
            old(self).wf(),
        ensures
            final(self).wf(),
            final(self)@ == (ModuleGraphView {
                edges: if old(self)@.has_edge(id@, dep_id@) {
                    old(self)@.edges
                } else {
                    old(self)@.edges.push((id@, dep_id@))
                },
                ..old(self)@
            }),
    {
        if !self.has_dependency(id, dep_id) {
            let ghost before = self@;
            self.dependency_map.push((id.to_owned(), dep_id.to_owned()));
            assert(self@.edges =~= before.edges.push((id@, dep_id@)));
        }
    }

    /// Forgets every edge. Modules and entrypoints stay.
    pub fn clear_dependencies(&mut self)
        requires
            old(self).wf(),
        ensures
            final(self).wf(),
            final(self)@ == (ModuleGraphView { edges: Seq::empty(), ..old(self)@ }),
    {
        self.dependency_map = Vec::new();
        assert(self@.edges =~= Seq::empty());
    }

    /// Records `id` as an entrypoint, after those recorded before; recording
    /// it again changes nothing.
    pub fn add_entrypoint(&mut self, id: String)
        requires
            old(self).wf(),
        ensures
            final(self).wf(),
            final(self)@ == (ModuleGraphView {
                entrypoints: if old(self)@.entrypoints.contains(id@) {
                    old(self)@.entrypoints
                } else {
                    old(self)@.entrypoints.push(id@)
                },
                ..old(self)@
            }),
    {
        if !contains_text(&self.entrypoints, id.as_str()) {
            let ghost before = self@;
            self.entrypoints.push(id);
            assert(self@.entrypoints =~= before.entrypoints.push(id@));
        }
    }
}

impl ModuleGraphView {
    /// The ids that edges lead to, one for each edge, in order.
    pub open spec fn targets(self) -> Seq<Seq<char>> {
        self.edges.map_values(|e: (Seq<char>, Seq<char>)| e.1)
    }

    /// Whether `found` is a list of different ids, each reached from `start`,
    /// none of them `start` itself.
    pub open spec fn reached_from(self, start: Seq<char>, found: Seq<Seq<char>>) -> bool {
        &&& found.no_duplicates()
        &&& forall|k: int|
            0 <= k < found.len() ==> (#[trigger] found[k]) != start && self.reaches(start, found[k])
                && self.targets().contains(found[k])
    }

    /// Whether every edge that leaves `node` leads to `start` or into `found`.
    pub open spec fn expanded(self, node: Seq<char>, start: Seq<char>, found: Seq<Seq<char>>) -> bool {
        forall|k: int|
            0 <= k < self.edges.len() && (#[trigger] self.edges[k]).0 == node ==> self.edges[k].1
                == start || found.contains(self.edges[k].1)
    }

    /// What is reached from `a` in no step or more reaches along one more edge.
    pub proof fn lemma_reaches_step(self, a: Seq<char>, b: Seq<char>, c: Seq<char>)
        requires
            a == b || self.reaches(a, b),
            self.has_edge(b, c),
        ensures
            self.reaches(a, c),
    {
        if a == b {
            let path = seq![a, c];
            assert(self.is_path(path));
            assert(path.last() == c);
        } else {
            let path = choose|path: Seq<Seq<char>>|
                #[trigger] self.is_path(path) && path.len() >= 2 && path[0] == a && path.last()
                    == b;
            let longer = path.push(c);
            assert forall|k: int| 0 <= k < longer.len() - 1 implies self.has_edge(
                #[trigger] longer[k],
                longer[k + 1],
            ) by {
                if k < path.len() - 1 {
                    assert(longer[k] == path[k]);
                    assert(longer[k + 1] == path[k + 1]);
                }
            }
            assert(self.is_path(longer));
            assert(longer.last() == c);
        }
    }

    /// A set that holds `path[0]` and is closed under edges holds the whole
    /// path.
    proof fn lemma_path_stays_inside(self, inside: Set<Seq<char>>, path: Seq<Seq<char>>, n: int)
        requires
            self.is_path(path),
            0 <= n < path.len(),
            inside.contains(path[0]),
            forall|k: int|
                0 <= k < self.edges.len() && inside.contains((#[trigger] self.edges[k]).0)
                    ==> inside.contains(self.edges[k].1),
        ensures
            inside.contains(path[n]),
        decreases n,
    {
        if n > 0 {
            self.lemma_path_stays_inside(inside, path, n - 1);
            assert(self.has_edge(path[n - 1], path[n - 1 + 1]));
            let k = choose|k: int|
                0 <= k < self.edges.len() && self.edges[k] == (path[n - 1], path[n]);
            assert(inside.contains(self.edges[k].0));
        }
    }

    /// A set that holds `start` and is closed under edges holds everything
    /// that `start` reaches.
    pub proof fn lemma_closed_set_holds_reachable(
        self,
        inside: Set<Seq<char>>,
        start: Seq<char>,
        x: Seq<char>,
    )
        requires
            inside.contains(start),
            forall|k: int|
                0 <= k < self.edges.len() && inside.contains((#[trigger] self.edges[k]).0)
                    ==> inside.contains(self.edges[k].1),
            self.reaches(start, x),
        ensures
            inside.contains(x),
    {
        let path = choose|path: Seq<Seq<char>>|
            #[trigger] self.is_path(path) && path.len() >= 2 && path[0] == start && path.last()
                == x;
        self.lemma_path_stays_inside(inside, path, path.len() - 1);
    }

    /// A list of different ids that edges lead to is no longer than the list
    /// of edges.
    proof fn lemma_reached_is_bounded(self, start: Seq<char>, found: Seq<Seq<char>>)
        requires
            self.reached_from(start, found),
        ensures
            found.len() <= self.edges.len(),
    {
        let targets = self.targets();
        found.unique_seq_to_set();
        targets.lemma_cardinality_of_set();
        vstd::seq_lib::seq_to_set_is_finite(targets);
        assert(found.to_set().subset_of(targets.to_set()));
        lemma_len_subset(found.to_set(), targets.to_set());
    }
}

impl ModuleGraph {
    /// Adds to `found` the ids that edges from `node` lead to and that are
    /// neither `start` nor in `found` yet.
    fn expand(&self, node: &str, start: &str, found: &mut Vec<String>)
        requires
            node@ == start@ || self@.reaches(start@, node@),
            self@.reached_from(start@, texts(old(found)@)),
        ensures
            self@.reached_from(start@, texts(final(found)@)),
            old(found)@.len() <= final(found)@.len(),
            texts(final(found)@).take(old(found)@.len() as int) == texts(old(found)@),
            self@.expanded(node@, start@, texts(final(found)@)),
    {
        let ghost edges = self@.edges;
        let ghost before = texts(found@);
        let mut i: usize = 0;
        assert(texts(found@).take(found@.len() as int) =~= before);
        while i < self.dependency_map.len()
            invariant
                i <= self.dependency_map.len(),
                edges == self@.edges,
                node@ == start@ || self@.reaches(start@, node@),
                self@.reached_from(start@, texts(found@)),
                before.len() <= found@.len(),
                texts(found@).take(before.len() as int) == before,
                forall|k: int|
                    0 <= k < i && (#[trigger] edges[k]).0 == node@ ==> edges[k].1 == start@
                        || texts(found@).contains(edges[k].1),
            decreases self.dependency_map.len() - i,
        {
            let edge = &self.dependency_map[i];
            let ghost now = texts(found@);
            assert(edges[i as int] == (edge.0@, edge.1@));
            if same_text(edge.0.as_str(), node) && !same_text(edge.1.as_str(), start)
                && !contains_text(found, edge.1.as_str()) {
                found.push(edge.1.clone());
                proof {
                    let grown = texts(found@);
                    assert(grown =~= now.push(edge.1@));
                    assert(self@.has_edge(node@, edge.1@));
                    self@.lemma_reaches_step(start@, node@, edge.1@);
                    assert(self@.targets()[i as int] == edge.1@);
                    assert forall|k: int| 0 <= k < grown.len() implies (#[trigger] grown[k])
                        != start@ && self@.reaches(start@, grown[k]) && self@.targets().contains(
                        grown[k],
                    ) by {
                        if k < now.len() {
                            assert(grown[k] == now[k]);
                        }
                    }
                    assert(grown.take(before.len() as int) =~= now.take(before.len() as int));
                    assert forall|k: int|
                        0 <= k < i + 1 && (#[trigger] edges[k]).0 == node@ implies edges[k].1
                        == start@ || grown.contains(edges[k].1) by {
                        if k < i && edges[k].1 != start@ {
                            let j = choose|j: int| 0 <= j < now.len() && now[j] == edges[k].1;
                            assert(grown[j] == edges[k].1);
                        }
                        if k == i {
                            assert(grown[now.len() as int] == edge.1@);
                        }
                    }
                }
            }
            i += 1;
        }
    }

    /// The ids of the modules that `module_id` depends on, directly or through
    /// other modules, each once and without `module_id` itself. The walk ends
    /// on a graph with cycles too.
    pub fn get_module_deps(&self, module_id: &str) -> (deps: Vec<String>)
        ensures
            texts(deps@).no_duplicates(),
            texts(deps@).to_set() == self@.transitive_deps(module_id@),
    {
        let ghost start = module_id@;
        let ghost edges = self@.edges;
        let mut found: Vec<String> = Vec::new();
        self.expand(module_id, module_id, &mut found);
        let mut next: usize = 0;
        proof {
            self@.lemma_reached_is_bounded(start, texts(found@));
        }
        while next < found.len()
            invariant
                next <= found.len(),
                start == module_id@,
                edges == self@.edges,
                found.len() <= edges.len(),
                self@.reached_from(start, texts(found@)),
                self@.expanded(start, start, texts(found@)),
                forall|n: int|
                    0 <= n < next ==> self@.expanded(
                        #[trigger] texts(found@)[n],
                        start,
                        texts(found@),
                    ),
            decreases edges.len() - next,
        {
            let ghost before = texts(found@);
            let node = found[next].clone();
            assert(node@ == before[next as int]);
            self.expand(node.as_str(), module_id, &mut found);
            proof {
                let grown = texts(found@);
                self@.lemma_reached_is_bounded(start, grown);
                assert forall|j: int| 0 <= j < before.len() implies grown[j] == before[j] by {
                    assert(grown.take(before.len() as int)[j] == before[j]);
                }
                assert forall|x: Seq<char>| before.contains(x) implies grown.contains(x) by {
                    let j = choose|j: int| 0 <= j < before.len() && before[j] == x;
                    assert(grown[j] == x);
                }
                assert(self@.expanded(start, start, grown));
                assert forall|n: int| 0 <= n < next + 1 implies self@.expanded(
                    #[trigger] grown[n],
                    start,
                    grown,
                ) by {
                    if n < next {
                        assert(self@.expanded(before[n], start, before));
                    }
                }
            }
            next += 1;
        }
        proof {
            let all = texts(found@);
            let inside = all.to_set().insert(start);
            assert forall|k: int|
                0 <= k < edges.len() && inside.contains((#[trigger] edges[k]).0)
                implies inside.contains(edges[k].1) by {
                if edges[k].0 == start {
                    assert(self@.expanded(start, start, all));
                } else {
                    let n = choose|n: int| 0 <= n < all.len() && all[n] == edges[k].0;
                    assert(self@.expanded(all[n], start, all));
                }
            }
            assert forall|x: Seq<char>| self@.transitive_deps(start).contains(x)
                implies all.to_set().contains(x) by {
                self@.lemma_closed_set_holds_reachable(inside, start, x);
            }
            assert(all.to_set() =~= self@.transitive_deps(start));
        }
        found
    }
}

impl ModuleGraphView {
    /// This graph with the request `request` rewritten to `dep_id` in the code
    /// of the module `module_id`.
    pub open spec fn with_request_rewritten(
        self,
        module_id: Seq<char>,
        request: Seq<char>,
        dep_id: Seq<char>,
    ) -> Self {
        ModuleGraphView {
            modules: self.modules.map_values(
                |m: JsModuleView|
                    if m.id == module_id {
                        m.with_request_rewritten(request, dep_id)
                    } else {
                        m
                    },
            ),
            ..self
        }
    }
}

impl ModuleGraph {
    /// Rewrites the request `request` to the id `dep_id` in the code of the
    /// module `module_id`. Returns whether the graph holds that module; where
    /// it does not, nothing changes.
    pub fn update_dep_src(&mut self, module_id: &str, request: &str, dep_id: &str) -> (r: bool)
        requires
            old(self).wf(),
        ensures
            final(self).wf(),
            r == old(self)@.has_module(module_id@),
            final(self)@ == old(self)@.with_request_rewritten(module_id@, request@, dep_id@),
            final(self)@.module_ids() == old(self)@.module_ids(),
    {
        let ghost before = self@;
        match self.find_module(module_id) {
            Some(i) => {
                self.modules[i].update_dep_src(request, dep_id);
                proof {
                    let after = self@;
                    assert(after.module_ids() =~= before.module_ids());
                    assert(after.modules =~= before.with_request_rewritten(
                        module_id@,
                        request@,
                        dep_id@,
                    ).modules) by {
                        assert forall|k: int| 0 <= k < before.modules.len() && k != i
                            implies before.modules[k].id != module_id@ by {
                            assert(before.module_ids()[k] == before.modules[k].id);
                            assert(before.module_ids()[i as int] == module_id@);
                        }
                    }
                }
                true
            },
            None => {
                proof {
                    assert forall|k: int| 0 <= k < before.modules.len()
                        implies before.modules[k].id != module_id@ by {
                        assert(before.module_ids()[k] == before.modules[k].id);
                    }
                    assert(before.modules =~= before.with_request_rewritten(
                        module_id@,
                        request@,
                        dep_id@,
                    ).modules);
                }
                false
            },
        }
    }

    /// The modules, in the order in which they were added.
    pub fn modules(&self) -> (modules: &Vec<JsModule>)
        ensures
            module_views(modules@) == self@.modules,
    {
        &self.modules
    }

    /// The entrypoint ids, in the order in which they were added.
    pub fn entrypoints(&self) -> (entrypoints: &Vec<String>)
        ensures
            texts(entrypoints@) == self@.entrypoints,
    {
        &self.entrypoints
    }

    /// The ids that the module `id` depends on directly, in first-seen order.
    pub fn dependencies_of(&self, id: &str) -> (deps: Vec<String>)
        ensures
            texts(deps@) == self@.dependencies_of(id@),
    {
        let ghost edges = self@.edges;
        let ghost keep = |e: (Seq<char>, Seq<char>)| e.0 == id@;
        let ghost target = |e: (Seq<char>, Seq<char>)| e.1;
        let mut deps: Vec<String> = Vec::new();
        let mut i: usize = 0;
        proof {
            reveal(Seq::filter);
            assert(edges.take(0) =~= Seq::empty());
            assert(texts(deps@) =~= edges.take(0).filter(keep).map_values(target));
        }
        while i < self.dependency_map.len()
            invariant
                i <= self.dependency_map.len(),
                edges == self@.edges,
                keep == |e: (Seq<char>, Seq<char>)| e.0 == id@,
                target == |e: (Seq<char>, Seq<char>)| e.1,
                texts(deps@) == edges.take(i as int).filter(keep).map_values(target),
            decreases self.dependency_map.len() - i,
        {
            let edge = &self.dependency_map[i];
            let ghost before = texts(deps@);
            proof {
                reveal(Seq::filter);
                assert(edges[i as int] == (edge.0@, edge.1@));
                assert(edges.take(i + 1).drop_last() =~= edges.take(i as int));
                assert(edges.take(i + 1).last() == edges[i as int]);
            }
            if same_text(edge.0.as_str(), id) {
                deps.push(edge.1.clone());
                assert(texts(deps@) =~= before.push(edge.1@));
                assert(texts(deps@) =~= edges.take(i + 1).filter(keep).map_values(target));
            }
            i += 1;
        }
        assert(edges.take(self.dependency_map.len() as int) =~= edges);
        deps
    }
}

/// The listing of `modules`: for each module a line with its id and then its
/// code, ended by a line break.
pub open spec fn listing_of(modules: Seq<JsModuleView>) -> Seq<char>
    decreases modules.len(),
{
    if modules.len() == 0 {
        Seq::empty()
    } else {
        listing_of(modules.drop_last()) + modules.last().id + "\n"@ + modules.last().code
            + "\n"@
    }
}

impl ModuleGraph {
    /// The listing of the modules of the graph, in the order in which they
    /// were added.
    pub fn listing(&self) -> (text: String)
        ensures
            text@ == listing_of(self@.modules),
    {
        let ghost modules = self@.modules;
        let mut text = String::new();
        let mut i: usize = 0;
        assert(modules.take(0) =~= Seq::empty());
        while i < self.modules.len()
            invariant
                i <= self.modules.len(),
                modules == self@.modules,
                text@ == listing_of(modules.take(i as int)),
            decreases self.modules.len() - i,
        {
            let module = &self.modules[i];
            proof {
                assert(modules[i as int] == module@);
                assert(modules.take(i + 1).drop_last() =~= modules.take(i as int));
                assert(modules.take(i + 1).last() == module@);
            }
            text.append(module.id.as_str());
            text.append("\n");
            text.append(module.code.as_str());
            text.append("\n");
            i += 1;
        }
        assert(modules.take(self.modules.len() as int) =~= modules);
        text
    }
}

impl ModuleGraphView {
    /// The ids that a module depends on directly are the ids that its edges
    /// lead to.
    pub proof fn lemma_dependencies_of_are_edges(self, from: Seq<char>)
        ensures
            forall|to: Seq<char>| #[trigger]
                self.dependencies_of(from).contains(to) <==> self.has_edge(from, to),
        decreases self.edges.len(),
    {
        reveal(Seq::filter);
        let keep = |e: (Seq<char>, Seq<char>)| e.0 == from;
        let target = |e: (Seq<char>, Seq<char>)| e.1;
        let deps = self.dependencies_of(from);
        if self.edges.len() > 0 {
            let shorter = ModuleGraphView { edges: self.edges.drop_last(), ..self };
            let rest = shorter.dependencies_of(from);
            let last = self.edges.last();
            shorter.lemma_dependencies_of_are_edges(from);
            assert(deps =~= if last.0 == from {
                rest.push(last.1)
            } else {
                rest
            });
            assert forall|to: Seq<char>| #[trigger]
                deps.contains(to) <==> self.has_edge(from, to) by {
                if deps.contains(to) {
                    let j = choose|j: int| 0 <= j < deps.len() && deps[j] == to;
                    if j < rest.len() {
                        assert(rest[j] == to);
                        assert(rest.contains(to));
                        assert(shorter.has_edge(from, to));
                        let k = choose|k: int|
                            0 <= k < shorter.edges.len() && shorter.edges[k] == (from, to);
                        assert(self.edges[k] == (from, to));
                    } else {
                        assert(self.edges[self.edges.len() - 1] == (from, to));
                    }
                }
                if self.has_edge(from, to) {
                    let k = choose|k: int| 0 <= k < self.edges.len() && self.edges[k] == (from, to);
                    if k < shorter.edges.len() {
                        assert(shorter.edges[k] == (from, to));
                        assert(shorter.has_edge(from, to));
                        assert(rest.contains(to));
                        let j = choose|j: int| 0 <= j < rest.len() && rest[j] == to;
                        assert(deps[j] == to);
                    } else {
                        assert(deps[deps.len() - 1] == to);
                    }
                }
            }
        } else {
            assert(deps =~= Seq::empty());
        }
    }
}

} // verus!
