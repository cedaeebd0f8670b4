//! The decisions of the build engine.
//!
//! The engine discovers the modules that an entrypoint needs. It hands out
//! work, a module to build or a request to resolve, and is told the results
//! one at a time. A built module brings the requests of its dependencies,
//! each of which is resolved once; a resolved request adds an edge to the
//! graph and, the first time it leads to a module, the work of building that
//! module. When no work is out, the engine asks the workers to exit.
//!
//! Doing the work, and carrying it to and from the workers, is up to the
//! caller: [`ModuleLoader::start`] and [`ModuleLoader::handle`] only decide.

use crate::diagnostics::{
    BuildFailure, BuildFailureView, Diagnostic, DiagnosticView, ErrorKind, ModuleBuildSuccess,
    ModuleBuildSuccessView, RESOLVE_FAILED,
};
use crate::module_builder::{bytes_view, decode_emitted, emitted_code};
use crate::js_module::{
    dependency_views, Dependency, DependencyView, JsModule, JsModuleView, ModuleType,
};
use crate::module_graph::{edge_views, ModuleGraphView};
use crate::template::{
    chunk_is_whole, chunk_modules, chunk_text, in_chunk, lemma_registry_holds_each_module_once,
    registry_ids, render_chunk,
};
use crate::text::{contains_text, position_of, same_text, texts};
use crate::utils::{create_module_id, module_id_of, parent_dir, parent_of};
use crate::{Compilation, CompilationView, Config, ConfigView};
use vstd::prelude::*;
use vstd::string::*;

verus! {

/// A module was built: its lowered code, its kind, what it depends on, and
/// the milliseconds the build took.
#[derive(Clone, Debug, PartialEq, Eq)]
pub struct BuildModuleSuccess {
    pub filepath: String,
    pub code: String,
    pub module_type: ModuleType,
    pub dependencies: Vec<Dependency>,
    pub duration: u128,
}

pub struct BuildModuleSuccessView {
    pub filepath: Seq<char>,
    pub code: Seq<char>,
    pub module_type: ModuleType,
    pub dependencies: Seq<DependencyView>,
    pub duration: nat,
}

impl View for BuildModuleSuccess {
    type V = BuildModuleSuccessView;

    open spec fn view(&self) -> BuildModuleSuccessView {
        BuildModuleSuccessView {
            filepath: self.filepath@,
            code: self.code@,
            module_type: self.module_type,
            dependencies: dependency_views(self.dependencies@),
            duration: self.duration as nat,
        }
    }
}

/// The work of resolving `request`, which the module `parent_module_id`, read
/// from `source_filepath`, makes.
#[derive(Clone, Debug, PartialEq, Eq)]
pub struct ResolveModule {
    pub source_filepath: String,
    pub request: String,
    pub parent_module_id: String,
}

pub struct ResolveModuleView {
    pub source_filepath: Seq<char>,
    pub request: Seq<char>,
    pub parent_module_id: Seq<char>,
}

impl View for ResolveModule {
    type V = ResolveModuleView;

    open spec fn view(&self) -> ResolveModuleView {
        ResolveModuleView {
            source_filepath: self.source_filepath@,
            request: self.request@,
            parent_module_id: self.parent_module_id@,
        }
    }
}

/// The request `request` of the module `parent_module_id` was resolved to the
/// file `filepath`.
#[derive(Clone, Debug, PartialEq, Eq)]
pub struct ResolveModuleSuccess {
    pub filepath: String,
    pub parent_module_id: String,
    pub request: String,
}

pub struct ResolveModuleSuccessView {
    pub filepath: Seq<char>,
    pub parent_module_id: Seq<char>,
    pub request: Seq<char>,
}

impl View for ResolveModuleSuccess {
    type V = ResolveModuleSuccessView;

    open spec fn view(&self) -> ResolveModuleSuccessView {
        ResolveModuleSuccessView {
            filepath: self.filepath@,
            parent_module_id: self.parent_module_id@,
            request: self.request@,
        }
    }
}

/// Work that the engine hands out.
#[derive(Clone, Debug, PartialEq, Eq)]
pub enum WorkMsg {
    /// Resolve a request.
    ResolveModule(ResolveModule),
    /// Build the module at this path.
    BuildModule(String),
    /// No work is left: stop.
    Exit,
}

pub enum WorkMsgView {
    ResolveModule(ResolveModuleView),
    BuildModule(Seq<char>),
    Exit,
}

impl View for WorkMsg {
    type V = WorkMsgView;

    open spec fn view(&self) -> WorkMsgView {
        match self {
            WorkMsg::ResolveModule(work) => WorkMsgView::ResolveModule(work@),
            WorkMsg::BuildModule(path) => WorkMsgView::BuildModule(path@),
            WorkMsg::Exit => WorkMsgView::Exit,
        }
    }
}

/// The views of a list of work, in order.
pub open spec fn work_views(work: Seq<WorkMsg>) -> Seq<WorkMsgView> {
    work.map_values(|w: WorkMsg| w@)
}

/// What the engine is told.
#[derive(Clone, Debug, PartialEq, Eq)]
pub enum ResultMsg {
    /// A module was built.
    BuildModule(BuildModuleSuccess),
    /// A request was resolved.
    ResolveModule(ResolveModuleSuccess),
    /// Some work failed.
    Failed(BuildFailure),
    /// The workers have stopped.
    Exited,
}

pub enum ResultMsgView {
    BuildModule(BuildModuleSuccessView),
    ResolveModule(ResolveModuleSuccessView),
    Failed(BuildFailureView),
    Exited,
}

impl View for ResultMsg {
    type V = ResultMsgView;

    open spec fn view(&self) -> ResultMsgView {
        match self {
            ResultMsg::BuildModule(result) => ResultMsgView::BuildModule(result@),
            ResultMsg::ResolveModule(result) => ResultMsgView::ResolveModule(result@),
            ResultMsg::Failed(failure) => ResultMsgView::Failed(failure@),
            ResultMsg::Exited => ResultMsgView::Exited,
        }
    }
}

/// The view of a path that a resolver gave.
pub open spec fn path_view(path: Option<String>) -> Option<Seq<char>> {
    match path {
        Some(path) => Some(path@),
        None => None,
    }
}

/// The result of building the module at `filepath`: what the engine is told
/// when the code generator gave `emitted` for the lowered module. Where it
/// gave nothing, or bytes that are no UTF-8, the build has failed.
pub open spec fn build_outcome(
    filepath: Seq<char>,
    emitted: Option<Seq<u8>>,
    module_type: ModuleType,
    dependencies: Seq<DependencyView>,
    duration: nat,
) -> ResultMsgView {
    match emitted_code(filepath, emitted) {
        Ok(code) => ResultMsgView::BuildModule(
            BuildModuleSuccessView { filepath, code, module_type, dependencies, duration },
        ),
        Err(failure) => ResultMsgView::Failed(failure),
    }
}

/// The result of resolving `work`: what the engine is told when the resolver
/// gave `resolved`. Where it gave nothing, the resolution has failed.
pub open spec fn resolve_outcome(work: ResolveModuleView, resolved: Option<Seq<char>>) -> ResultMsgView {
    match resolved {
        Some(filepath) => ResultMsgView::ResolveModule(
            ResolveModuleSuccessView {
                filepath,
                parent_module_id: work.parent_module_id,
                request: work.request,
            },
        ),
        None => ResultMsgView::Failed(
            BuildFailureView {
                kind: ErrorKind::Resolve,
                path: work.source_filepath,
                detail: RESOLVE_FAILED@ + work.request,
            },
        ),
    }
}

/// Makes the result of building the module read from `filepath`, lowered to a
/// module of kind `module_type` with the dependencies `dependencies`, out of
/// the bytes `emitted` that the code generator gave.
pub fn build_module(
    filepath: String,
    emitted: Option<Vec<u8>>,
    module_type: ModuleType,
    dependencies: Vec<Dependency>,
    duration: u128,
) -> (msg: ResultMsg)
    ensures
        msg@ == build_outcome(
            filepath@,
            bytes_view(emitted),
            module_type,
            dependency_views(dependencies@),
            duration as nat,
        ),
{
    match decode_emitted(filepath.as_str(), emitted) {
        Ok(code) => ResultMsg::BuildModule(
            BuildModuleSuccess { filepath, code, module_type, dependencies, duration },
        ),
        Err(failure) => ResultMsg::Failed(failure),
    }
}

/// Makes the result of resolving `work` out of the path `resolved` that the
/// resolver gave.
pub fn resolve_module(work: ResolveModule, resolved: Option<String>) -> (msg: ResultMsg)
    ensures
        msg@ == resolve_outcome(work@, path_view(resolved)),
{
    match resolved {
        Some(filepath) => ResultMsg::ResolveModule(
            ResolveModuleSuccess {
                filepath,
                parent_module_id: work.parent_module_id,
                request: work.request,
            },
        ),
        None => {
            let mut detail = String::from_str(RESOLVE_FAILED);
            detail.append(work.request.as_str());
            ResultMsg::Failed(
                BuildFailure::new(
                    ErrorKind::Resolve,
                    work.source_filepath.as_str(),
                    detail.as_str(),
                ),
            )
        },
    }
}

impl ResolveModule {
    /// The directory from which the request is resolved: the one that holds
    /// the file that makes the request.
    pub fn basedir(&self) -> (dir: String)
        ensures
            dir@ == parent_of(self@.source_filepath),
    {
        parent_dir(self.source_filepath.as_str())
    }
}

/// A result that the engine did not ask for.
#[derive(Clone, Copy, Debug, PartialEq, Eq, Structural)]
pub enum LoadError {
    /// A module was built that the engine had not asked to build.
    UnexpectedBuild,
    /// A request was resolved that the engine had not asked to resolve.
    UnexpectedResolve,
    /// The workers stopped before the engine asked them to.
    UnexpectedExit,
    /// A result came after the workers had stopped.
    AlreadyExited,
}

/// The requests of `deps`, each once, in first-seen order.
pub open spec fn distinct_requests(deps: Seq<DependencyView>) -> Seq<Seq<char>>
    decreases deps.len(),
{
    if deps.len() == 0 {
        Seq::empty()
    } else {
        let rest = distinct_requests(deps.drop_last());
        if rest.contains(deps.last().request) {
            rest
        } else {
            rest.push(deps.last().request)
        }
    }
}

/// The work of resolving `request` for the module `id` read from `filepath`.
pub open spec fn resolve_work(id: Seq<char>, filepath: Seq<char>, request: Seq<char>) -> WorkMsgView {
    WorkMsgView::ResolveModule(
        ResolveModuleView { source_filepath: filepath, request, parent_module_id: id },
    )
}

/// A request of a built module, with the id it was resolved to once it was.
#[derive(Clone, Debug, PartialEq, Eq)]
pub struct Request {
    pub parent_module_id: String,
    pub request: String,
    pub resolved: Option<String>,
}

pub struct RequestView {
    pub parent_module_id: Seq<char>,
    pub request: Seq<char>,
    pub resolved: Option<Seq<char>>,
}

impl View for Request {
    type V = RequestView;

    open spec fn view(&self) -> RequestView {
        RequestView {
            parent_module_id: self.parent_module_id@,
            request: self.request@,
            resolved: path_view(self.resolved),
        }
    }
}

impl RequestView {
    /// The module that makes the request, and the request.
    pub open spec fn key(self) -> (Seq<char>, Seq<char>) {
        (self.parent_module_id, self.request)
    }
}

/// The views of a list of requests, in order.
pub open spec fn request_views(requests: Seq<Request>) -> Seq<RequestView> {
    requests.map_values(|r: Request| r@)
}

/// The module and the request of each of `requests`, in order.
pub open spec fn request_keys(requests: Seq<RequestView>) -> Seq<(Seq<char>, Seq<char>)> {
    requests.map_values(|r: RequestView| r.key())
}

/// The request `request` of the module `id`, not resolved yet.
pub open spec fn open_request(id: Seq<char>, request: Seq<char>) -> RequestView {
    RequestView { parent_module_id: id, request, resolved: None }
}

/// The edges that the resolved requests of `requests` make, in the order of
/// the requests, each edge once.
pub open spec fn resolved_edges(requests: Seq<RequestView>) -> Seq<(Seq<char>, Seq<char>)>
    decreases requests.len(),
{
    if requests.len() == 0 {
        Seq::empty()
    } else {
        let rest = resolved_edges(requests.drop_last());
        match requests.last().resolved {
            Some(target) => if rest.contains((requests.last().parent_module_id, target)) {
                rest
            } else {
                rest.push((requests.last().parent_module_id, target))
            },
            None => rest,
        }
    }
}

/// The ids that the resolved requests of the module `id` lead to, in the
/// order of the requests, each id once.
pub open spec fn targets_of(requests: Seq<RequestView>, id: Seq<char>) -> Seq<Seq<char>>
    decreases requests.len(),
{
    if requests.len() == 0 {
        Seq::empty()
    } else {
        let rest = targets_of(requests.drop_last(), id);
        match requests.last().resolved {
            Some(target) => if requests.last().parent_module_id == id && !rest.contains(target) {
                rest.push(target)
            } else {
                rest
            },
            None => rest,
        }
    }
}

/// The requests of the module `id` among `requests`, in order.
pub open spec fn requests_of(requests: Seq<RequestView>, id: Seq<char>) -> Seq<Seq<char>>
    decreases requests.len(),
{
    if requests.len() == 0 {
        Seq::empty()
    } else if requests.last().parent_module_id == id {
        requests_of(requests.drop_last(), id).push(requests.last().request)
    } else {
        requests_of(requests.drop_last(), id)
    }
}

/// The state of the engine.
pub struct ModuleLoaderView {
    pub compilation: CompilationView,
    /// The ids of the modules found so far, built or being built.
    pub found_modules: Seq<Seq<char>>,
    /// The ids of the modules that are being built.
    pub building: Seq<Seq<char>>,
    /// The requests that are being resolved, each with the id of the module
    /// that makes it.
    pub resolving: Seq<(Seq<char>, Seq<char>)>,
    /// The requests of the built modules: module after module in the order in
    /// which they were built, the requests of a module in source order.
    pub requests: Seq<RequestView>,
    /// Whether the workers were asked to exit.
    pub exit_sent: bool,
    /// Whether the workers have stopped.
    pub exited: bool,
    /// Whether some work failed.
    pub failed: bool,
}

impl ModuleLoaderView {
    /// The id of the entrypoint.
    pub open spec fn entry_id(self) -> Seq<char> {
        self.compilation.config.entry_id()
    }

    /// The graph built so far.
    pub open spec fn graph(self) -> ModuleGraphView {
        self.compilation.graph
    }

    /// How much work is out.
    pub open spec fn active_work_count(self) -> nat {
        self.building.len() + self.resolving.len()
    }

    /// Whether the build has ended well: all work is done and none failed.
    pub open spec fn complete(self) -> bool {
        !self.failed && self.active_work_count() == 0
    }

    /// What holds of the engine at all times.
    pub open spec fn wf(self) -> bool {
        let graph = self.graph();
        &&& graph.wf()
        &&& self.found_modules.no_duplicates()
        &&& self.building.no_duplicates()
        &&& self.resolving.no_duplicates()
        // a module that was found is built or being built, never both
        &&& forall|id: Seq<char>| #[trigger]
            self.found_modules.contains(id) <==> graph.has_module(id) || self.building.contains(id)
        &&& forall|id: Seq<char>|
            !(#[trigger] graph.has_module(id) && self.building.contains(id))
        // requests are resolved for built modules
        &&& forall|k: int|
            0 <= k < self.resolving.len() ==> graph.has_module((#[trigger] self.resolving[k]).0)
        // a request is being resolved until it is resolved
        &&& request_keys(self.requests).no_duplicates()
        &&& forall|k: int|
            0 <= k < self.requests.len() ==> ((#[trigger] self.requests[k]).resolved is None
                <==> self.resolving.contains(self.requests[k].key()))
        &&& forall|j: int|
            0 <= j < self.resolving.len() ==> request_keys(self.requests).contains(
                #[trigger] self.resolving[j],
            )
        // the edges are those of the resolved requests, in the order of the
        // requests
        &&& graph.edges == resolved_edges(self.requests)
        // edges lead from built modules to found modules
        &&& forall|k: int|
            0 <= k < graph.edges.len() ==> graph.has_module((#[trigger] graph.edges[k]).0)
                && self.found_modules.contains(graph.edges[k].1)
        // the entrypoint was found, and leads to every other module found
        &&& graph.entrypoints == seq![self.entry_id()]
        &&& forall|k: int|
            0 <= k < self.found_modules.len() ==> in_chunk(
                graph,
                self.entry_id(),
                #[trigger] self.found_modules[k],
            )
        &&& self.found_modules.contains(self.entry_id())
        // the workers are asked to exit exactly when no work is out
        &&& !self.failed ==> (self.exit_sent <==> self.active_work_count() == 0)
        &&& self.failed ==> self.exit_sent
        &&& self.exited ==> self.exit_sent
    }

    /// The state before any result, with the entrypoint being built.
    pub open spec fn initial(config: ConfigView) -> Self {
        ModuleLoaderView {
            compilation: CompilationView {
                config,
                diagnostics: Seq::empty(),
                graph: ModuleGraphView {
                    modules: Seq::empty(),
                    entrypoints: seq![config.entry_id()],
                    edges: Seq::empty(),
                },
            },
            found_modules: seq![config.entry_id()],
            building: seq![config.entry_id()],
            resolving: Seq::empty(),
            requests: Seq::empty(),
            exit_sent: false,
            exited: false,
            failed: false,
        }
    }

    /// This state with the graph `graph`.
    pub open spec fn with_graph(self, graph: ModuleGraphView) -> Self {
        ModuleLoaderView { compilation: CompilationView { graph, ..self.compilation }, ..self }
    }

    /// This state with `diagnostic` added to the log.
    pub open spec fn with_diagnostic(self, diagnostic: DiagnosticView) -> Self {
        ModuleLoaderView {
            compilation: CompilationView {
                diagnostics: self.compilation.diagnostics.push(diagnostic),
                ..self.compilation
            },
            ..self
        }
    }

    /// This state once it is settled whether work is left: where none is, the
    /// workers are asked to exit.
    pub open spec fn settled(self) -> (Self, Seq<WorkMsgView>) {
        if self.active_work_count() == 0 && !self.exit_sent {
            (ModuleLoaderView { exit_sent: true, ..self }, seq![WorkMsgView::Exit])
        } else {
            (self, Seq::empty())
        }
    }

    /// The state and the work after the module of `result` was built: the
    /// module joins the graph and the log, and each of its requests is to be
    /// resolved, once.
    pub open spec fn after_build(self, result: BuildModuleSuccessView) -> (Self, Seq<WorkMsgView>) {
        let id = module_id_of(result.filepath, self.compilation.config.project_root);
        let requests = distinct_requests(result.dependencies);
        let module = JsModuleView {
            id,
            filepath: result.filepath,
            code: result.code,
            module_type: result.module_type,
        };
        let graph = ModuleGraphView { modules: self.graph().modules.push(module), ..self.graph() };
        let next = ModuleLoaderView {
            building: self.building.remove(self.building.index_of(id)),
            resolving: self.resolving + requests.map_values(|request: Seq<char>| (id, request)),
            requests: self.requests + requests.map_values(
                |request: Seq<char>| open_request(id, request),
            ),
            ..self.with_graph(graph).with_diagnostic(
                DiagnosticView::ModuleBuildSuccess(
                    ModuleBuildSuccessView { module_id: id, duration: result.duration },
                ),
            )
        };
        let work = requests.map_values(
            |request: Seq<char>| resolve_work(id, result.filepath, request),
        );
        (next.settled().0, work + next.settled().1)
    }

    /// The state and the work after the request of `result` was resolved: the
    /// request is rewritten in the code of the module that makes it, the edge
    /// joins the graph at the place of the request among the requests, and a
    /// module found for the first time is to be built.
    pub open spec fn after_resolve(self, result: ResolveModuleSuccessView) -> (
        Self,
        Seq<WorkMsgView>,
    ) {
        let parent = result.parent_module_id;
        let dep_id = module_id_of(result.filepath, self.compilation.config.project_root);
        let rewritten = self.graph().with_request_rewritten(parent, result.request, dep_id);
        let at = request_keys(self.requests).index_of((parent, result.request));
        let requests = self.requests.update(
            at,
            RequestView { resolved: Some(dep_id), ..self.requests[at] },
        );
        let graph = ModuleGraphView { edges: resolved_edges(requests), ..rewritten };
        let resolved = ModuleLoaderView {
            resolving: self.resolving.remove(self.resolving.index_of((parent, result.request))),
            requests,
            ..self.with_graph(graph)
        };
        if self.found_modules.contains(dep_id) {
            resolved.settled()
        } else {
            (
                ModuleLoaderView {
                    found_modules: self.found_modules.push(dep_id),
                    building: self.building.push(dep_id),
                    ..resolved
                },
                seq![WorkMsgView::BuildModule(result.filepath)],
            )
        }
    }

    /// The state and the work after a failure: the failure joins the log, and
    /// the workers are asked to exit unless they were.
    pub open spec fn after_failure(self, failure: BuildFailureView) -> (Self, Seq<WorkMsgView>) {
        (
            ModuleLoaderView {
                failed: true,
                exit_sent: true,
                ..self.with_diagnostic(DiagnosticView::BuildFailure(failure))
            },
            if self.exit_sent {
                Seq::empty()
            } else {
                seq![WorkMsgView::Exit]
            },
        )
    }

    /// What the engine does when it is told `msg`: the next state and the work
    /// to hand out, or the reason why `msg` cannot be a result of work that the
    /// engine handed out. After a failure, results of work that was out are
    /// dropped.
    pub open spec fn step(self, msg: ResultMsgView) -> Result<(Self, Seq<WorkMsgView>), LoadError> {
        if self.exited {
            Err(LoadError::AlreadyExited)
        } else {
            match msg {
                ResultMsgView::Exited => if self.exit_sent {
                    Ok((ModuleLoaderView { exited: true, ..self }, Seq::empty()))
                } else {
                    Err(LoadError::UnexpectedExit)
                },
                ResultMsgView::Failed(failure) => Ok(self.after_failure(failure)),
                ResultMsgView::BuildModule(result) => if self.failed {
                    Ok((self, Seq::empty()))
                } else if self.building.contains(
                    module_id_of(result.filepath, self.compilation.config.project_root),
                ) {
                    Ok(self.after_build(result))
                } else {
                    Err(LoadError::UnexpectedBuild)
                },
                ResultMsgView::ResolveModule(result) => if self.failed {
                    Ok((self, Seq::empty()))
                } else if self.resolving.contains((result.parent_module_id, result.request)) {
                    Ok(self.after_resolve(result))
                } else {
                    Err(LoadError::UnexpectedResolve)
                },
            }
        }
    }
}

// ---------------------------------------------------------------------------
// Why the engine stays well formed
// ---------------------------------------------------------------------------

/// Removing one item from a list of different items leaves the other items,
/// still different.
proof fn lemma_remove<A>(s: Seq<A>, x: A)
    requires
        s.no_duplicates(),
        s.contains(x),
    ensures
        s.remove(s.index_of(x)).no_duplicates(),
        s.remove(s.index_of(x)).len() == s.len() - 1,
        forall|y: A| #[trigger] s.remove(s.index_of(x)).contains(y) <==> s.contains(y) && y != x,
{
    let i = s.index_of(x);
    let r = s.remove(i);
    assert forall|a: int, b: int| 0 <= a < r.len() && 0 <= b < r.len() && a != b implies r[a]
        != r[b] by {
        let a0 = if a < i {
            a
        } else {
            a + 1
        };
        let b0 = if b < i {
            b
        } else {
            b + 1
        };
        assert(r[a] == s[a0]);
        assert(r[b] == s[b0]);
    }
    assert forall|y: A| #[trigger] r.contains(y) <==> s.contains(y) && y != x by {
        if r.contains(y) {
            let a = choose|a: int| 0 <= a < r.len() && r[a] == y;
            let a0 = if a < i {
                a
            } else {
                a + 1
            };
            assert(s[a0] == y);
        }
        if s.contains(y) && y != x {
            let a0 = choose|a0: int| 0 <= a0 < s.len() && s[a0] == y;
            let a = if a0 < i {
                a0
            } else {
                a0 - 1
            };
            assert(r[a] == y);
        }
    }
}

/// The requests of a module are different, and are the requests of its
/// dependencies.
pub proof fn lemma_distinct_requests(deps: Seq<DependencyView>)
    ensures
        distinct_requests(deps).no_duplicates(),
        forall|request: Seq<char>| #[trigger]
            distinct_requests(deps).contains(request) <==> exists|k: int|
                0 <= k < deps.len() && (#[trigger] deps[k]).request == request,
    decreases deps.len(),
{
    let all = distinct_requests(deps);
    if deps.len() > 0 {
        let shorter = deps.drop_last();
        let rest = distinct_requests(shorter);
        lemma_distinct_requests(shorter);
        assert forall|request: Seq<char>| #[trigger] all.contains(request) <==> exists|k: int|
            0 <= k < deps.len() && (#[trigger] deps[k]).request == request by {
            if all.contains(request) {
                let j = choose|j: int| 0 <= j < all.len() && all[j] == request;
                if j < rest.len() {
                    assert(rest[j] == request);
                    assert(rest.contains(request));
                    let k = choose|k: int|
                        0 <= k < shorter.len() && (#[trigger] shorter[k]).request == request;
                    assert(deps[k].request == request);
                } else {
                    assert(deps[deps.len() - 1].request == request);
                }
            }
            if exists|k: int| 0 <= k < deps.len() && (#[trigger] deps[k]).request == request {
                let k = choose|k: int| 0 <= k < deps.len() && (#[trigger] deps[k]).request == request;
                if k < shorter.len() {
                    assert(shorter[k].request == request);
                    assert(rest.contains(request));
                    let j = choose|j: int| 0 <= j < rest.len() && rest[j] == request;
                    assert(all[j] == request);
                } else if rest.contains(request) {
                    let j = choose|j: int| 0 <= j < rest.len() && rest[j] == request;
                    assert(all[j] == request);
                } else {
                    assert(all[all.len() - 1] == request);
                }
            }
        }
    }
}

/// The edge that `request` makes, once it is resolved.
pub open spec fn edge_of(request: RequestView) -> Option<(Seq<char>, Seq<char>)> {
    match request.resolved {
        Some(target) => Some((request.parent_module_id, target)),
        None => None,
    }
}

/// Whether a resolved request of `requests` makes the edge `edge`.
pub open spec fn makes_edge(requests: Seq<RequestView>, edge: (Seq<char>, Seq<char>)) -> bool {
    exists|k: int| 0 <= k < requests.len() && edge_of(#[trigger] requests[k]) == Some(edge)
}

/// The edges of the resolved requests are different, and are the edges that
/// the resolved requests make.
pub proof fn lemma_resolved_edges(requests: Seq<RequestView>)
    ensures
        resolved_edges(requests).no_duplicates(),
        forall|edge: (Seq<char>, Seq<char>)| #[trigger]
            resolved_edges(requests).contains(edge) <==> makes_edge(requests, edge),
    decreases requests.len(),
{
    let all = resolved_edges(requests);
    if requests.len() > 0 {
        let shorter = requests.drop_last();
        let rest = resolved_edges(shorter);
        let last = requests.last();
        lemma_resolved_edges(shorter);
        assert forall|edge: (Seq<char>, Seq<char>)| #[trigger]
            all.contains(edge) <==> makes_edge(requests, edge) by {
            if all.contains(edge) {
                let j = choose|j: int| 0 <= j < all.len() && all[j] == edge;
                if j < rest.len() {
                    assert(rest[j] == edge);
                    assert(rest.contains(edge));
                    let k = choose|k: int|
                        0 <= k < shorter.len() && edge_of(#[trigger] shorter[k]) == Some(edge);
                    assert(requests[k] == shorter[k]);
                } else {
                    assert(edge_of(requests[requests.len() - 1]) == Some(edge));
                }
            }
            if makes_edge(requests, edge) {
                let k = choose|k: int|
                    0 <= k < requests.len() && edge_of(#[trigger] requests[k]) == Some(edge);
                if k < shorter.len() {
                    assert(shorter[k] == requests[k]);
                    assert(makes_edge(shorter, edge));
                    assert(rest.contains(edge));
                    let j = choose|j: int| 0 <= j < rest.len() && rest[j] == edge;
                    assert(all[j] == edge);
                } else if rest.contains(edge) {
                    let j = choose|j: int| 0 <= j < rest.len() && rest[j] == edge;
                    assert(all[j] == edge);
                } else {
                    assert(all[all.len() - 1] == edge);
                }
            }
        }
    } else {
        assert forall|edge: (Seq<char>, Seq<char>)| #[trigger]
            all.contains(edge) <==> makes_edge(requests, edge) by {}
    }
}

/// Requests that are not resolved make no edge.
pub proof fn lemma_open_requests_make_no_edge(requests: Seq<RequestView>, more: Seq<RequestView>)
    requires
        forall|k: int| 0 <= k < more.len() ==> (#[trigger] more[k]).resolved is None,
    ensures
        resolved_edges(requests + more) == resolved_edges(requests),
    decreases more.len(),
{
    if more.len() == 0 {
        assert(requests + more =~= requests);
    } else {
        lemma_open_requests_make_no_edge(requests, more.drop_last());
        assert((requests + more).drop_last() =~= requests + more.drop_last());
        assert((requests + more).last() == more[more.len() - 1]);
    }
}

/// The edges of the resolved requests that leave a module lead to the ids
/// that its resolved requests lead to, in the order of the requests.
pub proof fn lemma_resolved_edges_follow_requests(
    graph: ModuleGraphView,
    requests: Seq<RequestView>,
    id: Seq<char>,
)
    requires
        graph.edges == resolved_edges(requests),
    ensures
        graph.dependencies_of(id) == targets_of(requests, id),
    decreases requests.len(),
{
    reveal(Seq::filter);
    if requests.len() == 0 {
        assert(graph.dependencies_of(id) =~= Seq::empty());
    } else {
        let shorter = requests.drop_last();
        let before = ModuleGraphView { edges: resolved_edges(shorter), ..graph };
        let last = requests.last();
        lemma_resolved_edges_follow_requests(before, shorter, id);
        before.lemma_dependencies_of_are_edges(id);
        if last.resolved is Some {
            let edge = (last.parent_module_id, last.resolved->0);
            if !before.edges.contains(edge) {
                assert(graph.edges.drop_last() =~= before.edges);
                assert(graph.edges.last() == edge);
                if last.parent_module_id == id {
                    assert(!before.has_edge(id, edge.1));
                    assert(graph.dependencies_of(id) =~= before.dependencies_of(id).push(edge.1));
                } else {
                    assert(graph.dependencies_of(id) =~= before.dependencies_of(id));
                }
            } else if last.parent_module_id == id {
                assert(before.has_edge(id, edge.1));
            }
        }
    }
}

/// The requests of the module `id` among `requests` and more requests, which
/// are those of the module `id` alone.
pub proof fn lemma_requests_of_new_module(
    requests: Seq<RequestView>,
    id: Seq<char>,
    more: Seq<Seq<char>>,
)
    requires
        forall|k: int| 0 <= k < requests.len() ==> (#[trigger] requests[k]).parent_module_id != id,
    ensures
        requests_of(
            requests + more.map_values(|request: Seq<char>| open_request(id, request)),
            id,
        ) == more,
    decreases more.len(),
{
    let opened = more.map_values(|request: Seq<char>| open_request(id, request));
    if more.len() == 0 {
        assert(requests + opened =~= requests);
        lemma_requests_of_other_modules(requests, id);
        assert(more =~= Seq::empty());
    } else {
        let fewer = more.drop_last();
        lemma_requests_of_new_module(requests, id, fewer);
        assert((requests + opened).drop_last() =~= requests + fewer.map_values(
            |request: Seq<char>| open_request(id, request),
        ));
        assert((requests + opened).last() == open_request(id, more.last()));
        assert(fewer.push(more.last()) =~= more);
    }
}

proof fn lemma_requests_of_other_modules(requests: Seq<RequestView>, id: Seq<char>)
    requires
        forall|k: int| 0 <= k < requests.len() ==> (#[trigger] requests[k]).parent_module_id != id,
    ensures
        requests_of(requests, id) == Seq::<Seq<char>>::empty(),
    decreases requests.len(),
{
    if requests.len() > 0 {
        assert forall|k: int| 0 <= k < requests.drop_last().len() implies (
            #[trigger] requests.drop_last()[k]).parent_module_id != id by {
            assert(requests.drop_last()[k] == requests[k]);
        }
        lemma_requests_of_other_modules(requests.drop_last(), id);
        assert(requests[requests.len() - 1].parent_module_id != id);
    }
}

impl ModuleGraphView {
    /// What is reached in a graph is reached in every graph that holds its
    /// edges.
    pub proof fn lemma_reaches_is_monotone(self, other: Self, from: Seq<char>, to: Seq<char>)
        requires
            forall|k: int|
                0 <= k < self.edges.len() ==> other.edges.contains(#[trigger] self.edges[k]),
            self.reaches(from, to),
        ensures
            other.reaches(from, to),
    {
        let path = choose|path: Seq<Seq<char>>|
            #[trigger] self.is_path(path) && path.len() >= 2 && path[0] == from && path.last()
                == to;
        assert forall|k: int| 0 <= k < path.len() - 1 implies other.has_edge(
            #[trigger] path[k],
            path[k + 1],
        ) by {
            assert(self.has_edge(path[k], path[k + 1]));
            let n = choose|n: int|
                0 <= n < self.edges.len() && self.edges[n] == (path[k], path[k + 1]);
            assert(other.edges.contains(self.edges[n]));
        }
        assert(other.is_path(path));
    }
}

impl ModuleLoaderView {
    /// Settling keeps a state well formed.
    proof fn lemma_settled_wf(self)
        requires
            !self.failed,
            !self.exited,
            self.exit_sent ==> self.active_work_count() == 0,
            (ModuleLoaderView { exit_sent: self.active_work_count() == 0, ..self }).wf(),
        ensures
            self.settled().0.wf(),
            self.settled().0 == (ModuleLoaderView {
                exit_sent: self.active_work_count() == 0,
                ..self
            }),
    {
    }

    /// Every request is one of a built module.
    pub proof fn lemma_requests_of_built_modules(self)
        requires
            self.wf(),
        ensures
            forall|k: int|
                0 <= k < self.requests.len() ==> self.graph().has_module(
                    (#[trigger] self.requests[k]).parent_module_id,
                ),
    {
        let graph = self.graph();
        lemma_resolved_edges(self.requests);
        assert forall|k: int| 0 <= k < self.requests.len() implies graph.has_module(
            (#[trigger] self.requests[k]).parent_module_id,
        ) by {
            let r = self.requests[k];
            if r.resolved is None {
                assert(self.resolving.contains(r.key()));
                let j = choose|j: int| 0 <= j < self.resolving.len() && self.resolving[j]
                    == r.key();
                assert(graph.has_module(self.resolving[j].0));
            } else {
                let edge = (r.parent_module_id, r.resolved->0);
                assert(edge_of(self.requests[k]) == Some(edge));
                assert(makes_edge(self.requests, edge));
                assert(graph.edges.contains(edge));
                let j = choose|j: int| 0 <= j < graph.edges.len() && graph.edges[j] == edge;
                assert(graph.has_module(graph.edges[j].0));
            }
        }
    }

    /// A build that the engine asked for keeps it well formed.
    pub proof fn lemma_after_build_wf(self, result: BuildModuleSuccessView)
        requires
            self.wf(),
            !self.failed,
            !self.exited,
            self.building.contains(
                module_id_of(result.filepath, self.compilation.config.project_root),
            ),
        ensures
            self.after_build(result).0.wf(),
    {
        let id = module_id_of(result.filepath, self.compilation.config.project_root);
        let requests = distinct_requests(result.dependencies);
        let module = JsModuleView {
            id,
            filepath: result.filepath,
            code: result.code,
            module_type: result.module_type,
        };
        let old_graph = self.graph();
        let graph = ModuleGraphView { modules: old_graph.modules.push(module), ..old_graph };
        let pairs = requests.map_values(|request: Seq<char>| (id, request));
        let opened = requests.map_values(|request: Seq<char>| open_request(id, request));
        let next = ModuleLoaderView {
            building: self.building.remove(self.building.index_of(id)),
            resolving: self.resolving + pairs,
            requests: self.requests + opened,
            ..self.with_graph(graph).with_diagnostic(
                DiagnosticView::ModuleBuildSuccess(
                    ModuleBuildSuccessView { module_id: id, duration: result.duration },
                ),
            )
        };
        let target = ModuleLoaderView { exit_sent: next.active_work_count() == 0, ..next };
        lemma_remove(self.building, id);
        lemma_distinct_requests(result.dependencies);
        assert(!old_graph.has_module(id));
        assert(graph.module_ids() =~= old_graph.module_ids().push(id));
        assert forall|x: Seq<char>| #[trigger]
            graph.has_module(x) <==> old_graph.has_module(x) || x == id by {
            if old_graph.has_module(x) {
                let k = choose|k: int|
                    0 <= k < old_graph.module_ids().len() && old_graph.module_ids()[k] == x;
                assert(graph.module_ids()[k] == x);
            }
            if x == id {
                assert(graph.module_ids()[old_graph.module_ids().len() as int] == id);
            }
            if graph.has_module(x) {
                let k = choose|k: int| 0 <= k < graph.module_ids().len() && graph.module_ids()[k]
                    == x;
                if k < old_graph.module_ids().len() {
                    assert(old_graph.module_ids()[k] == x);
                }
            }
        }
        assert(target.resolving.no_duplicates()) by {
            assert forall|a: int, b: int|
                0 <= a < target.resolving.len() && 0 <= b < target.resolving.len() && a != b
                implies target.resolving[a] != target.resolving[b] by {
                let n = self.resolving.len();
                if a < n && b < n {
                } else if a >= n && b >= n {
                    assert(pairs[a - n] == (id, requests[a - n]));
                    assert(pairs[b - n] == (id, requests[b - n]));
                } else {
                    let low = if a < b {
                        a
                    } else {
                        b
                    };
                    let high = if a < b {
                        b
                    } else {
                        a
                    };
                    assert(old_graph.has_module(self.resolving[low].0));
                    assert(pairs[high - n].0 == id);
                }
            }
        }
        assert forall|k: int| 0 <= k < target.resolving.len() implies graph.has_module(
            (#[trigger] target.resolving[k]).0,
        ) by {
            if k < self.resolving.len() {
                assert(old_graph.has_module(self.resolving[k].0));
            } else {
                assert(pairs[k - self.resolving.len()].0 == id);
            }
        }
        assert forall|k: int| 0 <= k < graph.edges.len() implies graph.has_module(
            (#[trigger] graph.edges[k]).0,
        ) && target.found_modules.contains(graph.edges[k].1) by {
            assert(old_graph.has_module(old_graph.edges[k].0));
        }
        assert forall|k: int| 0 <= k < target.found_modules.len() implies in_chunk(
            graph,
            target.entry_id(),
            #[trigger] target.found_modules[k],
        ) by {
            let x = self.found_modules[k];
            assert(in_chunk(old_graph, self.entry_id(), x));
            if x != self.entry_id() {
                old_graph.lemma_reaches_is_monotone(graph, self.entry_id(), x);
            }
        }
        self.lemma_requests_of_built_modules();
        lemma_open_requests_make_no_edge(self.requests, opened);
        let old_keys = request_keys(self.requests);
        let keys = request_keys(target.requests);
        assert(keys =~= old_keys + pairs);
        assert(keys.no_duplicates()) by {
            assert forall|a: int, b: int| 0 <= a < keys.len() && 0 <= b < keys.len() && a != b
                implies keys[a] != keys[b] by {
                let n = old_keys.len();
                if a < n && b < n {
                    assert(old_keys[a] == keys[a] && old_keys[b] == keys[b]);
                } else if a >= n && b >= n {
                    assert(pairs[a - n] == (id, requests[a - n]));
                    assert(pairs[b - n] == (id, requests[b - n]));
                } else {
                    let low = if a < b {
                        a
                    } else {
                        b
                    };
                    let high = if a < b {
                        b
                    } else {
                        a
                    };
                    assert(old_graph.has_module(self.requests[low].parent_module_id));
                    assert(keys[low] == self.requests[low].key());
                    assert(pairs[high - n].0 == id);
                }
            }
        }
        assert forall|k: int| 0 <= k < target.requests.len() implies ((
            #[trigger] target.requests[k]).resolved is None <==> target.resolving.contains(
            target.requests[k].key(),
        )) by {
            let n = self.requests.len();
            let r = target.requests[k];
            if k < n {
                assert(r == self.requests[k]);
                assert(old_graph.has_module(r.parent_module_id));
                if r.resolved is None {
                    let j = choose|j: int| 0 <= j < self.resolving.len() && self.resolving[j]
                        == r.key();
                    assert(target.resolving[j] == r.key());
                }
                if target.resolving.contains(r.key()) {
                    let j = choose|j: int| 0 <= j < target.resolving.len() && target.resolving[j]
                        == r.key();
                    if j < self.resolving.len() {
                        assert(self.resolving[j] == r.key());
                    } else {
                        assert(pairs[j - self.resolving.len()].0 == id);
                    }
                }
            } else {
                assert(r == opened[k - n]);
                assert(target.resolving[self.resolving.len() + (k - n)] == pairs[k - n]);
            }
        }
        assert forall|j: int| 0 <= j < target.resolving.len() implies keys.contains(
            #[trigger] target.resolving[j],
        ) by {
            let m = self.resolving.len();
            if j < m {
                assert(old_keys.contains(self.resolving[j]));
                let k = choose|k: int| 0 <= k < old_keys.len() && old_keys[k] == self.resolving[j];
                assert(keys[k] == self.resolving[j]);
            } else {
                assert(keys[old_keys.len() + (j - m)] == pairs[j - m]);
            }
        }
        assert(self.found_modules.contains(id));
        assert(target.wf());
        next.lemma_settled_wf();
    }

    /// A resolution that the engine asked for keeps it well formed.
    pub proof fn lemma_after_resolve_wf(self, result: ResolveModuleSuccessView)
        requires
            self.wf(),
            !self.failed,
            !self.exited,
            self.resolving.contains((result.parent_module_id, result.request)),
        ensures
            self.after_resolve(result).0.wf(),
    {
        let parent = result.parent_module_id;
        let pair = (parent, result.request);
        let dep_id = module_id_of(result.filepath, self.compilation.config.project_root);
        let edge = (parent, dep_id);
        let old_graph = self.graph();
        let rewritten = old_graph.with_request_rewritten(parent, result.request, dep_id);
        let old_keys = request_keys(self.requests);
        let at = old_keys.index_of(pair);
        assert(old_keys.contains(pair)) by {
            let j = choose|j: int| 0 <= j < self.resolving.len() && self.resolving[j] == pair;
            assert(old_keys.contains(self.resolving[j]));
        }
        assert(0 <= at < self.requests.len() && old_keys[at] == pair);
        assert(self.requests[at].key() == pair);
        assert(self.requests[at].resolved is None);
        let requests = self.requests.update(
            at,
            RequestView { resolved: Some(dep_id), ..self.requests[at] },
        );
        let graph = ModuleGraphView { edges: resolved_edges(requests), ..rewritten };
        let resolved = ModuleLoaderView {
            resolving: self.resolving.remove(self.resolving.index_of(pair)),
            requests,
            ..self.with_graph(graph)
        };
        let keys = request_keys(requests);
        lemma_remove(self.resolving, pair);
        lemma_resolved_edges(self.requests);
        lemma_resolved_edges(requests);
        assert(keys =~= old_keys);
        assert(graph.module_ids() =~= old_graph.module_ids());
        assert forall|x: Seq<char>| #[trigger] graph.has_module(x) implies old_graph.has_module(
            x,
        ) && !self.building.contains(x) by {}
        assert(old_graph.has_module(parent)) by {
            let k = self.resolving.index_of(pair);
            assert(old_graph.has_module(self.resolving[k].0));
        }
        // the edges are the edges there were, and the new one
        assert forall|e: (Seq<char>, Seq<char>)| #[trigger]
            graph.edges.contains(e) <==> old_graph.edges.contains(e) || e == edge by {
            if old_graph.edges.contains(e) {
                assert(makes_edge(self.requests, e));
                let k = choose|k: int|
                    0 <= k < self.requests.len() && edge_of(#[trigger] self.requests[k]) == Some(e);
                assert(k != at);
                assert(edge_of(requests[k]) == Some(e));
                assert(makes_edge(requests, e));
            }
            if e == edge {
                assert(edge_of(requests[at]) == Some(e));
                assert(makes_edge(requests, e));
            }
            if graph.edges.contains(e) {
                assert(makes_edge(requests, e));
                let k = choose|k: int|
                    0 <= k < requests.len() && edge_of(#[trigger] requests[k]) == Some(e);
                if k != at {
                    assert(edge_of(self.requests[k]) == Some(e));
                    assert(makes_edge(self.requests, e));
                }
            }
        }
        assert(graph.has_edge(parent, dep_id));
        assert forall|k: int| 0 <= k < old_graph.edges.len() implies graph.edges.contains(
            #[trigger] old_graph.edges[k],
        ) by {
            assert(old_graph.edges.contains(old_graph.edges[k]));
        }
        assert forall|x: Seq<char>| in_chunk(old_graph, self.entry_id(), x) implies in_chunk(
            graph,
            self.entry_id(),
            x,
        ) by {
            if x != self.entry_id() {
                old_graph.lemma_reaches_is_monotone(graph, self.entry_id(), x);
            }
        }
        assert(in_chunk(graph, self.entry_id(), dep_id)) by {
            assert(self.found_modules.contains(parent));
            let k = choose|k: int| 0 <= k < self.found_modules.len() && self.found_modules[k]
                == parent;
            assert(in_chunk(old_graph, self.entry_id(), self.found_modules[k]));
            assert(in_chunk(graph, self.entry_id(), parent));
            if dep_id != self.entry_id() {
                graph.lemma_reaches_step(self.entry_id(), parent, dep_id);
            }
        }
        assert forall|k: int| 0 <= k < resolved.resolving.len() implies graph.has_module(
            (#[trigger] resolved.resolving[k]).0,
        ) by {
            assert(resolved.resolving.contains(resolved.resolving[k]));
            let n = choose|n: int| 0 <= n < self.resolving.len() && self.resolving[n]
                == resolved.resolving[k];
            assert(old_graph.has_module(self.resolving[n].0));
        }
        // a request is being resolved until it is resolved
        assert forall|k: int| 0 <= k < requests.len() implies ((#[trigger] requests[k]).resolved
            is None <==> resolved.resolving.contains(requests[k].key())) by {
            if k != at {
                assert(requests[k] == self.requests[k]);
                assert(old_keys[k] == self.requests[k].key());
                assert(old_keys[k] != old_keys[at]);
            }
        }
        assert forall|j: int| 0 <= j < resolved.resolving.len() implies keys.contains(
            #[trigger] resolved.resolving[j],
        ) by {
            assert(resolved.resolving.contains(resolved.resolving[j]));
            let n = choose|n: int| 0 <= n < self.resolving.len() && self.resolving[n]
                == resolved.resolving[j];
            assert(old_keys.contains(self.resolving[n]));
        }
        // edges lead from built modules to found modules
        assert forall|k: int| 0 <= k < graph.edges.len() implies graph.has_module(
            (#[trigger] graph.edges[k]).0,
        ) && (self.found_modules.contains(graph.edges[k].1) || graph.edges[k].1 == dep_id) by {
            let e = graph.edges[k];
            assert(graph.edges.contains(e));
            if old_graph.edges.contains(e) {
                let j = choose|j: int| 0 <= j < old_graph.edges.len() && old_graph.edges[j] == e;
                assert(old_graph.has_module(old_graph.edges[j].0));
            }
        }
        if self.found_modules.contains(dep_id) {
            let target = ModuleLoaderView {
                exit_sent: resolved.active_work_count() == 0,
                ..resolved
            };
            assert forall|k: int| 0 <= k < target.found_modules.len() implies in_chunk(
                graph,
                target.entry_id(),
                #[trigger] target.found_modules[k],
            ) by {
                assert(in_chunk(old_graph, self.entry_id(), self.found_modules[k]));
            }
            assert(target.wf());
            resolved.lemma_settled_wf();
        } else {
            let target = ModuleLoaderView {
                found_modules: self.found_modules.push(dep_id),
                building: self.building.push(dep_id),
                ..resolved
            };
            assert(!old_graph.has_module(dep_id) && !self.building.contains(dep_id));
            assert forall|x: Seq<char>| #[trigger]
                target.found_modules.contains(x) <==> self.found_modules.contains(x) || x
                    == dep_id by {
                if self.found_modules.contains(x) {
                    let k = choose|k: int| 0 <= k < self.found_modules.len()
                        && self.found_modules[k] == x;
                    assert(target.found_modules[k] == x);
                }
                if x == dep_id {
                    assert(target.found_modules[self.found_modules.len() as int] == x);
                }
                if target.found_modules.contains(x) {
                    let k = choose|k: int| 0 <= k < target.found_modules.len()
                        && target.found_modules[k] == x;
                    if k < self.found_modules.len() {
                        assert(self.found_modules[k] == x);
                    }
                }
            }
            assert forall|x: Seq<char>| #[trigger]
                target.building.contains(x) <==> self.building.contains(x) || x == dep_id by {
                if self.building.contains(x) {
                    let k = choose|k: int| 0 <= k < self.building.len() && self.building[k] == x;
                    assert(target.building[k] == x);
                }
                if x == dep_id {
                    assert(target.building[self.building.len() as int] == x);
                }
                if target.building.contains(x) {
                    let k = choose|k: int| 0 <= k < target.building.len() && target.building[k]
                        == x;
                    if k < self.building.len() {
                        assert(self.building[k] == x);
                    }
                }
            }
            assert forall|k: int| 0 <= k < target.found_modules.len() implies in_chunk(
                graph,
                target.entry_id(),
                #[trigger] target.found_modules[k],
            ) by {
                if k < self.found_modules.len() {
                    assert(in_chunk(old_graph, self.entry_id(), self.found_modules[k]));
                }
            }
            assert(target.wf());
        }
    }

    /// Whatever the engine is told, it stays well formed.
    pub proof fn lemma_step_keeps_wf(self, msg: ResultMsgView)
        requires
            self.wf(),
            self.step(msg) is Ok,
        ensures
            self.step(msg)->Ok_0.0.wf(),
    {
        match msg {
            ResultMsgView::BuildModule(result) => {
                if !self.failed {
                    self.lemma_after_build_wf(result);
                }
            },
            ResultMsgView::ResolveModule(result) => {
                if !self.failed {
                    self.lemma_after_resolve_wf(result);
                }
            },
            _ => {},
        }
    }

    /// The engine starts well formed.
    pub proof fn lemma_initial_wf(config: ConfigView)
        ensures
            Self::initial(config).wf(),
    {
        let s = Self::initial(config);
        assert(s.graph().module_ids() =~= Seq::empty());
        assert(s.found_modules[0] == config.entry_id());
    }
}

// ---------------------------------------------------------------------------
// The engine
// ---------------------------------------------------------------------------

/// The build engine: the compilation it works on, and the work that is out.
pub struct ModuleLoader {
    compilation: Compilation,
    found_modules: Vec<String>,
    building: Vec<String>,
    resolving: Vec<(String, String)>,
    requests: Vec<Request>,
    exit_sent: bool,
    exited: bool,
    failed: bool,
}

impl View for ModuleLoader {
    type V = ModuleLoaderView;

    closed spec fn view(&self) -> ModuleLoaderView {
        ModuleLoaderView {
            compilation: self.compilation@,
            found_modules: texts(self.found_modules@),
            building: texts(self.building@),
            resolving: edge_views(self.resolving@),
            requests: request_views(self.requests@),
            exit_sent: self.exit_sent,
            exited: self.exited,
            failed: self.failed,
        }
    }
}

/// The position of the request `request` of the module `parent` in `requests`.
fn position_of_request(requests: &Vec<Request>, parent: &str, request: &str) -> (r: Option<usize>)
    ensures
        r is Some <==> request_keys(request_views(requests@)).contains((parent@, request@)),
        r matches Some(i) ==> i < requests.len() && request_keys(request_views(requests@))[i as int]
            == (parent@, request@),
{
    let ghost keys = request_keys(request_views(requests@));
    let mut i: usize = 0;
    while i < requests.len()
        invariant
            i <= requests.len(),
            keys == request_keys(request_views(requests@)),
            !keys.take(i as int).contains((parent@, request@)),
        decreases requests.len() - i,
    {
        proof {
            assert(keys[i as int] == requests@[i as int]@.key());
        }
        if same_text(requests[i].parent_module_id.as_str(), parent) && same_text(
            requests[i].request.as_str(),
            request,
        ) {
            return Some(i);
        }
        assert(keys.take(i + 1) =~= keys.take(i as int).push(keys[i as int]));
        i += 1;
    }
    assert(keys.take(requests.len() as int) =~= keys);
    None
}

/// The position of the pair `(a, b)` in `pairs`.
fn position_of_pair(pairs: &Vec<(String, String)>, a: &str, b: &str) -> (r: Option<usize>)
    ensures
        r is Some <==> edge_views(pairs@).contains((a@, b@)),
        r matches Some(i) ==> i < pairs.len() && edge_views(pairs@)[i as int] == (a@, b@),
{
    let ghost views = edge_views(pairs@);
    let mut i: usize = 0;
    while i < pairs.len()
        invariant
            i <= pairs.len(),
            views == edge_views(pairs@),
            !views.take(i as int).contains((a@, b@)),
        decreases pairs.len() - i,
    {
        if same_text(pairs[i].0.as_str(), a) && same_text(pairs[i].1.as_str(), b) {
            assert(views[i as int] == (a@, b@));
            return Some(i);
        }
        assert(views.take(i + 1) =~= views.take(i as int).push(views[i as int]));
        i += 1;
    }
    assert(views.take(pairs.len() as int) =~= views);
    None
}

impl ModuleLoader {
    /// What holds of the engine at all times.
    pub open spec fn wf(&self) -> bool {
        self@.wf()
    }

    /// Starts a compilation. Returns the engine and the first piece of work:
    /// to build the entrypoint.
    pub fn start(config: Config) -> (r: (Self, WorkMsg))
        ensures
            r.0.wf(),
            r.0@ == ModuleLoaderView::initial(config@),
            r.1@ == WorkMsgView::BuildModule(config@.entrypoint),
    {
        let entrypoint = config.entrypoint.clone();
        let entry_id = config.entry_id();
        let compilation = Compilation::new(config);
        let mut found_modules: Vec<String> = Vec::new();
        found_modules.push(entry_id.clone());
        let mut building: Vec<String> = Vec::new();
        building.push(entry_id);
        let loader = ModuleLoader {
            compilation,
            found_modules,
            building,
            resolving: Vec::new(),
            requests: Vec::new(),
            exit_sent: false,
            exited: false,
            failed: false,
        };
        proof {
            let initial = ModuleLoaderView::initial(config@);
            assert(loader@.found_modules =~= initial.found_modules);
            assert(loader@.building =~= initial.building);
            assert(loader@.resolving =~= initial.resolving);
            assert(loader@.requests =~= initial.requests);
            assert(loader@.compilation.diagnostics =~= initial.compilation.diagnostics);
            ModuleLoaderView::lemma_initial_wf(config@);
        }
        (loader, WorkMsg::BuildModule(entrypoint))
    }

    /// Asks the workers to exit where no work is out.
    fn settle(&mut self, work: &mut Vec<WorkMsg>)
        ensures
            final(self)@ == old(self)@.settled().0,
            work_views(final(work)@) == work_views(old(work)@) + old(self)@.settled().1,
    {
        if self.building.len() == 0 && self.resolving.len() == 0 && !self.exit_sent {
            self.exit_sent = true;
            work.push(WorkMsg::Exit);
            assert(work_views(work@) =~= work_views(old(work)@) + seq![WorkMsgView::Exit]);
        } else {
            assert(work_views(work@) =~= work_views(old(work)@) + Seq::empty());
        }
    }

    /// Takes in a built module.
    fn on_build(&mut self, result: BuildModuleSuccess) -> (r: Result<Vec<WorkMsg>, LoadError>)
        requires
            old(self).wf(),
            !old(self)@.failed,
            !old(self)@.exited,
        ensures
            final(self).wf(),
            match old(self)@.step(ResultMsgView::BuildModule(result@)) {
                Ok((next, work)) => r is Ok && final(self)@ == next && work_views(r->Ok_0@)
                    == work,
                Err(error) => r == Err::<Vec<WorkMsg>, LoadError>(error) && final(self)@ == old(
                    self,
                )@,
            },
    {
        let ghost start = self@;
        let module_id = create_module_id(
            result.filepath.as_str(),
            self.compilation.config.project_root.as_str(),
        );
        let position = match position_of(&self.building, module_id.as_str()) {
            Some(position) => position,
            None => {
                return Err(LoadError::UnexpectedBuild);
            },
        };
        proof {
            start.lemma_after_build_wf(result@);
            lemma_remove(start.building, module_id@);
            assert(start.building[position as int] == module_id@);
            assert(start.building.contains(module_id@));
            let found_at = start.building.index_of(module_id@);
            assert(0 <= found_at < start.building.len() && start.building[found_at]
                == module_id@);
            assert(found_at == position);
        }
        self.building.remove(position);
        assert(self@.building =~= start.building.remove(position as int));
        self.compilation.diagnostics.add_diagnostic(
            Diagnostic::ModuleBuildSuccess(
                ModuleBuildSuccess { module_id: module_id.clone(), duration: result.duration },
            ),
        );
        let ghost deps = result@.dependencies;
        let ghost pair = |request: Seq<char>| (module_id@, request);
        let ghost opened = |request: Seq<char>| open_request(module_id@, request);
        let ghost task = |request: Seq<char>| resolve_work(module_id@, result@.filepath, request);
        let mut work: Vec<WorkMsg> = Vec::new();
        let mut requests: Vec<String> = Vec::new();
        let mut i: usize = 0;
        proof {
            assert(deps.take(0) =~= Seq::empty());
            assert(texts(requests@) =~= distinct_requests(deps.take(0)));
            assert(edge_views(self.resolving@) =~= start.resolving + texts(requests@).map_values(
                pair,
            ));
            assert(request_views(self.requests@) =~= start.requests + texts(requests@).map_values(
                opened,
            ));
            assert(work_views(work@) =~= texts(requests@).map_values(task));
        }
        while i < result.dependencies.len()
            invariant
                i <= result.dependencies.len(),
                deps == dependency_views(result.dependencies@),
                pair == |request: Seq<char>| (module_id@, request),
                opened == |request: Seq<char>| open_request(module_id@, request),
                request_views(self.requests@) == start.requests + texts(requests@).map_values(
                    opened,
                ),
                task == |request: Seq<char>| resolve_work(module_id@, result@.filepath, request),
                texts(requests@) == distinct_requests(deps.take(i as int)),
                edge_views(self.resolving@) == start.resolving + texts(requests@).map_values(pair),
                work_views(work@) == texts(requests@).map_values(task),
                self@ == (ModuleLoaderView {
                    resolving: edge_views(self.resolving@),
                    requests: request_views(self.requests@),
                    building: start.building.remove(position as int),
                    ..start.with_diagnostic(
                        DiagnosticView::ModuleBuildSuccess(
                            ModuleBuildSuccessView {
                                module_id: module_id@,
                                duration: result@.duration,
                            },
                        ),
                    )
                }),
            decreases result.dependencies.len() - i,
        {
            let dep = &result.dependencies[i];
            let ghost seen = texts(requests@);
            let ghost resolving = edge_views(self.resolving@);
            let ghost records = request_views(self.requests@);
            let ghost tasks = work_views(work@);
            proof {
                assert(deps[i as int] == dep@);
                assert(deps.take(i + 1).drop_last() =~= deps.take(i as int));
                assert(deps.take(i + 1).last() == dep@);
            }
            if !contains_text(&requests, dep.request.as_str()) {
                requests.push(dep.request.clone());
                self.resolving.push((module_id.clone(), dep.request.clone()));
                self.requests.push(
                    Request {
                        parent_module_id: module_id.clone(),
                        request: dep.request.clone(),
                        resolved: None,
                    },
                );
                work.push(
                    WorkMsg::ResolveModule(
                        ResolveModule {
                            request: dep.request.clone(),
                            parent_module_id: module_id.clone(),
                            source_filepath: result.filepath.clone(),
                        },
                    ),
                );
                proof {
                    assert(texts(requests@) =~= seen.push(dep@.request));
                    assert(edge_views(self.resolving@) =~= resolving.push(pair(dep@.request)));
                    assert(request_views(self.requests@) =~= records.push(opened(dep@.request)));
                    assert(texts(requests@).map_values(opened) =~= seen.map_values(opened).push(
                        opened(dep@.request),
                    ));
                    assert(request_views(self.requests@) =~= start.requests + texts(
                        requests@,
                    ).map_values(opened));
                    assert(work_views(work@) =~= tasks.push(task(dep@.request)));
                    assert(texts(requests@).map_values(pair) =~= seen.map_values(pair).push(
                        pair(dep@.request),
                    ));
                    assert(texts(requests@).map_values(task) =~= seen.map_values(task).push(
                        task(dep@.request),
                    ));
                    assert(edge_views(self.resolving@) =~= start.resolving + texts(
                        requests@,
                    ).map_values(pair));
                }
            }
            i += 1;
        }
        assert(deps.take(result.dependencies.len() as int) =~= deps);
        let module = JsModule {
            id: module_id,
            filepath: result.filepath,
            code: result.code,
            module_type: result.module_type,
        };
        assert(!start.graph().has_module(module@.id));
        match self.compilation.graph.add_module(module) {
            Ok(()) => {},
            Err(_) => {},
        }
        self.settle(&mut work);
        Ok(work)
    }

    /// Takes in a resolved request.
    fn on_resolve(&mut self, result: ResolveModuleSuccess) -> (r: Result<Vec<WorkMsg>, LoadError>)
        requires
            old(self).wf(),
            !old(self)@.failed,
            !old(self)@.exited,
        ensures
            final(self).wf(),
            match old(self)@.step(ResultMsgView::ResolveModule(result@)) {
                Ok((next, work)) => r is Ok && final(self)@ == next && work_views(r->Ok_0@)
                    == work,
                Err(error) => r == Err::<Vec<WorkMsg>, LoadError>(error) && final(self)@ == old(
                    self,
                )@,
            },
    {
        let ghost start = self@;
        let position = match position_of_pair(
            &self.resolving,
            result.parent_module_id.as_str(),
            result.request.as_str(),
        ) {
            Some(position) => position,
            None => {
                return Err(LoadError::UnexpectedResolve);
            },
        };
        let ghost pair = (result@.parent_module_id, result@.request);
        proof {
            start.lemma_after_resolve_wf(result@);
            lemma_remove(start.resolving, pair);
            assert(start.resolving[position as int] == pair);
            assert(start.resolving.contains(pair));
            let found_at = start.resolving.index_of(pair);
            assert(0 <= found_at < start.resolving.len() && start.resolving[found_at] == pair);
            assert(found_at == position);
        }
        self.resolving.remove(position);
        assert(self@.resolving =~= start.resolving.remove(position as int));
        let dep_id = create_module_id(
            result.filepath.as_str(),
            self.compilation.config.project_root.as_str(),
        );
        self.compilation.graph.update_dep_src(
            result.parent_module_id.as_str(),
            result.request.as_str(),
            dep_id.as_str(),
        );
        let at = match position_of_request(
            &self.requests,
            result.parent_module_id.as_str(),
            result.request.as_str(),
        ) {
            Some(at) => at,
            None => {
                proof {
                    let j = choose|j: int|
                        0 <= j < start.resolving.len() && start.resolving[j] == pair;
                    assert(request_keys(start.requests).contains(start.resolving[j]));
                }
                return Err(LoadError::UnexpectedResolve);
            },
        };
        proof {
            let keys = request_keys(start.requests);
            assert(keys[at as int] == pair);
            assert(keys.contains(pair));
            let found_at = keys.index_of(pair);
            assert(0 <= found_at < keys.len() && keys[found_at] == pair);
            assert(found_at == at);
        }
        let ghost records = request_views(self.requests@);
        self.requests[at].resolved = Some(dep_id.clone());
        let ghost resolved = records.update(
            at as int,
            RequestView { resolved: Some(dep_id@), ..records[at as int] },
        );
        assert(request_views(self.requests@) =~= resolved);
        self.compilation.graph.clear_dependencies();
        let ghost base = self.compilation.graph@;
        let mut i: usize = 0;
        assert(resolved.take(0) =~= Seq::empty());
        while i < self.requests.len()
            invariant
                i <= self.requests.len(),
                resolved == request_views(self.requests@),
                self.compilation.graph.wf(),
                self.compilation.graph@ == (ModuleGraphView {
                    edges: resolved_edges(resolved.take(i as int)),
                    ..base
                }),
                self@ == (ModuleLoaderView {
                    compilation: CompilationView {
                        graph: self.compilation.graph@,
                        ..start.compilation
                    },
                    resolving: start.resolving.remove(position as int),
                    requests: resolved,
                    ..start
                }),
            decreases self.requests.len() - i,
        {
            proof {
                assert(resolved.take(i + 1).drop_last() =~= resolved.take(i as int));
                assert(resolved.take(i + 1).last() == self.requests@[i as int]@);
            }
            let request = &self.requests[i];
            match &request.resolved {
                Some(target) => {
                    self.compilation.graph.add_dependency(
                        request.parent_module_id.as_str(),
                        target.as_str(),
                    );
                },
                None => {},
            }
            i += 1;
        }
        assert(resolved.take(self.requests.len() as int) =~= resolved);
        let mut work: Vec<WorkMsg> = Vec::new();
        if !contains_text(&self.found_modules, dep_id.as_str()) {
            self.found_modules.push(dep_id.clone());
            self.building.push(dep_id);
            work.push(WorkMsg::BuildModule(result.filepath));
            proof {
                assert(self@.found_modules =~= start.found_modules.push(dep_id@));
                assert(self@.building =~= start.building.push(dep_id@));
                assert(work_views(work@) =~= seq![WorkMsgView::BuildModule(result@.filepath)]);
            }
        } else {
            self.settle(&mut work);
            assert(Seq::<WorkMsgView>::empty() + start.after_resolve(result@).1
                =~= start.after_resolve(result@).1);
        }
        Ok(work)
    }

    /// Takes in `msg`, a result of work that the engine handed out, and
    /// returns the work to hand out next. A message that is no such result is
    /// refused and changes nothing.
    pub fn handle(&mut self, msg: ResultMsg) -> (r: Result<Vec<WorkMsg>, LoadError>)
        requires
            old(self).wf(),
        ensures
            final(self).wf(),
            match old(self)@.step(msg@) {
                Ok((next, work)) => r is Ok && final(self)@ == next && work_views(r->Ok_0@)
                    == work,
                Err(error) => r == Err::<Vec<WorkMsg>, LoadError>(error) && final(self)@ == old(
                    self,
                )@,
            },
    {
        if self.exited {
            return Err(LoadError::AlreadyExited);
        }
        match msg {
            ResultMsg::Exited => {
                if !self.exit_sent {
                    return Err(LoadError::UnexpectedExit);
                }
                self.exited = true;
                let work: Vec<WorkMsg> = Vec::new();
                assert(work_views(work@) =~= Seq::empty());
                Ok(work)
            },
            ResultMsg::Failed(failure) => {
                let mut work: Vec<WorkMsg> = Vec::new();
                if !self.exit_sent {
                    work.push(WorkMsg::Exit);
                    assert(work_views(work@) =~= seq![WorkMsgView::Exit]);
                } else {
                    assert(work_views(work@) =~= Seq::empty());
                }
                self.compilation.diagnostics.add_diagnostic(Diagnostic::BuildFailure(failure));
                self.failed = true;
                self.exit_sent = true;
                Ok(work)
            },
            ResultMsg::BuildModule(result) => {
                if self.failed {
                    let work: Vec<WorkMsg> = Vec::new();
                    assert(work_views(work@) =~= Seq::empty());
                    Ok(work)
                } else {
                    self.on_build(result)
                }
            },
            ResultMsg::ResolveModule(result) => {
                if self.failed {
                    let work: Vec<WorkMsg> = Vec::new();
                    assert(work_views(work@) =~= Seq::empty());
                    Ok(work)
                } else {
                    self.on_resolve(result)
                }
            },
        }
    }
}

// ---------------------------------------------------------------------------
// What holds when the build has ended
// ---------------------------------------------------------------------------

/// A filter that holds of every item keeps the list as it is.
proof fn lemma_filter_keeps_all<A>(s: Seq<A>, keep: spec_fn(A) -> bool)
    requires
        forall|k: int| 0 <= k < s.len() ==> keep(#[trigger] s[k]),
    ensures
        s.filter(keep) == s,
    decreases s.len(),
{
    reveal(Seq::filter);
    if s.len() > 0 {
        assert forall|k: int| 0 <= k < s.drop_last().len() implies keep(
            #[trigger] s.drop_last()[k],
        ) by {
            assert(s.drop_last()[k] == s[k]);
        }
        lemma_filter_keeps_all(s.drop_last(), keep);
        assert(keep(s[s.len() - 1]));
        assert(s.drop_last().push(s.last()) =~= s);
    }
}

impl ModuleLoaderView {
    /// A module is built once: the engine asks for a build only when a request
    /// leads to a module that was not found before, and then for that module
    /// alone. A request that leads to a module found before, as in a cycle of
    /// modules, asks for no build; where it was the last work out, it ends the
    /// build.
    pub proof fn lemma_each_module_is_built_once(self, result: ResolveModuleSuccessView)
        requires
            self.wf(),
            !self.failed,
            !self.exited,
            self.resolving.contains((result.parent_module_id, result.request)),
        ensures
            ({
                let dep_id = module_id_of(result.filepath, self.compilation.config.project_root);
                let (next, work) = self.after_resolve(result);
                &&& next.graph().has_edge(result.parent_module_id, dep_id)
                &&& next.graph().modules.len() == self.graph().modules.len()
                &&& !self.found_modules.contains(dep_id) ==> work == seq![
                    WorkMsgView::BuildModule(result.filepath),
                ] && next.building == self.building.push(dep_id)
                &&& self.found_modules.contains(dep_id) ==> next.building == self.building
                    && next.found_modules == self.found_modules && (work == seq![
                    WorkMsgView::Exit,
                ] || work == Seq::<WorkMsgView>::empty()) && (work == seq![WorkMsgView::Exit]
                    <==> next.active_work_count() == 0)
            }),
    {
        let parent = result.parent_module_id;
        let pair = (parent, result.request);
        let dep_id = module_id_of(result.filepath, self.compilation.config.project_root);
        let keys = request_keys(self.requests);
        let at = keys.index_of(pair);
        let j = choose|j: int| 0 <= j < self.resolving.len() && self.resolving[j] == pair;
        assert(keys.contains(self.resolving[j]));
        assert(0 <= at < self.requests.len() && keys[at] == pair);
        assert(self.requests[at].key() == pair);
        let requests = self.requests.update(
            at,
            RequestView { resolved: Some(dep_id), ..self.requests[at] },
        );
        lemma_resolved_edges(requests);
        assert(edge_of(requests[at]) == Some((parent, dep_id)));
        assert(makes_edge(requests, (parent, dep_id)));
        self.lemma_after_resolve_wf(result);
    }

    /// At all times the modules that a module depends on directly, as the
    /// graph lists them, are the ids that its resolved requests lead to, in
    /// the order of the requests in its source, each id once. The order in
    /// which the requests were resolved makes no difference.
    pub proof fn lemma_edges_follow_source_order(self, id: Seq<char>)
        requires
            self.wf(),
        ensures
            self.graph().dependencies_of(id) == targets_of(self.requests, id),
    {
        lemma_resolved_edges_follow_requests(self.graph(), self.requests, id);
    }

    /// A module that was just built has its requests in the state, in the
    /// order of its dependencies, each request once.
    pub proof fn lemma_built_module_keeps_its_requests(self, result: BuildModuleSuccessView)
        requires
            self.wf(),
            !self.failed,
            !self.exited,
            self.building.contains(
                module_id_of(result.filepath, self.compilation.config.project_root),
            ),
        ensures
            requests_of(
                self.after_build(result).0.requests,
                module_id_of(result.filepath, self.compilation.config.project_root),
            ) == distinct_requests(result.dependencies),
    {
        let id = module_id_of(result.filepath, self.compilation.config.project_root);
        self.lemma_requests_of_built_modules();
        assert(!self.graph().has_module(id));
        lemma_requests_of_new_module(self.requests, id, distinct_requests(result.dependencies));
    }

    /// When no work is out, every request is resolved: the modules that a
    /// module depends on directly are the ids that all its requests lead to,
    /// in source order.
    pub proof fn lemma_complete_edges_follow_source_order(self, id: Seq<char>)
        requires
            self.wf(),
            self.active_work_count() == 0,
        ensures
            forall|k: int| 0 <= k < self.requests.len() ==> (#[trigger] self.requests[k]).resolved
                is Some,
            self.graph().dependencies_of(id) == targets_of(self.requests, id),
    {
        self.lemma_edges_follow_source_order(id);
        assert forall|k: int| 0 <= k < self.requests.len() implies (
            #[trigger] self.requests[k]).resolved is Some by {
            if self.requests[k].resolved is None {
                assert(self.resolving.contains(self.requests[k].key()));
            }
        }
    }

    /// When no work is out, the graph is closed: every id that an edge or an
    /// entrypoint mentions is the id of a built module.
    pub proof fn lemma_complete_graph_is_closed(self)
        requires
            self.wf(),
            self.active_work_count() == 0,
        ensures
            self.graph().closed(),
    {
        let graph = self.graph();
        assert forall|id: Seq<char>| self.found_modules.contains(id) implies graph.has_module(
            id,
        ) by {
            if self.building.contains(id) {
                let k = choose|k: int| 0 <= k < self.building.len() && self.building[k] == id;
            }
        }
        assert forall|k: int| 0 <= k < graph.entrypoints.len() implies graph.has_module(
            #[trigger] graph.entrypoints[k],
        ) by {
            assert(graph.entrypoints[k] == self.entry_id());
        }
    }

    /// When no work is out, every module of the graph is the entry or one that
    /// the entry depends on, and the registry of the chunk for the entry holds
    /// every module of the graph exactly once, in the order in which the
    /// modules were built.
    pub proof fn lemma_complete_registry_holds_every_module_once(self)
        requires
            self.wf(),
            self.active_work_count() == 0,
        ensures
            forall|id: Seq<char>|
                self.graph().has_module(id) ==> in_chunk(self.graph(), self.entry_id(), id),
            chunk_is_whole(self.graph(), self.entry_id()),
            chunk_modules(self.graph(), self.entry_id()) == self.graph().modules,
            registry_ids(self.graph(), self.entry_id()) == self.graph().module_ids(),
            registry_ids(self.graph(), self.entry_id()).no_duplicates(),
    {
        let graph = self.graph();
        let entry = self.entry_id();
        let keep = |m: JsModuleView| in_chunk(graph, entry, m.id);
        assert forall|id: Seq<char>| graph.has_module(id) implies in_chunk(graph, entry, id) by {
            assert(self.found_modules.contains(id));
            let k = choose|k: int| 0 <= k < self.found_modules.len() && self.found_modules[k]
                == id;
            assert(in_chunk(graph, entry, self.found_modules[k]));
        }
        assert forall|k: int| 0 <= k < graph.modules.len() implies keep(
            #[trigger] graph.modules[k],
        ) by {
            assert(graph.module_ids()[k] == graph.modules[k].id);
            assert(graph.has_module(graph.modules[k].id));
        }
        lemma_filter_keeps_all(graph.modules, keep);
        lemma_registry_holds_each_module_once(graph, entry);
        self.lemma_complete_graph_is_closed();
        assert forall|id: Seq<char>| in_chunk(graph, entry, id) implies graph.has_module(id) by {
            assert(graph.has_module(entry));
            if id != entry {
                let inside = Set::new(|x: Seq<char>| graph.has_module(x));
                graph.lemma_closed_set_holds_reachable(inside, entry, id);
            }
        }
    }
}

impl ModuleLoader {
    /// The compilation as it stands.
    pub fn compilation(&self) -> (c: &Compilation)
        ensures
            c@ == self@.compilation,
    {
        &self.compilation
    }

    /// Ends the engine and hands over the compilation.
    pub fn into_compilation(self) -> (c: Compilation)
        ensures
            c@ == self@.compilation,
    {
        self.compilation
    }

    /// Whether work is out.
    pub fn is_active(&self) -> (r: bool)
        ensures
            r == (self@.active_work_count() > 0),
    {
        self.building.len() > 0 || self.resolving.len() > 0
    }

    /// Whether some work failed.
    pub fn has_failed(&self) -> (r: bool)
        ensures
            r == self@.failed,
    {
        self.failed
    }

    /// Whether the workers have stopped.
    pub fn has_exited(&self) -> (r: bool)
        ensures
            r == self@.exited,
    {
        self.exited
    }

    /// The chunk for the entrypoint, once the build has ended well: it holds
    /// the registry of all modules of the graph. While work is out, and after
    /// a failure, there is no chunk.
    pub fn chunk(&self) -> (r: Option<String>)
        requires
            self.wf(),
        ensures
            r is Some <==> self@.complete(),
            r matches Some(chunk) ==> chunk@ == chunk_text(
                self@.graph().modules,
                self@.entry_id(),
            ),
    {
        if self.failed || self.is_active() {
            return None;
        }
        proof {
            self@.lemma_complete_registry_holds_every_module_once();
        }
        let entry_id = self.compilation.config.entry_id();
        Some(render_chunk(&entry_id, &self.compilation))
    }
}

} // verus!
