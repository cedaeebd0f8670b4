//! The core of a JavaScript bundler: module ids, the module graph, the lowering
//! of import and export syntax to runtime calls, the build engine's decisions,
//! and the chunk template.

pub mod ast;
pub mod diagnostics;
pub mod imports;
pub mod js_module;
pub mod module_builder;
pub mod module_graph;
pub mod module_loader;
pub mod template;
pub mod text;
pub mod transforms;
pub mod utils;

use crate::diagnostics::{DiagnosticView, Diagnostics};
use crate::module_graph::{ModuleGraph, ModuleGraphView};
use crate::utils::{create_module_id, module_id_of};
use vstd::prelude::*;
use vstd::string::*;

verus! {

/// Where a compilation reads from and writes to. The paths use forward
/// slashes.
#[derive(Clone, Debug, PartialEq, Eq)]
pub struct Config {
    pub project_root: String,
    pub entrypoint: String,
    pub output_dir: String,
}

pub struct ConfigView {
    pub project_root: Seq<char>,
    pub entrypoint: Seq<char>,
    pub output_dir: Seq<char>,
}

impl View for Config {
    type V = ConfigView;

    open spec fn view(&self) -> ConfigView {
        ConfigView {
            project_root: self.project_root@,
            entrypoint: self.entrypoint@,
            output_dir: self.output_dir@,
        }
    }
}

impl ConfigView {
    /// The id of the entrypoint.
    pub open spec fn entry_id(self) -> Seq<char> {
        module_id_of(self.entrypoint, self.project_root)
    }

    /// The file that the chunk is written to: `main.js` in the output
    /// directory.
    pub open spec fn output_filepath(self) -> Seq<char> {
        self.output_dir + "/main.js"@
    }

    /// The lines that announce a compilation.
    pub open spec fn banner(self) -> Seq<char> {
        "Entrypoint: '"@ + self.entrypoint + "'\nOutput dir: '"@ + self.output_dir
            + "'\nProject root: '"@ + self.project_root + "'"@
    }
}

impl Config {
    /// The id of the entrypoint.
    pub fn entry_id(&self) -> (id: String)
        ensures
            id@ == self@.entry_id(),
    {
        create_module_id(self.entrypoint.as_str(), self.project_root.as_str())
    }

    /// The file that the chunk is written to.
    pub fn output_filepath(&self) -> (path: String)
        ensures
            path@ == self@.output_filepath(),
    {
        let mut path = self.output_dir.clone();
        path.append("/main.js");
        path
    }

    /// The lines that announce a compilation.
    pub fn banner(&self) -> (text: String)
        ensures
            text@ == self@.banner(),
    {
        let mut text = String::from_str("Entrypoint: '");
        text.append(self.entrypoint.as_str());
        text.append("'\nOutput dir: '");
        text.append(self.output_dir.as_str());
        text.append("'\nProject root: '");
        text.append(self.project_root.as_str());
        text.append("'");
        text
    }
}

/// One run of the bundler: its configuration, what it has built so far, and
/// the log of what happened.
pub struct Compilation {
    pub config: Config,
    pub diagnostics: Diagnostics,
    pub graph: ModuleGraph,
}

pub struct CompilationView {
    pub config: ConfigView,
    pub diagnostics: Seq<DiagnosticView>,
    pub graph: ModuleGraphView,
}

impl View for Compilation {
    type V = CompilationView;

    open spec fn view(&self) -> CompilationView {
        CompilationView { config: self.config@, diagnostics: self.diagnostics@, graph: self.graph@ }
    }
}

impl Compilation {
    /// A compilation that has built nothing yet. Its graph holds no module and
    /// no edge, and the entrypoint of `config` as its only entrypoint.
    pub fn new(config: Config) -> (c: Self)
        ensures
            c.graph.wf(),
            c@ == (CompilationView {
                config: config@,
                diagnostics: Seq::empty(),
                graph: ModuleGraphView {
                    modules: Seq::empty(),
                    entrypoints: seq![config@.entry_id()],
                    edges: Seq::empty(),
                },
            }),
    {
        let mut graph = ModuleGraph::new();
        graph.add_entrypoint(config.entry_id());
        let c = Compilation { diagnostics: Diagnostics::new(), graph, config };
        assert(c@.graph.modules =~= Seq::empty());
        assert(c@.graph.edges =~= Seq::empty());
        assert(c@.graph.entrypoints =~= seq![config@.entry_id()]);
        c
    }
}

} // verus!
