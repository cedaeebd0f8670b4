//! The chunk: the registry of the modules that an entry needs, and the loader
//! that runs them.

use crate::js_module::{JsModule, JsModuleView, ModuleType};
use crate::module_graph::{module_views, ModuleGraphView};
use crate::text::{contains_text, same_text, texts};
use crate::Compilation;
use vstd::prelude::*;
use vstd::string::*;

verus! {

/// What a chunk holds before the registry.
pub const CHUNK_HEAD: &'static str = "var modules = ";

/// What a chunk holds between the registry and the id of the entry.
pub const CHUNK_ENTRY: &'static str = ";\nvar entry = \"";

/// The loader, which ends a chunk. It runs a module when it is first
/// required, remembers the exports of each module from before the module
/// runs, so that modules that require each other end, and wraps the exports
/// of a CommonJS module for a default import.
pub const CHUNK_LOADER: &'static str = "\";\n(function ductTape({ modules, entry }) {\n  var cache = {};\n  var interop = (e, isDefault, isCjs) => (isDefault && isCjs) ? { default: e } : e;\n  var require = (name, isDefault) => {\n    if (!Object.prototype.hasOwnProperty.call(cache, name)) {\n      var exports = {};\n      cache[name] = exports;\n      modules[name][0](exports, require);\n      cache[name] = modules[name][1] === 'CJS' ? exports.exports : exports;\n    }\n    return interop(cache[name], isDefault, modules[name][1] === 'CJS');\n  };\n  require(entry);\n})({ modules, entry });\n";

/// Whether the chunk for `entry` holds the module `id`: the entry itself and
/// every module that it depends on, directly or through others.
pub open spec fn in_chunk(graph: ModuleGraphView, entry: Seq<char>, id: Seq<char>) -> bool {
    id == entry || graph.reaches(entry, id)
}

/// Whether the graph holds every module of the chunk for `entry`: the entry
/// and every id that it depends on are ids of modules.
pub open spec fn chunk_is_whole(graph: ModuleGraphView, entry: Seq<char>) -> bool {
    forall|id: Seq<char>| in_chunk(graph, entry, id) ==> graph.has_module(id)
}

/// The modules of the chunk for `entry`, in the order in which they were added
/// to the graph.
pub open spec fn chunk_modules(graph: ModuleGraphView, entry: Seq<char>) -> Seq<JsModuleView> {
    graph.modules.filter(|m: JsModuleView| in_chunk(graph, entry, m.id))
}

/// The registry entry of a module: its id as the key, then the function that
/// holds its code and the tag of its kind.
pub open spec fn registry_entry(module: JsModuleView) -> Seq<char> {
    match module.module_type {
        ModuleType::CommonJS => "\""@ + module.id + "\": [function(module, require) {"@
            + module.code + "},'CJS'],"@,
        ModuleType::ESM => "\""@ + module.id + "\": [function(exports, require) {"@ + module.code
            + "},'ESM'],"@,
    }
}

/// The registry entries of `modules`, one after the other.
pub open spec fn registry_entries(modules: Seq<JsModuleView>) -> Seq<char>
    decreases modules.len(),
{
    if modules.len() == 0 {
        Seq::empty()
    } else {
        registry_entries(modules.drop_last()) + registry_entry(modules.last())
    }
}

/// The text of the chunk that holds `modules` and starts at `entry`.
pub open spec fn chunk_text(modules: Seq<JsModuleView>, entry: Seq<char>) -> Seq<char> {
    CHUNK_HEAD@ + "{\n"@ + registry_entries(modules) + "\n}"@ + CHUNK_ENTRY@ + entry
        + CHUNK_LOADER@
}

/// The keys of the registry of the chunk for `entry`, in order.
pub open spec fn registry_ids(graph: ModuleGraphView, entry: Seq<char>) -> Seq<Seq<char>> {
    chunk_modules(graph, entry).map_values(|m: JsModuleView| m.id)
}

/// Among modules with different ids, those that a filter keeps have different
/// ids too, and are the modules that the filter holds of.
proof fn lemma_filtered_ids(modules: Seq<JsModuleView>, keep: spec_fn(JsModuleView) -> bool)
    requires
        modules.map_values(|m: JsModuleView| m.id).no_duplicates(),
    ensures
        modules.filter(keep).map_values(|m: JsModuleView| m.id).no_duplicates(),
        forall|m: JsModuleView| #[trigger]
            modules.filter(keep).contains(m) ==> modules.contains(m) && keep(m),
        forall|m: JsModuleView|
            #[trigger] modules.contains(m) && keep(m) ==> modules.filter(keep).contains(m),
    decreases modules.len(),
{
    reveal(Seq::filter);
    let ids = modules.map_values(|m: JsModuleView| m.id);
    let kept = modules.filter(keep);
    let kept_ids = kept.map_values(|m: JsModuleView| m.id);
    if modules.len() > 0 {
        let shorter = modules.drop_last();
        let last = modules.last();
        let shorter_ids = shorter.map_values(|m: JsModuleView| m.id);
        assert forall|i: int, j: int|
            0 <= i < shorter_ids.len() && 0 <= j < shorter_ids.len() && i != j
            implies shorter_ids[i] != shorter_ids[j] by {
            assert(ids[i] == shorter_ids[i]);
            assert(ids[j] == shorter_ids[j]);
        }
        lemma_filtered_ids(shorter, keep);
        let shorter_kept = shorter.filter(keep);
        assert forall|m: JsModuleView| #[trigger] kept.contains(m) implies modules.contains(m)
            && keep(m) by {
            {
                let k = choose|k: int| 0 <= k < kept.len() && kept[k] == m;
                if keep(last) && k == kept.len() - 1 {
                    assert(modules[modules.len() - 1] == m);
                } else {
                    assert(shorter_kept[k] == m);
                    assert(shorter_kept.contains(m));
                    let n = choose|n: int| 0 <= n < shorter.len() && shorter[n] == m;
                    assert(modules[n] == m);
                }
            }
        }
        assert forall|m: JsModuleView| #[trigger] modules.contains(m) && keep(m)
            implies kept.contains(m) by {
            {
                let n = choose|n: int| 0 <= n < modules.len() && modules[n] == m;
                if n == modules.len() - 1 {
                    assert(kept[kept.len() - 1] == m);
                } else {
                    assert(shorter[n] == m);
                    assert(shorter_kept.contains(m));
                    let k = choose|k: int| 0 <= k < shorter_kept.len() && shorter_kept[k] == m;
                    assert(kept[k] == m);
                }
            }
        }
        if keep(last) {
            assert forall|i: int, j: int|
                0 <= i < kept_ids.len() && 0 <= j < kept_ids.len() && i != j
                implies kept_ids[i] != kept_ids[j] by {
                let shorter_kept_ids = shorter_kept.map_values(|m: JsModuleView| m.id);
                if i < shorter_kept.len() && j < shorter_kept.len() {
                    assert(shorter_kept_ids[i] == kept_ids[i]);
                    assert(shorter_kept_ids[j] == kept_ids[j]);
                } else {
                    let low = if i < j {
                        i
                    } else {
                        j
                    };
                    assert(shorter_kept.contains(shorter_kept[low]));
                    let n = choose|n: int| 0 <= n < shorter.len() && shorter[n] == shorter_kept[low];
                    assert(ids[n] == shorter_kept[low].id);
                    assert(ids[modules.len() - 1] == last.id);
                }
            }
        }
    }
}

/// The registry of a chunk holds each module of the chunk exactly once: its
/// keys are different, and they are the ids of the modules of the graph that
/// are the entry or that the entry depends on.
pub proof fn lemma_registry_holds_each_module_once(graph: ModuleGraphView, entry: Seq<char>)
    requires
        graph.wf(),
    ensures
        registry_ids(graph, entry).no_duplicates(),
        forall|id: Seq<char>|
            registry_ids(graph, entry).contains(id) <==> graph.has_module(id) && in_chunk(
                graph,
                entry,
                id,
            ),
{
    let keep = |m: JsModuleView| in_chunk(graph, entry, m.id);
    let kept = chunk_modules(graph, entry);
    let ids = registry_ids(graph, entry);
    lemma_filtered_ids(graph.modules, keep);
    assert forall|id: Seq<char>| ids.contains(id) <==> graph.has_module(id) && in_chunk(
        graph,
        entry,
        id,
    ) by {
        if ids.contains(id) {
            let k = choose|k: int| 0 <= k < ids.len() && ids[k] == id;
            assert(kept.contains(kept[k]));
            let n = choose|n: int| 0 <= n < graph.modules.len() && graph.modules[n] == kept[k];
            assert(graph.module_ids()[n] == id);
        }
        if graph.has_module(id) && in_chunk(graph, entry, id) {
            let n = choose|n: int| 0 <= n < graph.module_ids().len() && graph.module_ids()[n] == id;
            assert(graph.modules.contains(graph.modules[n]));
            assert(kept.contains(graph.modules[n]));
            let k = choose|k: int| 0 <= k < kept.len() && kept[k] == graph.modules[n];
            assert(ids[k] == id);
        }
    }
}

/// Appends the registry entry of `module` to `out`.
fn push_registry_entry(module: &JsModule, out: &mut String)
    ensures
        final(out)@ == old(out)@ + registry_entry(module@),
{
    out.append("\"");
    out.append(module.id.as_str());
    match module.module_type {
        ModuleType::CommonJS => {
            out.append("\": [function(module, require) {");
            out.append(module.code.as_str());
            out.append("},'CJS'],");
        },
        ModuleType::ESM => {
            out.append("\": [function(exports, require) {");
            out.append(module.code.as_str());
            out.append("},'ESM'],");
        },
    }
    assert(out@ =~= old(out)@ + registry_entry(module@));
}

/// Renders the chunk that runs the module `entry_id`: the registry of the
/// entry and of every module that it depends on, in the order in which the
/// modules were added to the graph, then the id of the entry, then the
/// loader. The graph has to hold every module of the chunk.
pub fn render_chunk(entry_id: &String, c: &Compilation) -> (chunk: String)
    requires
        chunk_is_whole(c@.graph, entry_id@),
    ensures
        chunk@ == chunk_text(chunk_modules(c@.graph, entry_id@), entry_id@),
{
    let modules_in_chunk = c.graph.get_module_deps(entry_id.as_str());
    let modules = c.graph.modules();
    let ghost graph = c@.graph;
    let ghost keep = |m: JsModuleView| in_chunk(graph, entry_id@, m.id);
    let ghost all = module_views(modules@);
    let mut chunk = String::from_str(CHUNK_HEAD);
    chunk.append("{\n");
    let ghost head = chunk@;
    let mut i: usize = 0;
    proof {
        reveal(Seq::filter);
        assert(all.take(0) =~= Seq::empty());
        assert(chunk@ =~= head + registry_entries(all.take(0).filter(keep)));
    }
    while i < modules.len()
        invariant
            i <= modules.len(),
            all == module_views(modules@),
            all == graph.modules,
            keep == |m: JsModuleView| in_chunk(graph, entry_id@, m.id),
            texts(modules_in_chunk@).to_set() == graph.transitive_deps(entry_id@),
            chunk@ == head + registry_entries(all.take(i as int).filter(keep)),
        decreases modules.len() - i,
    {
        let module = &modules[i];
        let ghost before = chunk@;
        let ghost shorter = all.take(i as int).filter(keep);
        proof {
            reveal(Seq::filter);
            assert(all[i as int] == module@);
            assert(all.take(i + 1).drop_last() =~= all.take(i as int));
            assert(all.take(i + 1).last() == module@);
            assert(texts(modules_in_chunk@).contains(module@.id) == graph.transitive_deps(
                entry_id@,
            ).contains(module@.id));
        }
        if same_text(module.id.as_str(), entry_id.as_str()) || contains_text(
            &modules_in_chunk,
            module.id.as_str(),
        ) {
            push_registry_entry(module, &mut chunk);
            proof {
                assert(keep(module@));
                let longer = all.take(i + 1).filter(keep);
                assert(longer == shorter.push(module@));
                assert(longer.drop_last() =~= shorter);
                assert(chunk@ =~= head + registry_entries(longer));
            }
        } else {
            assert(!keep(module@));
        }
        i += 1;
    }
    assert(all.take(modules.len() as int) =~= all);
    chunk.append("\n}");
    chunk.append(CHUNK_ENTRY);
    chunk.append(entry_id.as_str());
    chunk.append(CHUNK_LOADER);
    assert(chunk@ =~= chunk_text(chunk_modules(graph, entry_id@), entry_id@));
    chunk
}

} // verus!
