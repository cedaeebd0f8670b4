//! The sources that a module imports from.

use crate::ast::{Module, ModuleItem, ModuleItemView};
use crate::text::{contains_text, texts};
use vstd::prelude::*;

verus! {

/// The sources of the import declarations of `body`, each once, in first-seen
/// order.
pub open spec fn import_sources(body: Seq<ModuleItemView>) -> Seq<Seq<char>>
    decreases body.len(),
{
    if body.len() == 0 {
        Seq::empty()
    } else {
        let rest = import_sources(body.drop_last());
        match body.last() {
            ModuleItemView::Import { src, .. } => if rest.contains(src) {
                rest
            } else {
                rest.push(src)
            },
            _ => rest,
        }
    }
}

/// No source is listed twice, and the sources listed are those of the import
/// declarations.
pub proof fn lemma_import_sources(body: Seq<ModuleItemView>)
    ensures
        import_sources(body).no_duplicates(),
        forall|src: Seq<char>| #[trigger]
            import_sources(body).contains(src) <==> exists|k: int|
                0 <= k < body.len() && (#[trigger] body[k]) is Import && body[k]->Import_src
                    == src,
    decreases body.len(),
{
    let all = import_sources(body);
    if body.len() > 0 {
        let shorter = body.drop_last();
        let rest = import_sources(shorter);
        lemma_import_sources(shorter);
        assert forall|src: Seq<char>| #[trigger] all.contains(src) <==> exists|k: int|
            0 <= k < body.len() && (#[trigger] body[k]) is Import && body[k]->Import_src
                == src by {
            if all.contains(src) {
                let j = choose|j: int| 0 <= j < all.len() && all[j] == src;
                if j < rest.len() {
                    assert(rest[j] == src);
                    assert(rest.contains(src));
                    let k = choose|k: int|
                        0 <= k < shorter.len() && (#[trigger] shorter[k]) is Import
                            && shorter[k]->Import_src == src;
                    assert(body[k] == shorter[k]);
                } else {
                    assert(body[body.len() - 1] is Import);
                }
            }
            if exists|k: int|
                0 <= k < body.len() && (#[trigger] body[k]) is Import && body[k]->Import_src
                    == src {
                let k = choose|k: int|
                    0 <= k < body.len() && (#[trigger] body[k]) is Import && body[k]->Import_src
                        == src;
                if k < shorter.len() {
                    assert(shorter[k] == body[k]);
                    assert(rest.contains(src));
                    let j = choose|j: int| 0 <= j < rest.len() && rest[j] == src;
                    assert(all[j] == src);
                } else if rest.contains(src) {
                    let j = choose|j: int| 0 <= j < rest.len() && rest[j] == src;
                    assert(all[j] == src);
                } else {
                    assert(all[all.len() - 1] == src);
                }
            }
        }
    }
}

/// Collects the sources that `module` imports from, each once, in first-seen
/// order.
pub fn collect_imports(module: &Module) -> (imports: Vec<String>)
    ensures
        texts(imports@) == import_sources(module@.body),
{
    let ghost body = module@.body;
    let mut imports: Vec<String> = Vec::new();
    let mut i: usize = 0;
    assert(body.take(0) =~= Seq::empty());
    assert(texts(imports@) =~= import_sources(body.take(0)));
    while i < module.body.len()
        invariant
            i <= module.body.len(),
            body == module@.body,
            texts(imports@) == import_sources(body.take(i as int)),
        decreases module.body.len() - i,
    {
        let ghost before = texts(imports@);
        proof {
            assert(body[i as int] == module.body@[i as int]@);
            assert(body.take(i + 1).drop_last() =~= body.take(i as int));
            assert(body.take(i + 1).last() == body[i as int]);
        }
        match &module.body[i] {
            ModuleItem::Import { src, .. } => {
                if !contains_text(&imports, src.as_str()) {
                    imports.push(src.clone());
                    assert(texts(imports@) =~= before.push(src@));
                }
            },
            _ => {},
        }
        i += 1;
    }
    assert(body.take(module.body.len() as int) =~= body);
    imports
}

} // verus!
