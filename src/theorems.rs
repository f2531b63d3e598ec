//! Facts about every compilation, proved from the contracts of the pipeline.
use vstd::prelude::*;
use crate::assemble::{assembled, compiled_along, emitted, emitted_as, module_output};
use crate::mangle::Mangler;
use crate::mangle::{rename_pairs, renamed_all};
use crate::resolve::{imported_later, imports_target, valid_order, Module};
use crate::syntax::GlobalDeclaration;

verus! {

pub open spec fn import_free(out: Seq<GlobalDeclaration>) -> bool {
    forall|i: int| 0 <= i < out.len() ==> !(#[trigger] out[i] is Import)
}

proof fn lemma_emitted_import_free<M: Mangler>(
    m: M,
    resource: Seq<char>,
    is_entry: bool,
    ds: Seq<GlobalDeclaration>,
    out: Seq<GlobalDeclaration>,
)
    requires
        emitted(m, resource, is_entry, ds, out),
    ensures
        import_free(out),
    decreases ds.len(),
{
    if ds.len() == 0 {
    } else if ds.last() is Import {
        lemma_emitted_import_free(m, resource, is_entry, ds.drop_last(), out);
    } else {
        lemma_emitted_import_free(m, resource, is_entry, ds.drop_last(), out.drop_last());
        assert forall|i: int| 0 <= i < out.len() implies !(#[trigger] out[i] is Import) by {
            if i < out.len() - 1 {
                assert(out[i] == out.drop_last()[i]);
            }
        }
    }
}

proof fn lemma_assembled_import_free<M: Mangler>(
    m: M,
    ms: Seq<Module>,
    entry: int,
    order: Seq<usize>,
    out: Seq<GlobalDeclaration>,
)
    requires
        assembled(m, ms, entry, order, out),
    ensures
        import_free(out),
    decreases order.len(),
{
    if order.len() > 0 {
        let k = choose|k: int| 0 <= k <= out.len()
            && assembled(m, ms, entry, order.drop_last(), #[trigger] out.subrange(0, k))
            && module_output(m, ms[order.last() as int], order.last() == entry, out.subrange(k, out.len() as int));
        lemma_assembled_import_free(m, ms, entry, order.drop_last(), out.subrange(0, k));
        let tail = out.subrange(k, out.len() as int);
        let md = ms[order.last() as int];
        let is_entry = order.last() == entry;
        assert(module_output(m, md, is_entry, tail));
        let src = choose|src: Seq<GlobalDeclaration>|
            renamed_all(md.source.global_declarations@, src, rename_pairs(m, md.imports@))
            && #[trigger] emitted(m, md.resource@, is_entry, src, tail);
        lemma_emitted_import_free(m, md.resource@, is_entry, src, tail);
        assert forall|i: int| 0 <= i < out.len() implies !(#[trigger] out[i] is Import) by {
            if i < k {
                assert(out[i] == out.subrange(0, k)[i]);
            } else {
                assert(out[i] == tail[i - k]);
            }
        }
    }
}

/// A compiled program holds no import directive.
pub proof fn lemma_compiled_has_no_imports<M: Mangler>(
    m: M,
    ms: Seq<Module>,
    entry: int,
    order: Seq<usize>,
    out: Seq<GlobalDeclaration>,
)
    requires
        compiled_along(m, ms, entry, order, out),
    ensures
        forall|i: int| 0 <= i < out.len() ==> !(#[trigger] out[i] is Import),
{
    lemma_assembled_import_free(m, ms, entry, order, out);
}

/// A module that is imported at all, even along several paths, stands
/// exactly once in the order along which the program is assembled.
pub proof fn lemma_dependency_emitted_once(ms: Seq<Module>, entry: int, order: Seq<usize>, p: int, d: usize)
    requires
        valid_order(ms, entry, order),
        0 <= p < order.len(),
        imports_target(ms[order[p] as int], d as int),
    ensures
        exists|q: int| 0 <= q < order.len() && order[q] == d,
        forall|q1: int, q2: int| 0 <= q1 < order.len() && 0 <= q2 < order.len()
            && order[q1] == d && order[q2] == d ==> q1 == q2,
{
    let k = choose|k: int| 0 <= k < ms[order[p] as int].imports@.len()
        && (#[trigger] ms[order[p] as int].imports@[k]).target == d;
    assert(crate::resolve::deps_before(ms, order, p));
    assert(crate::resolve::placed_before(order, p, ms[order[p] as int].imports@[k].target));
}

proof fn lemma_entry_emitted_unchanged<M: Mangler>(
    m: M,
    resource: Seq<char>,
    ds: Seq<GlobalDeclaration>,
    out: Seq<GlobalDeclaration>,
)
    requires
        emitted(m, resource, true, ds, out),
        import_free(ds),
    ensures
        out == ds,
    decreases ds.len(),
{
    if ds.len() == 0 {
        assert(out =~= ds);
    } else {
        assert(!(ds[ds.len() - 1] is Import));
        assert forall|i: int| 0 <= i < ds.drop_last().len() implies !(#[trigger] ds.drop_last()[i] is Import) by {
            assert(ds.drop_last()[i] == ds[i]);
        }
        lemma_entry_emitted_unchanged(m, resource, ds.drop_last(), out.drop_last());
        assert(out =~= out.drop_last().push(out.last()));
        assert(ds =~= ds.drop_last().push(ds.last()));
    }
}

/// An entry module that imports nothing compiles to exactly its own
/// declarations, unrenamed, and nothing else.
pub proof fn lemma_compiled_identity_without_imports<M: Mangler>(
    m: M,
    ms: Seq<Module>,
    entry: int,
    order: Seq<usize>,
    out: Seq<GlobalDeclaration>,
)
    requires
        compiled_along(m, ms, entry, order, out),
        0 <= entry < ms.len(),
        ms[entry].imports@.len() == 0,
        import_free(ms[entry].source.global_declarations@),
    ensures
        out == ms[entry].source.global_declarations@,
        order =~= seq![entry as usize],
{
    if order.len() >= 2 {
        let p = order.len() - 2;
        assert(imported_later(ms, order, p));
        let q = choose|q: int| p < q < order.len() && imports_target(ms[order[q] as int], order[p] as int);
        assert(order[q] == entry);
    }
    assert(order.len() == 1);
    let k = choose|k: int| 0 <= k <= out.len()
        && assembled(m, ms, entry, order.drop_last(), #[trigger] out.subrange(0, k))
        && module_output(m, ms[order.last() as int], order.last() == entry, out.subrange(k, out.len() as int));
    assert(k == 0);
    assert(out.subrange(0, out.len() as int) =~= out);
    let md = ms[entry];
    assert(module_output(m, md, true, out));
    let src = choose|src: Seq<GlobalDeclaration>|
        renamed_all(md.source.global_declarations@, src, rename_pairs(m, md.imports@))
        && #[trigger] emitted(m, md.resource@, true, src, out);
    assert(rename_pairs(m, md.imports@).len() == 0);
    assert(src == md.source.global_declarations@);
    lemma_entry_emitted_unchanged(m, md.resource@, src, out);
}

} // verus!
