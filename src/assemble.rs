//! Assembly: flattens the resolved module graph into one translation unit.
use vstd::prelude::*;
use crate::mangle::{Mangler, rename_pairs, renamed_all};
use crate::resolve::{decl_name, error_genuine, resolve_order, valid_order, wf_modules, ImportError, Module};
use crate::syntax::{Declaration, Function, GlobalDeclaration, Struct, TranslationUnit, TypeAlias};

verus! {

/// `e` is `d` with its declared name replaced by `name`; all else is kept.
/// A declaration without a name is kept whole.
pub open spec fn emitted_as(d: GlobalDeclaration, e: GlobalDeclaration, name: Seq<char>) -> bool {
    match d {
        GlobalDeclaration::Declaration(x) => e is Declaration && e->Declaration_0.name@ == name
            && e->Declaration_0.kind == x.kind && e->Declaration_0.ty == x.ty
            && e->Declaration_0.initializer == x.initializer,
        GlobalDeclaration::TypeAlias(x) => e is TypeAlias && e->TypeAlias_0.name@ == name
            && e->TypeAlias_0.ty == x.ty,
        GlobalDeclaration::Struct(x) => e is Struct && e->Struct_0.name@ == name
            && e->Struct_0.members == x.members,
        GlobalDeclaration::Function(x) => e is Function && e->Function_0.name@ == name
            && e->Function_0.parameters == x.parameters && e->Function_0.return_type == x.return_type
            && e->Function_0.body == x.body,
        _ => e == d,
    }
}

/// The name a declaration of `resource` is emitted under.
pub open spec fn emitted_name<M: Mangler>(m: M, resource: Seq<char>, d: GlobalDeclaration) -> Seq<char> {
    match decl_name(d) {
        Some(n) => m.spec_mangle(resource, n),
        None => seq![],
    }
}

/// `out` is what a module with declarations `ds` contributes: import
/// directives are left out; the entry's declarations are kept as they are,
/// every other module's are renamed to their mangled names.
pub open spec fn emitted<M: Mangler>(
    m: M,
    resource: Seq<char>,
    is_entry: bool,
    ds: Seq<GlobalDeclaration>,
    out: Seq<GlobalDeclaration>,
) -> bool
    decreases ds.len(),
{
    if ds.len() == 0 {
        out.len() == 0
    } else if ds.last() is Import {
        emitted(m, resource, is_entry, ds.drop_last(), out)
    } else {
        &&& out.len() > 0
        &&& emitted(m, resource, is_entry, ds.drop_last(), out.drop_last())
        &&& if is_entry {
            out.last() == ds.last()
        } else {
            emitted_as(ds.last(), out.last(), emitted_name(m, resource, ds.last()))
        }
    }
}

/// `out` is a module's contribution: its source with every use of an
/// imported item rewritten, then emitted.
pub open spec fn module_output<M: Mangler>(m: M, md: Module, is_entry: bool, out: Seq<GlobalDeclaration>) -> bool {
    exists|src: Seq<GlobalDeclaration>|
        renamed_all(md.source.global_declarations@, src, rename_pairs(m, md.imports@))
        && #[trigger] emitted(m, md.resource@, is_entry, src, out)
}

/// `out` is the contributions of the modules of `order`, concatenated in that order.
pub open spec fn assembled<M: Mangler>(
    m: M,
    ms: Seq<Module>,
    entry: int,
    order: Seq<usize>,
    out: Seq<GlobalDeclaration>,
) -> bool
    decreases order.len(),
{
    if order.len() == 0 {
        out.len() == 0
    } else {
        exists|k: int| 0 <= k <= out.len()
            && assembled(m, ms, entry, order.drop_last(), #[trigger] out.subrange(0, k))
            && module_output(m, ms[order.last() as int], order.last() == entry, out.subrange(k, out.len() as int))
    }
}

/// `out` is the program assembled along the dependency order `order`.
pub open spec fn compiled_along<M: Mangler>(
    m: M,
    ms: Seq<Module>,
    entry: int,
    order: Seq<usize>,
    out: Seq<GlobalDeclaration>,
) -> bool {
    valid_order(ms, entry, order) && assembled(m, ms, entry, order, out)
}

fn rename_declared<M: Mangler>(d: GlobalDeclaration, resource: &String, mangler: &M) -> (e: GlobalDeclaration)
    ensures
        emitted_as(d, e, emitted_name(*mangler, resource@, d)),
{
    match d {
        GlobalDeclaration::Declaration(x) => {
            let name = mangler.mangle(resource, &x.name);
            GlobalDeclaration::Declaration(Declaration { kind: x.kind, name, ty: x.ty, initializer: x.initializer })
        },
        GlobalDeclaration::TypeAlias(x) => {
            let name = mangler.mangle(resource, &x.name);
            GlobalDeclaration::TypeAlias(TypeAlias { name, ty: x.ty })
        },
        GlobalDeclaration::Struct(x) => {
            let name = mangler.mangle(resource, &x.name);
            GlobalDeclaration::Struct(Struct { name, members: x.members })
        },
        GlobalDeclaration::Function(x) => {
            let name = mangler.mangle(resource, &x.name);
            GlobalDeclaration::Function(Function {
                name,
                parameters: x.parameters,
                return_type: x.return_type,
                body: x.body,
            })
        },
        other => other,
    }
}

/// Emits one module's declarations: drops its import directives and, unless
/// it is the entry, renames each declaration to its mangled name.
fn emit_module<M: Mangler>(
    decls: Vec<GlobalDeclaration>,
    resource: &String,
    is_entry: bool,
    mangler: &M,
) -> (r: Vec<GlobalDeclaration>)
    ensures
        emitted(*mangler, resource@, is_entry, decls@, r@),
{
    let ghost ds = decls@;
    let mut rest = decls;
    let mut out: Vec<GlobalDeclaration> = Vec::new();
    let n = rest.len();
    let mut i: usize = 0;
    proof {
        assert(ds.subrange(0, 0).len() == 0);
    }
    while rest.len() > 0
        invariant
            n == ds.len(),
            i + rest@.len() == ds.len(),
            rest@ == ds.subrange(i as int, ds.len() as int),
            emitted(*mangler, resource@, is_entry, ds.subrange(0, i as int), out@),
        decreases rest@.len(),
    {
        let d = rest.remove(0);
        let ghost out0 = out@;
        proof {
            assert(d == ds[i as int]);
            assert(ds.subrange(0, i + 1).drop_last() =~= ds.subrange(0, i as int));
            assert(ds.subrange(0, i + 1).last() == d);
        }
        match d {
            GlobalDeclaration::Import(_) => {},
            other => {
                if is_entry {
                    out.push(other);
                } else {
                    out.push(rename_declared(other, resource, mangler));
                }
                proof {
                    assert(out@.drop_last() =~= out0);
                }
            },
        }
        i += 1;
        assert(rest@ =~= ds.subrange(i as int, ds.len() as int));
    }
    proof {
        assert(ds.subrange(0, i as int) =~= ds);
    }
    out
}

fn take_module(ms: &mut Vec<Module>, idx: usize) -> (md: Module)
    requires
        idx < old(ms)@.len(),
    ensures
        md == old(ms)@[idx as int],
        final(ms)@.len() == old(ms)@.len(),
        forall|j: int| 0 <= j < old(ms)@.len() && j != idx ==> final(ms)@[j] == old(ms)@[j],
{
    let mut md = Module {
        resource: String::new(),
        source: TranslationUnit { global_declarations: Vec::new() },
        imports: Vec::new(),
    };
    std::mem::swap(&mut md, &mut ms[idx]);
    md
}

/// Flattens the modules of `order` into one translation unit, in that order.
pub fn assemble<M: Mangler>(ms: Vec<Module>, order: &Vec<usize>, entry: usize, mangler: &M) -> (r: TranslationUnit)
    requires
        valid_order(ms@, entry as int, order@),
    ensures
        assembled(*mangler, ms@, entry as int, order@, r.global_declarations@),
{
    let ghost orig = ms@;
    let mut ms = ms;
    let mut out: Vec<GlobalDeclaration> = Vec::new();
    let mut p: usize = 0;
    while p < order.len()
        invariant
            p <= order@.len(),
            valid_order(orig, entry as int, order@),
            ms@.len() == orig.len(),
            forall|q: int| p <= q < order@.len() ==> ms@[#[trigger] order@[q] as int] == orig[order@[q] as int],
            assembled(*mangler, orig, entry as int, order@.subrange(0, p as int), out@),
        decreases order@.len() - p,
    {
        let idx = order[p];
        let mut md = take_module(&mut ms, idx);
        let ghost md0 = md;
        proof {
            assert(md0 == orig[idx as int]);
        }
        let _ = md.mangle(mangler);
        let ghost src = md.source.global_declarations@;
        let part = emit_module(md.source.global_declarations, &md.resource, idx == entry, mangler);
        let ghost out0 = out@;
        let mut part = part;
        let ghost part0 = part@;
        out.append(&mut part);
        proof {
            assert(module_output(*mangler, orig[idx as int], idx == entry, part0)) by {
                assert(emitted(*mangler, md0.resource@, idx == entry, src, part0));
            }
            let s = order@.subrange(0, p + 1);
            assert(s.drop_last() =~= order@.subrange(0, p as int));
            assert(s.last() == idx);
            assert(out@.subrange(0, out0.len() as int) =~= out0);
            assert(out@.subrange(out0.len() as int, out@.len() as int) =~= part0);
            assert forall|q: int| p + 1 <= q < order@.len() implies ms@[#[trigger] order@[q] as int] == orig[order@[q] as int] by {
                assert(order@[q] != order@[p as int]);
            }
        }
        p += 1;
    }
    proof {
        assert(order@.subrange(0, order@.len() as int) =~= order@);
    }
    TranslationUnit { global_declarations: out }
}

/// Compiles the program whose entry is module `entry` of the table: resolves
/// its imports, rewrites every module, and flattens them into one
/// import-free translation unit, or reports the first error met.
pub fn compile<M: Mangler>(ms: Vec<Module>, entry: usize, mangler: &M) -> (r: Result<TranslationUnit, ImportError>)
    requires
        wf_modules(ms@),
        entry < ms@.len(),
    ensures
        match r {
            Ok(unit) => exists|order: Seq<usize>|
                #[trigger] compiled_along(*mangler, ms@, entry as int, order, unit.global_declarations@),
            Err(e) => error_genuine(ms@, entry as int, Err(e)),
        },
{
    match resolve_order(&ms, entry) {
        Ok(order) => {
            let unit = assemble(ms, &order, entry, mangler);
            let ghost u = unit;
            let r = Ok(unit);
            assert(r->Ok_0 == u);
            assert(compiled_along(*mangler, ms@, entry as int, order@, r->Ok_0.global_declarations@));
            r
        },
        Err(e) => Err(e),
    }
}

} // verus!
