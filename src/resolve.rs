//! The module graph and its depth-first resolution walk.
//!
//! Modules live in one table and refer to their dependencies by position,
//! so a module imported along several paths is held exactly once.
use vstd::prelude::*;
use vstd::set_lib::{lemma_int_range, lemma_len_subset, set_int_range};
use crate::syntax::{GlobalDeclaration, ImportItem, TranslationUnit};

verus! {

/// The items one module imports from one other module.
#[derive(Debug)]
pub struct ModuleImport {
    /// The identity of the imported resource.
    pub resource: String,
    /// Its position in the module table.
    pub target: usize,
    pub items: Vec<ImportItem>,
}

/// A resolved resource with its syntax tree and the imports it makes.
#[derive(Debug)]
pub struct Module {
    pub resource: String,
    pub source: TranslationUnit,
    pub imports: Vec<ModuleImport>,
}

#[derive(Debug)]
pub enum ImportError {
    /// The resource could not be located or read.
    ResourceNotFound(String),
    /// The parser rejected the resource's text: the resource, then the cause.
    ParseError(String, String),
    /// The import graph holds a cycle through these resources, in order.
    CyclicImport(Vec<String>),
    /// The item is imported by the first resource from the second, which
    /// does not declare it.
    UnresolvedImport(String, String, String),
}

/// The name a top-level declaration introduces, if any.
pub open spec fn decl_name(d: GlobalDeclaration) -> Option<Seq<char>> {
    match d {
        GlobalDeclaration::Declaration(x) => Some(x.name@),
        GlobalDeclaration::TypeAlias(x) => Some(x.name@),
        GlobalDeclaration::Struct(x) => Some(x.name@),
        GlobalDeclaration::Function(x) => Some(x.name@),
        _ => None,
    }
}

pub open spec fn declares(decls: Seq<GlobalDeclaration>, name: Seq<char>) -> bool {
    exists|d: int| 0 <= d < decls.len() && decl_name(#[trigger] decls[d]) == Some(name)
}

pub open spec fn imports_target(m: Module, t: int) -> bool {
    exists|k: int| 0 <= k < m.imports@.len() && (#[trigger] m.imports@[k]).target == t
}

/// Every import points into the table, at a module of the named resource.
pub open spec fn wf_modules(ms: Seq<Module>) -> bool {
    forall|i: int, k: int| 0 <= i < ms.len() && 0 <= k < ms[i].imports@.len() ==> {
        let imp = #[trigger] ms[i].imports@[k];
        &&& imp.target < ms.len()
        &&& ms[imp.target as int].resource@ == imp.resource@
    }
}

/// Every item that module `i` imports is declared by its target.
pub open spec fn module_resolved(ms: Seq<Module>, i: int) -> bool {
    forall|k: int, j: int| 0 <= k < ms[i].imports@.len() && 0 <= j < ms[i].imports@[k].items@.len() ==>
        declares(ms[ms[i].imports@[k].target as int].source.global_declarations@,
            (#[trigger] ms[i].imports@[k].items@[j]).name@)
}

/// Module `t` stands in `order` before position `p`.
pub open spec fn placed_before(order: Seq<usize>, p: int, t: usize) -> bool {
    exists|q: int| 0 <= q < p && order[q] == t
}

/// Every dependency of `order[p]` comes before it in `order`.
pub open spec fn deps_before(ms: Seq<Module>, order: Seq<usize>, p: int) -> bool {
    forall|k: int| 0 <= k < ms[order[p] as int].imports@.len() ==>
        placed_before(order, p, (#[trigger] ms[order[p] as int].imports@[k]).target)
}

/// Some module after position `p` of `order` imports `order[p]`.
pub open spec fn imported_later(ms: Seq<Module>, order: Seq<usize>, p: int) -> bool {
    exists|q: int| p < q < order.len() && imports_target(ms[order[q] as int], order[p] as int)
}

/// Every module from position `lo` on, but the last, is imported by a later one.
pub open spec fn reached_from(ms: Seq<Module>, order: Seq<usize>, lo: int) -> bool {
    forall|p: int| lo <= p < order.len() - 1 ==> #[trigger] imported_later(ms, order, p)
}

/// A dependency order for `entry`: each module once, dependencies before
/// the modules that import them, the entry last, every import resolved, and
/// only modules that the entry reaches.
pub open spec fn valid_order(ms: Seq<Module>, entry: int, order: Seq<usize>) -> bool {
    &&& order.len() > 0
    &&& order.last() == entry
    &&& order.no_duplicates()
    &&& forall|p: int| 0 <= p < order.len() ==> #[trigger] order[p] < ms.len()
    &&& forall|p: int| 0 <= p < order.len() ==> deps_before(ms, order, p)
    &&& forall|p: int| 0 <= p < order.len() ==> module_resolved(ms, #[trigger] order[p] as int)
    &&& reached_from(ms, order, 0)
}

/// `c` is a cycle of imports: each module imports the next, the last the first.
pub open spec fn is_cycle(ms: Seq<Module>, c: Seq<usize>) -> bool {
    &&& c.len() > 0
    &&& forall|k: int| 0 <= k < c.len() ==> #[trigger] c[k] < ms.len()
    &&& forall|k: int| 0 <= k < c.len() ==>
        imports_target(ms[#[trigger] c[k] as int], c[(k + 1) % c.len() as int] as int)
}

/// `c` is a chain of imports: each module imports the next.
#[verifier::opaque]
pub open spec fn is_chain(ms: Seq<Module>, c: Seq<usize>) -> bool {
    &&& c.len() > 0
    &&& forall|k: int| 0 <= k < c.len() ==> #[trigger] c[k] < ms.len()
    &&& forall|k: int| 0 <= k < c.len() - 1 ==> imports_target(ms[#[trigger] c[k] as int], c[k + 1] as int)
}

/// Module `j` is reached from `entry` through a chain of imports.
pub open spec fn reachable(ms: Seq<Module>, entry: int, j: int) -> bool {
    exists|c: Seq<usize>| #[trigger] is_chain(ms, c) && c[0] == entry && c.last() == j
}

/// The errors that resolution reports are genuine, and lie in the part of
/// the graph that `entry` reaches.
#[verifier::opaque]
pub open spec fn error_genuine(ms: Seq<Module>, entry: int, r: Result<(), ImportError>) -> bool {
    match r {
        Ok(_) => true,
        Err(ImportError::CyclicImport(names)) => exists|c: Seq<usize>| {
            &&& is_cycle(ms, c)
            &&& reachable(ms, entry, c[0] as int)
            &&& names@.len() == c.len()
            &&& forall|k: int| 0 <= k < c.len() ==> (#[trigger] names@[k])@ == ms[c[k] as int].resource@
        },
        Err(ImportError::UnresolvedImport(item, from, to)) => exists|i: int, k: int, j: int| {
            &&& 0 <= i < ms.len()
            &&& reachable(ms, entry, i)
            &&& 0 <= k < ms[i].imports@.len()
            &&& 0 <= j < ms[i].imports@[k].items@.len()
            &&& item@ == (#[trigger] ms[i].imports@[k].items@[j]).name@
            &&& from@ == ms[i].resource@
            &&& to@ == ms[i].imports@[k].resource@
            &&& !declares(ms[ms[i].imports@[k].target as int].source.global_declarations@, item@)
        },
        Err(_) => false,
    }
}

/// What holds between calls of the walk: `done` marks exactly the modules in
/// `order`, `order` is a dependency order so far, `path` is the chain of
/// modules being visited.
#[verifier::opaque]
pub open spec fn walk_state(ms: Seq<Module>, path: Seq<usize>, done: Seq<bool>, order: Seq<usize>) -> bool {
    &&& done.len() == ms.len()
    &&& order.no_duplicates()
    &&& forall|p: int| 0 <= p < order.len() ==> #[trigger] order[p] < ms.len()
    &&& forall|j: usize| j < ms.len() ==> (done[j as int] <==> order.contains(j))
    &&& forall|p: int| 0 <= p < order.len() ==> deps_before(ms, order, p)
    &&& forall|p: int| 0 <= p < order.len() ==> module_resolved(ms, #[trigger] order[p] as int)
    &&& path.no_duplicates()
    &&& forall|k: int| 0 <= k < path.len() ==> #[trigger] path[k] < ms.len() && !done[path[k] as int]
    &&& forall|k: int| 0 <= k < path.len() - 1 ==> imports_target(ms[#[trigger] path[k] as int], path[k + 1] as int)
}

proof fn lemma_distinct_bounded(s: Seq<usize>, n: nat)
    requires
        s.no_duplicates(),
        forall|k: int| 0 <= k < s.len() ==> #[trigger] s[k] < n,
    ensures
        s.len() <= n,
{
    let t = s.map_values(|x: usize| x as int);
    assert forall|a: int, b: int| 0 <= a < t.len() && 0 <= b < t.len() && a != b implies t[a] != t[b] by {
        assert(s[a] != s[b]);
    }
    t.unique_seq_to_set();
    lemma_int_range(0, n as int);
    assert forall|x: int| t.to_set().contains(x) implies set_int_range(0, n as int).contains(x) by {
        let k = choose|k: int| 0 <= k < t.len() && t[k] == x;
        assert(s[k] < n);
    }
    lemma_len_subset(t.to_set(), set_int_range(0, n as int));
}

/// Whether every import of the table points at a module of the named resource.
pub fn modules_well_formed(ms: &Vec<Module>) -> (r: bool)
    ensures
        r == wf_modules(ms@),
{
    let mut i: usize = 0;
    while i < ms.len()
        invariant
            i <= ms@.len(),
            forall|ii: int, k: int| 0 <= ii < i && 0 <= k < ms@[ii].imports@.len() ==> {
                let imp = #[trigger] ms@[ii].imports@[k];
                &&& imp.target < ms@.len()
                &&& ms@[imp.target as int].resource@ == imp.resource@
            },
        decreases ms@.len() - i,
    {
        let mut k: usize = 0;
        while k < ms[i].imports.len()
            invariant
                i < ms@.len(),
                k <= ms@[i as int].imports@.len(),
                forall|ii: int, kk: int| 0 <= ii < i && 0 <= kk < ms@[ii].imports@.len() ==> {
                    let imp = #[trigger] ms@[ii].imports@[kk];
                    &&& imp.target < ms@.len()
                    &&& ms@[imp.target as int].resource@ == imp.resource@
                },
                forall|kk: int| 0 <= kk < k ==> {
                    let imp = #[trigger] ms@[i as int].imports@[kk];
                    &&& imp.target < ms@.len()
                    &&& ms@[imp.target as int].resource@ == imp.resource@
                },
            decreases ms@[i as int].imports@.len() - k,
        {
            let imp = &ms[i].imports[k];
            if imp.target >= ms.len() || ms[imp.target].resource != imp.resource {
                return false;
            }
            k += 1;
        }
        i += 1;
    }
    true
}

fn declaration_name(d: &GlobalDeclaration) -> (r: Option<&String>)
    ensures
        match r {
            Some(n) => decl_name(*d) == Some(n@),
            None => decl_name(*d) is None,
        },
{
    match d {
        GlobalDeclaration::Declaration(x) => Some(&x.name),
        GlobalDeclaration::TypeAlias(x) => Some(&x.name),
        GlobalDeclaration::Struct(x) => Some(&x.name),
        GlobalDeclaration::Function(x) => Some(&x.name),
        _ => None,
    }
}

/// Whether `unit` declares `name` at the top level.
pub fn has_declaration(unit: &TranslationUnit, name: &String) -> (r: bool)
    ensures
        r == declares(unit.global_declarations@, name@),
{
    let decls = &unit.global_declarations;
    let mut d: usize = 0;
    while d < decls.len()
        invariant
            d <= decls@.len(),
            decls@ == unit.global_declarations@,
            forall|e: int| 0 <= e < d ==> decl_name(#[trigger] decls@[e]) != Some(name@),
        decreases decls@.len() - d,
    {
        match declaration_name(&decls[d]) {
            Some(n) => {
                if *n == *name {
                    assert(decl_name(decls@[d as int]) == Some(name@));
                    assert(declares(unit.global_declarations@, name@));
                    return true;
                }
            },
            None => {},
        }
        d += 1;
    }
    false
}

fn position_in(path: &Vec<usize>, t: usize) -> (r: Option<usize>)
    ensures
        match r {
            Some(q) => q < path@.len() && path@[q as int] == t,
            None => !path@.contains(t),
        },
{
    let mut q: usize = 0;
    while q < path.len()
        invariant
            q <= path@.len(),
            forall|e: int| 0 <= e < q ==> path@[e] != t,
        decreases path@.len() - q,
    {
        if path[q] == t {
            return Some(q);
        }
        q += 1;
    }
    None
}

/// The resources of the modules `path[from..]`, in order.
fn cycle_names(ms: &Vec<Module>, path: &Vec<usize>, from: usize) -> (r: Vec<String>)
    requires
        from <= path@.len(),
        forall|k: int| 0 <= k < path@.len() ==> #[trigger] path@[k] < ms@.len(),
    ensures
        r@.len() == path@.len() - from,
        forall|k: int| 0 <= k < r@.len() ==> (#[trigger] r@[k])@ == ms@[path@[from + k] as int].resource@,
{
    let mut out: Vec<String> = Vec::new();
    let mut q = from;
    while q < path.len()
        invariant
            from <= q <= path@.len(),
            out@.len() == q - from,
            forall|k: int| 0 <= k < path@.len() ==> #[trigger] path@[k] < ms@.len(),
            forall|k: int| 0 <= k < out@.len() ==> (#[trigger] out@[k])@ == ms@[path@[from + k] as int].resource@,
        decreases path@.len() - q,
    {
        out.push(ms[path[q]].resource.clone());
        q += 1;
    }
    out
}

proof fn lemma_done_grows(ms: Seq<Module>, p1: Seq<usize>, d1: Seq<bool>, o1: Seq<usize>, p2: Seq<usize>, d2: Seq<bool>, o2: Seq<usize>)
    requires
        walk_state(ms, p1, d1, o1),
        walk_state(ms, p2, d2, o2),
        o1.is_prefix_of(o2),
    ensures
        forall|x: usize| x < ms.len() && #[trigger] d1[x as int] ==> d2[x as int],
{
    reveal(walk_state);
    assert forall|x: usize| x < ms.len() && #[trigger] d1[x as int] implies d2[x as int] by {
        assert(o1.contains(x));
        let p = choose|p: int| 0 <= p < o1.len() && o1[p] == x;
        assert(o2[p] == o1[p]);
        assert(o2.contains(x));
    }
}

proof fn lemma_finish(ms: Seq<Module>, path0: Seq<usize>, i: usize, done1: Seq<bool>, order1: Seq<usize>)
    requires
        wf_modules(ms),
        walk_state(ms, path0.push(i), done1, order1),
        i < ms.len(),
        !path0.contains(i),
        forall|kk: int| 0 <= kk < ms[i as int].imports@.len() ==> done1[#[trigger] ms[i as int].imports@[kk].target as int],
        module_resolved(ms, i as int),
    ensures
        walk_state(ms, path0, done1.update(i as int, true), order1.push(i)),
{
    reveal(walk_state);
    let order = order1.push(i);
    let done = done1.update(i as int, true);
    assert(path0.push(i)[path0.len() as int] == i);
    assert(!done1[i as int]);
    assert(!order1.contains(i));
    assert forall|j: usize| j < ms.len() implies (done[j as int] <==> order.contains(j)) by {
        if j != i {
            if order1.contains(j) {
                let p = choose|p: int| 0 <= p < order1.len() && order1[p] == j;
                assert(order[p] == j);
            }
            if order.contains(j) {
                let p = choose|p: int| 0 <= p < order.len() && order[p] == j;
                if p == order1.len() {
                    assert(order[p] == i);
                }
                assert(order1[p] == j);
            }
        } else {
            assert(order[order1.len() as int] == i);
        }
    }
    assert forall|p: int| 0 <= p < order.len() implies deps_before(ms, order, p) by {
        if p < order1.len() {
            assert(deps_before(ms, order1, p));
            assert(order[p] == order1[p]);
            assert forall|kk: int| 0 <= kk < ms[order[p] as int].imports@.len() implies
                placed_before(order, p, (#[trigger] ms[order[p] as int].imports@[kk]).target) by {
                let imp = ms[order1[p] as int].imports@[kk];
                assert(placed_before(order1, p, imp.target));
                let q = choose|q: int| 0 <= q < p && order1[q] == imp.target;
                assert(order[q] == order1[q]);
            }
        } else {
            assert(order[p] == i);
            assert forall|kk: int| 0 <= kk < ms[order[p] as int].imports@.len() implies
                placed_before(order, p, (#[trigger] ms[order[p] as int].imports@[kk]).target) by {
                let tt = ms[i as int].imports@[kk].target;
                assert(tt < ms.len());
                assert(done1[tt as int]);
                assert(order1.contains(tt));
                let q = choose|q: int| 0 <= q < order1.len() && order1[q] == tt;
                assert(order[q] == order1[q]);
            }
        }
    }
    assert forall|p: int| 0 <= p < order.len() implies module_resolved(ms, #[trigger] order[p] as int) by {
        if p < order1.len() {
            assert(order[p] == order1[p]);
        }
    }
    assert forall|k: int| 0 <= k < path0.len() - 1 implies
        imports_target(ms[#[trigger] path0[k] as int], path0[k + 1] as int) by {
        assert(path0.push(i)[k] == path0[k]);
        assert(path0.push(i)[k + 1] == path0[k + 1]);
    }
    assert forall|k: int| 0 <= k < path0.len() implies #[trigger] path0[k] < ms.len() && !done[path0[k] as int] by {
        assert(path0.push(i)[k] == path0[k]);
    }
    assert(path0.no_duplicates()) by {
        assert forall|a: int, b: int| 0 <= a < path0.len() && 0 <= b < path0.len() && a != b implies path0[a] != path0[b] by {
            assert(path0.push(i)[a] == path0[a]);
            assert(path0.push(i)[b] == path0[b]);
        }
    }
    assert(order.no_duplicates());
}

proof fn lemma_chain_prefix(ms: Seq<Module>, path: Seq<usize>, q: int)
    requires
        is_chain(ms, path),
        0 <= q < path.len(),
    ensures
        reachable(ms, path[0] as int, path[q] as int),
{
    reveal(is_chain);
    let pre = path.subrange(0, q + 1);
    assert forall|e: int| 0 <= e < pre.len() - 1 implies
        imports_target(ms[#[trigger] pre[e] as int], pre[e + 1] as int) by {
        assert(pre[e] == path[e]);
        assert(pre[e + 1] == path[e + 1]);
    }
    assert(is_chain(ms, pre));
}

proof fn lemma_cycle(ms: Seq<Module>, path: Seq<usize>, done: Seq<bool>, order: Seq<usize>, q: int, t: usize)
    requires
        walk_state(ms, path, done, order),
        0 <= q < path.len(),
        path[q] == t,
        imports_target(ms[path.last() as int], t as int),
    ensures
        is_cycle(ms, path.subrange(q, path.len() as int)),
        forall|k: int| 0 <= k < path.len() ==> #[trigger] path[k] < ms.len(),
{
    reveal(walk_state);
    let c = path.subrange(q, path.len() as int);
    assert forall|e: int| 0 <= e < c.len() implies
        imports_target(ms[#[trigger] c[e] as int], c[(e + 1) % c.len() as int] as int) by {
        if e + 1 < c.len() {
            vstd::arithmetic::div_mod::lemma_small_mod((e + 1) as nat, c.len());
            assert(imports_target(ms[path[q + e] as int], path[q + e + 1] as int));
        } else {
            vstd::arithmetic::div_mod::lemma_mod_self_0(c.len() as int);
        }
    }
}

/// Checks that every item of import `k` of module `i` is declared by its target.
fn check_items(ms: &Vec<Module>, i: usize, k: usize, Ghost(entry): Ghost<int>) -> (r: Result<(), ImportError>)
    requires
        wf_modules(ms@),
        i < ms@.len(),
        reachable(ms@, entry, i as int),
        k < ms@[i as int].imports@.len(),
    ensures
        r is Ok ==> forall|j: int| 0 <= j < ms@[i as int].imports@[k as int].items@.len() ==>
            declares(ms@[ms@[i as int].imports@[k as int].target as int].source.global_declarations@,
                (#[trigger] ms@[i as int].imports@[k as int].items@[j]).name@),
        error_genuine(ms@, entry, r),
{
    let imp = &ms[i].imports[k];
    let t = imp.target;
    let items = &imp.items;
    proof {
        assert(t < ms@.len());
    }
    let mut j: usize = 0;
    while j < items.len()
        invariant
            i < ms@.len(),
            k < ms@[i as int].imports@.len(),
            *imp == ms@[i as int].imports@[k as int],
            items == imp.items,
            t == imp.target,
            t < ms@.len(),
            wf_modules(ms@),
            reachable(ms@, entry, i as int),
            j <= items@.len(),
            forall|jj: int| 0 <= jj < j ==>
                declares(ms@[t as int].source.global_declarations@, (#[trigger] items@[jj]).name@),
        decreases items@.len() - j,
    {
        if !has_declaration(&ms[t].source, &items[j].name) {
            let e = ImportError::UnresolvedImport(items[j].name.clone(), ms[i].resource.clone(), imp.resource.clone());
            proof {
                reveal(error_genuine);
                assert(ms@[i as int].imports@[k as int].items@[j as int] == items@[j as int]);
                assert(e->UnresolvedImport_0@ == (ms@[i as int].imports@[k as int].items@[j as int]).name@);
                assert(!declares(ms@[ms@[i as int].imports@[k as int].target as int].source.global_declarations@,
                    e->UnresolvedImport_0@));
            }
            return Err(e);
        }
        j += 1;
    }
    proof {
        reveal(error_genuine);
    }
    Ok(())
}

/// While module `i` is visited: each module added since `lo` is imported
/// by a later one or by `i` itself.
pub open spec fn reached_partial(ms: Seq<Module>, order: Seq<usize>, lo: int, i: usize) -> bool {
    forall|p: int| lo <= p < order.len() ==>
        #[trigger] imported_later(ms, order, p) || imports_target(ms[i as int], order[p] as int)
}

proof fn lemma_reach_after_child(ms: Seq<Module>, i: usize, lo: int, o1: Seq<usize>, o2: Seq<usize>, t: usize)
    requires
        0 <= lo <= o1.len(),
        reached_partial(ms, o1, lo, i),
        o1.is_prefix_of(o2),
        reached_from(ms, o2, o1.len() as int),
        o2.len() > o1.len(),
        o2.last() == t,
        imports_target(ms[i as int], t as int),
    ensures
        reached_partial(ms, o2, lo, i),
{
    assert forall|p: int| lo <= p < o2.len() implies
        #[trigger] imported_later(ms, o2, p) || imports_target(ms[i as int], o2[p] as int) by {
        if p < o1.len() {
            assert(o2[p] == o1[p]);
            if imported_later(ms, o1, p) {
                let q = choose|q: int| p < q < o1.len() && imports_target(ms[o1[q] as int], o1[p] as int);
                assert(o2[q] == o1[q]);
            }
        } else if p < o2.len() - 1 {
            assert(imported_later(ms, o2, p));
        }
    }
}

proof fn lemma_reach_finish(ms: Seq<Module>, i: usize, lo: int, o: Seq<usize>)
    requires
        0 <= lo <= o.len(),
        reached_partial(ms, o, lo, i),
    ensures
        reached_from(ms, o.push(i), lo),
{
    let o2 = o.push(i);
    assert forall|p: int| lo <= p < o2.len() - 1 implies #[trigger] imported_later(ms, o2, p) by {
        assert(o2[p] == o[p]);
        if imported_later(ms, o, p) {
            let q = choose|q: int| p < q < o.len() && imports_target(ms[o[q] as int], o[p] as int);
            assert(o2[q] == o[q]);
        } else {
            assert(o2[o.len() as int] == i);
        }
    }
}

proof fn lemma_start(ms: Seq<Module>, path0: Seq<usize>, i: usize, done: Seq<bool>, order: Seq<usize>, entry: int)
    requires
        i < ms.len(),
        walk_state(ms, path0, done, order),
        !done[i as int],
        !path0.contains(i),
        path0.len() == 0 ==> i == entry,
        path0.len() > 0 ==> path0[0] == entry,
        path0.len() > 0 ==> imports_target(ms[path0.last() as int], i as int),
    ensures
        walk_state(ms, path0.push(i), done, order),
        is_chain(ms, path0.push(i)),
        path0.push(i)[0] == entry,
        path0.push(i).len() <= ms.len(),
        done.len() == ms.len(),
{
    reveal(walk_state);
    reveal(is_chain);
    let path = path0.push(i);
    assert forall|k: int| 0 <= k < path.len() implies #[trigger] path[k] < ms.len() && !done[path[k] as int] by {
        if k < path0.len() {
            assert(path[k] == path0[k]);
        }
    }
    assert forall|a: int, b: int| 0 <= a < path.len() && 0 <= b < path.len() && a != b implies path[a] != path[b] by {
        if a < path0.len() { assert(path[a] == path0[a]); }
        if b < path0.len() { assert(path[b] == path0[b]); }
    }
    assert forall|k: int| 0 <= k < path.len() - 1 implies imports_target(ms[#[trigger] path[k] as int], path[k + 1] as int) by {
        assert(path[k] == path0[k]);
        if k + 1 < path0.len() {
            assert(path[k + 1] == path0[k + 1]);
        }
    }
    lemma_distinct_bounded(path, ms.len());
}

#[verifier::rlimit(100)]
fn visit(
    ms: &Vec<Module>,
    i: usize,
    path: &mut Vec<usize>,
    done: &mut Vec<bool>,
    order: &mut Vec<usize>,
    Ghost(entry): Ghost<int>,
) -> (r: Result<(), ImportError>)
    requires
        old(path)@.len() == 0 ==> i == entry,
        old(path)@.len() > 0 ==> old(path)@[0] == entry,
        wf_modules(ms@),
        i < ms@.len(),
        walk_state(ms@, old(path)@, old(done)@, old(order)@),
        !old(done)@[i as int],
        !old(path)@.contains(i),
        old(path)@.len() > 0 ==> imports_target(ms@[old(path)@.last() as int], i as int),
    ensures
        final(path)@ == old(path)@,
        r is Ok ==> walk_state(ms@, old(path)@, final(done)@, final(order)@),
        r is Ok ==> final(order)@.len() > old(order)@.len() && final(order)@.last() == i,
        r is Ok ==> old(order)@.is_prefix_of(final(order)@),
        r is Ok ==> reached_from(ms@, final(order)@, old(order)@.len() as int),
        error_genuine(ms@, entry, r),
    decreases ms@.len() - old(path)@.len(),
{
    let ghost path0 = path@;
    let ghost order0 = order@;
    path.push(i);
    proof {
        lemma_start(ms@, path0, i, done@, order@, entry);
    }
    let n_imports = ms[i].imports.len();
    let mut k: usize = 0;
    while k < n_imports
        invariant
            wf_modules(ms@),
            i < ms@.len(),
            n_imports == ms@[i as int].imports@.len(),
            k <= n_imports,
            path@ == path0.push(i),
            path0 == old(path)@,
            order0 == old(order)@,
            is_chain(ms@, path@),
            path@[0] == entry,
            !path0.contains(i),
            path@.len() <= ms@.len(),
            walk_state(ms@, path@, done@, order@),
            done@.len() == ms@.len(),
            order0.is_prefix_of(order@),
            reached_partial(ms@, order@, order0.len() as int, i),
            forall|kk: int| 0 <= kk < k ==> done@[#[trigger] ms@[i as int].imports@[kk].target as int],
            forall|kk: int, j: int| 0 <= kk < k && 0 <= j < ms@[i as int].imports@[kk].items@.len() ==>
                declares(ms@[ms@[i as int].imports@[kk].target as int].source.global_declarations@,
                    (#[trigger] ms@[i as int].imports@[kk].items@[j]).name@),
        decreases n_imports - k,
    {
        let imp = &ms[i].imports[k];
        let t = imp.target;
        proof {
            assert(imports_target(ms@[i as int], t as int));
        }
        if !done[t] {
            match position_in(path, t) {
                Some(q) => {
                    proof {
                        lemma_cycle(ms@, path@, done@, order@, q as int, t);
                        lemma_chain_prefix(ms@, path@, q as int);
                    }
                    let names = cycle_names(ms, path, q);
                    proof {
                        reveal(error_genuine);
                        let c = path@.subrange(q as int, path@.len() as int);
                        assert(names@.len() == c.len());
                        assert forall|e: int| 0 <= e < c.len() implies (#[trigger] names@[e])@ == ms@[c[e] as int].resource@ by {
                            assert(c[e] == path@[q + e]);
                        }
                    }
                    path.pop();
                    proof {
                        assert(path@ =~= path0);
                    }
                    return Err(ImportError::CyclicImport(names));
                },
                None => {
                    proof {
                        assert(path@.last() == i);
                    }
                    let ghost done_before = done@;
                    let ghost order_before = order@;
                    let res = visit(ms, t, path, done, order, Ghost(entry));
                    match res {
                        Ok(()) => {
                            proof {
                                reveal(walk_state);
                                lemma_done_grows(ms@, path@, done_before, order_before, path@, done@, order@);
                                lemma_reach_after_child(ms@, i, order0.len() as int, order_before, order@, t);
                            }
                        },
                        Err(e) => {
                            path.pop();
                            proof {
                                assert(path@ =~= path0);
                            }
                            return Err(e);
                        },
                    }
                },
            }
        }
        proof {
            lemma_chain_prefix(ms@, path@, path@.len() - 1);
        }
        match check_items(ms, i, k, Ghost(entry)) {
            Ok(()) => {},
            Err(e) => {
                path.pop();
                proof {
                    assert(path@ =~= path0);
                }
                return Err(e);
            },
        }
        k += 1;
    }
    path.pop();
    proof {
        assert(path@ =~= path0);
    }
    let ghost done1 = done@;
    let ghost order1 = order@;
    proof {
        lemma_finish(ms@, path0, i, done1, order1);
        lemma_reach_finish(ms@, i, order0.len() as int, order1);
    }
    done.set(i, true);
    order.push(i);
    proof {
        assert(order@.last() == i);
        assert(order@ == order1.push(i));
        assert(done@ == done1.update(i as int, true));
        reveal(error_genuine);
    }
    Ok(())
}

/// Resolves the import graph from `entry` by a depth-first walk, and returns
/// the order in which to emit the modules.
pub fn resolve_order(ms: &Vec<Module>, entry: usize) -> (r: Result<Vec<usize>, ImportError>)
    requires
        wf_modules(ms@),
        entry < ms@.len(),
    ensures
        match r {
            Ok(order) => valid_order(ms@, entry as int, order@),
            Err(e) => error_genuine(ms@, entry as int, Err(e)),
        },
{
    let mut path: Vec<usize> = Vec::new();
    let mut done: Vec<bool> = Vec::new();
    let mut n: usize = 0;
    while n < ms.len()
        invariant
            n <= ms@.len(),
            done@.len() == n,
            forall|j: int| 0 <= j < n ==> !done@[j],
        decreases ms@.len() - n,
    {
        done.push(false);
        n += 1;
    }
    let mut order: Vec<usize> = Vec::new();
    proof {
        reveal(walk_state);
        assert(done@.len() == ms@.len());
        assert forall|j: usize| j < ms@.len() implies (done@[j as int] <==> order@.contains(j)) by {}
    }
    match visit(ms, entry, &mut path, &mut done, &mut order, Ghost(entry as int)) {
        Ok(()) => {
            proof {
                reveal(walk_state);
            }
            Ok(order)
        },
        Err(e) => Err(e),
    }
}

} // verus!
