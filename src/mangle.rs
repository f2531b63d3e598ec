//! Mangling: a pure function from (resource, item name) to a unique identifier.
use vstd::prelude::*;
use crate::resolve::{ImportError, Module, ModuleImport};
use crate::rewrite::{renamed_unit, replace_imported_ident};
use crate::syntax::{GlobalDeclaration, ImportItem};

verus! {

/// The 64-bit hash of a (resource, item name) pair under std's default hasher.
pub uninterp spec fn hash_of(resource: Seq<char>, item: Seq<char>) -> u64;

/// Relies on `std::hash::DefaultHasher::new`, `<String as Hash>::hash` and
/// `Hasher::finish`: a hasher made by `new` always starts from the same keys,
/// so the result depends on the two strings alone.
#[verifier::external_body]
fn hash_pair(resource: &String, item: &String) -> (r: u64)
    ensures
        r == hash_of(resource@, item@),
{
    let mut hasher = std::hash::DefaultHasher::new();
    std::hash::Hash::hash(resource, &mut hasher);
    std::hash::Hash::hash(item, &mut hasher);
    std::hash::Hasher::finish(&hasher)
}

pub open spec fn digit_char(d: nat) -> char {
    seq!['0', '1', '2', '3', '4', '5', '6', '7', '8', '9'][d as int]
}

/// The decimal text of `n`, without leading zeros.
pub open spec fn decimal(n: nat) -> Seq<char>
    decreases n,
{
    if n < 10 {
        seq![digit_char(n)]
    } else {
        decimal(n / 10).push(digit_char(n % 10))
    }
}

/// `"{item}_{hash}"`: the readable name, an underscore, then the hash in decimal.
pub open spec fn hashed_name(item: Seq<char>, hash: u64) -> Seq<char> {
    item + seq!['_'] + decimal(hash as nat)
}

/// Relies on `format!` writing a `u64` in decimal through its `Display` impl.
#[verifier::external_body]
fn join_hashed(item: &String, hash: u64) -> (r: String)
    ensures
        r@ == hashed_name(item@, hash),
{
    format!("{item}_{hash}")
}

/// A naming strategy for exported items. Implementations are pure: the name
/// depends on the resource and the item alone.
pub trait Mangler {
    spec fn spec_mangle(&self, resource: Seq<char>, item: Seq<char>) -> Seq<char>;

    fn mangle(&self, resource: &String, item: &String) -> (r: String)
        ensures
            r@ == self.spec_mangle(resource@, item@),
    ;
}

/// The default strategy: the item name followed by a hash of the pair.
#[derive(Clone, Copy, Debug, Default)]
pub struct FileManglerHash;

impl Mangler for FileManglerHash {
    open spec fn spec_mangle(&self, resource: Seq<char>, item: Seq<char>) -> Seq<char> {
        hashed_name(item, hash_of(resource, item))
    }

    fn mangle(&self, resource: &String, item: &String) -> (r: String) {
        let hash = hash_pair(resource, item);
        join_hashed(item, hash)
    }
}

/// Mangling is deterministic: two calls on the same resource and item give
/// the same identifier.
pub proof fn lemma_mangle_deterministic<M: Mangler>(
    m: &M,
    resource1: Seq<char>,
    item1: Seq<char>,
    resource2: Seq<char>,
    item2: Seq<char>,
)
    requires
        resource1 == resource2,
        item1 == item2,
    ensures
        m.spec_mangle(resource1, item1) == m.spec_mangle(resource2, item2),
{
}

/// The name an imported item is known by in the importing module.
pub open spec fn local_name(it: ImportItem) -> Seq<char> {
    match it.rename {
        Some(r) => r@,
        None => it.name@,
    }
}

/// The rewrites that one import asks for: each local name to its mangled name.
pub open spec fn import_pairs<M: Mangler>(m: M, imp: ModuleImport) -> Seq<(Seq<char>, Seq<char>)> {
    imp.items@.map_values(|it: ImportItem| (local_name(it), m.spec_mangle(imp.resource@, it.name@)))
}

/// The rewrites that a module's imports ask for, in order.
pub open spec fn rename_pairs<M: Mangler>(m: M, imports: Seq<ModuleImport>) -> Seq<(Seq<char>, Seq<char>)>
    decreases imports.len(),
{
    if imports.len() == 0 {
        seq![]
    } else {
        rename_pairs(m, imports.drop_last()) + import_pairs(m, imports.last())
    }
}

/// `b` is `a` after the rewrites of `pairs`, applied one after another.
pub open spec fn renamed_all(
    a: Seq<GlobalDeclaration>,
    b: Seq<GlobalDeclaration>,
    pairs: Seq<(Seq<char>, Seq<char>)>,
) -> bool
    decreases pairs.len(),
{
    if pairs.len() == 0 {
        b == a
    } else {
        exists|mid: Seq<GlobalDeclaration>|
            renamed_all(a, mid, pairs.drop_last()) && #[trigger] renamed_unit(mid, b, pairs.last().0, pairs.last().1)
    }
}

proof fn lemma_renamed_all_step(
    a: Seq<GlobalDeclaration>,
    mid: Seq<GlobalDeclaration>,
    b: Seq<GlobalDeclaration>,
    pairs: Seq<(Seq<char>, Seq<char>)>,
    old_ident: Seq<char>,
    new_ident: Seq<char>,
)
    requires
        renamed_all(a, mid, pairs),
        renamed_unit(mid, b, old_ident, new_ident),
    ensures
        renamed_all(a, b, pairs.push((old_ident, new_ident))),
{
    let q = pairs.push((old_ident, new_ident));
    assert(q.drop_last() =~= pairs);
    assert(renamed_unit(mid, b, q.last().0, q.last().1));
}

impl Module {
    /// Rewrites every use of each imported item in this module's source to
    /// the name its exporter will be emitted under.
    pub fn mangle<M: Mangler>(&mut self, mangler: &M) -> (r: Result<(), ImportError>)
        ensures
            r is Ok,
            final(self).resource == old(self).resource,
            final(self).imports == old(self).imports,
            renamed_all(
                old(self).source.global_declarations@,
                final(self).source.global_declarations@,
                rename_pairs(*mangler, old(self).imports@),
            ),
    {
        let ghost orig = self.source.global_declarations@;
        let ghost imports = self.imports@;
        let mut k: usize = 0;
        while k < self.imports.len()
            invariant
                k <= imports.len(),
                self.imports@ == imports,
                self.resource == old(self).resource,
                self.imports == old(self).imports,
                orig == old(self).source.global_declarations@,
                renamed_all(orig, self.source.global_declarations@, rename_pairs(*mangler, imports.subrange(0, k as int))),
            decreases imports.len() - k,
        {
            let ghost before = rename_pairs(*mangler, imports.subrange(0, k as int));
            let mut j: usize = 0;
            proof {
                assert(before + import_pairs(*mangler, imports[k as int]).subrange(0, 0) =~= before);
            }
            while j < self.imports[k].items.len()
                invariant
                    k < imports.len(),
                    j <= imports[k as int].items@.len(),
                    self.imports@ == imports,
                    self.resource == old(self).resource,
                    self.imports == old(self).imports,
                    orig == old(self).source.global_declarations@,
                    before == rename_pairs(*mangler, imports.subrange(0, k as int)),
                    renamed_all(orig, self.source.global_declarations@,
                        before + import_pairs(*mangler, imports[k as int]).subrange(0, j as int)),
                decreases imports[k as int].items@.len() - j,
            {
                let item = &self.imports[k].items[j];
                let old_ident = match &item.rename {
                    Some(r) => r.clone(),
                    None => item.name.clone(),
                };
                let new_ident = mangler.mangle(&self.imports[k].resource, &item.name);
                let ghost mid = self.source.global_declarations@;
                replace_imported_ident(&mut self.source, &old_ident, &new_ident);
                proof {
                    let ps = import_pairs(*mangler, imports[k as int]);
                    lemma_renamed_all_step(orig, mid, self.source.global_declarations@,
                        before + ps.subrange(0, j as int), old_ident@, new_ident@);
                    assert(ps[j as int] == (old_ident@, new_ident@));
                    assert((before + ps.subrange(0, j as int)).push((old_ident@, new_ident@))
                        =~= before + ps.subrange(0, j + 1));
                }
                j += 1;
            }
            proof {
                let ps = import_pairs(*mangler, imports[k as int]);
                assert(ps.subrange(0, ps.len() as int) =~= ps);
                assert(imports.subrange(0, k + 1).drop_last() =~= imports.subrange(0, k as int));
                assert(imports.subrange(0, k + 1).last() == imports[k as int]);
            }
            k += 1;
        }
        proof {
            assert(imports.subrange(0, imports.len() as int) =~= imports);
        }
        Ok(())
    }
}

} // verus!
