//! The identity registry: consumes "composite type found" and "alias found"
//! events, in either relative order, and resolves one name mapping per
//! discovered composite type, including anonymous types that only become
//! nameable once an alias arrives for them.

use vstd::prelude::*;

use crate::assoc::{
    assoc_map, lemma_assoc_contains, lemma_assoc_get, lemma_assoc_push, lemma_assoc_remove,
    lemma_assoc_update, unique_keys,
};
use crate::names::{is_prefix_of, str_starts_with};
use crate::strset::{
    distinct_strs, is_lex_min, lemma_distinct_remove_to_set, lemma_lex_min_unique, lex_min_of,
    min_index, removed_all, push_unique, str_set,
};

verus! {

/// A foreign-side name candidate. `aliased` records that the identifier came
/// from a typedef rather than the type's own tag name, so the "struct "/"union "
/// prefix must not be applied to it.
#[derive(Debug, Clone, PartialEq, Eq)]
pub struct CName {
    /// The identifier used to address a type.
    pub identifier: String,
    /// Whether `identifier` is an alias rather than the declared tag name.
    pub aliased: bool,
}

/// The mathematical value of a `CName`.
#[verifier::ext_equal]
pub ghost struct CNameView {
    pub identifier: Seq<char>,
    pub aliased: bool,
}

impl View for CName {
    type V = CNameView;

    open spec fn view(&self) -> CNameView {
        CNameView { identifier: self.identifier@, aliased: self.aliased }
    }
}

/// The kind of a discovered composite type; it decides the prefix used when
/// the canonical foreign name is synthesized from a bare tag name.
#[derive(Debug, Clone, Copy, PartialEq, Eq, Structural)]
pub enum CompositeKind {
    Struct,
    Union,
}

/// The naming prefix of a composite kind, with its trailing space.
pub open spec fn kind_prefix(kind: CompositeKind) -> Seq<char> {
    match kind {
        CompositeKind::Struct => "struct "@,
        CompositeKind::Union => "union "@,
    }
}

/// The canonical foreign form of a name candidate: tag names receive the
/// kind's prefix unless they already start with it; aliased names never do.
pub open spec fn canonical_of(c: CNameView, kind: CompositeKind) -> Seq<char> {
    if c.aliased || is_prefix_of(kind_prefix(kind), c.identifier) {
        c.identifier
    } else {
        kind_prefix(kind) + c.identifier
    }
}

/// One resolved (or still provisional) type record.
#[derive(Debug, Clone, PartialEq, Eq)]
pub struct NameMapping {
    /// The kind of composite type (struct or union).
    pub kind: CompositeKind,
    /// The name of the imported foreign type; absent while the type is
    /// anonymous and no alias has been attached yet.
    pub c_name: Option<CName>,
    /// The host-side identifier chosen for the type; always known.
    pub rust_name: String,
    /// The known aliases of the type, free of duplicates.
    pub aliases: Vec<String>,
}

/// The mathematical value of a `NameMapping`; the aliases are read as a set.
#[verifier::ext_equal]
pub ghost struct NameMappingView {
    pub kind: CompositeKind,
    pub c_name: Option<CNameView>,
    pub rust_name: Seq<char>,
    pub aliases: Set<Seq<char>>,
}

impl View for NameMapping {
    type V = NameMappingView;

    open spec fn view(&self) -> NameMappingView {
        NameMappingView {
            kind: self.kind,
            c_name: match self.c_name {
                Option::None => Option::None,
                Option::Some(c) => Option::Some(c@),
            },
            rust_name: self.rust_name@,
            aliases: str_set(self.aliases.deep_view()),
        }
    }
}

impl NameMapping {
    /// The alias vector holds no duplicates.
    pub open spec fn wf(&self) -> bool {
        distinct_strs(self.aliases.deep_view())
    }

    /// The canonical foreign name for a candidate: the tag-prefixed form
    /// ("struct X"/"union X") unless the candidate is aliased or already
    /// carries the prefix; `None` for an anonymous type.
    pub fn validated_original_name(c_name: Option<&CName>, kind: CompositeKind) -> (r: Option<
        String,
    >)
        ensures
            c_name is None ==> r is None,
            c_name matches Some(c) ==> r matches Some(s) && s@ == canonical_of(c@, kind),
    {
        match c_name {
            Option::None => Option::None,
            Option::Some(c) => {
                let prefix: &str = match kind {
                    CompositeKind::Struct => "struct ",
                    CompositeKind::Union => "union ",
                };
                if c.aliased || str_starts_with(c.identifier.as_str(), prefix) {
                    Option::Some(c.identifier.clone())
                } else {
                    let mut out = prefix.to_owned();
                    out.append(c.identifier.as_str());
                    Option::Some(out)
                }
            },
        }
    }
}

/// The abstract state of the registry: the resolved table and the orphan
/// aliases whose target has not been discovered yet.
#[verifier::ext_equal]
pub ghost struct RegistryView {
    pub types: Map<usize, NameMappingView>,
    pub orphans: Map<usize, Set<Seq<char>>>,
}

/// The name resolution performed when a composite type is discovered, given
/// its original name (if any) and the orphan aliases waiting for it: a named
/// type keeps its tag name and sheds the matching canonical alias; an
/// anonymous type takes the least waiting alias, if there is one.
pub open spec fn composite_resolution(
    original: Option<Seq<char>>,
    kind: CompositeKind,
    cands: Set<Seq<char>>,
) -> (Option<CNameView>, Set<Seq<char>>) {
    match original {
        Option::Some(n) => {
            let c = CNameView { identifier: n, aliased: false };
            (Option::Some(c), cands.remove(canonical_of(c, kind)))
        },
        Option::None => {
            if exists|x: Seq<char>| cands.contains(x) {
                let m = lex_min_of(cands);
                (Option::Some(CNameView { identifier: m, aliased: true }), cands.remove(m))
            } else {
                (Option::None, cands)
            }
        },
    }
}

/// The registry state after a composite-found event.
pub open spec fn composite_step(
    v: RegistryView,
    id: usize,
    kind: CompositeKind,
    original: Option<Seq<char>>,
    host: Seq<char>,
) -> RegistryView {
    let cands = if v.orphans.contains_key(id) {
        v.orphans[id]
    } else {
        Set::empty()
    };
    let r = composite_resolution(original, kind, cands);
    RegistryView {
        types: v.types.insert(
            id,
            NameMappingView { kind, c_name: r.0, rust_name: host, aliases: r.1 },
        ),
        orphans: v.orphans.remove(id),
    }
}

/// The registry state after an alias-found event.
pub open spec fn alias_step(v: RegistryView, alias: Seq<char>, target: usize) -> RegistryView {
    if v.types.contains_key(target) {
        let m = v.types[target];
        let m2 = if m.c_name is None {
            NameMappingView {
                kind: m.kind,
                c_name: Option::Some(CNameView { identifier: alias, aliased: true }),
                rust_name: m.rust_name,
                aliases: m.aliases,
            }
        } else {
            NameMappingView {
                kind: m.kind,
                c_name: m.c_name,
                rust_name: m.rust_name,
                aliases: m.aliases.insert(alias),
            }
        };
        RegistryView { types: v.types.insert(target, m2), orphans: v.orphans }
    } else {
        let prev = if v.orphans.contains_key(target) {
            v.orphans[target]
        } else {
            Set::empty()
        };
        RegistryView { types: v.types, orphans: v.orphans.insert(target, prev.insert(alias)) }
    }
}

/// The view of an `Option<&str>` event payload.
pub open spec fn opt_str_view(o: Option<&str>) -> Option<Seq<char>> {
    match o {
        Option::None => Option::None,
        Option::Some(s) => Option::Some(s@),
    }
}

/// The total number of orphan alias strings recorded in the given entries.
pub open spec fn orphan_total(s: Seq<(usize, Set<Seq<char>>)>) -> nat
    decreases s.len(),
{
    if s.len() == 0 {
        0
    } else {
        orphan_total(s.drop_last()) + s.last().1.len()
    }
}

/// `n`, capped at the largest `usize` value.
pub open spec fn capped(n: nat) -> nat {
    if n <= usize::MAX as nat {
        n
    } else {
        usize::MAX as nat
    }
}

/// The discovery registry. Events arrive one at a time, in either relative
/// order; both orders of an alias and its owning composite converge to the
/// same abstract state whenever a single candidate name is involved.
#[derive(Debug, Clone, PartialEq, Eq)]
pub struct NameMappings {
    types: Vec<(usize, NameMapping)>,
    aliases: Vec<(usize, Vec<String>)>,
}

impl NameMappings {
    /// The resolved table, in discovery order.
    pub closed spec fn type_entries(&self) -> Seq<(usize, NameMappingView)> {
        Seq::new(self.types@.len(), |i: int| (self.types@[i].0, self.types@[i].1@))
    }

    /// The orphan-alias table, in first-arrival order.
    pub closed spec fn orphan_entries(&self) -> Seq<(usize, Set<Seq<char>>)> {
        Seq::new(
            self.aliases@.len(),
            |i: int| (self.aliases@[i].0, str_set(self.aliases@[i].1.deep_view())),
        )
    }

    /// Both tables hold one entry per id, and every alias vector is free of
    /// duplicates.
    pub closed spec fn wf(&self) -> bool {
        &&& unique_keys(self.type_entries())
        &&& unique_keys(self.orphan_entries())
        &&& forall|i: int| 0 <= i < self.types@.len() ==> (#[trigger] self.types@[i]).1.wf()
        &&& forall|i: int|
            0 <= i < self.aliases@.len() ==> distinct_strs(
                (#[trigger] self.aliases@[i]).1.deep_view(),
            )
    }
}

impl View for NameMappings {
    type V = RegistryView;

    open spec fn view(&self) -> RegistryView {
        RegistryView {
            types: assoc_map(self.type_entries()),
            orphans: assoc_map(self.orphan_entries()),
        }
    }
}

impl Default for NameMappings {
    /// An empty registry.
    fn default() -> (r: Self)
        ensures
            r.wf(),
            r@.types == Map::<usize, NameMappingView>::empty(),
            r@.orphans == Map::<usize, Set<Seq<char>>>::empty(),
    {
        let r = NameMappings { types: Vec::new(), aliases: Vec::new() };
        proof {
            assert(r.type_entries() =~= Seq::empty());
            assert(r.orphan_entries() =~= Seq::empty());
        }
        r
    }
}

impl NameMappings {
    /// The index of `id` in the resolved table, if present.
    fn find_type_index(&self, id: usize) -> (r: Option<usize>)
        ensures
            r matches Some(i) ==> i < self.type_entries().len() && self.type_entries()[i as int].0
                == id,
            r is None ==> forall|i: int|
                0 <= i < self.type_entries().len() ==> (#[trigger] self.type_entries()[i]).0 != id,
    {
        let mut i: usize = 0;
        while i < self.types.len()
            invariant
                i <= self.types.len(),
                forall|j: int| 0 <= j < i ==> (#[trigger] self.type_entries()[j]).0 != id,
            decreases self.types.len() - i,
        {
            if self.types[i].0 == id {
                assert(self.type_entries()[i as int].0 == id);
                return Option::Some(i);
            }
            assert(self.type_entries()[i as int].0 != id);
            i = i + 1;
        }
        Option::None
    }

    /// The index of `id` in the orphan table, if present.
    fn find_orphan_index(&self, id: usize) -> (r: Option<usize>)
        ensures
            r matches Some(i) ==> i < self.orphan_entries().len()
                && self.orphan_entries()[i as int].0 == id,
            r is None ==> forall|i: int|
                0 <= i < self.orphan_entries().len() ==> (#[trigger] self.orphan_entries()[i]).0
                    != id,
    {
        let mut i: usize = 0;
        while i < self.aliases.len()
            invariant
                i <= self.aliases.len(),
                forall|j: int| 0 <= j < i ==> (#[trigger] self.orphan_entries()[j]).0 != id,
            decreases self.aliases.len() - i,
        {
            if self.aliases[i].0 == id {
                assert(self.orphan_entries()[i as int].0 == id);
                return Option::Some(i);
            }
            assert(self.orphan_entries()[i as int].0 != id);
            i = i + 1;
        }
        Option::None
    }

    /// The mapping recorded for `id`, if any.
    pub fn get(&self, id: usize) -> (r: Option<&NameMapping>)
        requires
            self.wf(),
        ensures
            r matches Some(m) ==> self@.types.contains_key(id) && m@ == self@.types[id],
            r is None ==> !self@.types.contains_key(id),
    {
        match self.find_type_index(id) {
            Option::Some(i) => {
                proof {
                    lemma_assoc_get(self.type_entries(), i as int);
                }
                Option::Some(&self.types[i].1)
            },
            Option::None => {
                proof {
                    lemma_assoc_contains(self.type_entries(), id);
                }
                Option::None
            },
        }
    }

    /// How many mappings the registry holds.
    pub fn types_len(&self) -> (r: usize)
        ensures
            r == self.type_entries().len(),
    {
        self.types.len()
    }

    /// The mapping at position `i` of the discovery order.
    pub(crate) fn type_at(&self, i: usize) -> (r: &NameMapping)
        requires
            self.wf(),
            i < self.type_entries().len(),
        ensures
            r@ == self.type_entries()[i as int].1,
            r.wf(),
    {
        &self.types[i].1
    }

    /// Records a discovered composite type. Any orphan aliases waiting under
    /// `id` become its candidate alias set; a named type sheds the candidate
    /// equal to its canonical foreign name, while an anonymous type adopts the
    /// lexicographically least candidate, if one exists. Returns the mapping
    /// displaced by a duplicate discovery of the same id, for diagnostics.
    pub fn new_composite_found(
        &mut self,
        id: usize,
        kind: CompositeKind,
        original_name: Option<&str>,
        final_ident: &str,
    ) -> (prev: Option<NameMapping>)
        requires
            old(self).wf(),
        ensures
            final(self).wf(),
            final(self)@ == composite_step(
                old(self)@,
                id,
                kind,
                opt_str_view(original_name),
                final_ident@,
            ),
            prev is Some <==> old(self)@.types.contains_key(id),
            prev matches Some(p) ==> p@ == old(self)@.types[id],
    {
        let ghost pre = *self;
        let ghost cands0 = if pre@.orphans.contains_key(id) {
            pre@.orphans[id]
        } else {
            Set::<Seq<char>>::empty()
        };

        // Pop the orphan aliases recorded under this id.
        let mut cands: Vec<String>;
        match self.find_orphan_index(id) {
            Option::Some(i) => {
                proof {
                    lemma_assoc_get(pre.orphan_entries(), i as int);
                    lemma_assoc_remove(pre.orphan_entries(), i as int);
                }
                let pair = self.aliases.remove(i);
                cands = pair.1;
                proof {
                    assert(self.orphan_entries() =~= pre.orphan_entries().remove(i as int));
                    assert(str_set(cands.deep_view()) == cands0);
                    assert(distinct_strs(cands.deep_view()));
                }
            },
            Option::None => {
                cands = Vec::new();
                proof {
                    lemma_assoc_contains(pre.orphan_entries(), id);
                    assert(!pre@.orphans.contains_key(id));
                    assert(assoc_map(self.orphan_entries()) =~= pre@.orphans.remove(id));
                    assert(cands.deep_view() =~= Seq::<Seq<char>>::empty());
                    assert(str_set(cands.deep_view()) =~= Set::<Seq<char>>::empty());
                }
            },
        }
        proof {
            assert(assoc_map(self.orphan_entries()) =~= pre@.orphans.remove(id));
            assert(unique_keys(self.orphan_entries()));
            assert(forall|i: int|
                0 <= i < self.aliases@.len() ==> distinct_strs(
                    (#[trigger] self.aliases@[i]).1.deep_view(),
                ));
        }

        // Resolve the name candidate.
        let ghost resolution = composite_resolution(opt_str_view(original_name), kind, cands0);
        let c_name: Option<CName>;
        match original_name {
            Option::Some(n) => {
                let cn = CName { identifier: n.to_owned(), aliased: false };
                let canon = NameMapping::validated_original_name(Option::Some(&cn), kind).unwrap();
                cands = removed_all(&cands, canon.as_str());
                c_name = Option::Some(cn);
                proof {
                    assert(str_set(cands.deep_view()) =~= resolution.1);
                }
            },
            Option::None => {
                if cands.len() > 0 {
                    let mi = min_index(&cands);
                    let ghost dv = cands.deep_view();
                    let chosen = cands.remove(mi);
                    proof {
                        assert(dv[mi as int] == chosen@);
                        assert(is_lex_min(cands0, chosen@));
                        assert(is_lex_min(cands0, lex_min_of(cands0)));
                        lemma_lex_min_unique(cands0, chosen@, lex_min_of(cands0));
                        lemma_distinct_remove_to_set(dv, mi as int);
                        assert(cands.deep_view() =~= dv.remove(mi as int));
                        assert(str_set(cands.deep_view()) =~= resolution.1);
                    }
                    c_name = Option::Some(CName { identifier: chosen, aliased: true });
                } else {
                    proof {
                        assert(cands.deep_view().len() == 0);
                        assert forall|x: Seq<char>| !(#[trigger] cands0.contains(x)) by {
                            if cands0.contains(x) {
                                let j = choose|j: int|
                                    0 <= j < cands.deep_view().len() && cands.deep_view()[j] == x;
                            }
                        }
                        assert(str_set(cands.deep_view()) =~= resolution.1);
                    }
                    c_name = Option::None;
                }
            },
        }

        let mapping = NameMapping { kind, c_name, rust_name: final_ident.to_owned(), aliases: cands };
        proof {
            assert(mapping@ =~~= NameMappingView {
                kind,
                c_name: resolution.0,
                rust_name: final_ident@,
                aliases: resolution.1,
            });
        }

        // Insert, displacing a previous entry with the same id.
        let prev: Option<NameMapping>;
        let ghost mid_entries = self.type_entries();
        match self.find_type_index(id) {
            Option::Some(i) => {
                proof {
                    lemma_assoc_get(pre.type_entries(), i as int);
                    lemma_assoc_update(pre.type_entries(), i as int, mapping@);
                }
                let old_pair = self.types.remove(i);
                self.types.insert(i, (id, mapping));
                prev = Option::Some(old_pair.1);
                proof {
                    assert(self.type_entries() =~= pre.type_entries().update(
                        i as int,
                        (id, mapping@),
                    ));
                    lemma_assoc_contains(pre.type_entries(), id);
                }
            },
            Option::None => {
                proof {
                    lemma_assoc_push(pre.type_entries(), id, mapping@);
                    lemma_assoc_contains(pre.type_entries(), id);
                }
                self.types.push((id, mapping));
                prev = Option::None;
                proof {
                    assert(self.type_entries() =~= pre.type_entries().push((id, mapping@)));
                }
            },
        }
        proof {
            assert(self@ =~~= composite_step(
                pre@,
                id,
                kind,
                opt_str_view(original_name),
                final_ident@,
            ));
        }
        prev
    }

    /// Records a discovered alias. If the target is known and still anonymous,
    /// the alias becomes its name; if the target is known and named, the alias
    /// joins its alias set; otherwise the alias waits in the orphan table.
    pub fn new_alias_found(&mut self, _id: usize, alias_name: &str, target_id: usize)
        requires
            old(self).wf(),
        ensures
            final(self).wf(),
            final(self)@ == alias_step(old(self)@, alias_name@, target_id),
    {
        let ghost pre = *self;
        match self.find_type_index(target_id) {
            Option::Some(i) => {
                proof {
                    lemma_assoc_get(pre.type_entries(), i as int);
                }
                let pair = self.types.remove(i);
                let mut mapping = pair.1;
                if mapping.c_name.is_none() {
                    mapping.c_name = Option::Some(
                        CName { identifier: alias_name.to_owned(), aliased: true },
                    );
                } else {
                    push_unique(&mut mapping.aliases, alias_name.to_owned());
                }
                self.types.insert(i, (target_id, mapping));
                proof {
                    lemma_assoc_update(pre.type_entries(), i as int, mapping@);
                    assert(self.type_entries() =~= pre.type_entries().update(
                        i as int,
                        (target_id, mapping@),
                    ));
                    assert(self.orphan_entries() =~= pre.orphan_entries());
                    assert(self@ =~~= alias_step(pre@, alias_name@, target_id));
                }
            },
            Option::None => {
                proof {
                    lemma_assoc_contains(pre.type_entries(), target_id);
                }
                match self.find_orphan_index(target_id) {
                    Option::Some(j) => {
                        proof {
                            lemma_assoc_get(pre.orphan_entries(), j as int);
                        }
                        let mut pair = self.aliases.remove(j);
                        push_unique(&mut pair.1, alias_name.to_owned());
                        let ghost newset = str_set(pair.1.deep_view());
                        self.aliases.insert(j, pair);
                        proof {
                            lemma_assoc_update(pre.orphan_entries(), j as int, newset);
                            assert(self.orphan_entries() =~= pre.orphan_entries().update(
                                j as int,
                                (target_id, newset),
                            ));
                            assert(self.type_entries() =~= pre.type_entries());
                            assert(self@ =~~= alias_step(pre@, alias_name@, target_id));
                        }
                    },
                    Option::None => {
                        proof {
                            lemma_assoc_contains(pre.orphan_entries(), target_id);
                        }
                        let mut v: Vec<String> = Vec::new();
                        v.push(alias_name.to_owned());
                        let ghost vset = str_set(v.deep_view());
                        self.aliases.push((target_id, v));
                        proof {
                            assert(vset =~= Set::<Seq<char>>::empty().insert(alias_name@)) by {
                                assert(v.deep_view().len() == 1);
                                assert(v.deep_view()[0] == alias_name@);
                            }
                            lemma_assoc_push(pre.orphan_entries(), target_id, vset);
                            assert(self.orphan_entries() =~= pre.orphan_entries().push(
                                (target_id, vset),
                            ));
                            assert(self.type_entries() =~= pre.type_entries());
                            assert(self@ =~~= alias_step(pre@, alias_name@, target_id));
                        }
                    },
                }
            },
        }
    }

    /// Drains the orphan-alias table and returns how many alias strings were
    /// discarded, capped at `usize::MAX`. A non-zero count is the diagnostic
    /// signal that some aliases never matched a discovered type.
    pub fn forget_unused_aliases(&mut self) -> (count: usize)
        requires
            old(self).wf(),
        ensures
            final(self).wf(),
            final(self)@.types == old(self)@.types,
            final(self)@.orphans == Map::<usize, Set<Seq<char>>>::empty(),
            count as nat == capped(orphan_total(old(self).orphan_entries())),
    {
        let ghost pre = *self;
        let mut total: usize = 0;
        let mut i: usize = 0;
        while i < self.aliases.len()
            invariant
                *self == pre,
                pre.wf(),
                i <= self.aliases.len(),
                total as nat == capped(orphan_total(pre.orphan_entries().take(i as int))),
            decreases self.aliases.len() - i,
        {
            proof {
                let taken = pre.orphan_entries().take(i + 1);
                assert(taken.drop_last() =~= pre.orphan_entries().take(i as int));
                assert(taken.last() == pre.orphan_entries()[i as int]);
                self.aliases@[i as int].1.deep_view().unique_seq_to_set();
            }
            total = total.saturating_add(self.aliases[i].1.len());
            i = i + 1;
        }
        proof {
            assert(pre.orphan_entries().take(pre.orphan_entries().len() as int)
                =~= pre.orphan_entries());
        }
        self.aliases = Vec::new();
        proof {
            assert(self.orphan_entries() =~= Seq::empty());
            assert(self.type_entries() =~= pre.type_entries());
        }
        total
    }
}

} // verus!
