//! The guarantees the registry and the exporter give across events: both
//! arrival orders of an alias and its composite converge, the canonical tag
//! name is shed from the alias set, and unresolvable mappings leave the
//! rendered table unchanged apart from the diagnostic count.
//!
//! Every permutation of an event sequence is a chain of adjacent swaps, so the
//! commutation lemmas below give order independence of the final state for any
//! event set within their preconditions. Those preconditions are necessary:
//! with several aliases for one anonymous type, or an alias equal to a named
//! type's canonical name, the registry's resolution genuinely depends on the
//! arrival order.

use vstd::prelude::*;

use crate::codegen::{line_text, table_text, unresolvable, unresolved_total};
use crate::import::{
    alias_step, canonical_of, composite_step, CNameView, CompositeKind, NameMappingView,
    RegistryView,
};
use crate::strset::{is_lex_min, lemma_lex_min_unique, lex_min_of};

verus! {

/// A composite-found event never leaves its own canonical foreign name in the
/// alias set of the mapping it records: an alias equal to the tag-prefixed
/// name, seen before the type, is shed as redundant.
pub proof fn lemma_canonical_alias_shed(
    v: RegistryView,
    id: usize,
    kind: CompositeKind,
    original: Seq<char>,
    host: Seq<char>,
)
    ensures
        ({
            let after = composite_step(v, id, kind, Option::Some(original), host);
            let canonical = canonical_of(CNameView { identifier: original, aliased: false }, kind);
            after.types.contains_key(id) && !after.types[id].aliases.contains(canonical)
        }),
{
}

/// An anonymous composite-found event with no waiting alias, followed by an
/// alias-found event targeting it, resolves the type to that alias, marked
/// aliased, with an empty alias set.
pub proof fn lemma_anonymous_resolution(
    v: RegistryView,
    id: usize,
    kind: CompositeKind,
    host: Seq<char>,
    alias: Seq<char>,
)
    requires
        !v.orphans.contains_key(id),
    ensures
        ({
            let after = alias_step(composite_step(v, id, kind, Option::None, host), alias, id);
            after.types.contains_key(id) && after.types[id] =~~= NameMappingView {
                kind,
                c_name: Option::Some(CNameView { identifier: alias, aliased: true }),
                rust_name: host,
                aliases: Set::empty(),
            }
        }),
{
    let s1 = composite_step(v, id, kind, Option::None, host);
    assert forall|x: Seq<char>| !(#[trigger] Set::<Seq<char>>::empty().contains(x)) by {}
    assert(s1.types[id].c_name is None);
}

/// An alias-found event for an id with no mapping and no waiting aliases,
/// followed by an anonymous composite-found event for that id, ends in the
/// same state as the two events in the reverse order.
pub proof fn lemma_alias_before_type(
    v: RegistryView,
    id: usize,
    kind: CompositeKind,
    host: Seq<char>,
    alias: Seq<char>,
)
    requires
        !v.types.contains_key(id),
        !v.orphans.contains_key(id),
    ensures
        composite_step(alias_step(v, alias, id), id, kind, Option::None, host) =~~= alias_step(
            composite_step(v, id, kind, Option::None, host),
            alias,
            id,
        ),
{
    let singleton = Set::<Seq<char>>::empty().insert(alias);
    let s1 = alias_step(v, alias, id);
    assert(s1.orphans[id] =~= singleton);
    assert(is_lex_min(singleton, alias));
    assert(is_lex_min(singleton, lex_min_of(singleton)));
    lemma_lex_min_unique(singleton, alias, lex_min_of(singleton));
    let after_a = composite_step(s1, id, kind, Option::None, host);
    assert(after_a.types[id].aliases =~= Set::empty());
    assert(after_a.orphans =~= v.orphans);

    let s2 = composite_step(v, id, kind, Option::None, host);
    assert forall|x: Seq<char>| !(#[trigger] Set::<Seq<char>>::empty().contains(x)) by {}
    assert(s2.types[id].c_name is None);
    assert(s2.orphans =~= v.orphans);
    let after_b = alias_step(s2, alias, id);
    assert(after_a.types =~~= after_b.types);
    assert(after_a.orphans =~~= after_b.orphans);
}

/// For a named type, an alias-found event and the composite-found event
/// commute, provided the alias is not the type's canonical foreign name (a
/// canonical alias is shed only when it precedes the type).
pub proof fn lemma_alias_and_named_type_commute(
    v: RegistryView,
    id: usize,
    kind: CompositeKind,
    original: Seq<char>,
    host: Seq<char>,
    alias: Seq<char>,
)
    requires
        !v.types.contains_key(id),
        alias != canonical_of(CNameView { identifier: original, aliased: false }, kind),
    ensures
        composite_step(alias_step(v, alias, id), id, kind, Option::Some(original), host)
            =~~= alias_step(
            composite_step(v, id, kind, Option::Some(original), host),
            alias,
            id,
        ),
{
    let canonical = canonical_of(CNameView { identifier: original, aliased: false }, kind);
    let cands = if v.orphans.contains_key(id) {
        v.orphans[id]
    } else {
        Set::<Seq<char>>::empty()
    };
    let s1 = alias_step(v, alias, id);
    assert(s1.orphans[id] =~= cands.insert(alias));
    let after_a = composite_step(s1, id, kind, Option::Some(original), host);
    let s2 = composite_step(v, id, kind, Option::Some(original), host);
    let after_b = alias_step(s2, alias, id);
    assert(cands.insert(alias).remove(canonical) =~= cands.remove(canonical).insert(alias));
    assert(after_a.types =~~= after_b.types);
    assert(after_a.orphans =~~= after_b.orphans);
}

/// Two alias-found events commute whenever they target different ids, carry
/// the same alias, or target a mapping that is already named (for an
/// anonymous mapping, the first alias to arrive becomes its name).
pub proof fn lemma_alias_alias_commute(
    v: RegistryView,
    a1: Seq<char>,
    t1: usize,
    a2: Seq<char>,
    t2: usize,
)
    requires
        t1 != t2 || a1 == a2 || !v.types.contains_key(t1) || v.types[t1].c_name is Some,
    ensures
        alias_step(alias_step(v, a1, t1), a2, t2) =~~= alias_step(alias_step(v, a2, t2), a1, t1),
{
    let ab = alias_step(alias_step(v, a1, t1), a2, t2);
    let ba = alias_step(alias_step(v, a2, t2), a1, t1);
    if t1 == t2 {
        if v.types.contains_key(t1) {
            assert(ab.types =~~= ba.types);
            assert(ab.orphans =~~= ba.orphans);
        } else {
            assert(ab.orphans[t1] =~= ba.orphans[t1]);
            assert(ab.types =~~= ba.types);
            assert(ab.orphans =~~= ba.orphans);
        }
    } else {
        assert(ab.types =~~= ba.types);
        assert(ab.orphans =~~= ba.orphans);
    }
}

/// Two composite-found events for different ids commute.
pub proof fn lemma_composite_composite_commute(
    v: RegistryView,
    id1: usize,
    kind1: CompositeKind,
    original1: Option<Seq<char>>,
    host1: Seq<char>,
    id2: usize,
    kind2: CompositeKind,
    original2: Option<Seq<char>>,
    host2: Seq<char>,
)
    requires
        id1 != id2,
    ensures
        composite_step(composite_step(v, id1, kind1, original1, host1), id2, kind2, original2, host2)
            =~~= composite_step(
            composite_step(v, id2, kind2, original2, host2),
            id1,
            kind1,
            original1,
            host1,
        ),
{
    let ab = composite_step(
        composite_step(v, id1, kind1, original1, host1),
        id2,
        kind2,
        original2,
        host2,
    );
    let ba = composite_step(
        composite_step(v, id2, kind2, original2, host2),
        id1,
        kind1,
        original1,
        host1,
    );
    assert(ab.types =~~= ba.types);
    assert(ab.orphans =~~= ba.orphans);
}

/// A composite-found event and an alias-found event for different ids commute.
pub proof fn lemma_alias_other_composite_commute(
    v: RegistryView,
    id: usize,
    kind: CompositeKind,
    original: Option<Seq<char>>,
    host: Seq<char>,
    alias: Seq<char>,
    target: usize,
)
    requires
        id != target,
    ensures
        composite_step(alias_step(v, alias, target), id, kind, original, host) =~~= alias_step(
            composite_step(v, id, kind, original, host),
            alias,
            target,
        ),
{
    let ab = composite_step(alias_step(v, alias, target), id, kind, original, host);
    let ba = alias_step(composite_step(v, id, kind, original, host), alias, target);
    assert(ab.types =~~= ba.types);
    assert(ab.orphans =~~= ba.orphans);
}

/// An unresolvable mapping is absent from the rendered table: the text equals
/// the text without that entry, and the entry accounts for exactly one
/// increment of the diagnostic count.
pub proof fn lemma_unresolvable_skipped(
    entries: Seq<(usize, NameMappingView)>,
    force_aliases_use: bool,
    i: int,
)
    requires
        0 <= i < entries.len(),
        unresolvable(entries[i].1),
    ensures
        table_text(entries, force_aliases_use) == table_text(entries.remove(i), force_aliases_use),
        unresolved_total(entries) == unresolved_total(entries.remove(i)) + 1,
    decreases entries.len(),
{
    if i == entries.len() - 1 {
        assert(entries.remove(i) =~= entries.drop_last());
        assert(line_text(entries.last().1, force_aliases_use) =~= Seq::<char>::empty());
        assert(table_text(entries, force_aliases_use) =~= table_text(
            entries.drop_last(),
            force_aliases_use,
        ));
    } else {
        let butlast = entries.drop_last();
        assert(butlast[i] == entries[i]);
        lemma_unresolvable_skipped(butlast, force_aliases_use, i);
        assert(entries.remove(i).drop_last() =~= butlast.remove(i));
        assert(entries.remove(i).last() == entries.last());
    }
}

} // verus!
