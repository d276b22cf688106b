//! Short ids for database names, kept by an interner of the `string_interner` crate.

use vstd::prelude::*;

verus! {

/// An interner of the `string_interner` crate, with its default backend, symbols and hasher.
#[verifier::external_body]
pub struct Interner {
    inner: string_interner::StringInterner,
}

/// The names that an interner holds, in the order in which they came; a name's id is its
/// place in this sequence.
pub uninterp spec fn interned(names: Interner) -> Seq<Seq<char>>;

/// The most names that an interner takes: ids are 32 bits wide, and one value is kept free.
pub const MAX_NAMES: usize = 0xFFFF_FFFF;

/// `StringInterner::new`: an interner without names.
#[verifier::external_body]
pub(crate) fn interner_new() -> (r: Interner)
    ensures
        interned(r) == Seq::<Seq<char>>::empty(),
{
    Interner { inner: string_interner::StringInterner::new() }
}

/// `StringInterner::len`: the number of names held.
#[verifier::external_body]
pub(crate) fn interner_len(names: &Interner) -> (r: usize)
    ensures
        r == interned(*names).len(),
{
    names.inner.len()
}

/// `StringInterner::get`: the id of `name`, if the interner holds it.
#[verifier::external_body]
pub(crate) fn interner_get(names: &Interner, name: &str) -> (r: Option<
    usize,
>)
    ensures
        match r {
            Some(id) => 0 <= id < interned(*names).len() && interned(*names)[id as int] == name@,
            None => !interned(*names).contains(name@),
        },
{
    names.inner.get(name).map(|s| string_interner::Symbol::to_usize(s))
}

/// `StringInterner::get_or_intern`: the id of `name`, which is added behind the names held
/// if it is new. The call panics once the ids are used up, so the caller leaves room.
#[verifier::external_body]
pub(crate) fn interner_get_or_intern(
    names: &mut Interner,
    name: &str,
) -> (r: usize)
    requires
        interned(*old(names)).len() < MAX_NAMES,
    ensures
        interned(*old(names)).no_duplicates() ==> interned(*final(names)).no_duplicates(),
        interned(*old(names)).contains(name@) ==> interned(*final(names)) == interned(
            *old(names),
        ),
        !interned(*old(names)).contains(name@) ==> interned(*final(names)) == interned(
            *old(names),
        ).push(name@),
        0 <= r < interned(*final(names)).len(),
        interned(*final(names))[r as int] == name@,
{
    string_interner::Symbol::to_usize(names.inner.get_or_intern(name))
}

/// `StringInterner::resolve`: the name with the id `id`, if there is one. Ids are 32 bits
/// wide, so the caller asks for no other.
#[verifier::external_body]
pub(crate) fn interner_resolve(names: &Interner, id: usize) -> (r: Option<String>)
    requires
        id < MAX_NAMES,
    ensures
        match r {
            Some(name) => id < interned(*names).len() && name@ == interned(*names)[id as int],
            None => id >= interned(*names).len(),
        },
{
    let symbol: string_interner::DefaultSymbol = string_interner::Symbol::try_from_usize(id)?;
    names.inner.resolve(symbol).map(|s| s.to_string())
}

/// The place of `name` among `names`, if it is one of them.
pub open spec fn id_of(names: Seq<Seq<char>>, name: Seq<char>) -> Option<int> {
    if names.contains(name) {
        Some(names.index_of(name))
    } else {
        None
    }
}

/// Among names without repetition, a name's place is the one place where it stands.
pub proof fn lemma_id_of(names: Seq<Seq<char>>, k: int)
    requires
        names.no_duplicates(),
        0 <= k < names.len(),
    ensures
        id_of(names, names[k]) == Some(k),
{
    assert(names.contains(names[k]));
    let i = names.index_of(names[k]);
    assert(names[i] == names[k]);
}

/// Adding a name leaves every other name at its place.
pub proof fn lemma_id_of_push(names: Seq<Seq<char>>, name: Seq<char>, other: Seq<char>)
    requires
        names.no_duplicates(),
        !names.contains(name),
        other != name,
    ensures
        id_of(names.push(name), other) == id_of(names, other),
        id_of(names.push(name), name) == Some(names.len() as int),
        names.push(name).no_duplicates(),
{
    let grown = names.push(name);
    assert(grown.no_duplicates()) by {
        assert forall|i: int, j: int| 0 <= i < grown.len() && 0 <= j < grown.len() && i
            != j implies grown[i] != grown[j] by {
            if i < names.len() {
                assert(names.contains(names[i]));
            }
            if j < names.len() {
                assert(names.contains(names[j]));
            }
        }
    }
    assert(grown[names.len() as int] == name);
    lemma_id_of(grown, names.len() as int);
    if names.contains(other) {
        let k = names.index_of(other);
        assert(grown[k] == other);
        lemma_id_of(grown, k);
    } else {
        if grown.contains(other) {
            let k = choose|k: int| 0 <= k < grown.len() && grown[k] == other;
            assert(names[k] == other);
            assert(names.contains(other));
        }
    }
}

} // verus!
