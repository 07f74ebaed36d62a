//! Association lists over character sequences: the shared specification of
//! the key-value stores (macros, abbreviations, environment variables).
//! Earlier entries shadow later ones; binding replaces the first entry with
//! the key or appends a new one, unbinding removes every entry with the key.

use vstd::prelude::*;

verus! {

/// The value bound to `k`: the first entry with that key, if any.
pub open spec fn spec_lookup(entries: Seq<(Seq<char>, Seq<char>)>, k: Seq<char>) -> Option<
    Seq<char>,
>
    decreases entries.len(),
{
    if entries.len() == 0 {
        None
    } else if entries[0].0 == k {
        Some(entries[0].1)
    } else {
        spec_lookup(entries.drop_first(), k)
    }
}

/// The entries after binding `k` to `v`: the first entry with key `k` is
/// replaced in place, or a new entry is appended.
pub open spec fn spec_bind(
    entries: Seq<(Seq<char>, Seq<char>)>,
    k: Seq<char>,
    v: Seq<char>,
) -> Seq<(Seq<char>, Seq<char>)>
    decreases entries.len(),
{
    if entries.len() == 0 {
        seq![(k, v)]
    } else if entries[0].0 == k {
        seq![(k, v)] + entries.drop_first()
    } else {
        seq![entries[0]] + spec_bind(entries.drop_first(), k, v)
    }
}

/// The entries with every binding of `k` removed.
pub open spec fn spec_unbind(entries: Seq<(Seq<char>, Seq<char>)>, k: Seq<char>) -> Seq<
    (Seq<char>, Seq<char>),
> {
    entries.filter(|e: (Seq<char>, Seq<char>)| e.0 != k)
}

/// When the first entry with key `k` stands at index `i`, binding replaces
/// exactly that entry.
pub proof fn lemma_bind_at(entries: Seq<(Seq<char>, Seq<char>)>, k: Seq<char>, v: Seq<char>, i: int)
    requires
        0 <= i < entries.len(),
        entries[i].0 == k,
        forall|j: int| 0 <= j < i ==> (#[trigger] entries[j]).0 != k,
    ensures
        spec_bind(entries, k, v) =~= entries.update(i, (k, v)),
    decreases i,
{
    if i == 0 {
        assert(spec_bind(entries, k, v) =~= entries.update(0, (k, v)));
    } else {
        assert(entries.drop_first()[i - 1].0 == k);
        assert(forall|j: int| 0 <= j < i - 1 ==> (#[trigger] entries.drop_first()[j]).0 != k);
        lemma_bind_at(entries.drop_first(), k, v, i - 1);
        assert(spec_bind(entries, k, v) =~= entries.update(i, (k, v)));
    }
}

/// When no entry has key `k`, binding appends a new entry.
pub proof fn lemma_bind_absent(entries: Seq<(Seq<char>, Seq<char>)>, k: Seq<char>, v: Seq<char>)
    requires
        forall|j: int| 0 <= j < entries.len() ==> (#[trigger] entries[j]).0 != k,
    ensures
        spec_bind(entries, k, v) =~= entries.push((k, v)),
    decreases entries.len(),
{
    if entries.len() == 0 {
        assert(spec_bind(entries, k, v) =~= entries.push((k, v)));
    } else {
        assert(forall|j: int|
            0 <= j < entries.drop_first().len() ==> (#[trigger] entries.drop_first()[j]).0 != k);
        lemma_bind_absent(entries.drop_first(), k, v);
        assert(spec_bind(entries, k, v) =~= entries.push((k, v)));
    }
}

/// When the first entry with key `k` stands at index `i`, lookup yields
/// its value.
pub proof fn lemma_lookup_at(entries: Seq<(Seq<char>, Seq<char>)>, k: Seq<char>, i: int)
    requires
        0 <= i < entries.len(),
        entries[i].0 == k,
        forall|j: int| 0 <= j < i ==> (#[trigger] entries[j]).0 != k,
    ensures
        spec_lookup(entries, k) == Some(entries[i].1),
    decreases i,
{
    if i == 0 {
    } else {
        assert(entries.drop_first()[i - 1].0 == k);
        assert(forall|j: int| 0 <= j < i - 1 ==> (#[trigger] entries.drop_first()[j]).0 != k);
        lemma_lookup_at(entries.drop_first(), k, i - 1);
    }
}

/// When no entry has key `k`, lookup yields nothing.
pub proof fn lemma_lookup_absent(entries: Seq<(Seq<char>, Seq<char>)>, k: Seq<char>)
    requires
        forall|j: int| 0 <= j < entries.len() ==> (#[trigger] entries[j]).0 != k,
    ensures
        spec_lookup(entries, k) is None,
    decreases entries.len(),
{
    if entries.len() > 0 {
        assert(forall|j: int|
            0 <= j < entries.drop_first().len() ==> (#[trigger] entries.drop_first()[j]).0 != k);
        lemma_lookup_absent(entries.drop_first(), k);
    }
}

} // verus!
