//! One cycle from the declared spellers to the desired state of every root.
//!
//! A cycle replaces what the central table registers: everything registered
//! before is deregistered first, then every speller of the sources is
//! registered under the keys of its tag. A speller whose tag has no keys is
//! passed over and the cycle goes on.

use crate::refresh::{locate_roots, target_roots};
use crate::reg::{
    desired_create, desired_delete, nuke_key, nuked, with_paths, Langs, StoredValue, ValueView,
};
use crate::register::{register, string_keys};
use crate::table::{entries_map, Table};
use crate::text::views;
use vstd::prelude::*;

verus! {

/// One entry of a source: a language tag, and the dictionary for it.
#[derive(Debug)]
pub struct Speller {
    pub tag: String,
    pub path: String,
}

/// The views of a list of spellers: pairs of tag and path.
pub open spec fn speller_views(v: Seq<Speller>) -> Seq<(Seq<char>, Seq<char>)> {
    Seq::new(v.len(), |i: int| (v[i].tag@, v[i].path@))
}

/// Whether a speller is registered under the name `n`.
pub open spec fn covers(speller: (Seq<char>, Seq<char>), n: Seq<char>) -> bool {
    string_keys(speller.0) matches Ok(keys) && keys.contains(n)
}

/// The central table after one speller was registered; a speller whose tag
/// has no keys leaves it as it is.
pub open spec fn with_speller(
    m: Map<Seq<char>, ValueView>,
    speller: (Seq<char>, Seq<char>),
) -> Map<Seq<char>, ValueView> {
    match string_keys(speller.0) {
        Ok(keys) => with_paths(m, keys, speller.1),
        Err(_) => m,
    }
}

/// The central table after every speller was registered, in order.
pub open spec fn with_spellers(
    m: Map<Seq<char>, ValueView>,
    spellers: Seq<(Seq<char>, Seq<char>)>,
) -> Map<Seq<char>, ValueView>
    decreases spellers.len(),
{
    if spellers.len() == 0 {
        m
    } else {
        with_speller(with_spellers(m, spellers.drop_last()), spellers.last())
    }
}

/// The central table after a cycle.
pub open spec fn refreshed(
    m: Map<Seq<char>, ValueView>,
    spellers: Seq<(Seq<char>, Seq<char>)>,
) -> Map<Seq<char>, ValueView> {
    with_spellers(nuked(m), spellers)
}

/// What no speller is registered under stays as it was.
pub proof fn lemma_uncovered(
    m: Map<Seq<char>, ValueView>,
    spellers: Seq<(Seq<char>, Seq<char>)>,
    n: Seq<char>,
)
    requires
        forall|i: int| 0 <= i < spellers.len() ==> !covers(#[trigger] spellers[i], n),
    ensures
        with_spellers(m, spellers).contains_key(n) == m.contains_key(n),
        m.contains_key(n) ==> with_spellers(m, spellers)[n] == m[n],
    decreases spellers.len(),
{
    if spellers.len() > 0 {
        let front = spellers.drop_last();
        assert forall|i: int| 0 <= i < front.len() implies !covers(#[trigger] front[i], n) by {
            assert(front[i] == spellers[i]);
        }
        lemma_uncovered(m, front, n);
        assert(!covers(spellers[spellers.len() - 1], n));
    }
}

/// A name has the dictionary of the last speller that is registered under it.
pub proof fn lemma_covered(
    m: Map<Seq<char>, ValueView>,
    spellers: Seq<(Seq<char>, Seq<char>)>,
    i: int,
    n: Seq<char>,
)
    requires
        0 <= i < spellers.len(),
        covers(spellers[i], n),
        forall|j: int| i < j < spellers.len() ==> !covers(#[trigger] spellers[j], n),
    ensures
        with_spellers(m, spellers).contains_key(n),
        with_spellers(m, spellers)[n] == ValueView::Path(spellers[i].1),
    decreases spellers.len(),
{
    let front = spellers.drop_last();
    if i < spellers.len() - 1 {
        assert(front[i] == spellers[i]);
        assert forall|j: int| i < j < front.len() implies !covers(#[trigger] front[j], n) by {
            assert(front[j] == spellers[j]);
        }
        lemma_covered(m, front, i, n);
        assert(!covers(spellers[spellers.len() - 1], n));
    }
}

/// A cycle replaces: a name that had a dictionary, and under which no
/// speller of the cycle is registered, is marked as deregistered.
pub proof fn law_dropped_name_is_deregistered(
    m: Map<Seq<char>, ValueView>,
    spellers: Seq<(Seq<char>, Seq<char>)>,
    n: Seq<char>,
)
    requires
        m.contains_key(n),
        m[n] is Path,
        forall|i: int| 0 <= i < spellers.len() ==> !covers(#[trigger] spellers[i], n),
    ensures
        refreshed(m, spellers).contains_key(n),
        refreshed(m, spellers)[n] == ValueView::Absent,
{
    lemma_uncovered(nuked(m), spellers, n);
    assert(desired_create(m).dom().contains(n));
}

/// After a cycle every key of a speller has the dictionary of that speller,
/// unless a later speller is registered under the same key.
pub proof fn law_speller_is_registered(
    m: Map<Seq<char>, ValueView>,
    spellers: Seq<(Seq<char>, Seq<char>)>,
    i: int,
    n: Seq<char>,
)
    requires
        0 <= i < spellers.len(),
        covers(spellers[i], n),
        forall|j: int| i < j < spellers.len() ==> !covers(#[trigger] spellers[j], n),
    ensures
        refreshed(m, spellers).contains_key(n),
        refreshed(m, spellers)[n] == ValueView::Path(spellers[i].1),
{
    lemma_covered(nuked(m), spellers, i, n);
}

/// A cycle never forgets a name: what the central table held before, it
/// holds after.
pub proof fn law_names_stay(
    m: Map<Seq<char>, ValueView>,
    spellers: Seq<(Seq<char>, Seq<char>)>,
    n: Seq<char>,
)
    requires
        m.contains_key(n),
    ensures
        refreshed(m, spellers).contains_key(n),
    decreases spellers.len(),
{
    if spellers.len() > 0 {
        law_names_stay(m, spellers.drop_last(), n);
    }
}

/// Runs one cycle on the central table, and returns the desired state that
/// every root is to be brought in step with, and the roots.
pub fn refresh(store: &mut Table<StoredValue>, spellers: &Vec<Speller>, has_wow64: bool) -> (r: (
    Langs,
    Vec<String>,
))
    requires
        old(store).wf(),
    ensures
        final(store).wf(),
        final(store).map() == refreshed(old(store).map(), speller_views(spellers@)),
        r.0.wf(),
        entries_map(r.0@.create) == desired_create(final(store).map()),
        r.0@.delete.to_set() == desired_delete(final(store).map()),
        views(r.1@) == target_roots(has_wow64),
{
    let ghost all = speller_views(spellers@);
    let ghost start = nuked(store.map());
    nuke_key(store);
    let n: usize = spellers.len();
    let mut i: usize = 0;
    while i < n
        invariant
            store.wf(),
            all == speller_views(spellers@),
            n == spellers.len(),
            i <= n,
            store.map() == with_spellers(start, all.take(i as int)),
        decreases n - i,
    {
        assert(all.take(i + 1).drop_last() =~= all.take(i as int));
        assert(all.take(i + 1).last() == all[i as int]);
        let _ = register(store, spellers[i].tag.as_str(), spellers[i].path.as_str());
        i = i + 1;
    }
    assert(all.take(n as int) =~= all);
    let langs = Langs::new(store);
    let roots = locate_roots(has_wow64);
    (langs, roots)
}

} // verus!
