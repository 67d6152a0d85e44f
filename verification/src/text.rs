//! Strings as sequences of characters: the order that key sets are sorted by,
//! and prefix tests.

use vstd::prelude::*;
use vstd::string::*;

verus! {

/// `a` comes before `b` because of position `i`: the two agree on everything
/// in front of `i`, and there `a` has ended or holds the smaller character.
pub open spec fn precedes_at(a: Seq<char>, b: Seq<char>, i: int) -> bool {
    &&& 0 <= i <= a.len()
    &&& i < b.len()
    &&& a.take(i) == b.take(i)
    &&& (i == a.len() || (a[i] as u32) < (b[i] as u32))
}

/// Strict lexicographic order by code point, the order of `str` itself.
pub open spec fn str_lt(a: Seq<char>, b: Seq<char>) -> bool {
    exists|i: int| #[trigger] precedes_at(a, b, i)
}

/// `s` is strictly increasing: sorted, and without duplicates.
pub open spec fn strictly_sorted(s: Seq<Seq<char>>) -> bool {
    forall|i: int, j: int| 0 <= i < j < s.len() ==> str_lt(#[trigger] s[i], #[trigger] s[j])
}

/// How two strings stand to each other in the order.
#[derive(Clone, Copy, Debug, PartialEq, Eq, Structural)]
pub enum Relation {
    Before,
    Same,
    After,
}

/// The relation of `a` to `b`, decided by their first difference.
pub open spec fn relation_of(a: Seq<char>, b: Seq<char>) -> Relation {
    if a == b {
        Relation::Same
    } else if str_lt(a, b) {
        Relation::Before
    } else {
        Relation::After
    }
}

/// No string comes before itself.
pub proof fn lemma_lt_irreflexive(a: Seq<char>)
    ensures
        !str_lt(a, a),
{
    if str_lt(a, a) {
        let i = choose|i: int| #[trigger] precedes_at(a, a, i);
        assert(precedes_at(a, a, i));
    }
}

/// The order is transitive.
pub proof fn lemma_lt_transitive(a: Seq<char>, b: Seq<char>, c: Seq<char>)
    requires
        str_lt(a, b),
        str_lt(b, c),
    ensures
        str_lt(a, c),
{
    let i = choose|i: int| #[trigger] precedes_at(a, b, i);
    let j = choose|j: int| #[trigger] precedes_at(b, c, j);
    let m = if i <= j { i } else { j };
    assert forall|k: int| 0 <= k < i implies a[k] == b[k] by {
        assert(a.take(i)[k] == b.take(i)[k]);
    }
    assert forall|k: int| 0 <= k < j implies b[k] == c[k] by {
        assert(b.take(j)[k] == c.take(j)[k]);
    }
    assert(a.take(m) =~= c.take(m));
    assert(precedes_at(a, c, m));
}

/// Of two different strings one comes before the other, and never both.
pub proof fn lemma_lt_asymmetric(a: Seq<char>, b: Seq<char>)
    requires
        str_lt(a, b),
    ensures
        !str_lt(b, a),
        a != b,
{
    if str_lt(b, a) {
        lemma_lt_transitive(a, b, a);
        lemma_lt_irreflexive(a);
    }
    if a == b {
        lemma_lt_irreflexive(a);
    }
}

/// Compares two strings character by character.
pub fn relate(a: &str, b: &str) -> (r: Relation)
    ensures
        r == relation_of(a@, b@),
        r == Relation::After <==> str_lt(b@, a@),
{
    let n: usize = a.unicode_len();
    let m: usize = b.unicode_len();
    let mut i: usize = 0;
    while i < n && i < m
        invariant
            n == a@.len(),
            m == b@.len(),
            i <= n,
            i <= m,
            a@.take(i as int) == b@.take(i as int),
        decreases n - i,
    {
        let x: char = a.get_char(i);
        let y: char = b.get_char(i);
        if x != y {
            let before: bool = (x as u32) < (y as u32);
            proof {
                if before {
                    assert(precedes_at(a@, b@, i as int));
                    lemma_lt_asymmetric(a@, b@);
                } else {
                    assert(precedes_at(b@, a@, i as int));
                    lemma_lt_asymmetric(b@, a@);
                }
            }
            return if before {
                Relation::Before
            } else {
                Relation::After
            };
        }
        proof {
            assert(a@.take(i + 1) =~= a@.take(i as int).push(x));
            assert(b@.take(i + 1) =~= b@.take(i as int).push(y));
        }
        i = i + 1;
    }
    if i < m {
        proof {
            assert(precedes_at(a@, b@, i as int));
            lemma_lt_asymmetric(a@, b@);
        }
        Relation::Before
    } else if i < n {
        proof {
            assert(precedes_at(b@, a@, i as int));
            lemma_lt_asymmetric(b@, a@);
        }
        Relation::After
    } else {
        proof {
            assert(a@.take(i as int) =~= a@);
            assert(b@.take(i as int) =~= b@);
            lemma_lt_irreflexive(a@);
        }
        Relation::Same
    }
}

/// Whether `s` begins with `prefix`.
pub fn starts_with(s: &str, prefix: &str) -> (r: bool)
    ensures
        r == prefix@.is_prefix_of(s@),
{
    let n: usize = s.unicode_len();
    let m: usize = prefix.unicode_len();
    if m > n {
        return false;
    }
    let mut i: usize = 0;
    while i < m
        invariant
            n == s@.len(),
            m == prefix@.len(),
            m <= n,
            i <= m,
            forall|k: int| 0 <= k < i ==> s@[k] == prefix@[k],
        decreases m - i,
    {
        if s.get_char(i) != prefix.get_char(i) {
            assert(s@.subrange(0, m as int)[i as int] != prefix@[i as int]);
            return false;
        }
        i = i + 1;
    }
    assert(s@.subrange(0, m as int) =~= prefix@);
    true
}

/// The views of a vector of strings.
pub open spec fn views(v: Seq<String>) -> Seq<Seq<char>> {
    Seq::new(v.len(), |i: int| v[i]@)
}

/// The view of an optional string.
pub open spec fn opt_view(o: Option<String>) -> Option<Seq<char>> {
    match o {
        Some(s) => Some(s@),
        None => None,
    }
}

/// Where `key` stands in a sorted list: everything in front of `at` comes
/// before it, and `at` holds it or the first string that comes after it.
pub open spec fn slot_of(s: Seq<Seq<char>>, key: Seq<char>, at: int, found: bool) -> bool {
    &&& 0 <= at <= s.len()
    &&& forall|k: int| 0 <= k < at ==> str_lt(#[trigger] s[k], key)
    &&& found ==> at < s.len() && s[at] == key
    &&& !found ==> !s.contains(key) && (at < s.len() ==> str_lt(key, s[at]))
}

/// Finds the place of `key` in a sorted list, and whether the list holds it.
pub fn find_slot(keys: &Vec<String>, key: &str) -> (r: (usize, bool))
    requires
        strictly_sorted(views(keys@)),
    ensures
        slot_of(views(keys@), key@, r.0 as int, r.1),
{
    let ghost s = views(keys@);
    let n: usize = keys.len();
    let mut i: usize = 0;
    while i < n
        invariant
            n == keys.len(),
            i <= n,
            s == views(keys@),
            strictly_sorted(s),
            forall|k: int| 0 <= k < i ==> str_lt(#[trigger] s[k], key@),
        decreases n - i,
    {
        assert(s[i as int] == keys[i as int]@);
        match relate(keys[i].as_str(), key) {
            Relation::Before => {
                i = i + 1;
            },
            Relation::Same => {
                return (i, true);
            },
            Relation::After => {
                proof {
                    lemma_absent_behind(s, key@, i as int);
                }
                return (i, false);
            },
        }
    }
    proof {
        lemma_absent_behind(s, key@, i as int);
    }
    (i, false)
}

/// A sorted list does not hold a key that comes behind everything in front of
/// `at` and before whatever stands there.
pub proof fn lemma_absent_behind(s: Seq<Seq<char>>, key: Seq<char>, at: int)
    requires
        strictly_sorted(s),
        0 <= at <= s.len(),
        forall|k: int| 0 <= k < at ==> str_lt(#[trigger] s[k], key),
        at < s.len() ==> str_lt(key, s[at]),
    ensures
        !s.contains(key),
{
    if s.contains(key) {
        let k = choose|k: int| 0 <= k < s.len() && s[k] == key;
        if k < at {
            lemma_lt_irreflexive(key);
        } else {
            if k > at {
                lemma_lt_transitive(key, s[at], s[k]);
            }
            lemma_lt_irreflexive(key);
        }
    }
}

/// Putting a key into its slot keeps the list sorted and adds just that key.
pub proof fn lemma_insert_at_slot(s: Seq<Seq<char>>, key: Seq<char>, at: int)
    requires
        strictly_sorted(s),
        slot_of(s, key, at, false),
    ensures
        strictly_sorted(s.insert(at, key)),
        s.insert(at, key).to_set() == s.to_set().insert(key),
{
    let after = s.insert(at, key);
    assert forall|p: int, q: int| 0 <= p < q < after.len() implies str_lt(
        #[trigger] after[p],
        #[trigger] after[q],
    ) by {
        if q < at {
            assert(after[p] == s[p] && after[q] == s[q]);
        } else if q == at {
            assert(after[p] == s[p]);
        } else if p == at {
            assert(after[q] == s[q - 1]);
            if q - 1 > at {
                lemma_lt_transitive(key, s[at], s[q - 1]);
            }
        } else if p < at {
            assert(after[p] == s[p] && after[q] == s[q - 1]);
        } else {
            assert(after[p] == s[p - 1] && after[q] == s[q - 1]);
        }
    }
    assert forall|a: Seq<char>| after.contains(a) <==> s.contains(a) || a == key by {
        if after.contains(a) {
            let k = choose|k: int| 0 <= k < after.len() && after[k] == a;
            if k < at {
                assert(s[k] == a);
            } else if k > at {
                assert(s[k - 1] == a);
            }
        }
        if s.contains(a) {
            let k = choose|k: int| 0 <= k < s.len() && s[k] == a;
            if k < at {
                assert(after[k] == a);
            } else {
                assert(after[k + 1] == a);
            }
        }
        if a == key {
            assert(after[at] == a);
        }
    }
    assert(after.to_set() =~= s.to_set().insert(key));
}

/// In a sorted list the name at `i` comes behind everything in front of it,
/// so its slot among the names in front of it is the end.
pub proof fn lemma_prefix_slot(names: Seq<Seq<char>>, i: int)
    requires
        strictly_sorted(names),
        0 <= i < names.len(),
    ensures
        strictly_sorted(names.take(i)),
        slot_of(names.take(i), names[i], i, false),
{
    let front = names.take(i);
    assert forall|p: int, q: int| 0 <= p < q < front.len() implies str_lt(
        #[trigger] front[p],
        #[trigger] front[q],
    ) by {
        assert(front[p] == names[p] && front[q] == names[q]);
    }
    assert forall|k: int| 0 <= k < i implies str_lt(#[trigger] front[k], names[i]) by {
        assert(front[k] == names[k]);
    }
    lemma_absent_behind(front, names[i], i);
}

/// A set of strings has one sorted list: two strictly increasing lists that
/// hold the same strings are the same list.
pub proof fn law_sorted_list_unique(a: Seq<Seq<char>>, b: Seq<Seq<char>>)
    requires
        strictly_sorted(a),
        strictly_sorted(b),
        a.to_set() == b.to_set(),
    ensures
        a == b,
    decreases a.len(),
{
    if a.len() == 0 {
        if b.len() > 0 {
            assert(b.contains(b[0]));
            assert(a.to_set().contains(b[0]));
        }
        assert(a =~= b);
    } else {
        let x = a.last();
        assert(a.contains(x));
        assert(b.to_set().contains(x));
        let j = choose|j: int| 0 <= j < b.len() && b[j] == x;
        let y = b.last();
        assert(b.contains(y));
        assert(a.to_set().contains(y));
        let i = choose|i: int| 0 <= i < a.len() && a[i] == y;
        if i < a.len() - 1 {
            if j < b.len() - 1 {
                lemma_lt_transitive(y, x, y);
                lemma_lt_irreflexive(y);
            }
            lemma_lt_asymmetric(y, x);
        }
        assert(x == y);
        if j < b.len() - 1 {
            lemma_lt_irreflexive(x);
        }
        let a0 = a.drop_last();
        let b0 = b.drop_last();
        assert forall|p: int, q: int| 0 <= p < q < a0.len() implies str_lt(
            #[trigger] a0[p],
            #[trigger] a0[q],
        ) by {
            assert(a0[p] == a[p] && a0[q] == a[q]);
        }
        assert forall|p: int, q: int| 0 <= p < q < b0.len() implies str_lt(
            #[trigger] b0[p],
            #[trigger] b0[q],
        ) by {
            assert(b0[p] == b[p] && b0[q] == b[q]);
        }
        assert forall|s: Seq<char>| a0.contains(s) <==> b0.contains(s) by {
            if a0.contains(s) {
                let k = choose|k: int| 0 <= k < a0.len() && a0[k] == s;
                assert(a[k] == s);
                lemma_lt_asymmetric(a[k], x);
                assert(a.contains(s));
                assert(b.to_set().contains(s));
                let m = choose|m: int| 0 <= m < b.len() && b[m] == s;
                assert(b0[m] == s);
            }
            if b0.contains(s) {
                let k = choose|k: int| 0 <= k < b0.len() && b0[k] == s;
                assert(b[k] == s);
                lemma_lt_asymmetric(b[k], y);
                assert(b.contains(s));
                assert(a.to_set().contains(s));
                let m = choose|m: int| 0 <= m < a.len() && a[m] == s;
                assert(a0[m] == s);
            }
        }
        assert(a0.to_set() =~= b0.to_set());
        law_sorted_list_unique(a0, b0);
        assert(a =~= a0.push(x));
        assert(b =~= b0.push(y));
    }
}

/// One more element of a list adds just that element to what the front holds.
pub proof fn lemma_take_step<T>(s: Seq<T>, i: int)
    requires
        0 <= i < s.len(),
    ensures
        s.take(i + 1).to_set() == s.take(i).to_set().insert(s[i]),
{
    let more = s.take(i + 1);
    let less = s.take(i);
    assert forall|x: T| more.contains(x) <==> less.contains(x) || x == s[i] by {
        if more.contains(x) {
            let k = choose|k: int| 0 <= k < more.len() && more[k] == x;
            if k < i {
                assert(less[k] == x);
            }
        }
        if less.contains(x) {
            let k = choose|k: int| 0 <= k < less.len() && less[k] == x;
            assert(more[k] == x);
        }
        assert(more[i] == s[i]);
    }
    assert(more.to_set() =~= less.to_set().insert(s[i]));
}

/// Puts `key` at its place in a sorted list, unless the list holds it.
pub fn insert_key(keys: &mut Vec<String>, key: String)
    requires
        strictly_sorted(views(old(keys)@)),
    ensures
        strictly_sorted(views(final(keys)@)),
        views(final(keys)@).to_set() == views(old(keys)@).to_set().insert(key@),
{
    let ghost before = views(keys@);
    let (at, found) = find_slot(keys, key.as_str());
    if found {
        assert(before.contains(key@));
        assert(before.to_set().insert(key@) =~= before.to_set());
    } else {
        keys.insert(at, key);
        proof {
            assert(views(keys@) =~= before.insert(at as int, key@));
            lemma_insert_at_slot(before, key@, at as int);
        }
    }
}

} // verus!
