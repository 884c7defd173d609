//! Vectors kept sorted by a text key in `str` order, each key once: the library's stand-in for
//! a `BTreeMap<String, _>` / `BTreeSet<String>` that is filled and then walked in order.
use vstd::prelude::*;
use crate::text::{chars_of, less, same, lex_lt, lemma_lex_lt_total, lemma_lex_lt_transitive, lemma_lex_lt_irreflexive};

verus! {
/// The keys of `v`, in order.
pub open spec fn keys<X>(v: Seq<(String, X)>) -> Seq<Seq<char>> {
    v.map_values(|e: (String, X)| e.0@)
}

/// Strictly increasing in `str` order: sorted, and no key twice.
pub open spec fn ascending(k: Seq<Seq<char>>) -> bool {
    forall|a: int, b: int| 0 <= a < b < k.len() ==> lex_lt(#[trigger] k[a], #[trigger] k[b])
}

/// Where `key` is, or where it would go, in the ascending `v`.
pub fn locate<X>(v: &Vec<(String, X)>, key: &str) -> (r: (bool, usize))
    requires
        ascending(keys(v@)),
    ensures
        r.1 <= v@.len(),
        r.0 ==> r.1 < v@.len() && v@[r.1 as int].0@ == key@,
        !r.0 ==> forall|a: int| 0 <= a < v@.len() ==> #[trigger] v@[a].0@ != key@,
        !r.0 ==> forall|a: int| 0 <= a < r.1 ==> lex_lt(#[trigger] v@[a].0@, key@),
        !r.0 ==> forall|a: int| r.1 <= a < v@.len() ==> lex_lt(key@, #[trigger] v@[a].0@),
{
    let kc = chars_of(key);
    let mut i: usize = 0;
    while i < v.len() && less(chars_of(v[i].0.as_str()).as_slice(), kc.as_slice())
        invariant
            0 <= i <= v@.len(),
            kc@ == key@,
            forall|a: int| 0 <= a < i ==> lex_lt(#[trigger] v@[a].0@, key@),
        decreases v@.len() - i,
    {
        i += 1;
    }
    if i < v.len() && same(chars_of(v[i].0.as_str()).as_slice(), kc.as_slice()) {
        return (true, i);
    }
    proof {
        if i < v@.len() {
            lemma_lex_lt_total(v@[i as int].0@, key@);
        }
        assert forall|a: int| i <= a < v@.len() implies lex_lt(key@, #[trigger] v@[a].0@) by {
            if a > i {
                assert(lex_lt(keys(v@)[i as int], keys(v@)[a]));
                lemma_lex_lt_transitive(key@, v@[i as int].0@, v@[a].0@);
            }
        }
        assert forall|a: int| 0 <= a < v@.len() implies #[trigger] v@[a].0@ != key@ by {
            lemma_lex_lt_irreflexive(key@);
        }
    }
    (false, i)
}

/// Inserting a new key where `locate` put it keeps the keys ascending.
pub proof fn lemma_insert_ascending<X>(v: Seq<(String, X)>, i: int, e: (String, X))
    requires
        ascending(keys(v)),
        0 <= i <= v.len(),
        forall|a: int| 0 <= a < i ==> lex_lt(#[trigger] v[a].0@, e.0@),
        forall|a: int| i <= a < v.len() ==> lex_lt(e.0@, #[trigger] v[a].0@),
    ensures
        ascending(keys(v.insert(i, e))),
        keys(v.insert(i, e)) == keys(v).insert(i, e.0@),
{
    let nv = keys(v.insert(i, e));
    let ov = keys(v);
    assert(nv =~= ov.insert(i, e.0@));
    assert forall|a: int, b: int| 0 <= a < b < nv.len() implies lex_lt(#[trigger] nv[a], #[trigger] nv[b]) by {
        if b < i {
            assert(lex_lt(ov[a], ov[b]));
        } else if b == i {
            assert(lex_lt(v[a].0@, e.0@));
        } else if a == i {
            assert(lex_lt(e.0@, v[b - 1].0@));
        } else if a < i {
            assert(lex_lt(ov[a], ov[b - 1]));
        } else {
            assert(lex_lt(ov[a - 1], ov[b - 1]));
        }
    }
}

/// Replacing the payload of an entry keeps the keys.
pub proof fn lemma_update_keys<X>(v: Seq<(String, X)>, i: int, e: (String, X))
    requires
        0 <= i < v.len(),
        e.0@ == v[i].0@,
    ensures
        keys(v.update(i, e)) == keys(v),
{
    assert(keys(v.update(i, e)) =~= keys(v));
}


// ---------------------------------------------------------------- text pairs

/// A list of `(key, value)` texts as plain values.
pub open spec fn kv(v: Seq<(String, String)>) -> Seq<(Seq<char>, Seq<char>)> {
    v.map_values(|e: (String, String)| (e.0@, e.1@))
}

pub open spec fn kkeys(l: Seq<(Seq<char>, Seq<char>)>) -> Seq<Seq<char>> {
    l.map_values(|e: (Seq<char>, Seq<char>)| e.0)
}

/// Adding `(k, x)` to an ascending list the way `BTreeMap::entry(k).or_insert(x)` does: a key
/// already present keeps its value; a new one goes where the order puts it.
pub open spec fn sorted_insert(l: Seq<(Seq<char>, Seq<char>)>, k: Seq<char>, x: Seq<char>) -> Seq<(Seq<char>, Seq<char>)>
    decreases l.len(),
{
    if l.len() == 0 {
        seq![(k, x)]
    } else if l[0].0 == k {
        l
    } else if lex_lt(k, l[0].0) {
        seq![(k, x)] + l
    } else {
        seq![l[0]] + sorted_insert(l.drop_first(), k, x)
    }
}

/// Where `locate` says a new key goes, `sorted_insert` puts it.
pub proof fn lemma_sorted_insert_at(l: Seq<(Seq<char>, Seq<char>)>, i: int, k: Seq<char>, x: Seq<char>)
    requires
        0 <= i <= l.len(),
        forall|a: int| 0 <= a < i ==> lex_lt(#[trigger] l[a].0, k),
        forall|a: int| i <= a < l.len() ==> lex_lt(k, #[trigger] l[a].0),
    ensures
        sorted_insert(l, k, x) == l.insert(i, (k, x)),
    decreases l.len(),
{
    if l.len() == 0 {
        assert(l.insert(i, (k, x)) =~= seq![(k, x)]);
    } else if i == 0 {
        lemma_lex_lt_irreflexive(k);
        assert(l[0].0 != k);
        assert(l.insert(0, (k, x)) =~= seq![(k, x)] + l);
    } else {
        assert(lex_lt(l[0].0, k));
        lemma_lex_lt_irreflexive(k);
        crate::text::lemma_lex_lt_asymmetric(l[0].0, k);
        let t = l.drop_first();
        assert forall|a: int| 0 <= a < i - 1 implies lex_lt(#[trigger] t[a].0, k) by {
            assert(t[a] == l[a + 1]);
        }
        assert forall|a: int| i - 1 <= a < t.len() implies lex_lt(k, #[trigger] t[a].0) by {
            assert(t[a] == l[a + 1]);
        }
        lemma_sorted_insert_at(t, i - 1, k, x);
        assert(l.insert(i, (k, x)) =~= seq![l[0]] + t.insert(i - 1, (k, x)));
    }
}

/// A key already present leaves the list as it is.
pub proof fn lemma_sorted_insert_found(l: Seq<(Seq<char>, Seq<char>)>, i: int, k: Seq<char>, x: Seq<char>)
    requires
        0 <= i < l.len(),
        l[i].0 == k,
        forall|a: int| 0 <= a < i ==> lex_lt(#[trigger] l[a].0, k),
    ensures
        sorted_insert(l, k, x) == l,
    decreases l.len(),
{
    if i > 0 {
        assert(lex_lt(l[0].0, k));
        lemma_lex_lt_irreflexive(k);
        crate::text::lemma_lex_lt_asymmetric(l[0].0, k);
        let t = l.drop_first();
        assert forall|a: int| 0 <= a < i - 1 implies lex_lt(#[trigger] t[a].0, k) by {
            assert(t[a] == l[a + 1]);
        }
        lemma_sorted_insert_found(t, i - 1, k, x);
        assert(seq![l[0]] + t =~= l);
    }
}

/// Add `(k, x)` to the ascending `v` as `sorted_insert` does.
pub fn insert_first(v: &mut Vec<(String, String)>, k: String, x: String)
    requires
        ascending(keys(old(v)@)),
    ensures
        ascending(keys(final(v)@)),
        kv(final(v)@) == sorted_insert(kv(old(v)@), k@, x@),
{
    let (found, i) = locate(v, k.as_str());
    let ghost l = kv(v@);
    proof {
        assert forall|a: int| 0 <= a < i implies lex_lt(#[trigger] l[a].0, k@) by {
            if !found {
                assert(lex_lt(v@[a].0@, k@));
            } else {
                assert(lex_lt(keys(v@)[a], keys(v@)[i as int]));
            }
        }
    }
    if found {
        proof {
            lemma_sorted_insert_found(l, i as int, k@, x@);
        }
        return;
    }
    proof {
        assert forall|a: int| i <= a < l.len() implies lex_lt(k@, #[trigger] l[a].0) by {
            assert(lex_lt(k@, v@[a].0@));
        }
        lemma_sorted_insert_at(l, i as int, k@, x@);
        lemma_insert_ascending(v@, i as int, (k, x));
    }
    let ghost e = (k, x);
    v.insert(i, (k, x));
    assert(kv(v@) =~= l.insert(i as int, (e.0@, e.1@)));
}

/// `sorted_insert` adds the key to the key set, and nothing else.
pub proof fn lemma_sorted_insert_keys(l: Seq<(Seq<char>, Seq<char>)>, k: Seq<char>, x: Seq<char>)
    ensures
        kkeys(sorted_insert(l, k, x)).to_set() == kkeys(l).to_set().insert(k),
    decreases l.len(),
{
    let r = sorted_insert(l, k, x);
    if l.len() == 0 {
        assert(kkeys(r) =~= seq![k]);
        assert(kkeys(r).to_set() =~= kkeys(l).to_set().insert(k)) by {
            assert(kkeys(l) =~= Seq::<Seq<char>>::empty());
            assert forall|y: Seq<char>| kkeys(r).to_set().contains(y) implies kkeys(l).to_set().insert(k).contains(y) by {
                let j = choose|j: int| 0 <= j < kkeys(r).len() && kkeys(r)[j] == y;
                assert(j == 0);
            }
            assert(kkeys(r)[0] == k);
        }
    } else if l[0].0 == k {
        assert(kkeys(l).to_set() =~= kkeys(l).to_set().insert(k)) by {
            assert(kkeys(l)[0] == k);
        }
    } else if lex_lt(k, l[0].0) {
        assert(kkeys(r) =~= seq![k] + kkeys(l));
        assert(kkeys(r).to_set() =~= kkeys(l).to_set().insert(k)) by {
            assert forall|y: Seq<char>| kkeys(r).to_set().contains(y) implies kkeys(l).to_set().insert(k).contains(y) by {
                let j = choose|j: int| 0 <= j < kkeys(r).len() && kkeys(r)[j] == y;
                if j > 0 {
                    assert(kkeys(l)[j - 1] == y);
                }
            }
            assert forall|y: Seq<char>| kkeys(l).to_set().insert(k).contains(y) implies kkeys(r).to_set().contains(y) by {
                if y == k {
                    assert(kkeys(r)[0] == y);
                } else {
                    let j = choose|j: int| 0 <= j < kkeys(l).len() && kkeys(l)[j] == y;
                    assert(kkeys(r)[j + 1] == y);
                }
            }
        }
    } else {
        let t = l.drop_first();
        lemma_sorted_insert_keys(t, k, x);
        let rt = sorted_insert(t, k, x);
        assert(kkeys(r) =~= seq![l[0].0] + kkeys(rt));
        assert(kkeys(l) =~= seq![l[0].0] + kkeys(t));
        assert(kkeys(r).to_set() =~= kkeys(l).to_set().insert(k)) by {
            assert forall|y: Seq<char>| kkeys(r).to_set().contains(y) implies kkeys(l).to_set().insert(k).contains(y) by {
                let j = choose|j: int| 0 <= j < kkeys(r).len() && kkeys(r)[j] == y;
                if j == 0 {
                    assert(kkeys(l)[0] == y);
                } else {
                    assert(kkeys(rt).to_set().contains(y));
                    if y != k {
                        assert(kkeys(t).to_set().contains(y));
                        let m = choose|m: int| 0 <= m < kkeys(t).len() && kkeys(t)[m] == y;
                        assert(kkeys(l)[m + 1] == y);
                    }
                }
            }
            assert forall|y: Seq<char>| kkeys(l).to_set().insert(k).contains(y) implies kkeys(r).to_set().contains(y) by {
                if y == k {
                    assert(kkeys(rt).to_set().contains(y));
                    let m = choose|m: int| 0 <= m < kkeys(rt).len() && kkeys(rt)[m] == y;
                    assert(kkeys(r)[m + 1] == y);
                } else {
                    let j = choose|j: int| 0 <= j < kkeys(l).len() && kkeys(l)[j] == y;
                    if j == 0 {
                        assert(kkeys(r)[0] == y);
                    } else {
                        assert(kkeys(t)[j - 1] == y);
                        assert(kkeys(rt).to_set().contains(y));
                        let m = choose|m: int| 0 <= m < kkeys(rt).len() && kkeys(rt)[m] == y;
                        assert(kkeys(r)[m + 1] == y);
                    }
                }
            }
        }
    }
}

} // verus!
