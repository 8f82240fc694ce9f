//! Association vectors keyed by strings, used in place of hash maps so that
//! lookup order and overwrite behaviour are stated exactly.  The
//! specification level works on sequences of `(Seq<char>, value)` pairs; the
//! executable level holds `Vec<(String, V)>`.

use vstd::prelude::*;

use crate::strutil::str_eq;

verus! {

/// The pairs of an association vector, with keys and values by view.
pub open spec fn kv_views<V: View>(s: Seq<(String, V)>) -> Seq<(Seq<char>, V::V)> {
    Seq::new(s.len(), |i: int| (s[i].0@, s[i].1@))
}

/// The value stored under `key`, later entries overriding earlier ones.
pub open spec fn cassoc_get<M>(s: Seq<(Seq<char>, M)>, key: Seq<char>) -> Option<M>
    decreases s.len(),
{
    if s.len() == 0 {
        None
    } else if s.last().0 == key {
        Some(s.last().1)
    } else {
        cassoc_get(s.drop_last(), key)
    }
}

/// Whether some entry carries `key`.
pub open spec fn cassoc_has<M>(s: Seq<(Seq<char>, M)>, key: Seq<char>) -> bool {
    cassoc_get(s, key) is Some
}

/// `s` with the first entry carrying the key of `kv` replaced by `kv`, or
/// `kv` appended when no entry carries it.
pub open spec fn cassoc_set<M>(s: Seq<(Seq<char>, M)>, kv: (Seq<char>, M)) -> Seq<
    (Seq<char>, M),
>
    decreases s.len(),
{
    if s.len() == 0 {
        seq![kv]
    } else if s.first().0 == kv.0 {
        seq![kv] + s.drop_first()
    } else {
        seq![s.first()] + cassoc_set(s.drop_first(), kv)
    }
}

/// No two entries carry the same key.
pub open spec fn cassoc_unique<M>(s: Seq<(Seq<char>, M)>) -> bool {
    forall|i: int, j: int| 0 <= i < j < s.len() ==> s[i].0 != s[j].0
}

/// A list without the key has no value under it.
pub proof fn lemma_cassoc_get_none<M>(s: Seq<(Seq<char>, M)>, key: Seq<char>)
    requires
        forall|j: int| 0 <= j < s.len() ==> s[j].0 != key,
    ensures
        cassoc_get(s, key) is None,
    decreases s.len(),
{
    if s.len() > 0 {
        lemma_cassoc_get_none(s.drop_last(), key);
    }
}

/// In a duplicate-free list, the entry at any index carrying the key is the
/// lookup result.
pub proof fn lemma_cassoc_get_at<M>(s: Seq<(Seq<char>, M)>, key: Seq<char>, i: int)
    requires
        cassoc_unique(s),
        0 <= i < s.len(),
        s[i].0 == key,
    ensures
        cassoc_get(s, key) == Some(s[i].1),
    decreases s.len(),
{
    if i == s.len() - 1 {
    } else {
        assert(s.last().0 != key);
        assert forall|a: int, b: int| 0 <= a < b < s.drop_last().len() implies s.drop_last()[a].0
            != s.drop_last()[b].0 by {
            assert(s.drop_last()[a] == s[a] && s.drop_last()[b] == s[b]);
        }
        lemma_cassoc_get_at(s.drop_last(), key, i);
    }
}

/// Replacing the first entry that carries the key is an update in place.
pub proof fn lemma_cassoc_set_at<M>(s: Seq<(Seq<char>, M)>, kv: (Seq<char>, M), i: int)
    requires
        0 <= i < s.len(),
        s[i].0 == kv.0,
        forall|j: int| 0 <= j < i ==> s[j].0 != kv.0,
    ensures
        cassoc_set(s, kv) == s.update(i, kv),
    decreases s.len(),
{
    if i == 0 {
        assert(cassoc_set(s, kv) =~= s.update(0, kv));
    } else {
        lemma_cassoc_set_at(s.drop_first(), kv, i - 1);
        assert(s.drop_first().update(i - 1, kv) =~= s.update(i, kv).drop_first());
        assert(cassoc_set(s, kv) =~= s.update(i, kv));
    }
}

/// Setting an absent key appends the entry.
pub proof fn lemma_cassoc_set_absent<M>(s: Seq<(Seq<char>, M)>, kv: (Seq<char>, M))
    requires
        forall|j: int| 0 <= j < s.len() ==> s[j].0 != kv.0,
    ensures
        cassoc_set(s, kv) == s.push(kv),
    decreases s.len(),
{
    if s.len() == 0 {
        assert(cassoc_set(s, kv) =~= s.push(kv));
    } else {
        lemma_cassoc_set_absent(s.drop_first(), kv);
        assert(cassoc_set(s, kv) =~= s.push(kv));
    }
}

/// The first entry of a duplicate-free list does not recur in its tail.
proof fn lemma_cunique_drop_first<M>(s: Seq<(Seq<char>, M)>)
    requires
        cassoc_unique(s),
        s.len() > 0,
    ensures
        cassoc_unique(s.drop_first()),
        forall|j: int| 0 <= j < s.drop_first().len() ==> s.drop_first()[j].0 != s.first().0,
{
    assert forall|i: int, j: int| 0 <= i < j < s.drop_first().len() implies s.drop_first()[i].0
        != s.drop_first()[j].0 by {
        assert(s.drop_first()[i] == s[i + 1] && s.drop_first()[j] == s[j + 1]);
    }
    assert forall|j: int| 0 <= j < s.drop_first().len() implies s.drop_first()[j].0
        != s.first().0 by {
        assert(s.drop_first()[j] == s[j + 1]);
    }
}

/// A lookup in `seq![head] + tail` falls back to `head` only when no entry
/// of `tail` carries the key.
pub proof fn lemma_cassoc_get_prepend<M>(s: Seq<(Seq<char>, M)>, head: (Seq<char>, M), key: Seq<char>)
    ensures
        cassoc_get(s, key) is Some ==> cassoc_get(seq![head] + s, key) == cassoc_get(s, key),
        cassoc_get(s, key) is None && head.0 == key ==> cassoc_get(seq![head] + s, key) == Some(
            head.1,
        ),
        cassoc_get(s, key) is None && head.0 != key ==> cassoc_get(seq![head] + s, key) is None,
    decreases s.len(),
{
    let t = seq![head] + s;
    if s.len() == 0 {
        assert(t.len() == 1);
        assert(t.last() == head);
        assert(t.drop_last() =~= Seq::<(Seq<char>, M)>::empty());
        assert(cassoc_get(t.drop_last(), key) is None);
        if head.0 == key {
            assert(cassoc_get(t, key) == Some(head.1));
        } else {
            assert(cassoc_get(t, key) is None);
        }
    } else {
        assert(t.last() == s.last());
        assert(t.drop_last() =~= seq![head] + s.drop_last());
        lemma_cassoc_get_prepend(s.drop_last(), head, key);
        if s.last().0 == key {
            assert(cassoc_get(t, key) == Some(s.last().1));
            assert(cassoc_get(s, key) == Some(s.last().1));
        } else {
            assert(cassoc_get(t, key) == cassoc_get(seq![head] + s.drop_last(), key));
            assert(cassoc_get(s, key) == cassoc_get(s.drop_last(), key));
        }
    }
}

/// Setting a key leaves every other key's value as it was, and the set key
/// maps to the new value.
pub proof fn lemma_cassoc_set_get<M>(s: Seq<(Seq<char>, M)>, kv: (Seq<char>, M), key: Seq<char>)
    requires
        cassoc_unique(s),
    ensures
        key == kv.0 ==> cassoc_get(cassoc_set(s, kv), key) == Some(kv.1),
        key != kv.0 ==> cassoc_get(cassoc_set(s, kv), key) == cassoc_get(s, key),
    decreases s.len(),
{
    if s.len() == 0 {
        assert(cassoc_set(s, kv) =~= seq![kv]);
        assert(cassoc_set(s, kv).drop_last() =~= Seq::<(Seq<char>, M)>::empty());
        if key != kv.0 {
            lemma_cassoc_get_none(cassoc_set(s, kv), key);
            assert(cassoc_get(s, key) is None);
        }
    } else if s.first().0 == kv.0 {
        let t = cassoc_set(s, kv);
        assert(t =~= seq![kv] + s.drop_first());
        lemma_cunique_drop_first(s);
        lemma_cassoc_get_prepend(s.drop_first(), kv, key);
        lemma_cassoc_get_prepend(s.drop_first(), s.first(), key);
        assert(s =~= seq![s.first()] + s.drop_first());
        if key == kv.0 {
            lemma_cassoc_get_none(s.drop_first(), key);
        } else {
            assert(cassoc_get(t, key) == cassoc_get(s.drop_first(), key));
            assert(cassoc_get(s, key) == cassoc_get(s.drop_first(), key));
        }
    } else {
        lemma_cunique_drop_first(s);
        lemma_cassoc_set_get(s.drop_first(), kv, key);
        lemma_cassoc_get_prepend(cassoc_set(s.drop_first(), kv), s.first(), key);
        lemma_cassoc_get_prepend(s.drop_first(), s.first(), key);
        assert(s =~= seq![s.first()] + s.drop_first());
        assert(cassoc_set(s, kv) =~= seq![s.first()] + cassoc_set(s.drop_first(), kv));
        if key == kv.0 {
            assert(s.first().0 != key);
            assert(cassoc_get(cassoc_set(s.drop_first(), kv), key) == Some(kv.1));
            assert(cassoc_get(cassoc_set(s, kv), key) == Some(kv.1));
        } else {
            assert(cassoc_get(cassoc_set(s.drop_first(), kv), key) == cassoc_get(
                s.drop_first(),
                key,
            ));
            if cassoc_get(s.drop_first(), key) is Some {
                assert(cassoc_get(cassoc_set(s, kv), key) == cassoc_get(s.drop_first(), key));
                assert(cassoc_get(s, key) == cassoc_get(s.drop_first(), key));
            } else if s.first().0 == key {
                assert(cassoc_get(cassoc_set(s, kv), key) == Some(s.first().1));
                assert(cassoc_get(s, key) == Some(s.first().1));
            } else {
                assert(cassoc_get(cassoc_set(s, kv), key) is None);
                assert(cassoc_get(s, key) is None);
            }
        }
    }
}

/// Setting a key keeps the entries unique.
pub proof fn lemma_cassoc_set_unique<M>(s: Seq<(Seq<char>, M)>, kv: (Seq<char>, M))
    requires
        cassoc_unique(s),
    ensures
        cassoc_unique(cassoc_set(s, kv)),
    decreases s.len(),
{
    if s.len() == 0 {
    } else if s.first().0 == kv.0 {
        let t = cassoc_set(s, kv);
        assert(t =~= seq![kv] + s.drop_first());
        assert forall|i: int, j: int| 0 <= i < j < t.len() implies t[i].0 != t[j].0 by {
            if i == 0 {
                assert(t[j] == s[j]);
                assert(s[0].0 != s[j].0);
            } else {
                assert(t[i] == s[i] && t[j] == s[j]);
            }
        }
    } else {
        lemma_cunique_drop_first(s);
        lemma_cassoc_set_unique(s.drop_first(), kv);
        let t = cassoc_set(s, kv);
        let t1 = cassoc_set(s.drop_first(), kv);
        assert(t =~= seq![s.first()] + t1);
        lemma_cassoc_set_keys(s.drop_first(), kv);
        assert forall|i: int, j: int| 0 <= i < j < t.len() implies t[i].0 != t[j].0 by {
            if i == 0 {
                assert(t[j] == t1[j - 1]);
                if exists|m: int|
                    0 <= m < s.drop_first().len() && s.drop_first()[m].0 == t1[j - 1].0 {
                    let m = choose|m: int|
                        0 <= m < s.drop_first().len() && s.drop_first()[m].0 == t1[j - 1].0;
                    assert(s[m + 1].0 != s[0].0);
                } else {
                    assert(t1[j - 1].0 == kv.0);
                }
            } else {
                assert(t[i] == t1[i - 1] && t[j] == t1[j - 1]);
            }
        }
    }
}

/// Every entry of the updated list carries either a key of the old one or
/// the set key.
pub proof fn lemma_cassoc_set_keys<M>(s: Seq<(Seq<char>, M)>, kv: (Seq<char>, M))
    ensures
        forall|i: int| 0 <= i < cassoc_set(s, kv).len() ==> (exists|m: int|
            0 <= m < s.len() && s[m].0 == #[trigger] cassoc_set(s, kv)[i].0) || cassoc_set(s, kv)[i].0
            == kv.0,
    decreases s.len(),
{
    if s.len() == 0 {
    } else if s.first().0 == kv.0 {
        let t = cassoc_set(s, kv);
        assert(t =~= seq![kv] + s.drop_first());
        assert forall|i: int| 0 <= i < t.len() implies (exists|m: int|
            0 <= m < s.len() && s[m].0 == t[i].0) || t[i].0 == kv.0 by {
            if i > 0 {
                assert(s[i] == t[i]);
                assert(0 <= i < s.len() && s[i].0 == t[i].0);
            }
        }
    } else {
        lemma_cassoc_set_keys(s.drop_first(), kv);
        let t = cassoc_set(s, kv);
        let t1 = cassoc_set(s.drop_first(), kv);
        assert(t =~= seq![s.first()] + t1);
        assert forall|i: int| 0 <= i < t.len() implies (exists|m: int|
            0 <= m < s.len() && s[m].0 == t[i].0) || t[i].0 == kv.0 by {
            if i == 0 {
                assert(0 <= 0 < s.len() && s[0].0 == t[0].0);
            } else {
                assert(t[i] == t1[i - 1]);
                if exists|m: int|
                    0 <= m < s.drop_first().len() && s.drop_first()[m].0 == t1[i - 1].0 {
                    let m = choose|m: int|
                        0 <= m < s.drop_first().len() && s.drop_first()[m].0 == t1[i - 1].0;
                    assert(s[m + 1].0 == t[i].0);
                }
            }
        }
    }
}

/// Looks the key up, returning a reference to the last entry that carries
/// it.
pub fn assoc_lookup<'a, V: View>(v: &'a Vec<(String, V)>, key: &str) -> (r: Option<&'a V>)
    ensures
        match r {
            Some(x) => cassoc_get(kv_views(v@), key@) == Some(x@),
            None => cassoc_get(kv_views(v@), key@) is None,
        },
{
    let ghost dv = kv_views(v@);
    let mut i: usize = v.len();
    proof {
        assert(dv.subrange(0, dv.len() as int) =~= dv);
    }
    while i > 0
        invariant
            dv == kv_views(v@),
            i <= v@.len(),
            cassoc_get(dv, key@) == cassoc_get(dv.subrange(0, i as int), key@),
        decreases i,
    {
        i = i - 1;
        proof {
            assert(dv.subrange(0, i + 1).last() == dv[i as int]);
            assert(dv.subrange(0, i + 1).drop_last() =~= dv.subrange(0, i as int));
        }
        if str_eq(v[i].0.as_str(), key) {
            return Some(&v[i].1);
        }
    }
    proof {
        assert(dv.subrange(0, 0) =~= Seq::<(Seq<char>, V::V)>::empty());
    }
    None
}

/// Stores `val` under `key`: replaces the first entry with that key, else
/// appends a new entry.
pub fn assoc_set<V: View>(v: &mut Vec<(String, V)>, key: String, val: V)
    ensures
        kv_views(final(v)@) == cassoc_set(kv_views(old(v)@), (key@, val@)),
{
    let ghost kv = (key@, val@);
    let ghost dv = kv_views(v@);
    let mut i: usize = 0;
    while i < v.len()
        invariant
            v@ == old(v)@,
            dv == kv_views(v@),
            i <= v@.len(),
            kv == (key@, val@),
            forall|j: int| 0 <= j < i ==> kv_views(v@)[j].0 != key@,
        decreases v@.len() - i,
    {
        let eq = str_eq(v[i].0.as_str(), key.as_str());
        if eq {
            v.set(i, (key, val));
            proof {
                lemma_cassoc_set_at(dv, kv, i as int);
                assert(kv_views(v@) =~= dv.update(i as int, kv));
            }
            return;
        }
        i = i + 1;
    }
    v.push((key, val));
    proof {
        lemma_cassoc_set_absent(dv, kv);
        assert(kv_views(v@) =~= dv.push(kv));
    }
}

} // verus!

verus! {

/// Two stores under one key collapse to the second store.
pub proof fn lemma_cassoc_set_set<M>(s: Seq<(Seq<char>, M)>, kv1: (Seq<char>, M), kv2: (Seq<char>, M))
    requires
        kv1.0 == kv2.0,
    ensures
        cassoc_set(cassoc_set(s, kv1), kv2) == cassoc_set(s, kv2),
    decreases s.len(),
{
    if s.len() == 0 {
        assert(cassoc_set(s, kv1) =~= seq![kv1]);
        assert(cassoc_set(cassoc_set(s, kv1), kv2) =~= seq![kv2]);
        assert(cassoc_set(s, kv2) =~= seq![kv2]);
    } else if s.first().0 == kv1.0 {
        let t = cassoc_set(s, kv1);
        assert(t =~= seq![kv1] + s.drop_first());
        assert(t.first() == kv1);
        assert(t.drop_first() =~= s.drop_first());
        assert(cassoc_set(t, kv2) =~= seq![kv2] + s.drop_first());
        assert(cassoc_set(s, kv2) =~= seq![kv2] + s.drop_first());
    } else {
        lemma_cassoc_set_set(s.drop_first(), kv1, kv2);
        let t = cassoc_set(s, kv1);
        assert(t =~= seq![s.first()] + cassoc_set(s.drop_first(), kv1));
        assert(t.first() == s.first());
        assert(t.drop_first() =~= cassoc_set(s.drop_first(), kv1));
        assert(cassoc_set(t, kv2) =~= seq![s.first()] + cassoc_set(
            cassoc_set(s.drop_first(), kv1),
            kv2,
        ));
        assert(cassoc_set(s, kv2) =~= seq![s.first()] + cassoc_set(s.drop_first(), kv2));
    }
}

} // verus!
