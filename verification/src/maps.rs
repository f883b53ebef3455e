//! Name-to-value mappings kept as association lists in insertion order.
//! A later binding of the same name wins, as the lookup spec scans from
//! the end.

use vstd::prelude::*;

verus! {

/// The binding of `k` in `s`, where the latest binding wins.
pub open spec fn spec_assoc_get<T>(s: Seq<(Seq<char>, T)>, k: Seq<char>) -> Option<T>
    decreases s.len(),
{
    if s.len() == 0 {
        None
    } else if s.last().0 == k {
        Some(s.last().1)
    } else {
        spec_assoc_get(s.drop_last(), k)
    }
}

/// The mathematical view of an association list.
pub open spec fn assoc_view<V: View>(m: Seq<(String, V)>) -> Seq<(Seq<char>, V::V)> {
    m.map_values(|p: (String, V)| (p.0@, p.1@))
}

/// Lookup of the latest binding of `k`.
pub fn assoc_get<'a, V: View>(m: &'a Vec<(String, V)>, k: &String) -> (r: Option<&'a V>)
    ensures
        match r {
            Some(v) => spec_assoc_get(assoc_view(m@), k@) == Some(v@),
            None => spec_assoc_get(assoc_view(m@), k@) is None,
        },
{
    let ghost full = assoc_view(m@);
    proof {
        assert(full.take(m@.len() as int) =~= full);
    }
    let mut i: usize = m.len();
    while i > 0
        invariant
            0 <= i <= m.len(),
            full == assoc_view(m@),
            full.len() == m@.len(),
            forall|j: int| 0 <= j < m@.len() ==> full[j] == (m@[j].0@, m@[j].1@),
            spec_assoc_get(full, k@) == spec_assoc_get(full.take(i as int), k@),
        decreases i,
    {
        let idx = i - 1;
        if m[idx].0 == *k {
            proof {
                assert(full.take(i as int).last() == (m@[idx as int].0@, m@[idx as int].1@));
            }
            return Some(&m[idx].1);
        }
        proof {
            assert(full.take(i as int).last().0 != k@);
            assert(full.take(i as int).drop_last() =~= full.take(idx as int));
        }
        i = idx;
    }
    proof {
        assert(full.take(0) =~= Seq::<(Seq<char>, V::V)>::empty());
    }
    None
}

proof fn lemma_assoc_update_other<T>(s: Seq<(Seq<char>, T)>, i: int, p: (Seq<char>, T), k2: Seq<char>)
    requires
        0 <= i < s.len(),
        p.0 == s[i].0,
        k2 != p.0,
    ensures
        spec_assoc_get(s.update(i, p), k2) == spec_assoc_get(s, k2),
    decreases s.len(),
{
    let s2 = s.update(i, p);
    if i == s.len() - 1 {
        assert(s2.last() == p);
        assert(s2.drop_last() =~= s.drop_last());
    } else {
        assert(s2.last() == s.last());
        if s.last().0 == k2 {
        } else {
            assert(s2.drop_last() =~= s.drop_last().update(i, p));
            lemma_assoc_update_other(s.drop_last(), i, p, k2);
        }
    }
}

proof fn lemma_assoc_update_last<T>(s: Seq<(Seq<char>, T)>, i: int, p: (Seq<char>, T))
    requires
        0 <= i < s.len(),
        p.0 == s[i].0,
        forall|j: int| i < j < s.len() ==> s[j].0 != p.0,
    ensures
        spec_assoc_get(s.update(i, p), p.0) == Some(p.1),
    decreases s.len(),
{
    let s2 = s.update(i, p);
    if i == s.len() - 1 {
        assert(s2.last() == p);
    } else {
        assert(s2.last() == s.last());
        assert(s.last().0 != p.0);
        assert(s2.drop_last() =~= s.drop_last().update(i, p));
        lemma_assoc_update_last(s.drop_last(), i, p);
    }
}

/// A found binding is one of the list's entries.
pub proof fn lemma_assoc_get_is_entry<T>(s: Seq<(Seq<char>, T)>, k: Seq<char>)
    ensures
        spec_assoc_get(s, k) matches Some(v) ==> exists|i: int|
            0 <= i < s.len() && #[trigger] s[i] == (k, v),
    decreases s.len(),
{
    if s.len() > 0 {
        if s.last().0 == k {
            assert(s[s.len() - 1] == (k, s.last().1));
        } else {
            lemma_assoc_get_is_entry(s.drop_last(), k);
            match spec_assoc_get(s.drop_last(), k) {
                Some(v) => {
                    let i = choose|i: int|
                        0 <= i < s.drop_last().len() && #[trigger] s.drop_last()[i] == (k, v);
                    assert(s[i] == (k, v));
                },
                None => {},
            }
        }
    }
}

/// Binds `k` to `v`: replaces the latest binding of `k` in place, or appends
/// a fresh one. Bindings of every other name are unchanged.
pub fn assoc_insert<V: View>(m: &mut Vec<(String, V)>, k: String, v: V)
    ensures
        spec_assoc_get(assoc_view(final(m)@), k@) == Some(v@),
        forall|k2: Seq<char>|
            k2 != k@ ==> #[trigger] spec_assoc_get(assoc_view(final(m)@), k2) == spec_assoc_get(
                assoc_view(old(m)@),
                k2,
            ),
        forall|i: int|
            0 <= i < assoc_view(final(m)@).len() ==> ((#[trigger] assoc_view(final(m)@)[i]) == (
            k@,
            v@,
            ) || exists|j: int|
                0 <= j < assoc_view(old(m)@).len() && assoc_view(final(m)@)[i] == assoc_view(
                    old(m)@,
                )[j]),
{
    let ghost full = assoc_view(m@);
    let mut found: Option<usize> = None;
    let mut i: usize = m.len();
    while i > 0 && found.is_none()
        invariant
            0 <= i <= m.len(),
            full == assoc_view(m@),
            full.len() == m@.len(),
            forall|j: int| 0 <= j < m@.len() ==> full[j] == (m@[j].0@, m@[j].1@),
            match found {
                Some(fi) => fi < m@.len() && m@[fi as int].0@ == k@ && forall|j: int|
                    fi < j < m@.len() ==> full[j].0 != k@,
                None => forall|j: int| i <= j < m@.len() ==> full[j].0 != k@,
            },
        decreases i,
    {
        let idx = i - 1;
        if m[idx].0 == k {
            found = Some(idx);
        }
        i = idx;
    }
    match found {
        Some(fi) => {
            let ghost pview = (k@, v@);
            m[fi] = (k, v);
            proof {
                assert(assoc_view(m@) =~= full.update(fi as int, pview));
                lemma_assoc_update_last(full, fi as int, pview);
                assert forall|k2: Seq<char>|
                    k2 != k@ implies #[trigger] spec_assoc_get(assoc_view(m@), k2)
                    == spec_assoc_get(full, k2) by {
                    lemma_assoc_update_other(full, fi as int, pview, k2);
                }
                assert forall|i: int|
                    0 <= i < assoc_view(m@).len() implies ((#[trigger] assoc_view(m@)[i]) == pview
                    || exists|j: int|
                        0 <= j < full.len() && assoc_view(m@)[i] == full[j]) by {
                    if i != fi as int {
                        assert(assoc_view(m@)[i] == full[i]);
                    }
                }
            }
        },
        None => {
            let ghost pview = (k@, v@);
            m.push((k, v));
            proof {
                assert(assoc_view(m@) =~= full.push(pview));
                assert(assoc_view(m@).last() == pview);
                assert(assoc_view(m@).drop_last() =~= full);
                assert forall|i: int|
                    0 <= i < assoc_view(m@).len() implies ((#[trigger] assoc_view(m@)[i]) == pview
                    || exists|j: int|
                        0 <= j < full.len() && assoc_view(m@)[i] == full[j]) by {
                    if i < full.len() {
                        assert(assoc_view(m@)[i] == full[i]);
                    }
                }
            }
        },
    }
}

} // verus!
