//! Finite maps held as sequences of (key, value) entries with distinct keys.
use vstd::prelude::*;

verus! {

/// The value stored under `k`; the last entry wins.
pub open spec fn lookup<V>(s: Seq<(Seq<u8>, V)>, k: Seq<u8>) -> Option<V>
    decreases s.len(),
{
    if s.len() == 0 {
        None
    } else if s.last().0 == k {
        Some(s.last().1)
    } else {
        lookup(s.drop_last(), k)
    }
}

pub open spec fn keys_distinct<V>(s: Seq<(Seq<u8>, V)>) -> bool {
    forall|i: int, j: int| 0 <= i < s.len() && 0 <= j < s.len() && i != j ==> #[trigger] s[i].0 != #[trigger] s[j].0
}

pub proof fn lemma_lookup_absent<V>(s: Seq<(Seq<u8>, V)>, k: Seq<u8>)
    requires
        forall|i: int| 0 <= i < s.len() ==> (#[trigger] s[i]).0 != k,
    ensures
        lookup(s, k) is None,
    decreases s.len(),
{
    if s.len() > 0 {
        assert(s.last() == s[s.len() - 1]);
        lemma_lookup_absent(s.drop_last(), k);
    }
}

pub proof fn lemma_lookup_present<V>(s: Seq<(Seq<u8>, V)>, i: int)
    requires
        keys_distinct(s),
        0 <= i < s.len(),
    ensures
        lookup(s, s[i].0) == Some(s[i].1),
    decreases s.len(),
{
    if i < s.len() - 1 {
        assert(s[s.len() - 1].0 != s[i].0);
        assert(s.drop_last()[i] == s[i]);
        lemma_lookup_present(s.drop_last(), i);
    }
}

pub proof fn lemma_lookup_push<V>(s: Seq<(Seq<u8>, V)>, e: (Seq<u8>, V))
    ensures
        forall|k: Seq<u8>| #[trigger] lookup(s.push(e), k) == if k == e.0 { Some(e.1) } else { lookup(s, k) },
{
    assert(s.push(e).drop_last() =~= s);
}

pub proof fn lemma_lookup_update<V>(s: Seq<(Seq<u8>, V)>, idx: int, e: (Seq<u8>, V))
    requires
        keys_distinct(s),
        0 <= idx < s.len(),
        s[idx].0 == e.0,
    ensures
        forall|k: Seq<u8>| #[trigger] lookup(s.update(idx, e), k) == if k == e.0 { Some(e.1) } else { lookup(s, k) },
    decreases s.len(),
{
    let s2 = s.update(idx, e);
    assert(s.last() == s[s.len() - 1]);
    assert(s2.last() == s2[s.len() - 1]);
    if idx == s.len() - 1 {
        assert(s2.drop_last() =~= s.drop_last());
    } else {
        assert(s2.drop_last() =~= s.drop_last().update(idx, e));
        assert(s[s.len() - 1].0 != s[idx].0);
        assert(keys_distinct(s.drop_last())) by {
            assert forall|i: int, j: int|
                0 <= i < s.len() - 1 && 0 <= j < s.len() - 1 && i != j implies #[trigger] s.drop_last()[i].0
                != #[trigger] s.drop_last()[j].0 by {
                assert(s.drop_last()[i] == s[i]);
                assert(s.drop_last()[j] == s[j]);
            }
        }
        lemma_lookup_update(s.drop_last(), idx, e);
    }
    assert forall|k: Seq<u8>| #[trigger] lookup(s2, k) == if k == e.0 { Some(e.1) } else { lookup(s, k) } by {
        if idx < s.len() - 1 {
            assert(lookup(s.drop_last().update(idx, e), k) == if k == e.0 { Some(e.1) } else { lookup(s.drop_last(), k) });
        }
    }
}

proof fn lemma_prefix_distinct<V>(s: Seq<(Seq<u8>, V)>)
    requires
        keys_distinct(s),
        s.len() > 0,
    ensures
        keys_distinct(s.drop_last()),
{
    assert forall|i: int, j: int|
        0 <= i < s.len() - 1 && 0 <= j < s.len() - 1 && i != j implies #[trigger] s.drop_last()[i].0
        != #[trigger] s.drop_last()[j].0 by {
        assert(s.drop_last()[i] == s[i]);
        assert(s.drop_last()[j] == s[j]);
    }
}

pub proof fn lemma_lookup_remove<V>(s: Seq<(Seq<u8>, V)>, idx: int)
    requires
        keys_distinct(s),
        0 <= idx < s.len(),
    ensures
        forall|k: Seq<u8>| #[trigger] lookup(s.remove(idx), k) == if k == s[idx].0 { None } else { lookup(s, k) },
        keys_distinct(s.remove(idx)),
    decreases s.len(),
{
    let s2 = s.remove(idx);
    assert(s.last() == s[s.len() - 1]);
    lemma_prefix_distinct(s);
    if idx == s.len() - 1 {
        assert(s2 =~= s.drop_last());
        assert forall|i: int| 0 <= i < s.drop_last().len() implies (#[trigger] s.drop_last()[i]).0 != s[idx].0 by {
            assert(s.drop_last()[i] == s[i]);
        }
        lemma_lookup_absent(s.drop_last(), s[idx].0);
    } else {
        assert(s2.drop_last() =~= s.drop_last().remove(idx));
        assert(s2.last() == s2[s2.len() - 1]);
        assert(s2[s2.len() - 1] == s[s.len() - 1]);
        assert(s[s.len() - 1].0 != s[idx].0);
        lemma_lookup_remove(s.drop_last(), idx);
        assert(s.drop_last()[idx] == s[idx]);
        assert forall|k: Seq<u8>| #[trigger] lookup(s2, k) == if k == s[idx].0 { None } else { lookup(s, k) } by {
            assert(lookup(s.drop_last().remove(idx), k) == if k == s[idx].0 { None } else { lookup(s.drop_last(), k) });
        }
    }
    assert forall|i: int, j: int| 0 <= i < s2.len() && 0 <= j < s2.len() && i != j implies #[trigger] s2[i].0
        != #[trigger] s2[j].0 by {
        let i0 = if i < idx { i } else { i + 1 };
        let j0 = if j < idx { j } else { j + 1 };
        assert(s2[i] == s[i0]);
        assert(s2[j] == s[j0]);
    }
}

/// Byte strings in lexicographic order: the order of `Vec<u8>`.
pub open spec fn key_lt(a: Seq<u8>, b: Seq<u8>) -> bool
    decreases a.len(),
{
    if b.len() == 0 {
        false
    } else if a.len() == 0 {
        true
    } else if a[0] != b[0] {
        a[0] < b[0]
    } else {
        key_lt(a.drop_first(), b.drop_first())
    }
}

/// Keys strictly increase along `s`.
pub open spec fn keys_sorted<V>(s: Seq<(Seq<u8>, V)>) -> bool {
    forall|i: int, j: int| 0 <= i < j < s.len() ==> key_lt(#[trigger] s[i].0, #[trigger] s[j].0)
}

pub proof fn lemma_key_lt_irreflexive(a: Seq<u8>)
    ensures
        !key_lt(a, a),
    decreases a.len(),
{
    if a.len() > 0 {
        lemma_key_lt_irreflexive(a.drop_first());
    }
}

pub proof fn lemma_key_lt_total(a: Seq<u8>, b: Seq<u8>)
    requires
        a != b,
    ensures
        key_lt(a, b) || key_lt(b, a),
    decreases a.len(),
{
    if a.len() > 0 && b.len() > 0 && a[0] == b[0] {
        if a.drop_first() == b.drop_first() {
            assert(a =~= seq![a[0]] + a.drop_first());
            assert(b =~= seq![b[0]] + b.drop_first());
        } else {
            lemma_key_lt_total(a.drop_first(), b.drop_first());
        }
    } else if a.len() == 0 && b.len() == 0 {
        assert(a =~= b);
    }
}

pub proof fn lemma_key_lt_transitive(a: Seq<u8>, b: Seq<u8>, c: Seq<u8>)
    requires
        key_lt(a, b),
        key_lt(b, c),
    ensures
        key_lt(a, c),
    decreases a.len(),
{
    if a.len() > 0 && b.len() > 0 && c.len() > 0 && a[0] == b[0] && b[0] == c[0] {
        lemma_key_lt_transitive(a.drop_first(), b.drop_first(), c.drop_first());
    }
}

pub proof fn lemma_sorted_distinct<V>(s: Seq<(Seq<u8>, V)>)
    requires
        keys_sorted(s),
    ensures
        keys_distinct(s),
{
    assert forall|i: int, j: int| 0 <= i < s.len() && 0 <= j < s.len() && i != j implies #[trigger] s[i].0
        != #[trigger] s[j].0 by {
        lemma_key_lt_irreflexive(s[i].0);
        if i < j {
            assert(key_lt(s[i].0, s[j].0));
        } else {
            assert(key_lt(s[j].0, s[i].0));
        }
    }
}

/// Position `p` is where key `k`, absent from sorted `s`, belongs.
pub open spec fn insert_position<V>(s: Seq<(Seq<u8>, V)>, k: Seq<u8>, p: int) -> bool {
    &&& 0 <= p <= s.len()
    &&& forall|i: int| 0 <= i < p ==> key_lt(#[trigger] s[i].0, k)
    &&& forall|i: int| p <= i < s.len() ==> key_lt(k, #[trigger] s[i].0)
}

/// In sorted `s`, a key above the first `p` keys and below the key at `p`
/// belongs at `p`.
pub proof fn lemma_insert_position<V>(s: Seq<(Seq<u8>, V)>, k: Seq<u8>, p: int)
    requires
        keys_sorted(s),
        0 <= p <= s.len(),
        forall|i: int| 0 <= i < p ==> key_lt(#[trigger] s[i].0, k),
        p < s.len() ==> key_lt(k, s[p].0),
    ensures
        insert_position(s, k, p),
{
    assert forall|i: int| p <= i < s.len() implies key_lt(k, #[trigger] s[i].0) by {
        if i > p {
            assert(key_lt(s[p].0, s[i].0));
            lemma_key_lt_transitive(k, s[p].0, s[i].0);
        }
    }
}

/// Inserting an absent key at its position keeps the keys sorted and adds
/// exactly that entry.
pub proof fn lemma_lookup_insert<V>(s: Seq<(Seq<u8>, V)>, p: int, e: (Seq<u8>, V))
    requires
        keys_sorted(s),
        insert_position(s, e.0, p),
    ensures
        keys_sorted(s.insert(p, e)),
        forall|k: Seq<u8>| #[trigger] lookup(s.insert(p, e), k) == if k == e.0 { Some(e.1) } else { lookup(s, k) },
{
    let s2 = s.insert(p, e);
    assert forall|i: int, j: int| 0 <= i < j < s2.len() implies key_lt(#[trigger] s2[i].0, #[trigger] s2[j].0) by {
        if j < p {
            assert(s2[i] == s[i] && s2[j] == s[j]);
        } else if j == p {
            assert(s2[i] == s[i]);
        } else if i < p {
            assert(s2[i] == s[i] && s2[j] == s[j - 1]);
            lemma_key_lt_transitive(s[i].0, e.0, s[j - 1].0);
        } else if i == p {
            assert(s2[j] == s[j - 1]);
        } else {
            assert(s2[i] == s[i - 1] && s2[j] == s[j - 1]);
        }
    }
    lemma_sorted_distinct(s);
    lemma_sorted_distinct(s2);
    assert(s2[p] == e);
    lemma_lookup_present(s2, p);
    assert forall|k: Seq<u8>| #[trigger] lookup(s2, k) == if k == e.0 { Some(e.1) } else { lookup(s, k) } by {
        if k != e.0 {
            if exists|i: int| 0 <= i < s.len() && (#[trigger] s[i]).0 == k {
                let i = choose|i: int| 0 <= i < s.len() && (#[trigger] s[i]).0 == k;
                lemma_lookup_present(s, i);
                let i2 = if i < p { i } else { i + 1 };
                assert(s2[i2] == s[i]);
                lemma_lookup_present(s2, i2);
            } else {
                lemma_lookup_absent(s, k);
                assert forall|i: int| 0 <= i < s2.len() implies (#[trigger] s2[i]).0 != k by {
                    if i < p {
                        assert(s2[i] == s[i]);
                    } else if i > p {
                        assert(s2[i] == s[i - 1]);
                    }
                }
                lemma_lookup_absent(s2, k);
            }
        }
    }
}

pub proof fn lemma_sorted_update<V>(s: Seq<(Seq<u8>, V)>, idx: int, e: (Seq<u8>, V))
    requires
        keys_sorted(s),
        0 <= idx < s.len(),
        s[idx].0 == e.0,
    ensures
        keys_sorted(s.update(idx, e)),
{
    assert forall|i: int, j: int| 0 <= i < j < s.len() implies key_lt(#[trigger] s.update(idx, e)[i].0, #[trigger] s.update(idx, e)[j].0) by {
        assert(key_lt(s[i].0, s[j].0));
    }
}

pub proof fn lemma_sorted_remove<V>(s: Seq<(Seq<u8>, V)>, idx: int)
    requires
        keys_sorted(s),
        0 <= idx < s.len(),
    ensures
        keys_sorted(s.remove(idx)),
{
    let s2 = s.remove(idx);
    assert forall|i: int, j: int| 0 <= i < j < s2.len() implies key_lt(#[trigger] s2[i].0, #[trigger] s2[j].0) by {
        let i0 = if i < idx { i } else { i + 1 };
        let j0 = if j < idx { j } else { j + 1 };
        assert(s2[i] == s[i0] && s2[j] == s[j0]);
    }
}

pub proof fn lemma_insert_position_absent<V>(s: Seq<(Seq<u8>, V)>, k: Seq<u8>, p: int)
    requires
        insert_position(s, k, p),
    ensures
        forall|i: int| 0 <= i < s.len() ==> (#[trigger] s[i]).0 != k,
{
    assert forall|i: int| 0 <= i < s.len() implies (#[trigger] s[i]).0 != k by {
        lemma_key_lt_irreflexive(k);
        if i < p {
            assert(key_lt(s[i].0, k));
        } else {
            assert(key_lt(k, s[i].0));
        }
    }
}

/// Whether `a` comes before `b` in lexicographic order.
pub fn bytes_lt(a: &Vec<u8>, b: &Vec<u8>) -> (r: bool)
    ensures
        r == key_lt(a@, b@),
{
    let mut i: usize = 0;
    assert(a@.skip(0) =~= a@ && b@.skip(0) =~= b@);
    while i < a.len() && i < b.len()
        invariant
            i <= a.len(),
            i <= b.len(),
            key_lt(a@, b@) == key_lt(a@.skip(i as int), b@.skip(i as int)),
        decreases a.len() - i,
    {
        if a[i] != b[i] {
            return a[i] < b[i];
        }
        assert(a@.skip(i as int).drop_first() =~= a@.skip(i + 1));
        assert(b@.skip(i as int).drop_first() =~= b@.skip(i + 1));
        i = i + 1;
    }
    i < b.len()
}

/// Whether two byte strings are equal.
pub fn bytes_eq(a: &Vec<u8>, b: &Vec<u8>) -> (r: bool)
    ensures
        r == (a@ == b@),
{
    if a.len() != b.len() {
        return false;
    }
    let mut k: usize = 0;
    while k < a.len()
        invariant
            a.len() == b.len(),
            k <= a.len(),
            forall|j: int| 0 <= j < k ==> a@[j] == b@[j],
        decreases a.len() - k,
    {
        if a[k] != b[k] {
            return false;
        }
        k = k + 1;
    }
    assert(a@ =~= b@);
    true
}

/// A copy of a byte string.
pub fn clone_bytes(a: &Vec<u8>) -> (r: Vec<u8>)
    ensures
        r@ == a@,
{
    let mut r: Vec<u8> = Vec::new();
    let mut k: usize = 0;
    while k < a.len()
        invariant
            k <= a.len(),
            r@ == a@.take(k as int),
        decreases a.len() - k,
    {
        r.push(a[k]);
        k = k + 1;
        assert(r@ =~= a@.take(k as int));
    }
    assert(a@.take(a.len() as int) =~= a@);
    r
}

} // verus!
