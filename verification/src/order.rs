//! Stable sorting, as `slice::sort_by` does it: by integer keys, and by
//! text in the order of `str::cmp`.

use vstd::prelude::*;

verus! {

/// `perm` lists the indices `0..keys.len()`, each once, ordered by key, and
/// indices with equal keys keep their original order: it is the order in
/// which a stable sort by these keys puts the elements.
pub open spec fn is_stable_order(keys: Seq<i128>, perm: Seq<usize>) -> bool {
    &&& perm.len() == keys.len()
    &&& forall|i: int| 0 <= i < perm.len() ==> #[trigger] perm[i] < keys.len()
    &&& forall|i: int, j: int|
        0 <= i < perm.len() && 0 <= j < perm.len() && i != j ==> perm[i] != perm[j]
    &&& forall|m: int| 0 <= m < keys.len() ==> #[trigger] perm.contains(m as usize)
    &&& forall|i: int, j: int|
        #![trigger perm[i], perm[j]]
        0 <= i < j < perm.len() ==> keys[perm[i] as int] <= keys[perm[j] as int]
    &&& forall|i: int, j: int|
        #![trigger perm[i], perm[j]]
        0 <= i < j < perm.len() && keys[perm[i] as int] == keys[perm[j] as int] ==> perm[i]
            < perm[j]
}

/// The order in which a stable sort by `keys` puts the elements.
pub fn stable_order(keys: &Vec<i128>) -> (perm: Vec<usize>)
    ensures
        is_stable_order(keys@, perm@),
{
    let mut perm: Vec<usize> = Vec::new();
    for k in 0..keys.len()
        invariant
            perm.len() == k,
            forall|i: int| 0 <= i < perm.len() ==> #[trigger] perm@[i] < k,
            forall|i: int, j: int|
                0 <= i < perm.len() && 0 <= j < perm.len() && i != j ==> perm@[i] != perm@[j],
            forall|m: int| 0 <= m < k ==> #[trigger] perm@.contains(m as usize),
            forall|i: int, j: int|
                #![trigger perm@[i], perm@[j]]
                0 <= i < j < perm.len() ==> keys@[perm@[i] as int] <= keys@[perm@[j] as int],
            forall|i: int, j: int|
                #![trigger perm@[i], perm@[j]]
                0 <= i < j < perm.len() && keys@[perm@[i] as int] == keys@[perm@[j] as int]
                    ==> perm@[i] < perm@[j],
    {
        let key = keys[k];
        let mut p: usize = perm.len();
        while p > 0 && keys[perm[p - 1]] > key
            invariant
                p <= perm.len(),
                perm.len() == k,
                k < keys.len(),
                key == keys@[k as int],
                forall|i: int| 0 <= i < perm.len() ==> #[trigger] perm@[i] < k,
                forall|i: int| p <= i < perm.len() ==> keys@[#[trigger] perm@[i] as int] > key,
            decreases p,
        {
            p = p - 1;
        }
        let ghost old_perm = perm@;
        perm.insert(p, k);
        assert forall|i: int| 0 <= i < p implies keys@[#[trigger] old_perm[i] as int] <= key by {
            if p > 0 {
                let last = old_perm[p - 1];
                assert(keys@[last as int] <= key);
                if i < p - 1 {
                    assert(keys@[old_perm[i] as int] <= keys@[old_perm[p - 1] as int]);
                }
            }
        }
        assert forall|m: int| 0 <= m < k + 1 implies #[trigger] perm@.contains(m as usize) by {
            if m == k {
                assert(perm@[p as int] == k);
            } else {
                assert(old_perm.contains(m as usize));
                let j = choose|j: int| 0 <= j < old_perm.len() && old_perm[j] == m as usize;
                if j < p {
                    assert(perm@[j] == old_perm[j]);
                } else {
                    assert(perm@[j + 1] == old_perm[j]);
                }
            }
        }
        assert forall|i: int| 0 <= i < perm.len() implies #[trigger] perm@[i] < k + 1 by {
            if i < p {
                assert(perm@[i] == old_perm[i]);
            } else if i > p {
                assert(perm@[i] == old_perm[i - 1]);
            }
        }
        assert forall|i: int, j: int|
            0 <= i < perm.len() && 0 <= j < perm.len() && i != j implies perm@[i] != perm@[j] by {
            let a = if i < p { i } else if i > p { i - 1 } else { -1 };
            let b = if j < p { j } else if j > p { j - 1 } else { -1 };
            if a >= 0 {
                assert(perm@[i] == old_perm[a]);
            }
            if b >= 0 {
                assert(perm@[j] == old_perm[b]);
            }
        }
        assert forall|i: int, j: int|
            #![trigger perm@[i], perm@[j]]
            0 <= i < j < perm.len() implies keys@[perm@[i] as int] <= keys@[perm@[j] as int]
            && (keys@[perm@[i] as int] == keys@[perm@[j] as int] ==> perm@[i] < perm@[j]) by {
            if j < p {
                assert(perm@[i] == old_perm[i] && perm@[j] == old_perm[j]);
            } else if i > p {
                assert(perm@[i] == old_perm[i - 1] && perm@[j] == old_perm[j - 1]);
            } else if i == p {
                assert(perm@[j] == old_perm[j - 1]);
                assert(keys@[old_perm[j - 1] as int] > key);
            } else if j == p {
                assert(perm@[i] == old_perm[i]);
                assert(keys@[old_perm[i] as int] <= key);
            } else {
                assert(perm@[i] == old_perm[i] && perm@[j] == old_perm[j - 1]);
                assert(keys@[old_perm[i] as int] <= key);
                assert(keys@[old_perm[j - 1] as int] > key);
            }
        }
    }
    perm
}

/// `a` comes before `b` in the order of `str::cmp`: the order of the UTF-8
/// bytes, which is the order of the code points, a proper prefix first.
pub open spec fn text_lt(a: Seq<char>, b: Seq<char>) -> bool
    decreases a.len(),
{
    if a.len() == 0 {
        b.len() > 0
    } else if b.len() == 0 {
        false
    } else if a[0] != b[0] {
        a[0] < b[0]
    } else {
        text_lt(a.drop_first(), b.drop_first())
    }
}

pub open spec fn text_le(a: Seq<char>, b: Seq<char>) -> bool {
    a == b || text_lt(a, b)
}

pub proof fn lemma_text_lt_irreflexive(a: Seq<char>)
    ensures
        !text_lt(a, a),
    decreases a.len(),
{
    if a.len() > 0 {
        lemma_text_lt_irreflexive(a.drop_first());
    }
}

pub proof fn lemma_text_lt_transitive(a: Seq<char>, b: Seq<char>, c: Seq<char>)
    requires
        text_lt(a, b),
        text_lt(b, c),
    ensures
        text_lt(a, c),
    decreases a.len(),
{
    if a.len() > 0 && b.len() > 0 && c.len() > 0 && a[0] == b[0] && b[0] == c[0] {
        lemma_text_lt_transitive(a.drop_first(), b.drop_first(), c.drop_first());
    }
}

pub proof fn lemma_text_lt_total(a: Seq<char>, b: Seq<char>)
    requires
        a != b,
    ensures
        text_lt(a, b) || text_lt(b, a),
    decreases a.len(),
{
    if a.len() > 0 && b.len() > 0 && a[0] == b[0] {
        if a.drop_first() =~= b.drop_first() {
            assert(a =~= b) by {
                assert forall|i: int| 0 <= i < a.len() implies a[i] == b[i] by {
                    if i > 0 {
                        assert(a[i] == a.drop_first()[i - 1]);
                        assert(b[i] == b.drop_first()[i - 1]);
                    }
                }
            }
        } else {
            lemma_text_lt_total(a.drop_first(), b.drop_first());
        }
    } else if a.len() == 0 && b.len() == 0 {
        assert(a =~= b);
    }
}

/// Whether `a` comes before `b` in the order of `str::cmp`.
pub fn text_less(a: &Vec<char>, b: &Vec<char>) -> (r: bool)
    ensures
        r == text_lt(a@, b@),
{
    let mut i: usize = 0;
    assert(a@.skip(0) =~= a@);
    assert(b@.skip(0) =~= b@);
    while i < a.len() && i < b.len()
        invariant
            i <= a.len(),
            i <= b.len(),
            text_lt(a@, b@) == text_lt(a@.skip(i as int), b@.skip(i as int)),
        decreases a.len() - i,
    {
        assert(a@.skip(i as int)[0] == a@[i as int]);
        assert(b@.skip(i as int)[0] == b@[i as int]);
        if a[i] != b[i] {
            return a[i] < b[i];
        }
        assert(a@.skip(i as int).drop_first() =~= a@.skip(i + 1));
        assert(b@.skip(i as int).drop_first() =~= b@.skip(i + 1));
        i = i + 1;
    }
    assert(a@.skip(i as int).len() == a.len() - i);
    assert(b@.skip(i as int).len() == b.len() - i);
    i == a.len() && i < b.len()
}

pub open spec fn texts(keys: Seq<Vec<char>>) -> Seq<Seq<char>> {
    keys.map_values(|k: Vec<char>| k@)
}

/// `perm` lists the indices `0..keys.len()`, each once, ordered by text,
/// and indices with equal texts keep their original order: it is the order
/// in which a stable sort by these texts puts the elements.
pub open spec fn is_stable_text_order(keys: Seq<Seq<char>>, perm: Seq<usize>) -> bool {
    &&& perm.len() == keys.len()
    &&& forall|i: int| 0 <= i < perm.len() ==> #[trigger] perm[i] < keys.len()
    &&& forall|i: int, j: int|
        0 <= i < perm.len() && 0 <= j < perm.len() && i != j ==> perm[i] != perm[j]
    &&& forall|m: int| 0 <= m < keys.len() ==> #[trigger] perm.contains(m as usize)
    &&& forall|i: int, j: int|
        #![trigger perm[i], perm[j]]
        0 <= i < j < perm.len() ==> text_le(keys[perm[i] as int], keys[perm[j] as int])
    &&& forall|i: int, j: int|
        #![trigger perm[i], perm[j]]
        0 <= i < j < perm.len() && keys[perm[i] as int] == keys[perm[j] as int] ==> perm[i]
            < perm[j]
}

/// The order in which a stable sort by `keys`, compared as `str::cmp`
/// compares them, puts the elements.
pub fn stable_text_order(keys: &Vec<Vec<char>>) -> (perm: Vec<usize>)
    ensures
        is_stable_text_order(texts(keys@), perm@),
{
    let ghost ks = texts(keys@);
    let mut perm: Vec<usize> = Vec::new();
    for k in 0..keys.len()
        invariant
            ks == texts(keys@),
            perm.len() == k,
            forall|i: int| 0 <= i < perm.len() ==> #[trigger] perm@[i] < k,
            forall|i: int, j: int|
                0 <= i < perm.len() && 0 <= j < perm.len() && i != j ==> perm@[i] != perm@[j],
            forall|m: int| 0 <= m < k ==> #[trigger] perm@.contains(m as usize),
            forall|i: int, j: int|
                #![trigger perm@[i], perm@[j]]
                0 <= i < j < perm.len() ==> text_le(ks[perm@[i] as int], ks[perm@[j] as int]),
            forall|i: int, j: int|
                #![trigger perm@[i], perm@[j]]
                0 <= i < j < perm.len() && ks[perm@[i] as int] == ks[perm@[j] as int]
                    ==> perm@[i] < perm@[j],
    {
        let key = &keys[k];
        let mut p: usize = perm.len();
        while p > 0 && text_less(key, &keys[perm[p - 1]])
            invariant
                p <= perm.len(),
                perm.len() == k,
                k < keys.len(),
                ks == texts(keys@),
                key@ == ks[k as int],
                forall|i: int| 0 <= i < perm.len() ==> #[trigger] perm@[i] < k,
                forall|i: int|
                    p <= i < perm.len() ==> text_lt(key@, ks[#[trigger] perm@[i] as int]),
            decreases p,
        {
            p = p - 1;
        }
        let ghost old_perm = perm@;
        let ghost kv = key@;
        perm.insert(p, k);
        assert forall|i: int| 0 <= i < p implies text_le(ks[#[trigger] old_perm[i] as int], kv) by {
            let last = ks[old_perm[p - 1] as int];
            if last != kv {
                lemma_text_lt_total(last, kv);
            }
            if i < p - 1 {
                let x = ks[old_perm[i] as int];
                assert(text_le(x, last));
                if x != last && last != kv {
                    lemma_text_lt_transitive(x, last, kv);
                }
            }
        }
        assert forall|m: int| 0 <= m < k + 1 implies #[trigger] perm@.contains(m as usize) by {
            if m == k {
                assert(perm@[p as int] == k);
            } else {
                assert(old_perm.contains(m as usize));
                let j = choose|j: int| 0 <= j < old_perm.len() && old_perm[j] == m as usize;
                if j < p {
                    assert(perm@[j] == old_perm[j]);
                } else {
                    assert(perm@[j + 1] == old_perm[j]);
                }
            }
        }
        assert forall|i: int| 0 <= i < perm.len() implies #[trigger] perm@[i] < k + 1 by {
            if i < p {
                assert(perm@[i] == old_perm[i]);
            } else if i > p {
                assert(perm@[i] == old_perm[i - 1]);
            }
        }
        assert forall|i: int, j: int|
            0 <= i < perm.len() && 0 <= j < perm.len() && i != j implies perm@[i] != perm@[j] by {
            let a = if i < p { i } else if i > p { i - 1 } else { -1 };
            let b = if j < p { j } else if j > p { j - 1 } else { -1 };
            if a >= 0 {
                assert(perm@[i] == old_perm[a]);
            }
            if b >= 0 {
                assert(perm@[j] == old_perm[b]);
            }
        }
        assert forall|i: int, j: int|
            #![trigger perm@[i], perm@[j]]
            0 <= i < j < perm.len() implies text_le(ks[perm@[i] as int], ks[perm@[j] as int])
            && (ks[perm@[i] as int] == ks[perm@[j] as int] ==> perm@[i] < perm@[j]) by {
            if j < p {
                assert(perm@[i] == old_perm[i] && perm@[j] == old_perm[j]);
            } else if i > p {
                assert(perm@[i] == old_perm[i - 1] && perm@[j] == old_perm[j - 1]);
            } else if i == p {
                assert(perm@[j] == old_perm[j - 1]);
                assert(text_lt(kv, ks[old_perm[j - 1] as int]));
                lemma_text_lt_irreflexive(kv);
            } else if j == p {
                assert(perm@[i] == old_perm[i]);
                assert(text_le(ks[old_perm[i] as int], kv));
            } else {
                assert(perm@[i] == old_perm[i] && perm@[j] == old_perm[j - 1]);
                let x = ks[old_perm[i] as int];
                let y = ks[old_perm[j - 1] as int];
                assert(text_le(x, kv));
                assert(text_lt(kv, y));
                if x != kv {
                    lemma_text_lt_transitive(x, kv, y);
                }
                lemma_text_lt_irreflexive(y);
            }
        }
    }
    perm
}

} // verus!
