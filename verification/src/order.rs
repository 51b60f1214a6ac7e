//! Ordering of names: `str`'s lexicographic order, and a stable sort that
//! orders items by a text key.
use vstd::prelude::*;

verus! {

/// `a <= b` in `str`'s order (code point by code point, a prefix first).
pub open spec fn text_le(a: Seq<char>, b: Seq<char>) -> bool
    decreases a.len(),
{
    if a.len() == 0 {
        true
    } else if b.len() == 0 {
        false
    } else if a[0] < b[0] {
        true
    } else if a[0] > b[0] {
        false
    } else {
        text_le(a.drop_first(), b.drop_first())
    }
}

pub open spec fn text_lt(a: Seq<char>, b: Seq<char>) -> bool {
    text_le(a, b) && a != b
}

pub proof fn lemma_text_le_refl(a: Seq<char>)
    ensures
        text_le(a, a),
    decreases a.len(),
{
    if a.len() > 0 {
        lemma_text_le_refl(a.drop_first());
    }
}

pub proof fn lemma_text_le_total(a: Seq<char>, b: Seq<char>)
    ensures
        text_le(a, b) || text_le(b, a),
    decreases a.len(),
{
    if a.len() > 0 && b.len() > 0 && a[0] == b[0] {
        lemma_text_le_total(a.drop_first(), b.drop_first());
    }
}

pub proof fn lemma_text_le_antisym(a: Seq<char>, b: Seq<char>)
    requires
        text_le(a, b),
        text_le(b, a),
    ensures
        a == b,
    decreases a.len(),
{
    if a.len() == 0 {
        assert(b.len() == 0);
        assert(a =~= b);
    } else {
        assert(b.len() > 0);
        assert(a[0] == b[0]);
        lemma_text_le_antisym(a.drop_first(), b.drop_first());
        assert(a =~= seq![a[0]] + a.drop_first());
        assert(b =~= seq![b[0]] + b.drop_first());
    }
}

pub proof fn lemma_text_le_trans(a: Seq<char>, b: Seq<char>, c: Seq<char>)
    requires
        text_le(a, b),
        text_le(b, c),
    ensures
        text_le(a, c),
    decreases a.len(),
{
    if a.len() > 0 {
        assert(b.len() > 0);
        assert(c.len() > 0);
        if a[0] == b[0] && b[0] == c[0] {
            lemma_text_le_trans(a.drop_first(), b.drop_first(), c.drop_first());
        }
    }
}

/// Item `i` comes before item `j`: a smaller key, or the same key and an
/// earlier position.
pub open spec fn key_before(keys: Seq<Seq<char>>, i: int, j: int) -> bool {
    text_lt(keys[i], keys[j]) || (keys[i] == keys[j] && i < j)
}

/// `order` lists each index of `keys` once, sorted by key, equal keys in
/// their input order: what a stable sort by key yields.
pub open spec fn stable_order(keys: Seq<Seq<char>>, order: Seq<usize>) -> bool {
    &&& order.len() == keys.len()
    &&& forall|i: int| 0 <= i < order.len() ==> (#[trigger] order[i]) < keys.len()
    &&& forall|i: int, j: int|
        0 <= i < j < order.len() ==> key_before(keys, #[trigger] order[i] as int, #[trigger] order[j] as int)
}

/// `a <= b` on characters.
pub fn text_le_exec(a: &Vec<char>, b: &Vec<char>) -> (r: bool)
    ensures
        r == text_le(a@, b@),
{
    let mut i: usize = 0;
    assert(a@.skip(0) =~= a@);
    assert(b@.skip(0) =~= b@);
    while i < a.len() && i < b.len() && a[i] == b[i]
        invariant
            i <= a.len(),
            i <= b.len(),
            text_le(a@, b@) == text_le(a@.skip(i as int), b@.skip(i as int)),
        decreases a.len() - i,
    {
        assert(a@.skip(i as int).drop_first() =~= a@.skip(i + 1));
        assert(b@.skip(i as int).drop_first() =~= b@.skip(i + 1));
        i += 1;
    }
    assert(a@.skip(0) =~= a@);
    assert(b@.skip(0) =~= b@);
    if i == a.len() {
        true
    } else if i == b.len() {
        false
    } else {
        a[i] < b[i]
    }
}

proof fn lemma_key_before_trans(keys: Seq<Seq<char>>, a: int, b: int, c: int)
    requires
        0 <= a < keys.len(),
        0 <= b < keys.len(),
        0 <= c < keys.len(),
        key_before(keys, a, b),
        key_before(keys, b, c),
    ensures
        key_before(keys, a, c),
{
    if text_lt(keys[a], keys[b]) && text_lt(keys[b], keys[c]) {
        lemma_text_le_trans(keys[a], keys[b], keys[c]);
        if keys[a] == keys[c] {
            lemma_text_le_antisym(keys[a], keys[b]);
        }
    }
}

/// The positions of `keys` in the order of a stable sort by key.
pub fn stable_sort_order(keys: &Vec<Vec<char>>) -> (order: Vec<usize>)
    ensures
        stable_order(keys@.map_values(|k: Vec<char>| k@), order@),
{
    let ghost ks = keys@.map_values(|k: Vec<char>| k@);
    let mut order: Vec<usize> = Vec::new();
    let mut k: usize = 0;
    while k < keys.len()
        invariant
            k <= keys.len(),
            ks == keys@.map_values(|k: Vec<char>| k@),
            order.len() == k,
            forall|i: int| 0 <= i < order.len() ==> (#[trigger] order@[i]) < k,
            forall|i: int, j: int|
                0 <= i < j < order.len() ==> key_before(ks, #[trigger] order@[i] as int, #[trigger] order@[j] as int),
        decreases keys.len() - k,
    {
        // position: first p with keys[k] < keys[order[p]]
        let mut p: usize = 0;
        while p < order.len() && !(text_le_exec(&keys[k], &keys[order[p]]) && !crate::text::eq_chars(
            &keys[k],
            &keys[order[p]],
        ))
            invariant
                p <= order.len(),
                order.len() == k,
                k < keys.len(),
                ks == keys@.map_values(|k: Vec<char>| k@),
                forall|i: int| 0 <= i < order.len() ==> (#[trigger] order@[i]) < k,
                forall|i: int| 0 <= i < p ==> !text_lt(ks[k as int], ks[#[trigger] order@[i] as int]),
            decreases order.len() - p,
        {
            p += 1;
        }
        assert(p < order.len() ==> text_lt(ks[k as int], ks[order@[p as int] as int]));
        let ghost old_order = order@;
        order.insert(p, k);
        proof {
            assert forall|i: int| 0 <= i < order.len() implies (#[trigger] order@[i]) < k + 1 by {
                if i < p {
                    assert(order@[i] == old_order[i]);
                } else if i > p {
                    assert(order@[i] == old_order[i - 1]);
                }
            }
            assert forall|i: int, j: int| 0 <= i < j < order.len() implies key_before(
                ks,
                #[trigger] order@[i] as int,
                #[trigger] order@[j] as int,
            ) by {
                let oi = order@[i] as int;
                let oj = order@[j] as int;
                if i < p && j < p {
                    assert(oi == old_order[i] && oj == old_order[j]);
                } else if i < p && j == p {
                    assert(oi == old_order[i]);
                    assert(!text_lt(ks[k as int], ks[oi]));
                    lemma_text_le_total(ks[k as int], ks[oi]);
                } else if i < p && j > p {
                    assert(oi == old_order[i] && oj == old_order[j - 1]);
                } else if i == p {
                    assert(oi == k);
                    assert(oj == old_order[j - 1]);
                    if j - 1 == p {
                        assert(text_lt(ks[k as int], ks[oj]));
                    } else {
                        let q = old_order[p as int] as int;
                        assert(key_before(ks, q, oj));
                        assert(text_lt(ks[k as int], ks[q]));
                        assert(key_before(ks, k as int, q));
                        lemma_key_before_trans(ks, k as int, q, oj);
                    }
                } else {
                    assert(oi == old_order[i - 1] && oj == old_order[j - 1]);
                }
            }
        }
        k += 1;
    }
    order
}


/// A stable order lists every position: each index of `keys` is some entry.
pub proof fn lemma_stable_order_onto(keys: Seq<Seq<char>>, order: Seq<usize>, a: int)
    requires
        stable_order(keys, order),
        0 <= a < keys.len(),
    ensures
        exists|i: int| 0 <= i < order.len() && order[i] as int == a,
{
    let s = order.map_values(|o: usize| o as int);
    assert(s.no_duplicates()) by {
        assert forall|i: int, j: int| 0 <= i < s.len() && 0 <= j < s.len() && i != j implies s[i] != s[j] by {
            if i < j {
                assert(key_before(keys, order[i] as int, order[j] as int));
            } else {
                assert(key_before(keys, order[j] as int, order[i] as int));
            }
        }
    }
    s.unique_seq_to_set();
    let r = vstd::set_lib::set_int_range(0, keys.len() as int);
    vstd::set_lib::lemma_int_range(0, keys.len() as int);
    assert(s.to_set().subset_of(r)) by {
        assert forall|x: int| s.to_set().contains(x) implies r.contains(x) by {
            let i = choose|i: int| 0 <= i < s.len() && s[i] == x;
            assert(order[i] < keys.len());
        }
    }
    vstd::set_lib::lemma_len_subset(s.to_set(), r);
    vstd::set_lib::lemma_subset_equality(s.to_set(), r);
    assert(r.contains(a));
    assert(s.to_set().contains(a));
    let i = choose|i: int| 0 <= i < s.len() && s[i] == a;
    assert(order[i] as int == s[i]);
}

} // verus!
