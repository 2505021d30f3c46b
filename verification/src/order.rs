//! The order of texts (by character code, as `String`'s order is) and a
//! stable sort by text keys.
use vstd::prelude::*;
use vstd::string::StrSliceExecFns;

verus! {

/// Whether text `a` comes strictly before text `b`: at the first position
/// where they differ the character of `a` has the smaller code, or `a` is a
/// proper prefix of `b`.
pub open spec fn text_less(a: Seq<char>, b: Seq<char>) -> bool
    decreases a.len(),
{
    if a.len() == 0 {
        b.len() > 0
    } else if b.len() == 0 {
        false
    } else if a[0] != b[0] {
        (a[0] as int) < (b[0] as int)
    } else {
        text_less(a.drop_first(), b.drop_first())
    }
}

/// No text comes before itself.
pub proof fn lemma_text_less_irreflexive(a: Seq<char>)
    ensures
        !text_less(a, a),
    decreases a.len(),
{
    if a.len() > 0 {
        lemma_text_less_irreflexive(a.drop_first());
    }
}

/// Two texts are never each before the other.
pub proof fn lemma_text_less_asymmetric(a: Seq<char>, b: Seq<char>)
    ensures
        text_less(a, b) ==> !text_less(b, a),
    decreases a.len(),
{
    if a.len() > 0 && b.len() > 0 && a[0] == b[0] {
        lemma_text_less_asymmetric(a.drop_first(), b.drop_first());
    }
}

/// The order is transitive.
pub proof fn lemma_text_less_transitive(a: Seq<char>, b: Seq<char>, c: Seq<char>)
    ensures
        text_less(a, b) && text_less(b, c) ==> text_less(a, c),
    decreases a.len(),
{
    if a.len() > 0 && b.len() > 0 && c.len() > 0 {
        lemma_text_less_transitive(a.drop_first(), b.drop_first(), c.drop_first());
    }
}

/// Two different texts are ordered one way or the other.
pub proof fn lemma_text_less_total(a: Seq<char>, b: Seq<char>)
    ensures
        a != b ==> text_less(a, b) || text_less(b, a),
    decreases a.len(),
{
    if a.len() == 0 && b.len() == 0 {
        assert(a =~= b);
    } else if a.len() > 0 && b.len() > 0 && a[0] == b[0] {
        lemma_text_less_total(a.drop_first(), b.drop_first());
        assert(a =~= seq![a[0]] + a.drop_first());
        assert(b =~= seq![b[0]] + b.drop_first());
    } else if a.len() > 0 && b.len() > 0 {
        assert(a[0] != b[0]);
        assert((a[0] as int) != (b[0] as int));
    }
}

/// "Not after" is transitive.
pub proof fn lemma_text_not_less_transitive(a: Seq<char>, b: Seq<char>, c: Seq<char>)
    requires
        !text_less(b, a),
        !text_less(c, b),
    ensures
        !text_less(c, a),
{
    lemma_text_less_total(a, b);
    lemma_text_less_transitive(c, a, b);
}

/// Compares two texts.
pub fn text_before(a: &str, b: &str) -> (r: bool)
    ensures
        r == text_less(a@, b@),
{
    let n = a.unicode_len();
    let m = b.unicode_len();
    let mut i: usize = 0;
    assert(a@.skip(0) =~= a@);
    assert(b@.skip(0) =~= b@);
    while i < n && i < m
        invariant
            i <= n,
            i <= m,
            n == a@.len(),
            m == b@.len(),
            text_less(a@, b@) == text_less(a@.skip(i as int), b@.skip(i as int)),
        decreases n - i,
    {
        let x = a.get_char(i);
        let y = b.get_char(i);
        assert(a@.skip(i as int)[0] == x);
        assert(b@.skip(i as int)[0] == y);
        if x != y {
            return (x as u32) < (y as u32);
        }
        assert(a@.skip(i as int).drop_first() =~= a@.skip(i + 1));
        assert(b@.skip(i as int).drop_first() =~= b@.skip(i + 1));
        i += 1;
    }
    i < m
}

/// Whether `perm` lists the positions of a list of keys in stably sorted
/// order: a rearrangement of all positions in which the keys never go down,
/// and positions with equal keys keep their order.
pub open spec fn stable_order(keys: Seq<Seq<char>>, perm: Seq<int>) -> bool {
    &&& perm.len() == keys.len()
    &&& forall|k: int| 0 <= k < perm.len() ==> 0 <= #[trigger] perm[k] < keys.len()
    &&& forall|k: int, l: int| 0 <= k < l < perm.len() ==> perm[k] != perm[l]
    &&& forall|k: int, l: int|
        0 <= k < l < perm.len() ==> !text_less(keys[#[trigger] perm[l]], keys[#[trigger] perm[k]])
    &&& forall|k: int, l: int|
        0 <= k < l < perm.len() && keys[perm[k]] == keys[perm[l]] ==> #[trigger] perm[k] < #[trigger] perm[l]
}

/// Whether `out` is `items` stably sorted by `keys`.
pub open spec fn stably_sorted<T>(items: Seq<T>, keys: Seq<Seq<char>>, out: Seq<T>) -> bool {
    exists|perm: Seq<int>|
        stable_order(keys, perm) && out.len() == items.len() && forall|k: int|
            0 <= k < out.len() ==> #[trigger] out[k] == items[perm[k]]
}

/// The texts of a list of strings.
pub open spec fn texts(keys: Seq<String>) -> Seq<Seq<char>> {
    Seq::new(keys.len(), |i: int| keys[i]@)
}

/// Sorts items by their text keys, keeping items with equal keys in their
/// order (an insertion sort).
pub fn stable_sort_by_keys<T>(items: Vec<T>, keys: Vec<String>) -> (r: Vec<T>)
    requires
        items@.len() == keys@.len(),
    ensures
        stably_sorted(items@, texts(keys@), r@),
{
    let ghost input = items@;
    let ghost kin = texts(keys@);
    let n = items.len();
    let mut rest = items;
    let mut rest_keys = keys;
    let mut out: Vec<T> = Vec::new();
    let mut out_keys: Vec<String> = Vec::new();
    let ghost mut perm: Seq<int> = seq![];
    let mut i: usize = 0;
    while i < n
        invariant
            i <= n,
            n == input.len(),
            n == kin.len(),
            rest@ == input.skip(i as int),
            texts(rest_keys@) == kin.skip(i as int),
            out@.len() == i,
            out_keys@.len() == i,
            perm.len() == i,
            forall|k: int| 0 <= k < i ==> 0 <= #[trigger] perm[k] < i,
            forall|k: int| 0 <= k < i ==> #[trigger] out@[k] == input[perm[k]],
            forall|k: int| 0 <= k < i ==> #[trigger] out_keys@[k]@ == kin[perm[k]],
            forall|k: int, l: int| 0 <= k < l < i ==> perm[k] != perm[l],
            forall|k: int, l: int|
                0 <= k < l < i ==> !text_less(kin[#[trigger] perm[l]], kin[#[trigger] perm[k]]),
            forall|k: int, l: int|
                0 <= k < l < i && kin[perm[k]] == kin[perm[l]] ==> #[trigger] perm[k] < #[trigger] perm[l],
        decreases n - i,
    {
        assert(rest@.len() > 0);
        assert(texts(rest_keys@).len() == rest_keys@.len());
        assert(texts(rest_keys@)[0] == kin[i as int]);
        let ghost old_rest_keys = rest_keys@;
        let item = rest.remove(0);
        let key = rest_keys.remove(0);
        assert(rest@ =~= input.skip(i + 1));
        assert forall|j: int| 0 <= j < rest_keys@.len() implies texts(rest_keys@)[j] == kin.skip(i + 1)[j] by {
            assert(rest_keys@[j] == old_rest_keys[j + 1]);
            assert(texts(old_rest_keys)[j + 1] == kin.skip(i as int)[j + 1]);
        }
        assert(texts(rest_keys@) =~= kin.skip(i + 1));
        let ghost kn = key@;
        let mut pos = out.len();
        while pos > 0 && text_before(key.as_str(), out_keys[pos - 1].as_str())
            invariant
                pos <= out_keys@.len(),
                out_keys@.len() == i,
                kn == key@,
                forall|l: int| pos <= l < i ==> text_less(kn, #[trigger] out_keys@[l]@),
            decreases pos,
        {
            pos -= 1;
        }
        proof {
            if pos > 0 {
                assert(!text_less(kn, out_keys@[pos - 1]@));
            }
        }
        let ghost old_perm = perm;
        let ghost old_out = out@;
        let ghost old_keys = out_keys@;
        out.insert(pos, item);
        out_keys.insert(pos, key);
        proof {
            perm = old_perm.insert(pos as int, i as int);
            assert forall|k: int| 0 <= k < i + 1 implies 0 <= #[trigger] perm[k] < i + 1 by {
                if k > pos {
                    assert(perm[k] == old_perm[k - 1]);
                }
            }
            assert forall|k: int| 0 <= k < i + 1 implies #[trigger] out@[k] == input[perm[k]] by {
                if k < pos {
                    assert(out@[k] == old_out[k]);
                } else if k > pos {
                    assert(out@[k] == old_out[k - 1]);
                    assert(perm[k] == old_perm[k - 1]);
                }
            }
            assert forall|k: int| 0 <= k < i + 1 implies #[trigger] out_keys@[k]@ == kin[perm[k]] by {
                if k < pos {
                    assert(out_keys@[k] == old_keys[k]);
                } else if k > pos {
                    assert(out_keys@[k] == old_keys[k - 1]);
                    assert(perm[k] == old_perm[k - 1]);
                }
            }
            assert forall|k: int, l: int| 0 <= k < l < i + 1 implies perm[k] != perm[l] by {
                if k != pos && l != pos {
                    let k0 = if k < pos { k } else { k - 1 };
                    let l0 = if l < pos { l } else { l - 1 };
                    assert(perm[k] == old_perm[k0]);
                    assert(perm[l] == old_perm[l0]);
                } else if k == pos {
                    assert(perm[l] == old_perm[l - 1]);
                } else {
                    assert(perm[k] == old_perm[k]);
                }
            }
            assert forall|k: int, l: int| 0 <= k < l < i + 1 implies !text_less(
                kin[#[trigger] perm[l]],
                kin[#[trigger] perm[k]],
            ) by {
                if k != pos && l != pos {
                    let k0 = if k < pos { k } else { k - 1 };
                    let l0 = if l < pos { l } else { l - 1 };
                    assert(perm[k] == old_perm[k0]);
                    assert(perm[l] == old_perm[l0]);
                } else if k == pos {
                    assert(perm[l] == old_perm[l - 1]);
                    assert(old_keys[l - 1]@ == kin[old_perm[l - 1]]);
                    assert(text_less(kn, old_keys[l - 1]@));
                    lemma_text_less_asymmetric(kn, old_keys[l - 1]@);
                } else {
                    assert(perm[k] == old_perm[k]);
                    assert(perm[l] == i as int);
                    assert(kin[i as int] == kn);
                    assert(old_keys[pos - 1]@ == kin[old_perm[pos - 1]]);
                    if k < pos - 1 {
                        assert(!text_less(kin[old_perm[pos - 1]], kin[old_perm[k]]));
                        lemma_text_not_less_transitive(kin[old_perm[k]], kin[old_perm[pos - 1]], kn);
                    }
                }
            }
            assert forall|k: int, l: int|
                0 <= k < l < i + 1 && kin[perm[k]] == kin[perm[l]] implies #[trigger] perm[k]
                < #[trigger] perm[l] by {
                if k != pos && l != pos {
                    let k0 = if k < pos { k } else { k - 1 };
                    let l0 = if l < pos { l } else { l - 1 };
                    assert(perm[k] == old_perm[k0]);
                    assert(perm[l] == old_perm[l0]);
                } else if k == pos {
                    assert(perm[l] == old_perm[l - 1]);
                    assert(old_keys[l - 1]@ == kin[old_perm[l - 1]]);
                    assert(text_less(kn, old_keys[l - 1]@));
                    assert(kin[i as int] == kn);
                    lemma_text_less_irreflexive(kn);
                } else {
                    assert(perm[k] == old_perm[k]);
                }
            }
        }
        i += 1;
    }
    assert(stable_order(kin, perm));
    out
}

} // verus!
