//! The order in which a cycle's results are processed: by provider name,
//! so that a cycle's log and notifications do not depend on which request
//! finished first.
use vstd::prelude::*;
use crate::utils::text::chars_of;

verus! {

/// Whether `a` sorts no later than `b`: lexicographic by code point, the
/// order of `str`'s `Ord` (UTF-8 byte order and code point order agree).
pub open spec fn text_le(a: Seq<char>, b: Seq<char>) -> bool
    decreases a.len(),
{
    if a.len() == 0 {
        true
    } else if b.len() == 0 {
        false
    } else if a[0] != b[0] {
        (a[0] as u32) < (b[0] as u32)
    } else {
        text_le(a.drop_first(), b.drop_first())
    }
}

/// Any two texts are ordered one way or the other.
pub proof fn lemma_text_le_total(a: Seq<char>, b: Seq<char>)
    ensures
        text_le(a, b) || text_le(b, a),
    decreases a.len(),
{
    if a.len() > 0 && b.len() > 0 && a[0] == b[0] {
        lemma_text_le_total(a.drop_first(), b.drop_first());
    }
    if a.len() > 0 && b.len() > 0 && a[0] != b[0] {
        vstd::utf8::char_u32_cast(a[0], a[0] as u32);
        vstd::utf8::char_u32_cast(b[0], b[0] as u32);
    }
}

/// The order is transitive.
pub proof fn lemma_text_le_transitive(a: Seq<char>, b: Seq<char>, c: Seq<char>)
    requires
        text_le(a, b),
        text_le(b, c),
    ensures
        text_le(a, c),
    decreases a.len(),
{
    if a.len() > 0 && b.len() > 0 && c.len() > 0 && a[0] == b[0] && b[0] == c[0] {
        lemma_text_le_transitive(a.drop_first(), b.drop_first(), c.drop_first());
    }
    if a.len() > 0 && b.len() > 0 && a[0] != b[0] {
        vstd::utf8::char_u32_cast(a[0], a[0] as u32);
        vstd::utf8::char_u32_cast(b[0], b[0] as u32);
    }
    if b.len() > 0 && c.len() > 0 && b[0] != c[0] {
        vstd::utf8::char_u32_cast(b[0], b[0] as u32);
        vstd::utf8::char_u32_cast(c[0], c[0] as u32);
    }
    if a.len() > 0 && c.len() > 0 && a[0] != c[0] {
        vstd::utf8::char_u32_cast(a[0], a[0] as u32);
        vstd::utf8::char_u32_cast(c[0], c[0] as u32);
    }
}

/// Texts ordered both ways are equal.
pub proof fn lemma_text_le_antisymmetric(a: Seq<char>, b: Seq<char>)
    requires
        text_le(a, b),
        text_le(b, a),
    ensures
        a == b,
    decreases a.len(),
{
    if a.len() > 0 && b.len() > 0 && a[0] == b[0] {
        lemma_text_le_antisymmetric(a.drop_first(), b.drop_first());
        assert(a =~= seq![a[0]] + a.drop_first());
        assert(b =~= seq![b[0]] + b.drop_first());
    }
    if a.len() == 0 && b.len() == 0 {
        assert(a =~= b);
    }
}

/// Every text sorts no later than itself.
pub proof fn lemma_text_le_reflexive(a: Seq<char>)
    ensures
        text_le(a, a),
    decreases a.len(),
{
    if a.len() > 0 {
        lemma_text_le_reflexive(a.drop_first());
    }
}

/// Whether `a` sorts no later than `b`.
pub fn text_at_most(a: &str, b: &str) -> (r: bool)
    ensures
        r == text_le(a@, b@),
{
    let va = chars_of(a);
    let vb = chars_of(b);
    let mut i: usize = 0;
    assert(a@.skip(0) =~= a@);
    assert(b@.skip(0) =~= b@);
    while i < va.len() && i < vb.len() && va[i] == vb[i]
        invariant
            va@ == a@,
            vb@ == b@,
            0 <= i <= va.len(),
            i <= vb.len(),
            text_le(a@, b@) == text_le(a@.skip(i as int), b@.skip(i as int)),
        decreases va.len() - i,
    {
        assert(a@.skip(i as int).drop_first() =~= a@.skip(i + 1));
        assert(b@.skip(i as int).drop_first() =~= b@.skip(i + 1));
        i += 1;
    }
    if i == va.len() {
        return true;
    }
    if i == vb.len() {
        return false;
    }
    (va[i] as u32) < (vb[i] as u32)
}

/// Whether `order` lists the positions `0..n`, each once.
pub open spec fn is_permutation(order: Seq<usize>, n: nat) -> bool {
    &&& order.len() == n
    &&& forall|k: int| 0 <= k < order.len() ==> order[k] < n
    &&& forall|k: int, l: int| 0 <= k < l < order.len() ==> order[k] != order[l]
}

/// Whether `order` lists positions of `names` by name, equal names in
/// the order they came in.
pub open spec fn sorts_stably(order: Seq<usize>, names: Seq<&str>) -> bool {
    &&& forall|k: int, l: int|
        0 <= k < l < order.len() ==> text_le(
            names[order[k] as int]@,
            names[order[l] as int]@,
        )
    &&& forall|k: int, l: int|
        0 <= k < l < order.len() && names[order[k] as int]@ == names[order[l] as int]@
            ==> order[k] < order[l]
}

/// The positions of `names` in name order, equal names keeping their
/// order (a stable sort by name).
pub fn order_by_name(names: &Vec<&str>) -> (order: Vec<usize>)
    ensures
        is_permutation(order@, names@.len()),
        sorts_stably(order@, names@),
{
    let mut order: Vec<usize> = Vec::new();
    let mut i: usize = 0;
    while i < names.len()
        invariant
            0 <= i <= names@.len(),
            order@.len() == i,
            forall|k: int| 0 <= k < order@.len() ==> order@[k] < i,
            forall|k: int, l: int| 0 <= k < l < order@.len() ==> order@[k] != order@[l],
            sorts_stably(order@, names@),
        decreases names.len() - i,
    {
        let name = names[i];
        let mut p = order.len();
        while p > 0 && !text_at_most(names[order[p - 1]], name)
            invariant
                0 <= p <= order@.len(),
                i < names@.len(),
                name == names@[i as int],
                forall|k: int| 0 <= k < order@.len() ==> order@[k] < i,
                forall|q: int|
                    p <= q < order@.len() ==> !text_le(names@[order@[q] as int]@, name@),
            decreases p,
        {
            p -= 1;
        }
        let ghost before = order@;
        proof {
            assert forall|k: int| 0 <= k < p implies text_le(names@[before[k] as int]@, name@) by {
                if k < p - 1 {
                    lemma_text_le_transitive(
                        names@[before[k] as int]@,
                        names@[before[p - 1] as int]@,
                        name@,
                    );
                }
            }
            assert forall|q: int| p <= q < before.len() implies text_le(
                name@,
                names@[before[q] as int]@,
            ) && name@ != names@[before[q] as int]@ by {
                lemma_text_le_total(name@, names@[before[q] as int]@);
                lemma_text_le_reflexive(name@);
            }
            before.insert_ensures(p as int, i);
        }
        order.insert(p, i);
        proof {
            let after = order@;
            assert forall|k: int, l: int| 0 <= k < l < after.len() implies text_le(
                names@[after[k] as int]@,
                names@[after[l] as int]@,
            ) by {
                if k < p && l == p {
                } else if k == p && l > p {
                    assert(after[l] == before[l - 1]);
                } else if k < p && l > p {
                    assert(after[l] == before[l - 1]);
                    lemma_text_le_transitive(
                        names@[before[k] as int]@,
                        name@,
                        names@[before[l - 1] as int]@,
                    );
                } else if l < p {
                } else {
                    assert(after[k] == before[k - 1]);
                    assert(after[l] == before[l - 1]);
                }
            }
            assert forall|k: int, l: int|
                0 <= k < l < after.len() && names@[after[k] as int]@ == names@[after[l] as int]@
                    implies after[k] < after[l] by {
                if k < p && l == p {
                } else if k == p && l > p {
                    assert(after[l] == before[l - 1]);
                } else if k < p && l > p {
                    assert(after[l] == before[l - 1]);
                    lemma_text_le_antisymmetric(name@, names@[before[l - 1] as int]@);
                } else if l < p {
                } else {
                    assert(after[k] == before[k - 1]);
                    assert(after[l] == before[l - 1]);
                }
            }
            assert forall|k: int, l: int| 0 <= k < l < after.len() implies after[k] != after[l] by {
                if k > p {
                    assert(after[k] == before[k - 1]);
                }
                if l > p {
                    assert(after[l] == before[l - 1]);
                }
            }
            assert forall|k: int| 0 <= k < after.len() implies after[k] < i + 1 by {
                if k > p {
                    assert(after[k] == before[k - 1]);
                }
            }
        }
        i += 1;
    }
    order
}

} // verus!
