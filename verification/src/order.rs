use vstd::prelude::*;

verus! {

/// `a` comes before `b` in lexicographic order of code points, which is the
/// order of `String`s (UTF-8 keeps the order of code points).
pub open spec fn seq_less(a: Seq<char>, b: Seq<char>) -> bool
    decreases a.len(),
{
    if a.len() == 0 {
        b.len() > 0
    } else if b.len() == 0 {
        false
    } else if a[0] != b[0] {
        (a[0] as int) < (b[0] as int)
    } else {
        seq_less(a.drop_first(), b.drop_first())
    }
}

pub proof fn lemma_seq_less_irreflexive(a: Seq<char>)
    ensures
        !seq_less(a, a),
    decreases a.len(),
{
    if a.len() > 0 {
        lemma_seq_less_irreflexive(a.drop_first());
    }
}

pub proof fn lemma_seq_less_asymmetric(a: Seq<char>, b: Seq<char>)
    ensures
        !(seq_less(a, b) && seq_less(b, a)),
    decreases a.len(),
{
    if a.len() > 0 && b.len() > 0 && a[0] == b[0] {
        lemma_seq_less_asymmetric(a.drop_first(), b.drop_first());
    }
}

pub proof fn lemma_seq_less_transitive(a: Seq<char>, b: Seq<char>, c: Seq<char>)
    requires
        seq_less(a, b),
        seq_less(b, c),
    ensures
        seq_less(a, c),
    decreases a.len(),
{
    if a.len() > 0 && b.len() > 0 && c.len() > 0 && a[0] == b[0] && b[0] == c[0] {
        lemma_seq_less_transitive(a.drop_first(), b.drop_first(), c.drop_first());
    }
}

pub proof fn lemma_seq_less_total(a: Seq<char>, b: Seq<char>)
    ensures
        a == b || seq_less(a, b) || seq_less(b, a),
    decreases a.len(),
{
    if a.len() > 0 && b.len() > 0 && a[0] == b[0] {
        lemma_seq_less_total(a.drop_first(), b.drop_first());
        if a.drop_first() == b.drop_first() {
            assert(a == seq![a[0]] + a.drop_first());
            assert(b == seq![b[0]] + b.drop_first());
        }
    } else if a.len() == 0 && b.len() == 0 {
        assert(a =~= b);
    } else if a.len() > 0 && b.len() > 0 {
    }
}

/// Whether `a` comes before `b`.
pub fn chars_less(a: &[char], b: &[char]) -> (r: bool)
    ensures
        r == seq_less(a@, b@),
{
    let mut i: usize = 0;
    assert(a@.skip(0) == a@);
    assert(b@.skip(0) == b@);
    while i < a.len() && i < b.len()
        invariant
            i <= a@.len(),
            i <= b@.len(),
            seq_less(a@, b@) == seq_less(a@.skip(i as int), b@.skip(i as int)),
        decreases a.len() - i,
    {
        if a[i] != b[i] {
            return a[i] < b[i];
        }
        assert(a@.skip(i as int).drop_first() == a@.skip(i + 1));
        assert(b@.skip(i as int).drop_first() == b@.skip(i + 1));
        i = i + 1;
    }
    i < b.len()
}

/// A sort key: a number, then a text.
pub open spec fn key_less(k1: (int, Seq<char>), k2: (int, Seq<char>)) -> bool {
    k1.0 < k2.0 || (k1.0 == k2.0 && seq_less(k1.1, k2.1))
}

/// Position `i` comes before position `j` when its key is smaller, or when the
/// keys are equal and `i` comes first: the order of a stable sort.
pub open spec fn ranked_before(keys: Seq<(int, Seq<char>)>, i: int, j: int) -> bool {
    key_less(keys[i], keys[j]) || (keys[i] == keys[j] && i < j)
}

/// `order` lists, exactly once each, the positions that `selected` selects,
/// in the order of a stable sort by `keys`.
pub open spec fn stable_sorted(
    order: Seq<usize>,
    keys: Seq<(int, Seq<char>)>,
    selected: Seq<bool>,
) -> bool {
    &&& order.no_duplicates()
    &&& forall|k: int| 0 <= k < order.len() ==> #[trigger] order[k] < selected.len()
    &&& forall|i: int| 0 <= i < selected.len() ==> (selected[i] <==> order.contains(i as usize))
    &&& forall|a: int, b: int|
        0 <= a < b < order.len() ==> ranked_before(keys, order[a] as int, order[b] as int)
}

proof fn lemma_key_trans(k1: (int, Seq<char>), k2: (int, Seq<char>), k3: (int, Seq<char>))
    requires
        key_less(k1, k2) || k1 == k2,
        key_less(k2, k3) || k2 == k3,
    ensures
        key_less(k1, k3) || k1 == k3,
        (key_less(k1, k2) || key_less(k2, k3)) ==> key_less(k1, k3),
{
    if k1.0 == k2.0 && k2.0 == k3.0 && seq_less(k1.1, k2.1) && seq_less(k2.1, k3.1) {
        lemma_seq_less_transitive(k1.1, k2.1, k3.1);
    }
}

proof fn lemma_key_total(k1: (int, Seq<char>), k2: (int, Seq<char>))
    ensures
        key_less(k1, k2) || key_less(k2, k1) || k1 == k2,
        !(key_less(k1, k2) && key_less(k2, k1)),
{
    lemma_seq_less_total(k1.1, k2.1);
    lemma_seq_less_asymmetric(k1.1, k2.1);
}

proof fn lemma_ranked_before_asymmetric(keys: Seq<(int, Seq<char>)>, i: int, j: int)
    ensures
        !(ranked_before(keys, i, j) && ranked_before(keys, j, i)),
{
    lemma_key_total(keys[i], keys[j]);
    lemma_seq_less_irreflexive(keys[i].1);
}

proof fn lemma_sorted_unique(o1: Seq<usize>, o2: Seq<usize>, keys: Seq<(int, Seq<char>)>)
    requires
        o1.no_duplicates(),
        o2.no_duplicates(),
        forall|x: usize| o1.contains(x) <==> o2.contains(x),
        forall|a: int, b: int|
            0 <= a < b < o1.len() ==> ranked_before(keys, o1[a] as int, o1[b] as int),
        forall|a: int, b: int|
            0 <= a < b < o2.len() ==> ranked_before(keys, o2[a] as int, o2[b] as int),
    ensures
        o1 == o2,
    decreases o1.len(),
{
    if o1.len() == 0 {
        if o2.len() > 0 {
            assert(o2.contains(o2[0]));
        }
        assert(o1 =~= o2);
    } else {
        assert(o1.contains(o1[0]));
        assert(o2.len() > 0);
        let m1 = o1[0];
        let m2 = o2[0];
        if m1 != m2 {
            assert(o2.contains(m2));
            let b1 = choose|b: int| 0 <= b < o1.len() && o1[b] == m2;
            assert(o2.contains(m1));
            let b2 = choose|b: int| 0 <= b < o2.len() && o2[b] == m1;
            assert(ranked_before(keys, m1 as int, m2 as int));
            assert(ranked_before(keys, m2 as int, m1 as int));
            lemma_ranked_before_asymmetric(keys, m1 as int, m2 as int);
        }
        let r1 = o1.drop_first();
        let r2 = o2.drop_first();
        assert forall|x: usize| r1.contains(x) <==> r2.contains(x) by {
            if r1.contains(x) {
                let k = choose|k: int| 0 <= k < r1.len() && r1[k] == x;
                assert(o1[k + 1] == x);
                assert(x != m1);
                assert(o1.contains(x));
                let k2 = choose|k: int| 0 <= k < o2.len() && o2[k] == x;
                assert(k2 != 0);
                assert(r2[k2 - 1] == x);
            }
            if r2.contains(x) {
                let k = choose|k: int| 0 <= k < r2.len() && r2[k] == x;
                assert(o2[k + 1] == x);
                assert(x != m2);
                assert(o2.contains(x));
                let k1 = choose|k: int| 0 <= k < o1.len() && o1[k] == x;
                assert(k1 != 0);
                assert(r1[k1 - 1] == x);
            }
        }
        assert forall|a: int, b: int| 0 <= a < b < r1.len() implies ranked_before(
            keys,
            r1[a] as int,
            r1[b] as int,
        ) by {
            assert(r1[a] == o1[a + 1] && r1[b] == o1[b + 1]);
        }
        assert forall|a: int, b: int| 0 <= a < b < r2.len() implies ranked_before(
            keys,
            r2[a] as int,
            r2[b] as int,
        ) by {
            assert(r2[a] == o2[a + 1] && r2[b] == o2[b + 1]);
        }
        assert(r1.no_duplicates()) by {
            assert forall|a: int, b: int| 0 <= a < r1.len() && 0 <= b < r1.len() && a != b
                implies r1[a] != r1[b] by {
                assert(r1[a] == o1[a + 1] && r1[b] == o1[b + 1]);
            }
        }
        assert(r2.no_duplicates()) by {
            assert forall|a: int, b: int| 0 <= a < r2.len() && 0 <= b < r2.len() && a != b
                implies r2[a] != r2[b] by {
                assert(r2[a] == o2[a + 1] && r2[b] == o2[b + 1]);
            }
        }
        lemma_sorted_unique(r1, r2, keys);
        assert(o1 =~= seq![m1] + r1);
        assert(o2 =~= seq![m2] + r2);
    }
}

/// A stable sort has one outcome: two orders that both list the selected
/// positions stably sorted by the same keys are the same order.
pub proof fn lemma_stable_sorted_unique(
    o1: Seq<usize>,
    o2: Seq<usize>,
    keys: Seq<(int, Seq<char>)>,
    selected: Seq<bool>,
)
    requires
        stable_sorted(o1, keys, selected),
        stable_sorted(o2, keys, selected),
    ensures
        o1 == o2,
{
    assert forall|x: usize| o1.contains(x) <==> o2.contains(x) by {
        if o1.contains(x) {
            let k = choose|k: int| 0 <= k < o1.len() && o1[k] == x;
            assert(o1[k] < selected.len());
            assert(selected[x as int] <==> o1.contains(x as int as usize));
        }
        if o2.contains(x) {
            let k = choose|k: int| 0 <= k < o2.len() && o2[k] == x;
            assert(o2[k] < selected.len());
            assert(selected[x as int] <==> o2.contains(x as int as usize));
        }
    }
    lemma_sorted_unique(o1, o2, keys);
}

/// The positions that `selected` selects, stably sorted by the keys
/// `(numbers[i], texts[i])`.
pub fn stable_order(numbers: &Vec<i128>, texts: &Vec<Vec<char>>, selected: &Vec<bool>) -> (order:
    Vec<usize>)
    requires
        numbers@.len() == texts@.len(),
        numbers@.len() == selected@.len(),
    ensures
        stable_sorted(
            order@,
            Seq::new(numbers@.len(), |i: int| (numbers@[i] as int, texts@[i]@)),
            selected@,
        ),
{
    let ghost keys = Seq::new(numbers@.len(), |i: int| (numbers@[i] as int, texts@[i]@));
    let n = numbers.len();
    let mut order: Vec<usize> = Vec::new();
    let mut i: usize = 0;
    while i < n
        invariant
            n == numbers@.len() == texts@.len() == selected@.len(),
            keys == Seq::new(numbers@.len(), |i: int| (numbers@[i] as int, texts@[i]@)),
            i <= n,
            order@.no_duplicates(),
            forall|k: int| 0 <= k < order@.len() ==> #[trigger] order@[k] < i,
            forall|j: int| 0 <= j < i ==> (selected@[j] <==> order@.contains(j as usize)),
            forall|a: int, b: int|
                0 <= a < b < order@.len() ==> ranked_before(keys, order@[a] as int, order@[b] as int),
        decreases n - i,
    {
        if selected[i] {
            let mut k: usize = 0;
            let mut found = false;
            while k < order.len() && !found
                invariant
                    n == numbers@.len() == texts@.len() == selected@.len(),
                    keys == Seq::new(numbers@.len(), |i: int| (numbers@[i] as int, texts@[i]@)),
                    i < n,
                    k <= order@.len(),
                    forall|m: int| 0 <= m < order@.len() ==> #[trigger] order@[m] < i,
                    forall|m: int| 0 <= m < k ==> !key_less(keys[i as int], keys[#[trigger] order@[m] as int]),
                    found ==> k < order@.len() && key_less(keys[i as int], keys[order@[k as int] as int]),
                decreases order.len() - k + if found { 0int } else { 1int },
            {
                let o = order[k];
                let less = numbers[i] < numbers[o] || (numbers[i] == numbers[o] && chars_less(
                    &texts[i],
                    &texts[o],
                ));
                assert(keys[i as int] == (numbers@[i as int] as int, texts@[i as int]@));
                assert(keys[o as int] == (numbers@[o as int] as int, texts@[o as int]@));
                if less {
                    found = true;
                } else {
                    k = k + 1;
                }
            }
            let ghost old_order = order@;
            order.insert(k, i);
            proof {
                assert(order@ == old_order.insert(k as int, i));
                assert forall|a: int, b: int| 0 <= a < b < order@.len() implies ranked_before(
                    keys,
                    order@[a] as int,
                    order@[b] as int,
                ) by {
                    if b < k {
                        assert(order@[a] == old_order[a] && order@[b] == old_order[b]);
                    } else if a > k {
                        assert(order@[a] == old_order[a - 1] && order@[b] == old_order[b - 1]);
                    } else if a < k && b > k {
                        assert(order@[a] == old_order[a] && order@[b] == old_order[b - 1]);
                    } else if a == k {
                        // the new position comes before everything after it
                        let ob = old_order[b - 1];
                        assert(order@[b] == ob);
                        let ok = old_order[k as int];
                        assert(key_less(keys[i as int], keys[ok as int]));
                        if b - 1 > k {
                            assert(ranked_before(keys, ok as int, ob as int));
                        }
                        lemma_key_trans(keys[i as int], keys[ok as int], keys[ob as int]);
                    } else {
                        // b == k: everything before the new position comes before it
                        let oa = old_order[a];
                        assert(order@[a] == oa);
                        assert(!key_less(keys[i as int], keys[oa as int]));
                        lemma_key_total(keys[i as int], keys[oa as int]);
                    }
                }
                assert forall|j: int| 0 <= j <= i implies (selected@[j] <==> order@.contains(
                    j as usize,
                )) by {
                    if j < i {
                        if old_order.contains(j as usize) {
                            let m = choose|m: int| 0 <= m < old_order.len() && old_order[m] == j;
                            if m < k {
                                assert(order@[m] == j);
                            } else {
                                assert(order@[m + 1] == j);
                            }
                        }
                        if order@.contains(j as usize) {
                            let m = choose|m: int| 0 <= m < order@.len() && order@[m] == j;
                            if m < k {
                                assert(old_order[m] == j);
                            } else if m > k {
                                assert(old_order[m - 1] == j);
                            }
                        }
                    } else {
                        assert(order@[k as int] == i);
                    }
                }
                assert forall|a: int, b: int|
                    0 <= a < order@.len() && 0 <= b < order@.len() && a != b implies order@[a]
                    != order@[b] by {
                    if a != k && b != k {
                        let a2 = if a < k { a } else { a - 1 };
                        let b2 = if b < k { b } else { b - 1 };
                        assert(order@[a] == old_order[a2] && order@[b] == old_order[b2]);
                    } else if a == k {
                        let b2 = if b < k { b } else { b - 1 };
                        assert(order@[b] == old_order[b2]);
                    } else {
                        let a2 = if a < k { a } else { a - 1 };
                        assert(order@[a] == old_order[a2]);
                    }
                }
            }
        } else {
            proof {
                if order@.contains(i) {
                    let m = choose|m: int| 0 <= m < order@.len() && order@[m] == i;
                    assert(order@[m] < i);
                }
            }
        }
        i = i + 1;
    }
    order
}

} // verus!
