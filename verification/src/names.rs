//! Ordering benchmark and language names: the order of `str` (code point by
//! code point, a proper prefix first), sorted lists of distinct names, and
//! the grouping of statistics rows by test name.

use vstd::prelude::*;
use crate::strutil::chars_of;

verus! {

/// `a` comes before `b` in the order of `str`: at the first difference the
/// smaller code point wins, and a proper prefix comes first.
pub open spec fn text_lt(a: Seq<char>, b: Seq<char>) -> bool
    decreases a.len(),
{
    if a.len() == 0 {
        b.len() > 0
    } else if b.len() == 0 {
        false
    } else if a[0] != b[0] {
        (a[0] as u32) < (b[0] as u32)
    } else {
        text_lt(a.drop_first(), b.drop_first())
    }
}

/// No text comes before itself.
pub proof fn lemma_text_lt_irreflexive(a: Seq<char>)
    ensures
        !text_lt(a, a),
    decreases a.len(),
{
    if a.len() > 0 {
        lemma_text_lt_irreflexive(a.drop_first());
    }
}

/// Of two different texts, one comes before the other, and not both ways.
pub proof fn lemma_text_lt_total(a: Seq<char>, b: Seq<char>)
    ensures
        a != b ==> text_lt(a, b) || text_lt(b, a),
        !(text_lt(a, b) && text_lt(b, a)),
    decreases a.len(),
{
    if a.len() > 0 && b.len() > 0 {
        if a[0] == b[0] {
            lemma_text_lt_total(a.drop_first(), b.drop_first());
            if a != b {
                if a.drop_first() == b.drop_first() {
                    assert(a =~= seq![a[0]] + a.drop_first());
                    assert(b =~= seq![b[0]] + b.drop_first());
                }
            }
        } else {
            assert((a[0] as u32) != (b[0] as u32)) by {
                vstd::utf8::char_u32_cast(a[0], a[0] as u32);
                vstd::utf8::char_u32_cast(b[0], b[0] as u32);
            }
        }
    } else if a.len() == 0 && b.len() == 0 {
        assert(a =~= b);
    }
}

/// The order of texts is transitive.
pub proof fn lemma_text_lt_transitive(a: Seq<char>, b: Seq<char>, c: Seq<char>)
    requires
        text_lt(a, b),
        text_lt(b, c),
    ensures
        text_lt(a, c),
    decreases a.len(),
{
    if a.len() > 0 && b.len() > 0 && c.len() > 0 {
        if a[0] == b[0] && b[0] == c[0] {
            lemma_text_lt_transitive(a.drop_first(), b.drop_first(), c.drop_first());
        }
    }
}

/// Texts are ordered by code point at their first difference, and a
/// proper prefix comes first.
pub proof fn text_order_laws(a: Seq<char>, b: Seq<char>, c: char, d: char)
    ensures
        text_lt(a.push(c), a.push(d)) <==> (c as u32) < (d as u32),
        b.len() > 0 ==> text_lt(a, a + b),
        !text_lt(a + b, a),
    decreases a.len(),
{
    if a.len() > 0 {
        text_order_laws(a.drop_first(), b, c, d);
        assert(a.push(c)[0] == a[0]);
        assert(a.push(d)[0] == a[0]);
        assert((a + b)[0] == a[0]);
        assert(a.push(c).drop_first() =~= a.drop_first().push(c));
        assert(a.push(d).drop_first() =~= a.drop_first().push(d));
        assert((a + b).drop_first() =~= a.drop_first() + b);
    } else {
        assert(a.push(c) =~= seq![c]);
        assert(a.push(d) =~= seq![d]);
        assert(a + b =~= b);
        if c != d {
            assert((c as u32) != (d as u32)) by {
                vstd::utf8::char_u32_cast(c, c as u32);
                vstd::utf8::char_u32_cast(d, d as u32);
            }
        }
        assert(seq![c].drop_first() =~= Seq::<char>::empty());
        assert(seq![d].drop_first() =~= Seq::<char>::empty());
        assert(seq![c][0] == c);
        assert(seq![d][0] == d);
        assert(!text_lt(Seq::<char>::empty(), Seq::<char>::empty()));
    }
}

/// Whether `a` comes before `b`.
pub fn chars_lt(a: &Vec<char>, b: &Vec<char>) -> (r: bool)
    ensures
        r == text_lt(a@, b@),
{
    let mut i: usize = 0;
    proof {
        assert(a@.skip(0) =~= a@);
        assert(b@.skip(0) =~= b@);
    }
    while i < a.len() && i < b.len() && a[i] == b[i]
        invariant
            i <= a@.len(),
            i <= b@.len(),
            text_lt(a@, b@) == text_lt(a@.skip(i as int), b@.skip(i as int)),
        decreases a@.len() - i,
    {
        proof {
            assert(a@.skip(i as int).drop_first() =~= a@.skip(i + 1));
            assert(b@.skip(i as int).drop_first() =~= b@.skip(i + 1));
            assert(a@.skip(i as int)[0] == a@[i as int]);
            assert(b@.skip(i as int)[0] == b@[i as int]);
        }
        i = i + 1;
    }
    if i < a.len() && i < b.len() {
        proof {
            assert(a@.skip(i as int)[0] == a@[i as int]);
            assert(b@.skip(i as int)[0] == b@[i as int]);
        }
        (a[i] as u32) < (b[i] as u32)
    } else {
        i == a.len() && i < b.len()
    }
}

/// The texts of a list of strings.
pub open spec fn views(v: Seq<String>) -> Seq<Seq<char>> {
    v.map_values(|s: String| s@)
}

/// `v` is in strictly ascending order.
pub open spec fn strictly_sorted(v: Seq<Seq<char>>) -> bool {
    forall|i: int, j: int| 0 <= i < j < v.len() ==> text_lt(#[trigger] v[i], #[trigger] v[j])
}

/// The distinct names of `names`, in ascending order: what collecting them
/// into a set and sorting gives.
pub fn sorted_unique(names: &Vec<String>) -> (r: Vec<String>)
    ensures
        strictly_sorted(views(r@)),
        forall|i: int| 0 <= i < r@.len() ==> views(names@).contains(#[trigger] r@[i]@),
        forall|k: int| 0 <= k < names@.len() ==> views(r@).contains(#[trigger] names@[k]@),
{
    let mut r: Vec<String> = Vec::new();
    let mut rc: Vec<Vec<char>> = Vec::new();
    let mut k: usize = 0;
    while k < names.len()
        invariant
            k <= names@.len(),
            rc@.len() == r@.len(),
            forall|i: int| 0 <= i < r@.len() ==> #[trigger] rc@[i]@ == r@[i]@,
            strictly_sorted(views(r@)),
            forall|i: int| 0 <= i < r@.len() ==> views(names@).contains(#[trigger] r@[i]@),
            forall|t: int| 0 <= t < k ==> views(r@).contains(#[trigger] names@[t]@),
        decreases names@.len() - k,
    {
        let cs = chars_of(names[k].as_str());
        let mut p: usize = 0;
        while p < rc.len() && chars_lt(&rc[p], &cs)
            invariant
                p <= rc@.len(),
                rc@.len() == r@.len(),
                forall|i: int| 0 <= i < r@.len() ==> #[trigger] rc@[i]@ == r@[i]@,
                forall|i: int| 0 <= i < p ==> text_lt(#[trigger] r@[i]@, cs@),
            decreases rc@.len() - p,
        {
            p = p + 1;
        }
        let ghost vr = views(r@);
        proof {
            assert(views(names@)[k as int] == names@[k as int]@);
        }
        if p < rc.len() && !chars_lt(&cs, &rc[p]) {
            proof {
                lemma_text_lt_total(cs@, r@[p as int]@);
                assert(vr[p as int] == names@[k as int]@);
            }
        } else {
            let ghost old_r = r@;
            let ghost old_rc = rc@;
            r.insert(p, names[k].clone());
            rc.insert(p, cs);
            proof {
                assert forall|i: int| 0 <= i < r@.len() implies #[trigger] rc@[i]@ == r@[i]@ by {
                    if i > p {
                        assert(rc@[i] == old_rc[i - 1]);
                    } else if i < p {
                        assert(rc@[i] == old_rc[i]);
                    }
                }
                assert forall|i: int, j: int| 0 <= i < j < views(r@).len() implies text_lt(
                    #[trigger] views(r@)[i],
                    #[trigger] views(r@)[j],
                ) by {
                    let x = names@[k as int]@;
                    if i < p && j == p {
                        assert(views(r@)[i] == old_r[i]@);
                    } else if i < p && j > p {
                        assert(text_lt(old_r[i]@, x));
                        if p < old_r.len() {
                            lemma_text_lt_total(x, old_r[p as int]@);
                            if j - 1 > p {
                                assert(views(old_r)[p as int] == old_r[p as int]@);
                                assert(views(old_r)[j - 1] == old_r[j - 1]@);
                                lemma_text_lt_transitive(x, old_r[p as int]@, old_r[j - 1]@);
                            }
                            lemma_text_lt_transitive(old_r[i]@, x, old_r[j - 1]@);
                        }
                    } else if i == p {
                        lemma_text_lt_total(x, old_r[p as int]@);
                        if j - 1 > p {
                            assert(views(old_r)[p as int] == old_r[p as int]@);
                            assert(views(old_r)[j - 1] == old_r[j - 1]@);
                            lemma_text_lt_transitive(x, old_r[p as int]@, old_r[j - 1]@);
                        }
                    } else if i > p {
                        assert(views(old_r)[i - 1] == old_r[i - 1]@);
                        assert(views(old_r)[j - 1] == old_r[j - 1]@);
                    } else {
                        assert(views(old_r)[i] == old_r[i]@);
                        assert(views(old_r)[j] == old_r[j]@);
                    }
                }
                assert forall|i: int| 0 <= i < r@.len() implies views(names@).contains(#[trigger] r@[i]@) by {
                    if i < p {
                        assert(r@[i] == old_r[i]);
                    } else if i > p {
                        assert(r@[i] == old_r[i - 1]);
                    }
                }
                assert forall|t: int| 0 <= t <= k implies views(r@).contains(#[trigger] names@[t]@) by {
                    if t == k {
                        assert(views(r@)[p as int] == names@[k as int]@);
                    } else {
                        let q = choose|q: int| 0 <= q < vr.len() && vr[q] == names@[t]@;
                        if q < p {
                            assert(views(r@)[q] == vr[q]);
                        } else {
                            assert(views(r@)[q + 1] == vr[q]);
                        }
                    }
                }
            }
        }
        k = k + 1;
    }
    r
}


/// Row `a` comes before row `b` when grouping rows by test name: by name,
/// and in their order of appearance within one name.
pub open spec fn row_before(names: Seq<Seq<char>>, a: int, b: int) -> bool {
    text_lt(names[a], names[b]) || (names[a] == names[b] && a < b)
}

/// `o` lists every row of `names` once, grouped by test name in ascending
/// order and in their order of appearance within each test.
pub open spec fn is_grouped_order(names: Seq<Seq<char>>, o: Seq<usize>) -> bool {
    &&& o.len() == names.len()
    &&& forall|i: int| 0 <= i < o.len() ==> #[trigger] o[i] < names.len()
    &&& forall|i: int, j: int| 0 <= i < j < o.len() ==> row_before(names, #[trigger] o[i] as int, #[trigger] o[j] as int)
}

/// The rows of a statistics table, grouped by test name: the order in which
/// the monitor's table lists them.
pub fn grouped_order(names: &Vec<String>) -> (o: Vec<usize>)
    ensures
        is_grouped_order(views(names@), o@),
{
    let ghost nv = views(names@);
    let n = names.len();
    let mut all: Vec<Vec<char>> = Vec::new();
    let mut k: usize = 0;
    while k < n
        invariant
            k <= n,
            n == names@.len(),
            nv == views(names@),
            all@.len() == k,
            forall|t: int| 0 <= t < k ==> #[trigger] all@[t]@ == nv[t],
        decreases n - k,
    {
        all.push(chars_of(names[k].as_str()));
        k = k + 1;
    }
    let mut o: Vec<usize> = Vec::new();
    let mut k: usize = 0;
    while k < n
        invariant
            k <= n,
            n == names@.len(),
            nv == views(names@),
            nv.len() == n,
            all@.len() == n,
            forall|t: int| 0 <= t < n ==> #[trigger] all@[t]@ == nv[t],
            o@.len() == k,
            forall|i: int| 0 <= i < o@.len() ==> #[trigger] o@[i] < k,
            forall|i: int, j: int| 0 <= i < j < o@.len() ==> row_before(nv, #[trigger] o@[i] as int, #[trigger] o@[j] as int),
        decreases n - k,
    {
        let mut p: usize = 0;
        while p < o.len() && !chars_lt(&all[k], &all[o[p]])
            invariant
                p <= o@.len(),
                k < n,
                all@.len() == n,
                forall|i: int| 0 <= i < o@.len() ==> #[trigger] o@[i] < k,
                forall|t: int| 0 <= t < n ==> #[trigger] all@[t]@ == nv[t],
                forall|i: int| 0 <= i < p ==> !text_lt(nv[k as int], nv[#[trigger] o@[i] as int]),
            decreases o@.len() - p,
        {
            p = p + 1;
        }
        let ghost old_o = o@;
        o.insert(p, k);
        proof {
            let x = k as int;
            assert forall|i: int, j: int| 0 <= i < j < o@.len() implies row_before(nv, #[trigger] o@[i] as int, #[trigger] o@[j] as int) by {
                if j == p {
                    let a = old_o[i] as int;
                    assert(o@[i] == old_o[i]);
                    lemma_text_lt_total(nv[x], nv[a]);
                } else if i == p {
                    let b = old_o[j - 1] as int;
                    assert(o@[j] == old_o[j - 1]);
                    let c = old_o[p as int] as int;
                    assert(text_lt(nv[x], nv[c]));
                    if j - 1 > p {
                        assert(row_before(nv, c, b));
                        if text_lt(nv[c], nv[b]) {
                            lemma_text_lt_transitive(nv[x], nv[c], nv[b]);
                        }
                    }
                } else if i < p && j > p {
                    let a = old_o[i] as int;
                    let b = old_o[j - 1] as int;
                    assert(o@[i] == old_o[i]);
                    assert(o@[j] == old_o[j - 1]);
                } else if i > p {
                    assert(o@[i] == old_o[i - 1]);
                    assert(o@[j] == old_o[j - 1]);
                } else {
                    assert(o@[i] == old_o[i]);
                    assert(o@[j] == old_o[j]);
                }
            }
            assert forall|i: int| 0 <= i < o@.len() implies #[trigger] o@[i] < k + 1 by {
                if i < p {
                    assert(o@[i] == old_o[i]);
                } else if i > p {
                    assert(o@[i] == old_o[i - 1]);
                }
            }
        }
        k = k + 1;
    }
    o
}

/// Every position `0 .. n` occurs in a list of `n` distinct positions below `n`.
proof fn lemma_covers_all(o: Seq<usize>, n: int, x: int)
    requires
        o.len() == n,
        forall|i: int| 0 <= i < n ==> #[trigger] o[i] < n,
        forall|i: int, j: int| 0 <= i < j < n ==> #[trigger] o[i] != #[trigger] o[j],
        0 <= x < n,
    ensures
        exists|i: int| 0 <= i < n && o[i] == x,
{
    broadcast use vstd::seq_lib::seq_to_set_is_finite;
    let oi = o.map_values(|v: usize| v as int);
    assert(oi.no_duplicates()) by {
        assert forall|i: int, j: int| 0 <= i < oi.len() && 0 <= j < oi.len() && i != j implies oi[i] != oi[j] by {
            if i < j {
                assert(o[i] != o[j]);
            } else {
                assert(o[j] != o[i]);
            }
        }
    }
    oi.unique_seq_to_set();
    vstd::set_lib::lemma_int_range(0, n);
    let full = vstd::set_lib::set_int_range(0, n);
    assert(oi.to_set().subset_of(full)) by {
        assert forall|v: int| oi.to_set().contains(v) implies full.contains(v) by {
            let i = choose|i: int| 0 <= i < oi.len() && oi[i] == v;
            assert(o[i] < n);
        }
    }
    vstd::set_lib::lemma_subset_equality(oi.to_set(), full);
    assert(full.contains(x));
    assert(oi.to_set().contains(x));
    let i = choose|i: int| 0 <= i < oi.len() && oi[i] == x;
    assert(o[i] == x);
}

/// The grouped order of a table is unique.
pub proof fn grouped_order_unique(names: Seq<Seq<char>>, o1: Seq<usize>, o2: Seq<usize>)
    requires
        is_grouped_order(names, o1),
        is_grouped_order(names, o2),
    ensures
        o1 == o2,
{
    let n = names.len() as int;
    assert forall|i: int, j: int| 0 <= i < j < n implies #[trigger] o1[i] != #[trigger] o1[j] by {
        assert(row_before(names, o1[i] as int, o1[j] as int));
        lemma_text_lt_irreflexive(names[o1[i] as int]);
    }
    assert forall|i: int, j: int| 0 <= i < j < n implies #[trigger] o2[i] != #[trigger] o2[j] by {
        assert(row_before(names, o2[i] as int, o2[j] as int));
        lemma_text_lt_irreflexive(names[o2[i] as int]);
    }
    assert forall|i: int| 0 <= i < n implies o1[i] == o2[i] by {
        lemma_same_at(names, o1, o2, i);
    }
    assert(o1 =~= o2);
}

proof fn lemma_same_at(names: Seq<Seq<char>>, o1: Seq<usize>, o2: Seq<usize>, i: int)
    requires
        is_grouped_order(names, o1),
        is_grouped_order(names, o2),
        forall|a: int, b: int| 0 <= a < b < names.len() ==> #[trigger] o1[a] != #[trigger] o1[b],
        forall|a: int, b: int| 0 <= a < b < names.len() ==> #[trigger] o2[a] != #[trigger] o2[b],
        0 <= i < names.len(),
    ensures
        forall|k: int| 0 <= k <= i ==> o1[k] == o2[k],
    decreases i,
{
    let n = names.len() as int;
    if i > 0 {
        lemma_same_at(names, o1, o2, i - 1);
    }
    lemma_covers_all(o2, n, o1[i] as int);
    let j = choose|j: int| 0 <= j < n && o2[j] == o1[i];
    lemma_covers_all(o1, n, o2[i] as int);
    let j2 = choose|j2: int| 0 <= j2 < n && o1[j2] == o2[i];
    if j != i {
        if j < i {
            assert(o1[j] == o2[j]);
            assert(o1[j] != o1[i]);
        } else if j2 < i {
            assert(o1[j2] == o2[j2]);
            assert(o2[j2] != o2[i]);
        } else {
            assert(row_before(names, o2[i] as int, o2[j] as int));
            if j2 == i {
                assert(o1[i] == o2[i]);
            } else {
                assert(row_before(names, o1[i] as int, o1[j2] as int));
                let a = o1[i] as int;
                let b = o2[i] as int;
                lemma_text_lt_total(names[a], names[b]);
            }
        }
    }
}

/// The test name shown on row `row` of the table grouped by test name.
pub open spec fn grouped_row_name(names: Seq<Seq<char>>, row: int) -> Seq<char> {
    let o = choose|o: Seq<usize>| is_grouped_order(names, o);
    names[o[row] as int]
}

/// The test name of row `row` of the grouped table, if there is such a row.
pub fn test_name_at_row(names: &Vec<String>, row: usize) -> (t: Option<String>)
    ensures
        row >= names@.len() ==> t is None,
        row < names@.len() ==> t is Some && t->0@ == grouped_row_name(views(names@), row as int),
{
    let o = grouped_order(names);
    if row < o.len() {
        proof {
            let nv = views(names@);
            assert(is_grouped_order(nv, o@));
            let c = choose|c: Seq<usize>| is_grouped_order(nv, c);
            grouped_order_unique(nv, o@, c);
            assert(nv[o@[row as int] as int] == names@[o@[row as int] as int]@);
        }
        Some(names[o[row]].clone())
    } else {
        None
    }
}

/// The number of rows of the grouped table: one per statistics row.
pub fn row_count(names: &Vec<String>) -> (n: usize)
    ensures
        n == names@.len(),
{
    let o = grouped_order(names);
    o.len()
}

} // verus!
