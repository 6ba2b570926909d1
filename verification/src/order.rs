//! Sorted lists without duplicates, of texts and of numbers.

use vstd::prelude::*;

use crate::text::{chars_of, views};

verus! {

/// Lexicographic order by code point, which is also the order by UTF-8 bytes.
pub open spec fn precedes(a: Seq<char>, b: Seq<char>) -> bool
    decreases b.len(),
{
    b.len() > 0 && (a.len() == 0 || a[0] < b[0] || (a[0] == b[0] && precedes(a.skip(1), b.skip(1))))
}

/// Each text precedes all that follow it; so none occurs twice.
pub open spec fn ascending(s: Seq<Seq<char>>) -> bool {
    forall|i: int, j: int| 0 <= i < j < s.len() ==> precedes(#[trigger] s[i], #[trigger] s[j])
}

/// The same texts occur in both.
pub open spec fn same_elements(a: Seq<Seq<char>>, b: Seq<Seq<char>>) -> bool {
    forall|x: Seq<char>| #[trigger] a.contains(x) <==> b.contains(x)
}

/// `r` lists the texts that occur in `s`, each once, in order.
pub open spec fn is_sorted_set(r: Seq<Seq<char>>, s: Seq<Seq<char>>) -> bool {
    ascending(r) && same_elements(r, s)
}

pub proof fn lemma_precedes_transitive(a: Seq<char>, b: Seq<char>, c: Seq<char>)
    requires
        precedes(a, b),
        precedes(b, c),
    ensures
        precedes(a, c),
    decreases c.len(),
{
    if a.len() > 0 && a[0] == b[0] && b[0] == c[0] {
        lemma_precedes_transitive(a.skip(1), b.skip(1), c.skip(1));
    }
}

pub proof fn lemma_precedes_irreflexive(a: Seq<char>)
    ensures
        !precedes(a, a),
    decreases a.len(),
{
    if a.len() > 0 {
        lemma_precedes_irreflexive(a.skip(1));
    }
}

/// How two texts compare.
pub enum Place {
    Before,
    Equal,
    After,
}

proof fn lemma_same_head(a: Seq<char>, b: Seq<char>, i: int)
    requires
        0 <= i <= a.len(),
        i <= b.len(),
        a.take(i) == b.take(i),
    ensures
        precedes(a, b) == precedes(a.skip(i), b.skip(i)),
    decreases i,
{
    if i == 0 {
        assert(a.skip(0) =~= a);
        assert(b.skip(0) =~= b);
    } else {
        assert(a[0] == a.take(i)[0]);
        assert(b[0] == b.take(i)[0]);
        assert(a.skip(1).take(i - 1) =~= a.take(i).skip(1));
        assert(b.skip(1).take(i - 1) =~= b.take(i).skip(1));
        lemma_same_head(a.skip(1), b.skip(1), i - 1);
        assert(a.skip(1).skip(i - 1) =~= a.skip(i));
        assert(b.skip(1).skip(i - 1) =~= b.skip(i));
    }
}

fn place(a: &str, b: &str) -> (r: Place)
    ensures
        match r {
            Place::Before => precedes(a@, b@),
            Place::Equal => a@ == b@,
            Place::After => precedes(b@, a@),
        },
{
    let x = chars_of(a);
    let y = chars_of(b);
    let mut i: usize = 0;
    while i < x.len() && i < y.len()
        invariant
            x@ == a@,
            y@ == b@,
            i <= x@.len(),
            i <= y@.len(),
            a@.take(i as int) == b@.take(i as int),
        decreases x@.len() - i,
    {
        proof {
            lemma_same_head(a@, b@, i as int);
            lemma_same_head(b@, a@, i as int);
        }
        if x[i] < y[i] {
            return Place::Before;
        }
        if y[i] < x[i] {
            return Place::After;
        }
        assert(a@.take(i + 1) =~= a@.take(i as int).push(x@[i as int]));
        assert(b@.take(i + 1) =~= b@.take(i as int).push(y@[i as int]));
        i = i + 1;
    }
    proof {
        lemma_same_head(a@, b@, i as int);
        lemma_same_head(b@, a@, i as int);
        assert(a@.take(i as int) =~= b@.take(i as int));
        if x@.len() == y@.len() {
            assert(a@.take(i as int) =~= a@);
            assert(b@.take(i as int) =~= b@);
        }
    }
    if x.len() < y.len() {
        Place::Before
    } else if y.len() < x.len() {
        Place::After
    } else {
        Place::Equal
    }
}

/// Everything in `s` precedes everything in `t`.
spec fn all_before(s: Seq<Seq<char>>, t: Seq<Seq<char>>) -> bool {
    forall|i: int, j: int|
        0 <= i < s.len() && 0 <= j < t.len() ==> precedes(#[trigger] s[i], #[trigger] t[j])
}

proof fn lemma_push_ascending(s: Seq<Seq<char>>, x: Seq<char>)
    requires
        ascending(s),
        forall|i: int| 0 <= i < s.len() ==> precedes(#[trigger] s[i], x),
    ensures
        ascending(s.push(x)),
{
    let t = s.push(x);
    assert forall|i: int, j: int| 0 <= i < j < t.len() implies precedes(
        #[trigger] t[i],
        #[trigger] t[j],
    ) by {
        if j < s.len() {
            assert(precedes(s[i], s[j]));
        } else {
            assert(precedes(s[i], x));
        }
    }
}

/// Merges two sorted lists into one.
fn merge(a: &Vec<String>, b: &Vec<String>) -> (r: Vec<String>)
    requires
        ascending(views(a@)),
        ascending(views(b@)),
    ensures
        ascending(views(r@)),
        same_elements(views(r@), views(a@) + views(b@)),
{
    let ghost av = views(a@);
    let ghost bv = views(b@);
    let mut out: Vec<String> = Vec::new();
    let mut i: usize = 0;
    let mut j: usize = 0;
    while i < a.len() || j < b.len()
        invariant
            av == views(a@),
            bv == views(b@),
            ascending(av),
            ascending(bv),
            i <= av.len(),
            j <= bv.len(),
            ascending(views(out@)),
            all_before(views(out@), av.skip(i as int)),
            all_before(views(out@), bv.skip(j as int)),
            same_elements(views(out@), av.take(i as int) + bv.take(j as int)),
        decreases (av.len() - i) + (bv.len() - j),
    {
        let ghost before = views(out@);
        let ghost ai = av.skip(i as int);
        let ghost bj = bv.skip(j as int);
        let which = if i >= a.len() {
            Place::After
        } else if j >= b.len() {
            Place::Before
        } else {
            place(a[i].as_str(), b[j].as_str())
        };
        let ghost (i0, j0) = (i as int, j as int);
        match which {
            Place::Before => {
                assert(ai[0] == av[i0]);
                out.push(a[i].clone());
                i = i + 1;
            },
            Place::Equal => {
                assert(ai[0] == av[i0]);
                assert(bj[0] == bv[j0]);
                out.push(a[i].clone());
                i = i + 1;
                j = j + 1;
            },
            Place::After => {
                assert(bj[0] == bv[j0]);
                out.push(b[j].clone());
                j = j + 1;
            },
        }
        proof {
            let x = views(out@).last();
            assert(views(out@) =~= before.push(x));
            lemma_push_ascending(before, x);
            lemma_merge_step(av, bv, before, i0, j0, i as int, j as int, x);
        }
    }
    assert(av.take(i as int) =~= av);
    assert(bv.take(j as int) =~= bv);
    out
}

proof fn lemma_merge_step(
    av: Seq<Seq<char>>,
    bv: Seq<Seq<char>>,
    before: Seq<Seq<char>>,
    i0: int,
    j0: int,
    i: int,
    j: int,
    x: Seq<char>,
)
    requires
        ascending(av),
        ascending(bv),
        0 <= i0 <= i <= av.len(),
        0 <= j0 <= j <= bv.len(),
        all_before(before, av.skip(i0)),
        all_before(before, bv.skip(j0)),
        same_elements(before, av.take(i0) + bv.take(j0)),
        (i == i0 + 1 && j == j0 && x == av[i0] && (j0 < bv.len() ==> precedes(x, bv[j0]))) || (i
            == i0 && j == j0 + 1 && x == bv[j0] && (i0 < av.len() ==> precedes(x, av[i0]))) || (i
            == i0 + 1 && j == j0 + 1 && x == av[i0] && x == bv[j0]),
    ensures
        all_before(before.push(x), av.skip(i)),
        all_before(before.push(x), bv.skip(j)),
        same_elements(before.push(x), av.take(i) + bv.take(j)),
{
    let out = before.push(x);
    assert forall|p: int, q: int| 0 <= p < out.len() && 0 <= q < av.skip(i).len() implies precedes(
        #[trigger] out[p],
        #[trigger] av.skip(i)[q],
    ) by {
        let y = av[i + q];
        if p < before.len() {
            assert(av.skip(i0)[i + q - i0] == y);
            assert(precedes(before[p], av.skip(i0)[i + q - i0]));
        } else if i > i0 {
            assert(precedes(av[i0], av[i + q]));
        } else if q > 0 {
            assert(precedes(av[i0], av[i + q]));
            lemma_precedes_transitive(x, av[i0], y);
        }
    }
    assert forall|p: int, q: int| 0 <= p < out.len() && 0 <= q < bv.skip(j).len() implies precedes(
        #[trigger] out[p],
        #[trigger] bv.skip(j)[q],
    ) by {
        let y = bv[j + q];
        if p < before.len() {
            assert(bv.skip(j0)[j + q - j0] == y);
            assert(precedes(before[p], bv.skip(j0)[j + q - j0]));
        } else if j > j0 {
            assert(precedes(bv[j0], bv[j + q]));
        } else if q > 0 {
            assert(precedes(bv[j0], bv[j + q]));
            lemma_precedes_transitive(x, bv[j0], y);
        }
    }
    let old_all = av.take(i0) + bv.take(j0);
    let new_all = av.take(i) + bv.take(j);
    assert forall|y: Seq<char>| #[trigger] out.contains(y) <==> new_all.contains(y) by {
        if out.contains(y) {
            let p = choose|p: int| 0 <= p < out.len() && out[p] == y;
            if p < before.len() {
                assert(before[p] == y);
                assert(before.contains(y));
                let q = choose|q: int| 0 <= q < old_all.len() && old_all[q] == y;
                if q < i0 {
                    assert(new_all[q] == y);
                } else {
                    assert(new_all[q - i0 + i] == y);
                }
            } else if i > i0 {
                assert(new_all[i0] == y);
            } else {
                assert(new_all[i + j0] == y);
            }
        }
        if new_all.contains(y) {
            let q = choose|q: int| 0 <= q < new_all.len() && new_all[q] == y;
            if q < i0 {
                assert(old_all[q] == y);
                assert(before.contains(y));
                let p = choose|p: int| 0 <= p < before.len() && before[p] == y;
                assert(out[p] == y);
            } else if q < i {
                assert(out[before.len() as int] == y);
            } else if q - i < j0 {
                assert(old_all[q - i + i0] == y);
                assert(before.contains(y));
                let p = choose|p: int| 0 <= p < before.len() && before[p] == y;
                assert(out[p] == y);
            } else {
                assert(out[before.len() as int] == y);
            }
        }
    }
}

fn sort_range(v: &Vec<String>, from: usize, to: usize) -> (r: Vec<String>)
    requires
        from <= to <= v@.len(),
    ensures
        is_sorted_set(views(r@), views(v@).subrange(from as int, to as int)),
    decreases to - from,
{
    let ghost vv = views(v@);
    if to - from == 0 {
        let r: Vec<String> = Vec::new();
        assert(views(r@) =~= vv.subrange(from as int, to as int));
        r
    } else if to - from == 1 {
        let mut r: Vec<String> = Vec::new();
        r.push(v[from].clone());
        assert(views(r@) =~= vv.subrange(from as int, to as int));
        r
    } else {
        let mid: usize = from + (to - from) / 2;
        let a = sort_range(v, from, mid);
        let b = sort_range(v, mid, to);
        let r = merge(&a, &b);
        proof {
            let left = vv.subrange(from as int, mid as int);
            let right = vv.subrange(mid as int, to as int);
            let whole = vv.subrange(from as int, to as int);
            assert(whole =~= left + right);
            assert forall|x: Seq<char>| #[trigger] views(r@).contains(x) <==> whole.contains(x) by {
                lemma_concat_contains(views(a@), views(b@), x);
                lemma_concat_contains(left, right, x);
                assert(views(a@).contains(x) <==> left.contains(x));
                assert(views(b@).contains(x) <==> right.contains(x));
                assert(views(r@).contains(x) <==> (views(a@) + views(b@)).contains(x));
            }
        }
        r
    }
}

proof fn lemma_concat_contains(a: Seq<Seq<char>>, b: Seq<Seq<char>>, x: Seq<char>)
    ensures
        (a + b).contains(x) <==> a.contains(x) || b.contains(x),
{
    if a.contains(x) {
        let k = choose|k: int| 0 <= k < a.len() && a[k] == x;
        assert((a + b)[k] == x);
    }
    if b.contains(x) {
        let k = choose|k: int| 0 <= k < b.len() && b[k] == x;
        assert((a + b)[a.len() + k] == x);
    }
}

/// The texts that occur in `v`, each once, in lexicographic order.
pub fn sorted_set(v: &Vec<String>) -> (r: Vec<String>)
    ensures
        is_sorted_set(views(r@), views(v@)),
{
    let r = sort_range(v, 0, v.len());
    assert(views(v@).subrange(0, v@.len() as int) =~= views(v@));
    r
}

/// There is only one sorted list of the texts that occur in `s`.
pub proof fn law_sorted_set_is_unique(a: Seq<Seq<char>>, b: Seq<Seq<char>>, s: Seq<Seq<char>>)
    requires
        is_sorted_set(a, s),
        is_sorted_set(b, s),
    ensures
        a == b,
    decreases a.len() + b.len(),
{
    if a.len() == 0 || b.len() == 0 {
        if a.len() > 0 {
            assert(a.contains(a[0]));
            assert(s.contains(a[0]));
            assert(b.contains(a[0]));
        }
        if b.len() > 0 {
            assert(b.contains(b[0]));
            assert(s.contains(b[0]));
            assert(a.contains(b[0]));
        }
        assert(a =~= b);
    } else {
        let x = a.last();
        let y = b.last();
        assert(a.contains(a[a.len() - 1]));
        assert(s.contains(x));
        assert(b.contains(x));
        assert(b.contains(b[b.len() - 1]));
        assert(s.contains(y));
        assert(a.contains(y));
        let kb = choose|k: int| 0 <= k < b.len() && b[k] == x;
        let ka = choose|k: int| 0 <= k < a.len() && a[k] == y;
        if x != y {
            assert(precedes(b[kb], b[b.len() - 1]));
            assert(precedes(a[ka], a[a.len() - 1]));
            lemma_precedes_transitive(x, y, x);
            lemma_precedes_irreflexive(x);
        }
        let a1 = a.drop_last();
        let b1 = b.drop_last();
        assert(ascending(a1)) by {
            assert forall|i: int, j: int| 0 <= i < j < a1.len() implies precedes(
                #[trigger] a1[i],
                #[trigger] a1[j],
            ) by {
                assert(precedes(a[i], a[j]));
            }
        }
        assert(ascending(b1)) by {
            assert forall|i: int, j: int| 0 <= i < j < b1.len() implies precedes(
                #[trigger] b1[i],
                #[trigger] b1[j],
            ) by {
                assert(precedes(b[i], b[j]));
            }
        }
        assert(same_elements(b1, a1)) by {
            assert forall|z: Seq<char>| #[trigger] b1.contains(z) <==> a1.contains(z) by {
                lemma_without_last(a, z);
                lemma_without_last(b, z);
                assert(a.contains(z) <==> s.contains(z));
                assert(b.contains(z) <==> s.contains(z));
            }
        }
        assert(same_elements(a1, a1));
        law_sorted_set_is_unique(a1, b1, a1);
        assert(a =~= a1.push(x));
        assert(b =~= b1.push(y));
    }
}

proof fn lemma_without_last(a: Seq<Seq<char>>, z: Seq<char>)
    requires
        a.len() > 0,
        ascending(a),
    ensures
        a.drop_last().contains(z) <==> a.contains(z) && z != a.last(),
{
    let a1 = a.drop_last();
    if a1.contains(z) {
        let k = choose|k: int| 0 <= k < a1.len() && a1[k] == z;
        assert(a[k] == z);
        assert(precedes(a[k], a[a.len() - 1]));
        lemma_precedes_irreflexive(a.last());
    }
    if a.contains(z) && z != a.last() {
        let k = choose|k: int| 0 <= k < a.len() && a[k] == z;
        assert(a1[k] == z);
    }
}

/// Numbers in ascending order, none twice.
pub open spec fn increasing(s: Seq<u32>) -> bool {
    forall|i: int, j: int| 0 <= i < j < s.len() ==> s[i] < s[j]
}

/// `r` lists the numbers of `s`, each once, in order.
pub open spec fn is_number_set(r: Seq<u32>, s: Set<u32>) -> bool {
    increasing(r) && forall|x: u32| #[trigger] r.contains(x) <==> s.contains(x)
}

/// Adds a number to a sorted list, unless it is there.
pub fn insert_number(v: &mut Vec<u32>, x: u32)
    requires
        increasing(old(v)@),
    ensures
        increasing(final(v)@),
        forall|y: u32| #[trigger] final(v)@.contains(y) <==> old(v)@.contains(y) || y == x,
{
    let ghost before = v@;
    let mut i: usize = 0;
    while i < v.len() && v[i] < x
        invariant
            i <= v@.len(),
            v@ == before,
            forall|k: int| 0 <= k < i ==> v@[k] < x,
        decreases v@.len() - i,
    {
        i = i + 1;
    }
    if i < v.len() && v[i] == x {
        assert(before[i as int] == x);
        return;
    }
    v.insert(i, x);
    proof {
        let after = v@;
        assert(after == before.insert(i as int, x));
        assert forall|y: u32| #[trigger] after.contains(y) <==> before.contains(y) || y == x by {
            if before.contains(y) {
                let k = choose|k: int| 0 <= k < before.len() && before[k] == y;
                if k < i {
                    assert(after[k] == y);
                } else {
                    assert(after[k + 1] == y);
                }
            }
            if y == x {
                assert(after[i as int] == x);
            }
            if after.contains(y) && y != x {
                let k = choose|k: int| 0 <= k < after.len() && after[k] == y;
                if k < i {
                    assert(before[k] == y);
                } else {
                    assert(before[k - 1] == y);
                }
            }
        }
    }
}

/// Texts are in the order of their first different character, and a text
/// comes before those that go on behind it.
pub proof fn law_texts_are_in_order_of_characters(
    common: Seq<char>,
    a: Seq<char>,
    b: Seq<char>,
)
    ensures
        b.len() > 0 ==> precedes(common, common + b),
        a.len() > 0 && b.len() > 0 && a[0] < b[0] ==> precedes(common + a, common + b)
            && !precedes(common + b, common + a),
        !precedes(a, a),
    decreases common.len(),
{
    lemma_precedes_irreflexive(a);
    if common.len() == 0 {
        assert(common + a =~= a);
        assert(common + b =~= b);
    } else {
        let rest = common.skip(1);
        law_texts_are_in_order_of_characters(rest, a, b);
        assert((common + a).skip(1) =~= rest + a);
        assert((common + b).skip(1) =~= rest + b);
    }
}

} // verus!
