//! Stable ordering of collected items by a key made of an integer and a
//! string, compared as `Ord` compares `(integer, String)` pairs: first the
//! integer, then the strings lexicographically.
use vstd::prelude::*;
use crate::text::seq_lt;
use vstd::relations::injective_on;
use vstd::set_lib::{lemma_int_range, lemma_map_size, lemma_subset_equality, set_int_range};

verus! {

/// Strict order on keys: by the integer, then by the string.
pub open spec fn key_lt(a: (int, Seq<char>), b: (int, Seq<char>)) -> bool {
    a.0 < b.0 || (a.0 == b.0 && seq_lt(a.1, b.1))
}

/// Items that are listed in the order of a key.
pub trait SortKey {
    spec fn sort_key(&self) -> (int, Seq<char>);

    fn key_less(&self, other: &Self) -> (r: bool)
        ensures
            r == key_lt(self.sort_key(), other.sort_key()),
    ;
}

/// No item of `s` comes before one with a smaller key.
pub open spec fn sorted_by_key<T: SortKey>(s: Seq<T>) -> bool {
    forall|i: int, j: int|
        0 <= i < j < s.len() ==> !key_lt(#[trigger] s[j].sort_key(), #[trigger] s[i].sort_key())
}

/// `out` is `inp` rearranged by `p` (`out[k] == inp[p[k]]`), ordered by key,
/// with items of equal key left in the order they had in `inp`.
pub open spec fn stable_arrangement<T: SortKey>(out: Seq<T>, inp: Seq<T>, p: Seq<int>) -> bool {
    &&& p.len() == out.len()
    &&& out.len() == inp.len()
    &&& forall|k: int| 0 <= k < p.len() ==> 0 <= #[trigger] p[k] < inp.len()
    &&& forall|k: int| 0 <= k < p.len() ==> out[k] == inp[#[trigger] p[k]]
    &&& forall|k1: int, k2: int| 0 <= k1 < k2 < p.len() ==> #[trigger] p[k1] != #[trigger] p[k2]
    &&& sorted_by_key(out)
    &&& forall|k1: int, k2: int|
        0 <= k1 < k2 < p.len() && (#[trigger] out[k1]).sort_key() == (#[trigger] out[k2]).sort_key()
            ==> p[k1] < p[k2]
}

/// `out` is what a stable sort of `inp` by key produces.
pub open spec fn is_stable_sort_of<T: SortKey>(out: Seq<T>, inp: Seq<T>) -> bool {
    exists|p: Seq<int>| stable_arrangement(out, inp, p)
}

pub proof fn lemma_seq_lt_irreflexive(a: Seq<char>)
    ensures
        !seq_lt(a, a),
    decreases a.len(),
{
    if a.len() > 0 {
        lemma_seq_lt_irreflexive(a.drop_first());
    }
}

pub proof fn lemma_seq_lt_transitive(a: Seq<char>, b: Seq<char>, c: Seq<char>)
    requires
        seq_lt(a, b),
        seq_lt(b, c),
    ensures
        seq_lt(a, c),
    decreases a.len(),
{
    if a.len() > 0 && b.len() > 0 && c.len() > 0 {
        if (a[0] as int) == (b[0] as int) && (b[0] as int) == (c[0] as int) {
            lemma_seq_lt_transitive(a.drop_first(), b.drop_first(), c.drop_first());
        }
    }
}

pub proof fn lemma_seq_lt_total(a: Seq<char>, b: Seq<char>)
    requires
        a != b,
    ensures
        seq_lt(a, b) || seq_lt(b, a),
    decreases a.len(),
{
    if a.len() > 0 && b.len() > 0 && (a[0] as int) == (b[0] as int) {
        if a.drop_first() == b.drop_first() {
            assert(a[0] == b[0]);
            assert(a =~= seq![a[0]] + a.drop_first());
            assert(b =~= seq![b[0]] + b.drop_first());
        } else {
            lemma_seq_lt_total(a.drop_first(), b.drop_first());
        }
    } else if a.len() == 0 && b.len() == 0 {
        assert(a =~= b);
    }
}

/// The order in which collected items are listed is a strict total order on
/// keys: no key precedes itself, precedence is transitive, and of two
/// different keys one precedes the other.
pub proof fn law_key_order_is_strict_total(
    a: (int, Seq<char>),
    b: (int, Seq<char>),
    c: (int, Seq<char>),
)
    ensures
        !key_lt(a, a),
        key_lt(a, b) && key_lt(b, c) ==> key_lt(a, c),
        a != b ==> key_lt(a, b) || key_lt(b, a),
{
    lemma_key_lt_irreflexive(a);
    if key_lt(a, b) && key_lt(b, c) {
        lemma_key_lt_transitive(a, b, c);
    }
    if a != b && a.0 == b.0 {
        lemma_seq_lt_total(a.1, b.1);
    }
}

pub proof fn lemma_key_lt_irreflexive(a: (int, Seq<char>))
    ensures
        !key_lt(a, a),
{
    lemma_seq_lt_irreflexive(a.1);
}

pub proof fn lemma_key_lt_transitive(a: (int, Seq<char>), b: (int, Seq<char>), c: (int, Seq<char>))
    requires
        key_lt(a, b),
        key_lt(b, c),
    ensures
        key_lt(a, c),
{
    if a.0 == b.0 && b.0 == c.0 {
        lemma_seq_lt_transitive(a.1, b.1, c.1);
    }
}

/// Position `i` of `inp` comes before position `j` in a stable order by key.
pub open spec fn precedes<T: SortKey>(inp: Seq<T>, i: int, j: int) -> bool {
    key_lt(inp[i].sort_key(), inp[j].sort_key()) || (inp[i].sort_key() == inp[j].sort_key() && i
        < j)
}

proof fn lemma_precedes_asymmetric<T: SortKey>(inp: Seq<T>, i: int, j: int)
    ensures
        !(precedes(inp, i, j) && precedes(inp, j, i)),
{
    let a = inp[i].sort_key();
    let b = inp[j].sort_key();
    lemma_key_lt_irreflexive(a);
    lemma_key_lt_irreflexive(b);
    if key_lt(a, b) && key_lt(b, a) {
        lemma_key_lt_transitive(a, b, a);
    }
}

proof fn lemma_arrangement_onto<T: SortKey>(out: Seq<T>, inp: Seq<T>, p: Seq<int>, i: int)
    requires
        stable_arrangement(out, inp, p),
        0 <= i < inp.len(),
    ensures
        exists|k: int| 0 <= k < p.len() && p[k] == i,
{
    let n = inp.len() as int;
    let dom = set_int_range(0, n);
    let f = |k: int| p[k];
    lemma_int_range(0, n);
    assert(injective_on(f, dom)) by {
        assert forall|a: int, b: int| dom.contains(a) && dom.contains(b) && f(a) == f(b) implies a
            == b by {
            if a < b {
                assert(p[a] != p[b]);
            } else if b < a {
                assert(p[b] != p[a]);
            }
        }
    }
    lemma_map_size(dom, dom.map(f), f);
    assert(dom.map(f).subset_of(dom)) by {
        assert forall|v: int| dom.map(f).contains(v) implies dom.contains(v) by {
            let k = choose|k: int| dom.contains(k) && f(k) == v;
            assert(0 <= p[k] < n);
        }
    }
    lemma_subset_equality(dom.map(f), dom);
    assert(dom.map(f).contains(i));
    let k = choose|k: int| dom.contains(k) && f(k) == i;
    assert(0 <= k < p.len() && p[k] == i);
}

proof fn lemma_arrangement_increasing<T: SortKey>(
    out: Seq<T>,
    inp: Seq<T>,
    p: Seq<int>,
    k1: int,
    k2: int,
)
    requires
        stable_arrangement(out, inp, p),
        0 <= k1 < k2 < p.len(),
    ensures
        precedes(inp, p[k1], p[k2]),
{
    let a = out[k1].sort_key();
    let b = out[k2].sort_key();
    assert(out[k1] == inp[p[k1]]);
    assert(out[k2] == inp[p[k2]]);
    assert(!key_lt(b, a));
    if a != b {
        law_key_order_is_strict_total(a, b, a);
    }
}

proof fn lemma_arrangements_agree<T: SortKey>(
    out1: Seq<T>,
    out2: Seq<T>,
    inp: Seq<T>,
    p1: Seq<int>,
    p2: Seq<int>,
    k: int,
)
    requires
        stable_arrangement(out1, inp, p1),
        stable_arrangement(out2, inp, p2),
        0 <= k <= p1.len(),
    ensures
        forall|j: int| 0 <= j < k ==> p1[j] == p2[j],
    decreases k,
{
    if k > 0 {
        lemma_arrangements_agree(out1, out2, inp, p1, p2, k - 1);
        let m = k - 1;
        let i1 = p1[m];
        let i2 = p2[m];
        if i1 != i2 {
            lemma_arrangement_onto(out2, inp, p2, i1);
            lemma_arrangement_onto(out1, inp, p1, i2);
            let m2 = choose|j: int| 0 <= j < p2.len() && p2[j] == i1;
            let m1 = choose|j: int| 0 <= j < p1.len() && p1[j] == i2;
            lemma_precedes_asymmetric(inp, i1, i2);
            if m2 < m {
                assert(p1[m2] == p2[m2]);
            } else if m2 > m {
                lemma_arrangement_increasing(out2, inp, p2, m, m2);
                if m1 < m {
                    assert(p1[m1] == p2[m1]);
                } else {
                    lemma_arrangement_increasing(out1, inp, p1, m, m1);
                }
            }
        }
    }
}

/// A stable sort by key has exactly one possible result: the order in which
/// collected items are listed is determined by the items.
pub proof fn law_stable_sort_unique<T: SortKey>(out1: Seq<T>, out2: Seq<T>, inp: Seq<T>)
    requires
        is_stable_sort_of(out1, inp),
        is_stable_sort_of(out2, inp),
    ensures
        out1 == out2,
{
    let p1 = choose|p: Seq<int>| stable_arrangement(out1, inp, p);
    let p2 = choose|p: Seq<int>| stable_arrangement(out2, inp, p);
    lemma_arrangements_agree(out1, out2, inp, p1, p2, p1.len() as int);
    assert forall|k: int| 0 <= k < out1.len() implies out1[k] == out2[k] by {
        assert(out1[k] == inp[p1[k]]);
        assert(out2[k] == inp[p2[k]]);
    }
    assert(out1 =~= out2);
}

/// What a stable sort produces is ordered by key.
pub proof fn lemma_stable_sort_is_sorted<T: SortKey>(out: Seq<T>, inp: Seq<T>)
    requires
        is_stable_sort_of(out, inp),
    ensures
        sorted_by_key(out),
{
    let p = choose|p: Seq<int>| stable_arrangement(out, inp, p);
    assert(stable_arrangement(out, inp, p));
}

/// `a < b` on string slices (code-point lexicographic).
pub fn str_lt(a: &str, b: &str) -> (r: bool)
    ensures
        r == seq_lt(a@, b@),
{
    let n: usize = a.unicode_len();
    let m: usize = b.unicode_len();
    let mut i: usize = 0;
    assert(a@.skip(0) =~= a@);
    assert(b@.skip(0) =~= b@);
    loop
        invariant
            0 <= i <= n,
            i <= m,
            n == a@.len(),
            m == b@.len(),
            seq_lt(a@, b@) == seq_lt(a@.skip(i as int), b@.skip(i as int)),
        decreases n - i,
    {
        if i == m {
            return false;
        }
        if i == n {
            return true;
        }
        let x: char = a.get_char(i);
        let y: char = b.get_char(i);
        assert(a@.skip(i as int)[0] == a@[i as int]);
        assert(b@.skip(i as int)[0] == b@[i as int]);
        if x < y {
            return true;
        }
        if x > y {
            return false;
        }
        assert(a@.skip(i as int).drop_first() =~= a@.skip(i + 1));
        assert(b@.skip(i as int).drop_first() =~= b@.skip(i + 1));
        i = i + 1;
    }
}

/// The items of `v`, ordered by key; items with equal keys keep their order
/// (what `sort_by` does with the key's `Ord`).
pub fn stable_sort<T: SortKey>(v: Vec<T>) -> (r: Vec<T>)
    ensures
        is_stable_sort_of(r@, v@),
{
    let ghost inp = v@;
    let mut rest = v;
    let mut out: Vec<T> = Vec::new();
    let ghost mut p: Seq<int> = Seq::empty();
    let n: usize = rest.len();
    let mut i: usize = 0;
    while i < n
        invariant
            0 <= i <= n,
            n == inp.len(),
            rest@ == inp.skip(i as int),
            out@.len() == i,
            p.len() == i,
            forall|k: int| 0 <= k < p.len() ==> 0 <= #[trigger] p[k] < i,
            forall|k: int| 0 <= k < p.len() ==> out@[k] == inp[#[trigger] p[k]],
            forall|k1: int, k2: int| 0 <= k1 < k2 < p.len() ==> #[trigger] p[k1] != #[trigger] p[k2],
            sorted_by_key(out@),
            forall|k1: int, k2: int|
                0 <= k1 < k2 < p.len() && (#[trigger] out@[k1]).sort_key() == (
                #[trigger] out@[k2]).sort_key() ==> p[k1] < p[k2],
        decreases n - i,
    {
        let x = rest.remove(0);
        assert(x == inp[i as int]);
        assert(rest@ =~= inp.skip(i + 1));
        let mut k: usize = 0;
        while k < out.len() && !x.key_less(&out[k])
            invariant
                0 <= k <= out@.len(),
                forall|j: int| 0 <= j < k ==> !key_lt(x.sort_key(), #[trigger] out@[j].sort_key()),
            decreases out@.len() - k,
        {
            k = k + 1;
        }
        let ghost old_out = out@;
        let ghost old_p = p;
        proof {
            if k < old_out.len() {
                assert(key_lt(x.sort_key(), old_out[k as int].sort_key()));
            }
        }
        out.insert(k, x);
        proof {
            p = old_p.insert(k as int, i as int);
            assert(out@ =~= old_out.insert(k as int, x));
            assert forall|j1: int, j2: int| 0 <= j1 < j2 < out@.len() implies !key_lt(
                #[trigger] out@[j2].sort_key(),
                #[trigger] out@[j1].sort_key(),
            ) by {
                if j2 < k {
                    assert(out@[j1] == old_out[j1] && out@[j2] == old_out[j2]);
                } else if j2 == k {
                    assert(out@[j1] == old_out[j1]);
                } else if j1 > k {
                    assert(out@[j1] == old_out[j1 - 1] && out@[j2] == old_out[j2 - 1]);
                } else if j1 == k {
                    let y = old_out[j2 - 1];
                    assert(out@[j2] == y);
                    if key_lt(y.sort_key(), x.sort_key()) {
                        lemma_key_lt_transitive(
                            y.sort_key(),
                            x.sort_key(),
                            old_out[k as int].sort_key(),
                        );
                        if j2 - 1 > k {
                            assert(!key_lt(old_out[j2 - 1].sort_key(), old_out[k as int].sort_key()));
                        } else {
                            lemma_key_lt_irreflexive(y.sort_key());
                        }
                    }
                } else {
                    assert(out@[j1] == old_out[j1] && out@[j2] == old_out[j2 - 1]);
                }
            }
            assert forall|k1: int, k2: int|
                0 <= k1 < k2 < p.len() && (#[trigger] out@[k1]).sort_key() == (
                #[trigger] out@[k2]).sort_key() implies p[k1] < p[k2] by {
                if k2 < k {
                    assert(p[k1] == old_p[k1] && p[k2] == old_p[k2]);
                    assert(out@[k1] == old_out[k1] && out@[k2] == old_out[k2]);
                } else if k2 == k {
                    assert(p[k1] == old_p[k1]);
                } else if k1 > k {
                    assert(p[k1] == old_p[k1 - 1] && p[k2] == old_p[k2 - 1]);
                    assert(out@[k1] == old_out[k1 - 1] && out@[k2] == old_out[k2 - 1]);
                } else if k1 == k {
                    let y = old_out[k2 - 1];
                    assert(out@[k2] == y);
                    assert(y.sort_key() == x.sort_key());
                    if k2 - 1 > k {
                        assert(!key_lt(old_out[k2 - 1].sort_key(), old_out[k as int].sort_key()));
                    } else {
                        lemma_key_lt_irreflexive(y.sort_key());
                    }
                } else {
                    assert(p[k1] == old_p[k1] && p[k2] == old_p[k2 - 1]);
                    assert(out@[k1] == old_out[k1] && out@[k2] == old_out[k2 - 1]);
                }
            }
            assert forall|k1: int, k2: int| 0 <= k1 < k2 < p.len() implies #[trigger] p[k1]
                != #[trigger] p[k2] by {
                if k2 < k {
                    assert(p[k1] == old_p[k1] && p[k2] == old_p[k2]);
                } else if k2 == k {
                    assert(p[k1] == old_p[k1]);
                } else if k1 > k {
                    assert(p[k1] == old_p[k1 - 1] && p[k2] == old_p[k2 - 1]);
                } else if k1 == k {
                    assert(p[k2] == old_p[k2 - 1]);
                } else {
                    assert(p[k1] == old_p[k1] && p[k2] == old_p[k2 - 1]);
                }
            }
            assert forall|j: int| 0 <= j < p.len() implies 0 <= #[trigger] p[j] < i + 1
                && out@[j] == inp[p[j]] by {
                if j < k {
                    assert(p[j] == old_p[j]);
                } else if j > k {
                    assert(p[j] == old_p[j - 1]);
                }
            }
        }
        i = i + 1;
    }
    assert(stable_arrangement(out@, inp, p));
    out
}

} // verus!
