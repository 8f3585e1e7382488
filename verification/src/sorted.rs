//! Byte strings in the order `str` sorts them (bytewise lexicographic),
//! sorted sets of them, and sorted maps keyed by them.

use vstd::prelude::*;
use crate::bytes::bytes_eq;
use crate::refs::seqs_view;

verus! {

/// `a` sorts strictly before `b`.
pub open spec fn lex_lt(a: Seq<u8>, b: Seq<u8>) -> bool
    decreases a.len(),
{
    if a.len() == 0 {
        b.len() > 0
    } else if b.len() == 0 {
        false
    } else if a[0] != b[0] {
        a[0] < b[0]
    } else {
        lex_lt(a.drop_first(), b.drop_first())
    }
}

pub proof fn lemma_lex_irreflexive(a: Seq<u8>)
    ensures
        !lex_lt(a, a),
    decreases a.len(),
{
    if a.len() > 0 {
        lemma_lex_irreflexive(a.drop_first());
    }
}

pub proof fn lemma_lex_transitive(a: Seq<u8>, b: Seq<u8>, c: Seq<u8>)
    requires
        lex_lt(a, b),
        lex_lt(b, c),
    ensures
        lex_lt(a, c),
    decreases a.len(),
{
    if a.len() > 0 && b.len() > 0 && c.len() > 0 && a[0] == b[0] && b[0] == c[0] {
        lemma_lex_transitive(a.drop_first(), b.drop_first(), c.drop_first());
    }
}

pub proof fn lemma_lex_total(a: Seq<u8>, b: Seq<u8>)
    ensures
        a != b ==> lex_lt(a, b) || lex_lt(b, a),
        !(lex_lt(a, b) && lex_lt(b, a)),
    decreases a.len(),
{
    if a.len() > 0 && b.len() > 0 && a[0] == b[0] {
        lemma_lex_total(a.drop_first(), b.drop_first());
        if a.drop_first() == b.drop_first() {
            assert(a =~= seq![a[0]] + a.drop_first());
            assert(b =~= seq![b[0]] + b.drop_first());
        }
    } else if a.len() == 0 && b.len() == 0 {
        assert(a =~= b);
    }
}

/// Whether `a` sorts strictly before `b`.
pub fn lex_less(a: &[u8], b: &[u8]) -> (r: bool)
    ensures
        r == lex_lt(a@, b@),
{
    let mut i: usize = 0;
    let na = a.len();
    let nb = b.len();
    assert(a@.subrange(0, na as int) =~= a@);
    assert(b@.subrange(0, nb as int) =~= b@);
    loop
        invariant
            na == a@.len(),
            nb == b@.len(),
            i <= na,
            i <= nb,
            lex_lt(a@, b@) == lex_lt(a@.subrange(i as int, na as int), b@.subrange(i as int, nb as int)),
        decreases na - i,
    {
        let ghost sa = a@.subrange(i as int, na as int);
        let ghost sb = b@.subrange(i as int, nb as int);
        if i == na {
            return i < nb;
        }
        if i == nb {
            return false;
        }
        if a[i] != b[i] {
            return a[i] < b[i];
        }
        assert(sa.drop_first() =~= a@.subrange(i + 1, na as int));
        assert(sb.drop_first() =~= b@.subrange(i + 1, nb as int));
        i = i + 1;
    }
}

/// Every element sorts strictly before every later one.
pub open spec fn strictly_sorted(q: Seq<Seq<u8>>) -> bool {
    forall|i: int, j: int| 0 <= i < j < q.len() ==> lex_lt(#[trigger] q[i], #[trigger] q[j])
}

/// The first position at or after `i` whose element does not sort before `x`.
pub open spec fn pos_from(q: Seq<Seq<u8>>, x: Seq<u8>, i: int) -> int
    decreases q.len() - i,
{
    if i < 0 || i >= q.len() {
        q.len() as int
    } else if lex_lt(q[i], x) {
        pos_from(q, x, i + 1)
    } else {
        i
    }
}

pub proof fn lemma_pos_from(q: Seq<Seq<u8>>, x: Seq<u8>, i: int)
    requires
        0 <= i <= q.len(),
    ensures
        i <= pos_from(q, x, i) <= q.len(),
        forall|k: int| i <= k < pos_from(q, x, i) ==> lex_lt(#[trigger] q[k], x),
        pos_from(q, x, i) < q.len() ==> !lex_lt(q[pos_from(q, x, i)], x),
    decreases q.len() - i,
{
    if i < q.len() && lex_lt(q[i], x) {
        lemma_pos_from(q, x, i + 1);
    }
}

/// `q` with `x` added at its place, unless it is there already.
pub open spec fn set_insert(q: Seq<Seq<u8>>, x: Seq<u8>) -> Seq<Seq<u8>> {
    let p = pos_from(q, x, 0);
    if p < q.len() && q[p] == x {
        q
    } else {
        q.insert(p, x)
    }
}

/// Adding to a sorted set keeps it sorted and adds exactly `x`.
pub proof fn lemma_set_insert(q: Seq<Seq<u8>>, x: Seq<u8>)
    requires
        strictly_sorted(q),
    ensures
        strictly_sorted(set_insert(q, x)),
        forall|y: Seq<u8>| #[trigger] set_insert(q, x).contains(y) <==> q.contains(y) || y == x,
{
    lemma_pos_from(q, x, 0);
    let p = pos_from(q, x, 0);
    let r = set_insert(q, x);
    if !(p < q.len() && q[p] == x) {
        assert forall|i: int, j: int| 0 <= i < j < r.len() implies lex_lt(
            #[trigger] r[i],
            #[trigger] r[j],
        ) by {
            if j == p {
                assert(lex_lt(q[i], x));
            } else if i == p {
                lemma_lex_total(q[p], x);
                if j - 1 > p {
                    lemma_lex_transitive(x, q[p], q[j - 1]);
                }
            } else if i < p && j > p {
                assert(lex_lt(q[i], q[j - 1]));
            } else if i > p {
                assert(lex_lt(q[i - 1], q[j - 1]));
            }
        }
        assert forall|y: Seq<u8>| #[trigger] r.contains(y) <==> q.contains(y) || y == x by {
            if q.contains(y) {
                let k = choose|k: int| 0 <= k < q.len() && q[k] == y;
                if k < p {
                    assert(r[k] == y);
                } else {
                    assert(r[k + 1] == y);
                }
            }
            if y == x {
                assert(r[p] == x);
            }
            if r.contains(y) {
                let k = choose|k: int| 0 <= k < r.len() && r[k] == y;
                if k < p {
                    assert(q[k] == y);
                } else if k > p {
                    assert(q[k - 1] == y);
                }
            }
        }
    }
}

/// Add `x` to the sorted set `v`.
pub fn set_insert_exec(v: &mut Vec<Vec<u8>>, x: Vec<u8>)
    ensures
        seqs_view(final(v)@) == set_insert(seqs_view(old(v)@), x@),
{
    let ghost q = seqs_view(v@);
    let mut i: usize = 0;
    while i < v.len() && lex_less(v[i].as_slice(), x.as_slice())
        invariant
            i <= v@.len(),
            q == seqs_view(v@),
            pos_from(q, x@, i as int) == pos_from(q, x@, 0),
        decreases v@.len() - i,
    {
        i = i + 1;
    }
    if i < v.len() && bytes_eq(v[i].as_slice(), x.as_slice()) {
        return;
    }
    let ghost xv = x@;
    let ghost old_v = v@;
    v.insert(i, x);
    assert(seqs_view(v@) =~= q.insert(i as int, xv));
}

/// The keys of a map kept as a list of entries.
pub open spec fn keys_of<V>(m: Seq<(Vec<u8>, V)>) -> Seq<Seq<u8>> {
    m.map_values(|e: (Vec<u8>, V)| e.0@)
}

/// Where key `k` sits in the map `m` sorted by key, or where it would go.
pub fn key_pos<V>(m: &Vec<(Vec<u8>, V)>, k: &[u8]) -> (r: usize)
    ensures
        r == pos_from(keys_of(m@), k@, 0),
        r <= m@.len(),
{
    let ghost q = keys_of(m@);
    proof {
        lemma_pos_from(q, k@, 0);
    }
    let mut i: usize = 0;
    while i < m.len() && lex_less(m[i].0.as_slice(), k)
        invariant
            i <= m@.len(),
            q == keys_of(m@),
            pos_from(q, k@, i as int) == pos_from(q, k@, 0),
        decreases m@.len() - i,
    {
        i = i + 1;
    }
    i
}

} // verus!
