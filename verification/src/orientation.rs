//! The orientation sums of the cubie model: on a reachable cube the corner
//! twists add up to a multiple of 3 and the edge flips to a multiple of 2,
//! and applying a move with the same property keeps it so.
use vstd::prelude::*;

use crate::faces::{
    b_turn_tables, d_turn_tables, e_slice_tables, f_turn_tables, l_turn_tables, m_slice_tables,
    r_turn_tables, s_slice_tables, u_turn_tables,
};
use crate::lemmas::{lemma_apply_at, lemma_onto};
use crate::model::{apply_tables, moved_co, moved_eo, valid, Tables};

verus! {

/// The sum of the entries.
pub open spec fn total(s: Seq<u8>) -> int
    decreases s.len(),
{
    if s.len() == 0 {
        0
    } else {
        total(s.drop_last()) + s.last()
    }
}

/// The corner twists sum to a multiple of 3 and the edge flips to a
/// multiple of 2.
pub open spec fn orientation_sums_ok(t: Tables) -> bool {
    total(t.co) % 3 == 0 && total(t.eo) % 2 == 0
}

proof fn lemma_total_update(b: Seq<u8>, j: int, v: u8)
    requires
        0 <= j < b.len(),
    ensures
        total(b.update(j, v)) == total(b) - b[j] + v,
    decreases b.len(),
{
    let c = b.update(j, v);
    if j == b.len() - 1 {
        assert(c.drop_last() =~= b.drop_last());
    } else {
        assert(c.drop_last() =~= b.drop_last().update(j, v));
        lemma_total_update(b.drop_last(), j, v);
    }
}

proof fn lemma_total_zero(b: Seq<u8>)
    requires
        forall|j: int| 0 <= j < b.len() ==> b[j] == 0,
    ensures
        total(b) == 0,
    decreases b.len(),
{
    if b.len() > 0 {
        lemma_total_zero(b.drop_last());
    }
}

/// `b` holds the first `n` entries of `a`, each moved to its own position
/// `p[i]`, and zeros elsewhere: the sums agree.
proof fn lemma_total_scatter(a: Seq<u8>, p: Seq<u8>, b: Seq<u8>, n: int)
    requires
        0 <= n <= a.len(),
        n <= p.len(),
        forall|i: int| 0 <= i < n ==> #[trigger] p[i] < b.len() && b[p[i] as int] == a[i],
        forall|i: int, k: int| 0 <= i < k < n ==> #[trigger] p[i] != #[trigger] p[k],
        forall|j: int|
            0 <= j < b.len() && b[j] != 0 ==> exists|i: int| 0 <= i < n && #[trigger] p[i] == j,
    ensures
        total(b) == total(a.take(n)),
    decreases n,
{
    if n == 0 {
        assert forall|j: int| 0 <= j < b.len() implies b[j] == 0 by {
            if b[j] != 0 {
                let i = choose|i: int| 0 <= i < 0 && #[trigger] p[i] == j;
            }
        }
        lemma_total_zero(b);
        assert(a.take(0) =~= Seq::<u8>::empty());
    } else {
        let last = p[n - 1] as int;
        let b2 = b.update(last, 0);
        assert forall|i: int| 0 <= i < n - 1 implies #[trigger] p[i] < b2.len() && b2[p[i] as int]
            == a[i] by {
            assert(p[i] != p[n - 1]);
        }
        assert forall|j: int| 0 <= j < b2.len() && b2[j] != 0 implies exists|i: int|
            0 <= i < n - 1 && #[trigger] p[i] == j by {
            assert(j != last);
            assert(b[j] != 0);
            let i = choose|i: int| 0 <= i < n && #[trigger] p[i] == j;
            assert(i != n - 1);
        }
        lemma_total_scatter(a, p, b2, n - 1);
        lemma_total_update(b, last, 0);
        assert(a.take(n).drop_last() =~= a.take(n - 1));
    }
}

/// Entries `(x[i] + y[i]) % q` sum to the sums of `x` and `y`, modulo `q`.
proof fn lemma_total_mod(x: Seq<u8>, y: Seq<u8>, z: Seq<u8>, q: int)
    requires
        q == 2 || q == 3,
        x.len() == y.len() == z.len(),
        forall|i: int| 0 <= i < z.len() ==> #[trigger] x[i] < q && y[i] < q && z[i] == (x[i] + y[i]) % q,
    ensures
        (total(z) - total(x) - total(y)) % q == 0,
    decreases z.len(),
{
    if z.len() > 0 {
        let n = z.len() - 1;
        assert forall|i: int| 0 <= i < n implies #[trigger] x.drop_last()[i] < q && y.drop_last()[i] < q
            && z.drop_last()[i] == (x.drop_last()[i] + y.drop_last()[i]) % q by {
            assert(x[i] < q && y[i] < q && z[i] == (x[i] + y[i]) % q);
        }
        lemma_total_mod(x.drop_last(), y.drop_last(), z.drop_last(), q);
        assert(x[n] < q && y[n] < q && z[n] == (x[n] + y[n]) % q);
        let d = total(z.drop_last()) - total(x.drop_last()) - total(y.drop_last());
        let e = z[n] - x[n] - y[n];
        assert(e == 0 || e == -q);
        assert((d + e) % q == 0) by (nonlinear_arith)
            requires
                d % q == 0,
                e == 0 || e == -q,
                q == 2 || q == 3,
        ;
    }
}

/// Applying a genuine move whose twists and flips sum to multiples of 3 and
/// 2 to a genuine state with the same property keeps the property.
pub proof fn law_apply_keeps_orientation_sums(s: Tables, m: Tables)
    requires
        valid(s),
        valid(m),
        orientation_sums_ok(s),
        orientation_sums_ok(m),
    ensures
        orientation_sums_ok(apply_tables(s, m)),
{
    let t = apply_tables(s, m);
    lemma_apply_at(s, m);
    let mc = moved_co(s, m);
    let me = moved_eo(s, m);
    // Corners: the twists of the result are those of `mc`, permuted.
    assert forall|i: int| 0 <= i < 8 implies #[trigger] m.cp[i] < t.co.len() && t.co[m.cp[i] as int]
        == mc[i] by {
        assert(m.cp[i] < 8);
        assert(t.cp[m.cp[i] as int] == s.cp[i]);
    }
    assert forall|j: int| 0 <= j < t.co.len() && t.co[j] != 0 implies exists|i: int|
        0 <= i < 8 && #[trigger] m.cp[i] == j by {
        assert forall|k: int| 0 <= k < m.cp.len() implies #[trigger] m.cp[k] < m.cp.len() by {
            assert(m.cp[k] < 8);
        }
        let i = lemma_onto(m.cp, j);
    }
    lemma_total_scatter(mc, m.cp, t.co, 8);
    assert(mc.take(8) =~= mc);
    assert forall|i: int| 0 <= i < 8 implies #[trigger] s.co[i] < 3 && m.co[i] < 3 && mc[i] == (
    s.co[i] + m.co[i]) % 3 by {
        assert(s.co[i] < 3 && m.co[i] < 3);
    }
    lemma_total_mod(s.co, m.co, mc, 3);
    // Edges likewise.
    assert forall|i: int| 0 <= i < 12 implies #[trigger] m.ep[i] < t.eo.len() && t.eo[m.ep[i] as int]
        == me[i] by {
        assert(m.ep[i] < 12);
        assert(t.ep[m.ep[i] as int] == s.ep[i]);
    }
    assert forall|j: int| 0 <= j < t.eo.len() && t.eo[j] != 0 implies exists|i: int|
        0 <= i < 12 && #[trigger] m.ep[i] == j by {
        assert forall|k: int| 0 <= k < m.ep.len() implies #[trigger] m.ep[k] < m.ep.len() by {
            assert(m.ep[k] < 12);
        }
        let i = lemma_onto(m.ep, j);
    }
    lemma_total_scatter(me, m.ep, t.eo, 12);
    assert(me.take(12) =~= me);
    assert forall|i: int| 0 <= i < 12 implies #[trigger] s.eo[i] < 2 && m.eo[i] < 2 && me[i] == (
    s.eo[i] + m.eo[i]) % 2 by {
        assert(s.eo[i] < 2 && m.eo[i] < 2);
    }
    lemma_total_mod(s.eo, m.eo, me, 2);
}

/// The face and slice turns twist and flip in sums that are multiples of 3
/// and 2.
pub proof fn lemma_basic_moves_orientation_sums()
    ensures
        orientation_sums_ok(u_turn_tables()),
        orientation_sums_ok(d_turn_tables()),
        orientation_sums_ok(r_turn_tables()),
        orientation_sums_ok(l_turn_tables()),
        orientation_sums_ok(f_turn_tables()),
        orientation_sums_ok(b_turn_tables()),
        orientation_sums_ok(m_slice_tables()),
        orientation_sums_ok(e_slice_tables()),
        orientation_sums_ok(s_slice_tables()),
{
    reveal_with_fuel(total, 13);
}

} // verus!
