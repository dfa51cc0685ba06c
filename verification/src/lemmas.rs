//! Facts about scattering, permutations and the ranges of table entries,
//! used by the executable code and by the laws.
use vstd::prelude::*;
use vstd::set_lib::{lemma_int_range, lemma_subset_equality, set_int_range};

use crate::model::{
    apply_all, apply_all_ok, apply_ok, apply_tables, in_range, inverse_ok, orientations_bounded, inverse_tables, iota, last_index, moved_co,
    moved_eo, scatter, shaped, then_ok, then_tables, undo_co, valid, zeros, Tables,
};

verus! {

/// What `last_index` returns: a position below `n` that holds `j`, after which
/// no position below `n` holds `j`; or -1 when no position below `n` holds `j`.
pub proof fn lemma_last_index(dst: Seq<u8>, j: int, n: int)
    requires
        0 <= n <= dst.len(),
    ensures
        -1 <= last_index(dst, j, n) < n,
        last_index(dst, j, n) >= 0 ==> dst[last_index(dst, j, n)] == j,
        forall|k: int| last_index(dst, j, n) < k < n ==> dst[k] != j,
    decreases n,
{
    if n > 0 {
        lemma_last_index(dst, j, n - 1);
    }
}

/// In a sequence without repeats, the last position that holds `dst[i]` is `i`.
pub proof fn lemma_last_index_unique(dst: Seq<u8>, i: int, n: int)
    requires
        dst.no_duplicates(),
        0 <= i < n <= dst.len(),
    ensures
        last_index(dst, dst[i] as int, n) == i,
    decreases n,
{
    if n - 1 != i {
        lemma_last_index_unique(dst, i, n - 1);
    }
}

/// Scattering along a sequence without repeats puts `vals[i]` at `dst[i]`.
pub proof fn lemma_scatter_at(dst: Seq<u8>, vals: Seq<u8>, default: Seq<u8>, i: int)
    requires
        dst.no_duplicates(),
        0 <= i < dst.len(),
        dst[i] < default.len(),
    ensures
        scatter(dst, vals, default)[dst[i] as int] == vals[i],
{
    lemma_last_index_unique(dst, i, dst.len() as int);
}

/// Every entry of a scatter comes from `vals` or from `default`, so a bound
/// on both bounds the result.
pub proof fn lemma_scatter_bound(dst: Seq<u8>, vals: Seq<u8>, default: Seq<u8>, b: int)
    requires
        vals.len() >= dst.len(),
        forall|i: int| 0 <= i < dst.len() ==> #[trigger] vals[i] < b,
        forall|i: int| 0 <= i < default.len() ==> #[trigger] default[i] < b,
    ensures
        scatter(dst, vals, default).len() == default.len(),
        forall|j: int|
            0 <= j < default.len() ==> #[trigger] scatter(dst, vals, default)[j] < b,
{
    assert forall|j: int| 0 <= j < default.len() implies #[trigger] scatter(
        dst,
        vals,
        default,
    )[j] < b by {
        lemma_last_index(dst, j, dst.len() as int);
    }
}

/// A sequence without repeats whose `n` entries all lie below `n` takes every
/// value below `n`.
pub proof fn lemma_onto(dst: Seq<u8>, j: int) -> (i: int)
    requires
        dst.no_duplicates(),
        forall|k: int| 0 <= k < dst.len() ==> #[trigger] dst[k] < dst.len(),
        0 <= j < dst.len(),
    ensures
        0 <= i < dst.len(),
        dst[i] == j,
{
    let n = dst.len() as int;
    let s = dst.map_values(|x: u8| x as int);
    assert(s.no_duplicates()) by {
        assert forall|a: int, b: int| 0 <= a < s.len() && 0 <= b < s.len() && a != b implies s[a]
            != s[b] by {
            assert(dst[a] != dst[b]);
        }
    }
    s.unique_seq_to_set();
    lemma_int_range(0, n);
    assert(s.to_set().subset_of(set_int_range(0, n))) by {
        assert forall|x: int| s.to_set().contains(x) implies set_int_range(0, n).contains(x) by {
            let k = choose|k: int| 0 <= k < s.len() && s[k] == x;
            assert(dst[k] < n);
        }
    }
    vstd::seq_lib::seq_to_set_is_finite(s);
    lemma_subset_equality(s.to_set(), set_int_range(0, n));
    assert(set_int_range(0, n).contains(j));
    assert(s.to_set().contains(j));
    let i = choose|i: int| 0 <= i < s.len() && s[i] == j;
    i
}

/// Composing two tables whose entries are in range is defined and stays in
/// range.
pub proof fn lemma_then_in_range(a: Tables, b: Tables)
    requires
        in_range(a),
        in_range(b),
    ensures
        then_ok(a, b),
        in_range(then_tables(a, b)),
{
    let t = then_tables(a, b);
    assert forall|i: int| 0 <= i < 8 implies #[trigger] t.cp[i] < 8 && t.co[i] < 3 by {
        assert(a.cp[i] < 8);
        assert(b.cp[a.cp[i] as int] < 8);
    }
    assert forall|i: int| 0 <= i < 12 implies #[trigger] t.ep[i] < 12 && t.eo[i] < 2 by {
        assert(a.ep[i] < 12);
        assert(b.ep[a.ep[i] as int] < 12);
    }
    assert forall|i: int| 0 <= i < 8 implies #[trigger] a.cp[i] < 8 && a.co[i] + b.co[a.cp[i] as int]
        < 256 by {
        assert(a.cp[i] < 8);
        assert(b.co[a.cp[i] as int] < 3);
    }
    assert forall|i: int| 0 <= i < 12 implies #[trigger] a.ep[i] < 12 && a.eo[i] + b.eo[a.ep[i] as int]
        < 256 by {
        assert(a.ep[i] < 12);
        assert(b.eo[a.ep[i] as int] < 2);
    }
}

/// Composing two genuine moves gives a genuine move.
pub proof fn lemma_then_valid(a: Tables, b: Tables)
    requires
        valid(a),
        valid(b),
    ensures
        then_ok(a, b),
        valid(then_tables(a, b)),
{
    lemma_then_in_range(a, b);
    let t = then_tables(a, b);
    assert forall|i: int, j: int| 0 <= i < 8 && 0 <= j < 8 && i != j implies t.cp[i] != t.cp[j] by {
        assert(a.cp[i] < 8 && a.cp[j] < 8);
        assert(a.cp[i] != a.cp[j]);
    }
    assert forall|i: int, j: int| 0 <= i < 12 && 0 <= j < 12 && i != j implies t.ep[i] != t.ep[j] by {
        assert(a.ep[i] < 12 && a.ep[j] < 12);
        assert(a.ep[i] != a.ep[j]);
    }
}

/// Inverting a table whose entries are in range is defined and stays in
/// range.
pub proof fn lemma_inverse_in_range(m: Tables)
    requires
        in_range(m),
    ensures
        inverse_ok(m),
        in_range(inverse_tables(m)),
{
    assert forall|i: int| 0 <= i < 8 implies #[trigger] m.cp[i] < 8 && m.co[i] <= 3 by {
        assert(m.cp[i] < 8 && m.co[i] < 3);
    }
    assert forall|i: int| 0 <= i < 12 implies #[trigger] m.ep[i] < 12 by {
        assert(m.ep[i] < 12 && m.eo[i] < 2);
    }
    assert forall|i: int| 0 <= i < 8 implies #[trigger] undo_co(m)[i] < 3 by {}
    assert forall|i: int| 0 <= i < 12 implies #[trigger] m.eo[i] < 2 by {
        assert(m.ep[i] < 12 && m.eo[i] < 2);
    }
    lemma_scatter_bound(m.cp, iota(8), iota(8), 8);
    lemma_scatter_bound(m.cp, undo_co(m), zeros(8), 3);
    lemma_scatter_bound(m.ep, iota(12), iota(12), 12);
    lemma_scatter_bound(m.ep, m.eo, zeros(12), 2);
}

/// For a genuine move `m`, the inverse sends `m.cp[i]` back to `i`, and
/// `m.ep[i]` back to `i`.
pub proof fn lemma_inverse_at(m: Tables)
    requires
        valid(m),
    ensures
        forall|i: int|
            0 <= i < 8 ==> #[trigger] inverse_tables(m).cp[m.cp[i] as int] == i
                && inverse_tables(m).co[m.cp[i] as int] == undo_co(m)[i],
        forall|i: int|
            0 <= i < 12 ==> #[trigger] inverse_tables(m).ep[m.ep[i] as int] == i
                && inverse_tables(m).eo[m.ep[i] as int] == m.eo[i],
{
    assert forall|i: int| 0 <= i < 8 implies #[trigger] inverse_tables(m).cp[m.cp[i] as int] == i
        && inverse_tables(m).co[m.cp[i] as int] == undo_co(m)[i] by {
        assert(m.cp[i] < 8);
        lemma_scatter_at(m.cp, iota(8), iota(8), i);
        lemma_scatter_at(m.cp, undo_co(m), zeros(8), i);
    }
    assert forall|i: int| 0 <= i < 12 implies #[trigger] inverse_tables(m).ep[m.ep[i] as int] == i
        && inverse_tables(m).eo[m.ep[i] as int] == m.eo[i] by {
        assert(m.ep[i] < 12);
        lemma_scatter_at(m.ep, iota(12), iota(12), i);
        lemma_scatter_at(m.ep, m.eo, zeros(12), i);
    }
}

/// The inverse of a genuine move is a genuine move.
pub proof fn lemma_inverse_valid(m: Tables)
    requires
        valid(m),
    ensures
        inverse_ok(m),
        valid(inverse_tables(m)),
{
    lemma_inverse_in_range(m);
    lemma_inverse_at(m);
    let t = inverse_tables(m);
    assert forall|a: int, b: int| 0 <= a < 8 && 0 <= b < 8 && a != b implies t.cp[a] != t.cp[b] by {
        let ia = lemma_onto(m.cp, a);
        let ib = lemma_onto(m.cp, b);
        assert(t.cp[m.cp[ia] as int] == ia);
        assert(t.cp[m.cp[ib] as int] == ib);
    }
    assert forall|a: int, b: int| 0 <= a < 12 && 0 <= b < 12 && a != b implies t.ep[a] != t.ep[b] by {
        let ia = lemma_onto(m.ep, a);
        let ib = lemma_onto(m.ep, b);
        assert(t.ep[m.ep[ia] as int] == ia);
        assert(t.ep[m.ep[ib] as int] == ib);
    }
}

/// Applying a move whose entries are in range to a state whose entries are
/// in range is defined and stays in range.
pub proof fn lemma_apply_in_range(s: Tables, m: Tables)
    requires
        in_range(s),
        in_range(m),
    ensures
        apply_ok(s, m),
        in_range(apply_tables(s, m)),
{
    assert forall|i: int| 0 <= i < 8 implies #[trigger] m.cp[i] < 8 && s.co[i] + m.co[i] < 256 by {
        assert(m.cp[i] < 8 && m.co[i] < 3);
        assert(s.cp[i] < 8 && s.co[i] < 3);
    }
    assert forall|i: int| 0 <= i < 12 implies #[trigger] m.ep[i] < 12 && s.eo[i] + m.eo[i] < 256 by {
        assert(m.ep[i] < 12 && m.eo[i] < 2);
        assert(s.ep[i] < 12 && s.eo[i] < 2);
    }
    assert forall|i: int| 0 <= i < 8 implies #[trigger] s.cp[i] < 8 by {
        assert(s.cp[i] < 8 && s.co[i] < 3);
    }
    assert forall|i: int| 0 <= i < 12 implies #[trigger] s.ep[i] < 12 by {
        assert(s.ep[i] < 12 && s.eo[i] < 2);
    }
    assert forall|i: int| 0 <= i < 8 implies #[trigger] moved_co(s, m)[i] < 3 by {}
    assert forall|i: int| 0 <= i < 12 implies #[trigger] moved_eo(s, m)[i] < 2 by {}
    lemma_scatter_bound(m.cp, s.cp, zeros(8), 8);
    lemma_scatter_bound(m.cp, moved_co(s, m), zeros(8), 3);
    lemma_scatter_bound(m.ep, s.ep, zeros(12), 12);
    lemma_scatter_bound(m.ep, moved_eo(s, m), zeros(12), 2);
}

/// Applying a move whose entries are in range to a state with bounded twists
/// and flips is defined and keeps them bounded.
pub proof fn lemma_apply_bounded(s: Tables, m: Tables)
    requires
        orientations_bounded(s),
        in_range(m),
    ensures
        apply_ok(s, m),
        orientations_bounded(apply_tables(s, m)),
{
    assert forall|i: int| 0 <= i < 8 implies #[trigger] m.cp[i] < 8 && s.co[i] + m.co[i] < 256 by {
        assert(m.cp[i] < 8 && m.co[i] < 3);
        assert(s.co[i] < 3);
    }
    assert forall|i: int| 0 <= i < 12 implies #[trigger] m.ep[i] < 12 && s.eo[i] + m.eo[i] < 256 by {
        assert(m.ep[i] < 12 && m.eo[i] < 2);
        assert(s.eo[i] < 2);
    }
    assert forall|i: int| 0 <= i < 8 implies #[trigger] moved_co(s, m)[i] < 3 by {}
    assert forall|i: int| 0 <= i < 12 implies #[trigger] moved_eo(s, m)[i] < 2 by {}
    lemma_scatter_bound(m.cp, moved_co(s, m), zeros(8), 3);
    lemma_scatter_bound(m.ep, moved_eo(s, m), zeros(12), 2);
}

/// Applying moves whose entries are in range, one after the other, to a
/// state with bounded twists and flips is defined and keeps them bounded.
pub proof fn lemma_apply_all_bounded(s: Tables, ms: Seq<Tables>)
    requires
        orientations_bounded(s),
        forall|i: int| 0 <= i < ms.len() ==> #[trigger] in_range(ms[i]),
    ensures
        apply_all_ok(s, ms),
        orientations_bounded(apply_all(s, ms)),
    decreases ms.len(),
{
    if ms.len() > 0 {
        lemma_apply_all_bounded(s, ms.drop_last());
        lemma_apply_bounded(apply_all(s, ms.drop_last()), ms.last());
    }
}

/// For a genuine move `m`, the state after `m` holds, at `m.cp[i]`, what
/// slot `i` held, turned by `m.co[i]` (and likewise for edges).
pub proof fn lemma_apply_at(s: Tables, m: Tables)
    requires
        shaped(s),
        valid(m),
    ensures
        forall|i: int|
            0 <= i < 8 ==> #[trigger] apply_tables(s, m).cp[m.cp[i] as int] == s.cp[i]
                && apply_tables(s, m).co[m.cp[i] as int] == moved_co(s, m)[i],
        forall|i: int|
            0 <= i < 12 ==> #[trigger] apply_tables(s, m).ep[m.ep[i] as int] == s.ep[i]
                && apply_tables(s, m).eo[m.ep[i] as int] == moved_eo(s, m)[i],
{
    assert forall|i: int| 0 <= i < 8 implies #[trigger] apply_tables(s, m).cp[m.cp[i] as int]
        == s.cp[i] && apply_tables(s, m).co[m.cp[i] as int] == moved_co(s, m)[i] by {
        assert(m.cp[i] < 8);
        lemma_scatter_at(m.cp, s.cp, zeros(8), i);
        lemma_scatter_at(m.cp, moved_co(s, m), zeros(8), i);
    }
    assert forall|i: int| 0 <= i < 12 implies #[trigger] apply_tables(s, m).ep[m.ep[i] as int]
        == s.ep[i] && apply_tables(s, m).eo[m.ep[i] as int] == moved_eo(s, m)[i] by {
        assert(m.ep[i] < 12);
        lemma_scatter_at(m.ep, s.ep, zeros(12), i);
        lemma_scatter_at(m.ep, moved_eo(s, m), zeros(12), i);
    }
}

/// Applying moves whose entries are in range, one after the other, to a
/// state whose entries are in range is defined and stays in range.
pub proof fn lemma_apply_all_in_range(s: Tables, ms: Seq<Tables>)
    requires
        in_range(s),
        forall|i: int| 0 <= i < ms.len() ==> #[trigger] in_range(ms[i]),
    ensures
        apply_all_ok(s, ms),
        in_range(apply_all(s, ms)),
    decreases ms.len(),
{
    if ms.len() > 0 {
        lemma_apply_all_in_range(s, ms.drop_last());
        lemma_apply_in_range(apply_all(s, ms.drop_last()), ms.last());
    }
}

} // verus!
