//! The laws of the move algebra: composition, inverse and application to a
//! cube state, proved over the model.
use vstd::prelude::*;

use crate::lemmas::{
    lemma_apply_all_bounded, lemma_apply_bounded, lemma_apply_at, lemma_apply_in_range, lemma_inverse_at,
    lemma_inverse_valid, lemma_onto, lemma_scatter_at, lemma_then_valid,
};
use crate::faces::{
    b_turn_tables, d_turn_tables, e_slice_tables, f_turn_tables, l_turn_tables,
    lemma_basic_moves_valid, m_slice_tables, r_turn_tables, s_slice_tables, u_turn_tables,
};
use crate::moves::{
    lemma_rotations_valid, x_rotation_tables, y_rotation_tables, z_rotation_tables, MoveSet,
};
use crate::normalize::{leading_aufs, strip_auf_spec, strip_end, strip_start, trailing_u_turns};
use crate::parse::{
    auf_spec, frame, net_rotation, prim_inverse, prim_tables, quarter_spec, reframe, reversed_inverse,
    token_spec, tokens_spec, u_family_spec, words, parse_spec, PrimModel,
};
use crate::model::{
    apply_all, apply_repeat, apply_tables, identity_tables, in_range, orientations_bounded, inverse_tables, inverted, iota, moved_co, moved_eo,
    then_tables, undo_co, valid, zeros, Tables,
};

verus! {

/// The identity followed by a move is that move.
pub proof fn law_identity_then(m: Tables)
    requires
        in_range(m),
    ensures
        then_tables(identity_tables(), m) == m,
{
    assert(then_tables(identity_tables(), m) =~= m);
}

/// A move followed by the identity is that move.
pub proof fn law_then_identity(m: Tables)
    requires
        in_range(m),
    ensures
        then_tables(m, identity_tables()) == m,
{
    assert(then_tables(m, identity_tables()) =~= m);
}

/// Composition is associative.
pub proof fn law_then_assoc(a: Tables, b: Tables, c: Tables)
    requires
        in_range(a),
        in_range(b),
        in_range(c),
    ensures
        then_tables(then_tables(a, b), c) == then_tables(a, then_tables(b, c)),
{
    let l = then_tables(then_tables(a, b), c);
    let r = then_tables(a, then_tables(b, c));
    assert forall|i: int| 0 <= i < 8 implies l.cp[i] == r.cp[i] && l.co[i] == r.co[i] by {
        let k = a.cp[i] as int;
        assert(0 <= k < 8);
        let k2 = b.cp[k] as int;
        assert(0 <= k2 < 8);
        assert(a.co[i] < 3 && b.co[k] < 3 && c.co[k2] < 3);
    }
    assert forall|i: int| 0 <= i < 12 implies l.ep[i] == r.ep[i] && l.eo[i] == r.eo[i] by {
        let k = a.ep[i] as int;
        assert(0 <= k < 12);
        let k2 = b.ep[k] as int;
        assert(0 <= k2 < 12);
        assert(a.eo[i] < 2 && b.eo[k] < 2 && c.eo[k2] < 2);
    }
    assert(l =~= r);
}

/// A genuine move followed by its inverse is the identity.
pub proof fn law_then_inverse(m: Tables)
    requires
        valid(m),
    ensures
        then_tables(m, inverse_tables(m)) == identity_tables(),
{
    lemma_inverse_at(m);
    let t = then_tables(m, inverse_tables(m));
    assert forall|i: int| 0 <= i < 8 implies t.cp[i] == iota(8)[i] && t.co[i] == 0 by {
        assert(m.cp[i] < 8 && m.co[i] < 3);
        assert(inverse_tables(m).cp[m.cp[i] as int] == i);
        assert(inverse_tables(m).co[m.cp[i] as int] == undo_co(m)[i]);
        lemma_mod3(m.co[i] as int, undo_co(m)[i] as int, 0);
    }
    assert forall|i: int| 0 <= i < 12 implies t.ep[i] == iota(12)[i] && t.eo[i] == 0 by {
        assert(m.ep[i] < 12 && m.eo[i] < 2);
        assert(inverse_tables(m).ep[m.ep[i] as int] == i);
    }
    assert(t =~= identity_tables());
}

/// Facts of arithmetic modulo 3 on orientation deltas.
proof fn lemma_mod3(x: int, y: int, z: int)
    requires
        0 <= x < 3,
        0 <= y < 3,
        0 <= z < 3,
    ensures
        ((x + y) % 3 + z) % 3 == (x + (y + z) % 3) % 3,
        y == (3 - x) % 3 ==> (x + y) % 3 == 0,
        y == (3 - x) % 3 ==> (3 - y) % 3 == x,
{
}

/// Arithmetic modulo 2 on orientation deltas is associative.
proof fn lemma_mod2(x: int, y: int, z: int)
    requires
        0 <= x < 2,
        0 <= y < 2,
        0 <= z < 2,
    ensures
        ((x + y) % 2 + z) % 2 == (x + (y + z) % 2) % 2,
{
}

/// The inverse of a genuine move followed by the move is the identity.
pub proof fn law_inverse_then(m: Tables)
    requires
        valid(m),
    ensures
        then_tables(inverse_tables(m), m) == identity_tables(),
{
    lemma_inverse_at(m);
    lemma_inverse_valid(m);
    let v = inverse_tables(m);
    let t = then_tables(v, m);
    assert forall|j: int| 0 <= j < 8 implies t.cp[j] == iota(8)[j] && t.co[j] == 0 by {
        let i = lemma_onto(m.cp, j);
        assert(v.cp[m.cp[i] as int] == i);
        assert(m.co[i] < 3);
    }
    assert forall|j: int| 0 <= j < 12 implies t.ep[j] == iota(12)[j] && t.eo[j] == 0 by {
        let i = lemma_onto(m.ep, j);
        assert(v.ep[m.ep[i] as int] == i);
        assert(m.eo[i] < 2);
    }
    assert(t =~= identity_tables());
}

/// Inverting a genuine move twice gives the move back.
pub proof fn law_inverse_inverse(m: Tables)
    requires
        valid(m),
    ensures
        inverse_tables(inverse_tables(m)) == m,
{
    lemma_inverse_at(m);
    lemma_inverse_valid(m);
    let v = inverse_tables(m);
    lemma_inverse_at(v);
    let w = inverse_tables(v);
    assert forall|i: int| 0 <= i < 8 implies w.cp[i] == m.cp[i] && w.co[i] == m.co[i] by {
        let j = m.cp[i] as int;
        assert(0 <= j < 8 && m.co[i] < 3);
        assert(v.cp[j] == i);
        assert(w.cp[v.cp[j] as int] == j);
        assert(v.co[j] == undo_co(m)[i]);
        assert(w.co[v.cp[j] as int] == undo_co(v)[j]);
    }
    assert forall|i: int| 0 <= i < 12 implies w.ep[i] == m.ep[i] && w.eo[i] == m.eo[i] by {
        let j = m.ep[i] as int;
        assert(0 <= j < 12);
        assert(v.ep[j] == i);
        assert(w.ep[v.ep[j] as int] == j);
    }
    assert(w =~= m);
}

/// Applying the identity leaves a cube state unchanged.
pub proof fn law_apply_identity(s: Tables)
    requires
        orientations_bounded(s),
    ensures
        apply_tables(s, identity_tables()) == s,
{
    let t = apply_tables(s, identity_tables());
    assert(iota(8).no_duplicates());
    assert(iota(12).no_duplicates());
    assert forall|j: int| 0 <= j < 8 implies t.cp[j] == s.cp[j] && t.co[j] == s.co[j] by {
        lemma_scatter_at(iota(8), s.cp, zeros(8), j);
        lemma_scatter_at(iota(8), moved_co(s, identity_tables()), zeros(8), j);
    }
    assert forall|j: int| 0 <= j < 12 implies t.ep[j] == s.ep[j] && t.eo[j] == s.eo[j] by {
        lemma_scatter_at(iota(12), s.ep, zeros(12), j);
        lemma_scatter_at(iota(12), moved_eo(s, identity_tables()), zeros(12), j);
    }
    assert(t =~= s);
}

/// Applying `a` and then `b` to a cube state is applying the composed move.
pub proof fn law_apply_then(s: Tables, a: Tables, b: Tables)
    requires
        orientations_bounded(s),
        valid(a),
        valid(b),
    ensures
        apply_tables(apply_tables(s, a), b) == apply_tables(s, then_tables(a, b)),
{
    lemma_then_valid(a, b);
    lemma_apply_bounded(s, a);
    let c = then_tables(a, b);
    let s1 = apply_tables(s, a);
    let l = apply_tables(s1, b);
    let r = apply_tables(s, c);
    lemma_apply_at(s, a);
    lemma_apply_at(s1, b);
    lemma_apply_at(s, c);
    assert forall|j: int| 0 <= j < 8 implies l.cp[j] == r.cp[j] && l.co[j] == r.co[j] by {
        let i = lemma_onto(c.cp, j);
        let k = a.cp[i] as int;
        assert(0 <= k < 8);
        assert(c.cp[i] == b.cp[k]);
        assert(s.co[i] < 3 && a.co[i] < 3 && b.co[k] < 3);
        assert(l.cp[b.cp[k] as int] == s1.cp[k]);
        assert(s1.cp[a.cp[i] as int] == s.cp[i]);
        assert(r.cp[c.cp[i] as int] == s.cp[i]);
        assert(l.co[b.cp[k] as int] == moved_co(s1, b)[k]);
        assert(s1.co[a.cp[i] as int] == moved_co(s, a)[i]);
        assert(r.co[c.cp[i] as int] == moved_co(s, c)[i]);
        lemma_mod3(s.co[i] as int, a.co[i] as int, b.co[k] as int);
    }
    assert forall|j: int| 0 <= j < 12 implies l.ep[j] == r.ep[j] && l.eo[j] == r.eo[j] by {
        let i = lemma_onto(c.ep, j);
        let k = a.ep[i] as int;
        assert(0 <= k < 12);
        assert(c.ep[i] == b.ep[k]);
        assert(s.eo[i] < 2 && a.eo[i] < 2 && b.eo[k] < 2);
        assert(l.ep[b.ep[k] as int] == s1.ep[k]);
        assert(s1.ep[a.ep[i] as int] == s.ep[i]);
        assert(r.ep[c.ep[i] as int] == s.ep[i]);
        assert(l.eo[b.ep[k] as int] == moved_eo(s1, b)[k]);
        assert(s1.eo[a.ep[i] as int] == moved_eo(s, a)[i]);
        assert(r.eo[c.ep[i] as int] == moved_eo(s, c)[i]);
        lemma_mod2(s.eo[i] as int, a.eo[i] as int, b.eo[k] as int);
    }
    assert(l =~= r);
}

/// Applying a genuine move and then its inverse restores the cube state.
pub proof fn law_apply_inverse(s: Tables, m: Tables)
    requires
        orientations_bounded(s),
        valid(m),
    ensures
        apply_tables(apply_tables(s, m), inverse_tables(m)) == s,
{
    lemma_inverse_valid(m);
    law_apply_then(s, m, inverse_tables(m));
    law_then_inverse(m);
    law_apply_identity(s);
}

/// A genuine move takes a genuine cube state to a genuine cube state.
pub proof fn law_apply_valid(s: Tables, m: Tables)
    requires
        valid(s),
        valid(m),
    ensures
        valid(apply_tables(s, m)),
{
    lemma_apply_in_range(s, m);
    lemma_apply_at(s, m);
    let t = apply_tables(s, m);
    assert forall|a: int, b: int| 0 <= a < 8 && 0 <= b < 8 && a != b implies t.cp[a] != t.cp[b] by {
        let ia = lemma_onto(m.cp, a);
        let ib = lemma_onto(m.cp, b);
        assert(s.cp[ia] != s.cp[ib]);
    }
    assert forall|a: int, b: int| 0 <= a < 12 && 0 <= b < 12 && a != b implies t.ep[a] != t.ep[b] by {
        let ia = lemma_onto(m.ep, a);
        let ib = lemma_onto(m.ep, b);
        assert(s.ep[ia] != s.ep[ib]);
    }
}

/// Applying the moves of `a` and then those of `b` is applying the moves of
/// `a + b`.
pub proof fn law_apply_all_append(s: Tables, a: Seq<Tables>, b: Seq<Tables>)
    ensures
        apply_all(s, a + b) == apply_all(apply_all(s, a), b),
    decreases b.len(),
{
    if b.len() == 0 {
        assert(a + b =~= a);
    } else {
        assert((a + b).drop_last() =~= a + b.drop_last());
        law_apply_all_append(s, a, b.drop_last());
    }
}

/// Applying a sequence of genuine moves and then the inverted sequence
/// restores the cube state.
pub proof fn law_apply_all_inverted(s: Tables, ms: Seq<Tables>)
    requires
        orientations_bounded(s),
        forall|i: int| 0 <= i < ms.len() ==> #[trigger] valid(ms[i]),
    ensures
        apply_all(apply_all(s, ms), inverted(ms)) == s,
    decreases ms.len(),
{
    if ms.len() > 0 {
        let p = ms.drop_last();
        let m = ms.last();
        assert(valid(ms[ms.len() - 1]));
        assert(inverted(ms) =~= seq![inverse_tables(m)] + inverted(p));
        assert forall|i: int| 0 <= i < p.len() implies #[trigger] in_range(p[i]) by {
            assert(valid(ms[i]));
        }
        lemma_apply_all_bounded(s, p);
        let q = apply_all(s, p);
        law_apply_all_append(apply_all(s, ms), seq![inverse_tables(m)], inverted(p));
        let one = seq![inverse_tables(m)];
        assert(one.drop_last() =~= Seq::<Tables>::empty());
        assert(apply_all(apply_all(s, ms), one.drop_last()) == apply_all(s, ms));
        assert(one.last() == inverse_tables(m));
        assert(apply_all(apply_all(s, ms), one) == apply_tables(apply_all(s, ms), inverse_tables(m)));
        law_apply_inverse(q, m);
        assert forall|i: int| 0 <= i < p.len() implies #[trigger] valid(p[i]) by {
            assert(valid(ms[i]));
        }
        law_apply_all_inverted(s, p);
    }
}

/// Applying the inverted sequence first and then the sequence itself also
/// restores the cube state.
pub proof fn law_apply_inverted_then_all(s: Tables, ms: Seq<Tables>)
    requires
        orientations_bounded(s),
        forall|i: int| 0 <= i < ms.len() ==> #[trigger] valid(ms[i]),
    ensures
        apply_all(apply_all(s, inverted(ms)), ms) == s,
{
    let inv = inverted(ms);
    assert forall|i: int| 0 <= i < inv.len() implies #[trigger] valid(inv[i]) by {
        assert(valid(ms[ms.len() - 1 - i]));
        lemma_inverse_valid(ms[ms.len() - 1 - i]);
    }
    law_apply_all_inverted(s, inv);
    assert(inverted(inv) =~= ms) by {
        assert forall|i: int| 0 <= i < ms.len() implies inverted(inv)[i] == ms[i] by {
            assert(inv[inv.len() - 1 - i] == inverse_tables(ms[i]));
            law_inverse_inverse(ms[i]);
        }
    }
}

/// A move that `m` composes to the identity with is `m`'s inverse.
pub(crate) proof fn lemma_inverse_unique(m: Tables, w: Tables)
    requires
        valid(m),
        in_range(w),
        then_tables(m, w) == identity_tables(),
    ensures
        w == inverse_tables(m),
{
    let v = inverse_tables(m);
    lemma_inverse_valid(m);
    law_identity_then(w);
    law_inverse_then(m);
    law_then_assoc(v, m, w);
    law_then_identity(v);
}

/// The inverse of "first `a`, then `b`" is "first `b`'s inverse, then
/// `a`'s inverse".
pub proof fn law_inverse_of_then(a: Tables, b: Tables)
    requires
        valid(a),
        valid(b),
    ensures
        inverse_tables(then_tables(a, b)) == then_tables(inverse_tables(b), inverse_tables(a)),
{
    let ab = then_tables(a, b);
    let ia = inverse_tables(a);
    let ib = inverse_tables(b);
    let w = then_tables(ib, ia);
    lemma_then_valid(a, b);
    lemma_inverse_valid(a);
    lemma_inverse_valid(b);
    lemma_then_valid(ib, ia);
    // (a b)(b' a') = a ((b b') a') = a a' = id
    law_then_assoc(a, b, w);
    law_then_assoc(b, ib, ia);
    law_then_inverse(b);
    law_identity_then(ia);
    law_then_inverse(a);
    lemma_inverse_unique(ab, w);
}

// ── stripping ───────────────────────────────────────────────────────────

proof fn lemma_leading_aufs_prefix(pre: Seq<Tables>, s: Seq<Tables>, ms: MoveSet)
    requires
        forall|i: int| 0 <= i < pre.len() ==> #[trigger] auf_spec(pre[i], ms),
    ensures
        leading_aufs(pre + s, ms) == pre.len() + leading_aufs(s, ms),
    decreases pre.len(),
{
    if pre.len() > 0 {
        assert((pre + s)[0] == pre[0]);
        assert(auf_spec(pre[0], ms));
        assert((pre + s).drop_first() =~= pre.drop_first() + s);
        assert forall|i: int| 0 <= i < pre.drop_first().len() implies #[trigger] auf_spec(
            pre.drop_first()[i],
            ms,
        ) by {
            assert(pre.drop_first()[i] == pre[i + 1]);
        }
        lemma_leading_aufs_prefix(pre.drop_first(), s, ms);
    } else {
        assert(pre + s =~= s);
    }
}

/// Leading AUF turns and whole-cube rotations do not change what stripping
/// leaves.
pub proof fn law_strip_ignores_leading_auf(pre: Seq<Tables>, s: Seq<Tables>, ms: MoveSet)
    requires
        forall|i: int| 0 <= i < pre.len() ==> #[trigger] auf_spec(pre[i], ms),
    ensures
        strip_auf_spec(pre + s, ms) == strip_auf_spec(s, ms),
{
    lemma_leading_aufs_prefix(pre, s, ms);
    let l = leading_aufs(s, ms) as int;
    lemma_leading_aufs_le(s, ms);
    assert((pre + s).skip(pre.len() + l) =~= s.skip(l));
    lemma_trailing_u_le(s.skip(l), ms);
    assert(strip_start(pre + s, ms) == pre.len() + l);
    assert(strip_end(pre + s, ms) == pre.len() + strip_end(s, ms));
    assert(strip_auf_spec(pre + s, ms) =~= strip_auf_spec(s, ms));
}

proof fn lemma_leading_aufs_le(s: Seq<Tables>, ms: MoveSet)
    ensures
        leading_aufs(s, ms) <= s.len(),
        leading_aufs(s, ms) < s.len() ==> !auf_spec(s[leading_aufs(s, ms) as int], ms),
    decreases s.len(),
{
    if s.len() > 0 && auf_spec(s[0], ms) {
        lemma_leading_aufs_le(s.drop_first(), ms);
    }
}

proof fn lemma_leading_aufs_suffix(s: Seq<Tables>, post: Seq<Tables>, ms: MoveSet)
    requires
        forall|i: int| 0 <= i < post.len() ==> #[trigger] u_family_spec(post[i], ms),
    ensures
        leading_aufs(s, ms) < s.len() ==> leading_aufs(s + post, ms) == leading_aufs(s, ms),
        leading_aufs(s, ms) == s.len() ==> leading_aufs(s + post, ms) == s.len() + post.len(),
    decreases s.len(),
{
    lemma_leading_aufs_le(s, ms);
    if s.len() == 0 {
        assert(s + post =~= post);
        assert forall|i: int| 0 <= i < post.len() implies #[trigger] auf_spec(post[i], ms) by {
            assert(u_family_spec(post[i], ms));
        }
        lemma_leading_aufs_prefix(post, Seq::<Tables>::empty(), ms);
        assert(post + Seq::<Tables>::empty() =~= post);
    } else {
        assert((s + post)[0] == s[0]);
        assert((s + post).drop_first() =~= s.drop_first() + post);
        if auf_spec(s[0], ms) {
            lemma_leading_aufs_suffix(s.drop_first(), post, ms);
        }
    }
}

proof fn lemma_trailing_u_suffix(t: Seq<Tables>, post: Seq<Tables>, ms: MoveSet)
    requires
        forall|i: int| 0 <= i < post.len() ==> #[trigger] u_family_spec(post[i], ms),
    ensures
        trailing_u_turns(t + post, ms) == trailing_u_turns(t, ms) + post.len(),
    decreases post.len(),
{
    if post.len() == 0 {
        assert(t + post =~= t);
    } else {
        assert((t + post).last() == post.last());
        assert(u_family_spec(post[post.len() - 1], ms));
        assert((t + post).drop_last() =~= t + post.drop_last());
        assert forall|i: int| 0 <= i < post.drop_last().len() implies #[trigger] u_family_spec(
            post.drop_last()[i],
            ms,
        ) by {
            assert(post.drop_last()[i] == post[i]);
        }
        lemma_trailing_u_suffix(t, post.drop_last(), ms);
    }
}

proof fn lemma_trailing_u_le(t: Seq<Tables>, ms: MoveSet)
    ensures
        trailing_u_turns(t, ms) <= t.len(),
    decreases t.len(),
{
    if t.len() > 0 && u_family_spec(t.last(), ms) {
        lemma_trailing_u_le(t.drop_last(), ms);
    }
}

proof fn lemma_trailing_u_stop(t: Seq<Tables>, ms: MoveSet)
    ensures
        trailing_u_turns(t, ms) <= t.len(),
        trailing_u_turns(t, ms) < t.len() ==> !u_family_spec(
            t[t.len() - 1 - trailing_u_turns(t, ms)],
            ms,
        ),
    decreases t.len(),
{
    if t.len() > 0 && u_family_spec(t.last(), ms) {
        lemma_trailing_u_stop(t.drop_last(), ms);
        let k = trailing_u_turns(t.drop_last(), ms);
        if k < t.drop_last().len() {
            assert(t.drop_last()[t.drop_last().len() - 1 - k] == t[t.len() - 1 - (k + 1)]);
        }
    }
}

/// Stripping twice leaves what stripping once leaves.
pub proof fn law_strip_idempotent(s: Seq<Tables>, ms: MoveSet)
    ensures
        strip_auf_spec(strip_auf_spec(s, ms), ms) == strip_auf_spec(s, ms),
{
    let l = leading_aufs(s, ms) as int;
    lemma_leading_aufs_le(s, ms);
    let t = s.skip(l);
    lemma_trailing_u_stop(t, ms);
    let k = trailing_u_turns(t, ms) as int;
    let r = strip_auf_spec(s, ms);
    assert(r =~= t.take(t.len() - k));
    if r.len() > 0 {
        assert(r[0] == s[l]);
        assert(leading_aufs(r, ms) == 0);
        assert(r.skip(0) =~= r);
        assert(r.last() == t[t.len() - 1 - k]);
        assert(trailing_u_turns(r, ms) == 0);
        assert(strip_auf_spec(r, ms) =~= r);
    } else {
        assert(strip_auf_spec(r, ms) =~= r);
    }
}

/// Trailing U-family turns do not change what stripping leaves.
pub proof fn law_strip_ignores_trailing_u(s: Seq<Tables>, post: Seq<Tables>, ms: MoveSet)
    requires
        forall|i: int| 0 <= i < post.len() ==> #[trigger] u_family_spec(post[i], ms),
    ensures
        strip_auf_spec(s + post, ms) == strip_auf_spec(s, ms),
{
    lemma_leading_aufs_suffix(s, post, ms);
    lemma_leading_aufs_le(s, ms);
    let l = leading_aufs(s, ms) as int;
    if l < s.len() {
        assert((s + post).skip(l) =~= s.skip(l) + post);
        lemma_trailing_u_suffix(s.skip(l), post, ms);
        lemma_trailing_u_le(s.skip(l), ms);
        assert(strip_auf_spec(s + post, ms) =~= strip_auf_spec(s, ms));
    } else {
        assert((s + post).skip((s.len() + post.len()) as int) =~= Seq::<Tables>::empty());
        assert(s.skip(l) =~= Seq::<Tables>::empty());
        assert(strip_auf_spec(s + post, ms) =~= strip_auf_spec(s, ms));
    }
}

// ── composing a sequence of moves ───────────────────────────────────────

/// The single move that the moves of `ts` make, first to last.
pub open spec fn compose_all(ts: Seq<Tables>) -> Tables
    decreases ts.len(),
{
    if ts.len() == 0 {
        identity_tables()
    } else {
        then_tables(compose_all(ts.drop_last()), ts.last())
    }
}

/// The composition of genuine moves is a genuine move.
pub proof fn lemma_compose_all_valid(ts: Seq<Tables>)
    requires
        forall|i: int| 0 <= i < ts.len() ==> #[trigger] valid(ts[i]),
    ensures
        valid(compose_all(ts)),
    decreases ts.len(),
{
    if ts.len() == 0 {
        assert(iota(8).no_duplicates());
        assert(iota(12).no_duplicates());
    } else {
        assert forall|i: int| 0 <= i < ts.drop_last().len() implies #[trigger] valid(ts.drop_last()[i]) by {
            assert(valid(ts[i]));
        }
        lemma_compose_all_valid(ts.drop_last());
        assert(valid(ts[ts.len() - 1]));
        lemma_then_valid(compose_all(ts.drop_last()), ts.last());
    }
}

/// Applying genuine moves one after the other is applying the single move
/// they compose to.
pub proof fn law_apply_all_compose(s: Tables, ts: Seq<Tables>)
    requires
        in_range(s),
        forall|i: int| 0 <= i < ts.len() ==> #[trigger] valid(ts[i]),
    ensures
        apply_all(s, ts) == apply_tables(s, compose_all(ts)),
    decreases ts.len(),
{
    if ts.len() == 0 {
        law_apply_identity(s);
    } else {
        assert forall|i: int| 0 <= i < ts.drop_last().len() implies #[trigger] valid(ts.drop_last()[i]) by {
            assert(valid(ts[i]));
        }
        law_apply_all_compose(s, ts.drop_last());
        lemma_compose_all_valid(ts.drop_last());
        assert(valid(ts[ts.len() - 1]));
        law_apply_then(s, compose_all(ts.drop_last()), ts.last());
    }
}

// ── parsing preserves meaning ───────────────────────────────────────────

/// The tables of the steps, taken literally: rotations turn the whole cube.
pub open spec fn literal_tables(p: Seq<PrimModel>) -> Seq<Tables> {
    p.map_values(|x: PrimModel| prim_tables(x))
}

/// Every step of `p` carries a genuine move.
pub open spec fn prims_valid(p: Seq<PrimModel>) -> bool {
    forall|i: int| 0 <= i < p.len() ==> #[trigger] valid(prim_tables(p[i]))
}

proof fn lemma_frame(p: Seq<PrimModel>, n: int)
    requires
        prims_valid(p),
        0 <= n <= p.len(),
    ensures
        valid(frame(p, n).0),
        forall|i: int| 0 <= i < frame(p, n).1.len() ==> #[trigger] valid(frame(p, n).1[i]),
        then_tables(compose_all(frame(p, n).1), frame(p, n).0) == compose_all(
            literal_tables(p).take(n),
        ),
    decreases n,
{
    let raw = literal_tables(p);
    if n == 0 {
        assert(iota(8).no_duplicates());
        assert(iota(12).no_duplicates());
        assert(raw.take(0) =~= Seq::<Tables>::empty());
        law_identity_then(identity_tables());
    } else {
        lemma_frame(p, n - 1);
        let (o, out) = frame(p, n - 1);
        let c0 = compose_all(out);
        lemma_compose_all_valid(out);
        assert(raw.take(n).drop_last() =~= raw.take(n - 1));
        assert(raw.take(n).last() == prim_tables(p[n - 1]));
        assert(valid(prim_tables(p[n - 1])));
        match p[n - 1] {
            PrimModel::Rot(g) => {
                law_then_assoc(c0, o, g);
                lemma_then_valid(o, g);
            },
            PrimModel::Face(m) => {
                lemma_inverse_valid(o);
                lemma_then_valid(o, m);
                let om = then_tables(o, m);
                let c = then_tables(om, inverse_tables(o));
                lemma_then_valid(om, inverse_tables(o));
                let out2 = out.push(c);
                assert(out2.drop_last() =~= out);
                assert forall|i: int| 0 <= i < out2.len() implies #[trigger] valid(out2[i]) by {
                    if i < out.len() {
                        assert(out2[i] == out[i]);
                    }
                }
                // (C · c) · o = C · (c · o) = C · (o · m) = (C · o) · m
                law_then_assoc(c0, c, o);
                law_then_assoc(om, inverse_tables(o), o);
                law_inverse_then(o);
                law_then_identity(om);
                law_then_assoc(c0, o, m);
            },
        }
    }
}

/// The parser's re-framing keeps the meaning of the steps: its face turns,
/// followed by the net rotation the steps leave behind, compose to the same
/// move as the steps taken literally.
pub proof fn law_reframe_equivalent(p: Seq<PrimModel>)
    requires
        prims_valid(p),
    ensures
        then_tables(compose_all(reframe(p)), net_rotation(p)) == compose_all(literal_tables(p)),
        valid(net_rotation(p)),
        forall|i: int| 0 <= i < reframe(p).len() ==> #[trigger] valid(reframe(p)[i]),
{
    lemma_frame(p, p.len() as int);
    assert(literal_tables(p).take(p.len() as int) =~= literal_tables(p));
}

proof fn lemma_quarter_valid(base: Seq<char>, ms: MoveSet)
    requires
        ms.all_valid(),
    ensures
        quarter_spec(base, ms) is Ok ==> prims_valid(quarter_spec(base, ms)->Ok_0),
{
}

proof fn lemma_token_valid(t: Seq<char>, ms: MoveSet)
    requires
        ms.all_valid(),
    ensures
        token_spec(t, ms) is Ok ==> prims_valid(token_spec(t, ms)->Ok_0),
{
    let n = crate::parse::letters_prefix(t) as int;
    lemma_quarter_valid(t.take(n), ms);
    if token_spec(t, ms) is Ok {
        let q = quarter_spec(t.take(n), ms)->Ok_0;
        let r = token_spec(t, ms)->Ok_0;
        assert forall|i: int| 0 <= i < r.len() implies #[trigger] valid(prim_tables(r[i])) by {
            if r == q + q {
                if i < q.len() {
                    assert(r[i] == q[i]);
                } else {
                    assert(r[i] == q[i - q.len()]);
                }
            } else if r == reversed_inverse(q) {
                assert(valid(prim_tables(q[q.len() - 1 - i])));
                lemma_inverse_valid(prim_tables(q[q.len() - 1 - i]));
                assert(prim_tables(prim_inverse(q[q.len() - 1 - i])) == inverse_tables(
                    prim_tables(q[q.len() - 1 - i]),
                ));
            }
        }
    }
}

proof fn lemma_tokens_valid(ws: Seq<Seq<char>>, ms: MoveSet)
    requires
        ms.all_valid(),
    ensures
        tokens_spec(ws, ms) is Ok ==> prims_valid(tokens_spec(ws, ms)->Ok_0),
    decreases ws.len(),
{
    if ws.len() > 0 {
        lemma_tokens_valid(ws.drop_last(), ms);
        lemma_token_valid(ws.last(), ms);
        if tokens_spec(ws, ms) is Ok {
            let p = tokens_spec(ws.drop_last(), ms)->Ok_0;
            let q = token_spec(ws.last(), ms)->Ok_0;
            let r = p + q;
            assert forall|i: int| 0 <= i < r.len() implies #[trigger] valid(prim_tables(r[i])) by {
                if i < p.len() {
                    assert(r[i] == p[i]);
                } else {
                    assert(r[i] == q[i - p.len()]);
                }
            }
        }
    }
}

/// Parsing keeps the meaning of the algorithm: the parsed face turns,
/// followed by the net rotation of the algorithm's steps, compose to the same
/// move as the steps taken literally, with each rotation, wide move and slice
/// turning the whole cube as written.
pub proof fn law_parse_equivalent(s: Seq<char>, ms: MoveSet)
    requires
        ms.all_valid(),
        parse_spec(s, ms) is Ok,
    ensures
        then_tables(
            compose_all(parse_spec(s, ms)->Ok_0),
            net_rotation(tokens_spec(words(s), ms)->Ok_0),
        ) == compose_all(literal_tables(tokens_spec(words(s), ms)->Ok_0)),
        forall|i: int|
            0 <= i < parse_spec(s, ms)->Ok_0.len() ==> #[trigger] valid(parse_spec(s, ms)->Ok_0[i]),
{
    lemma_tokens_valid(words(s), ms);
    law_reframe_equivalent(tokens_spec(words(s), ms)->Ok_0);
}

// ── face turns have order four ──────────────────────────────────────────

/// The move done four times.
pub open spec fn fourth_power(q: Tables) -> Tables {
    then_tables(then_tables(q, q), then_tables(q, q))
}

/// One of the six face turns U, D, R, L, F, B.
pub open spec fn is_face_turn(q: Tables) -> bool {
    ||| q == u_turn_tables()
    ||| q == d_turn_tables()
    ||| q == r_turn_tables()
    ||| q == l_turn_tables()
    ||| q == f_turn_tables()
    ||| q == b_turn_tables()
}

/// Each face turn done four times is the identity.
pub proof fn law_face_turn_order_four(q: Tables)
    requires
        is_face_turn(q),
    ensures
        fourth_power(q) == identity_tables(),
{
    assert(fourth_power(q) =~= identity_tables());
}

/// One of the three slice turns M, E, S.
pub open spec fn is_slice_turn(q: Tables) -> bool {
    ||| q == m_slice_tables()
    ||| q == e_slice_tables()
    ||| q == s_slice_tables()
}

/// Each slice turn done four times is the identity.
pub proof fn law_slice_turn_order_four(q: Tables)
    requires
        is_slice_turn(q),
    ensures
        fourth_power(q) == identity_tables(),
{
    assert(fourth_power(q) =~= identity_tables());
}

/// A move of order four is undone by doing it three more times.
pub(crate) proof fn lemma_inverse_of_order_four(m: Tables)
    requires
        valid(m),
        fourth_power(m) == identity_tables(),
    ensures
        inverse_tables(m) == then_tables(then_tables(m, m), m),
{
    let v = inverse_tables(m);
    let m2 = then_tables(m, m);
    let c = then_tables(m2, m);
    lemma_inverse_valid(m);
    lemma_then_valid(m, m);
    lemma_then_valid(m2, m);
    law_then_assoc(m, m, m);
    law_then_assoc(m, m, m2);
    assert(then_tables(m, c) == identity_tables());
    law_then_identity(v);
    law_then_assoc(v, m, c);
    law_inverse_then(m);
    law_identity_then(c);
}

/// One of the three whole-cube rotations x, y, z.
pub open spec fn is_rotation_turn(q: Tables) -> bool {
    ||| q == x_rotation_tables()
    ||| q == y_rotation_tables()
    ||| q == z_rotation_tables()
}

/// x written out.
pub(crate) open spec fn x_literal() -> Tables {
    Tables {
        cp: seq![3u8, 2, 6, 7, 0, 1, 5, 4],
        co: seq![2u8, 1, 2, 1, 1, 2, 1, 2],
        ep: seq![11u8, 3, 10, 7, 8, 1, 9, 5, 0, 2, 6, 4],
        eo: seq![0u8, 1, 0, 1, 0, 1, 0, 1, 0, 0, 0, 0],
    }
}

pub(crate) proof fn lemma_x_literal()
    ensures
        x_rotation_tables() == x_literal(),
{
    lemma_basic_moves_valid();
    let m = m_slice_tables();
    let l = l_turn_tables();
    let mi = Tables {
        cp: seq![0u8, 1, 2, 3, 4, 5, 6, 7],
        co: seq![0u8, 0, 0, 0, 0, 0, 0, 0],
        ep: seq![0u8, 3, 2, 7, 4, 1, 6, 5, 8, 9, 10, 11],
        eo: seq![0u8, 1, 0, 1, 0, 1, 0, 1, 0, 0, 0, 0],
    };
    let li = Tables {
        cp: seq![0u8, 2, 6, 3, 4, 1, 5, 7],
        co: seq![0u8, 1, 2, 0, 0, 2, 1, 0],
        ep: seq![0u8, 1, 10, 3, 4, 5, 9, 7, 8, 2, 6, 11],
        eo: seq![0u8, 0, 0, 0, 0, 0, 0, 0, 0, 0, 0, 0],
    };
    assert(inverse_tables(m) == mi) by {
        law_slice_turn_order_four(m);
        lemma_inverse_of_order_four(m);
        assert(then_tables(then_tables(m, m), m) =~= mi);
    }
    assert(inverse_tables(l) == li) by {
        law_face_turn_order_four(l);
        lemma_inverse_of_order_four(l);
        assert(then_tables(then_tables(l, l), l) =~= li);
    }
    assert(then_tables(then_tables(r_turn_tables(), mi), li) =~= x_literal());
}

/// x four times is the identity.
proof fn lemma_x_order_four()
    ensures
        fourth_power(x_rotation_tables()) == identity_tables(),
{
    lemma_x_literal();
    assert(fourth_power(x_literal()) =~= identity_tables());
}

/// y written out.
pub(crate) open spec fn y_literal() -> Tables {
    Tables {
        cp: seq![1u8, 2, 3, 0, 5, 6, 7, 4],
        co: seq![0u8, 0, 0, 0, 0, 0, 0, 0],
        ep: seq![1u8, 2, 3, 0, 5, 6, 7, 4, 9, 10, 11, 8],
        eo: seq![0u8, 0, 0, 0, 0, 0, 0, 0, 1, 1, 1, 1],
    }
}

pub(crate) proof fn lemma_y_literal()
    ensures
        y_rotation_tables() == y_literal(),
{
    lemma_basic_moves_valid();
    let e = e_slice_tables();
    let d = d_turn_tables();
    let ei = Tables {
        cp: seq![0u8, 1, 2, 3, 4, 5, 6, 7],
        co: seq![0u8, 0, 0, 0, 0, 0, 0, 0],
        ep: seq![0u8, 1, 2, 3, 4, 5, 6, 7, 9, 10, 11, 8],
        eo: seq![0u8, 0, 0, 0, 0, 0, 0, 0, 1, 1, 1, 1],
    };
    let di = Tables {
        cp: seq![0u8, 1, 2, 3, 5, 6, 7, 4],
        co: seq![0u8, 0, 0, 0, 0, 0, 0, 0],
        ep: seq![0u8, 1, 2, 3, 5, 6, 7, 4, 8, 9, 10, 11],
        eo: seq![0u8, 0, 0, 0, 0, 0, 0, 0, 0, 0, 0, 0],
    };
    assert(inverse_tables(e) == ei) by {
        law_slice_turn_order_four(e);
        lemma_inverse_of_order_four(e);
        assert(then_tables(then_tables(e, e), e) =~= ei);
    }
    assert(inverse_tables(d) == di) by {
        law_face_turn_order_four(d);
        lemma_inverse_of_order_four(d);
        assert(then_tables(then_tables(d, d), d) =~= di);
    }
    assert(then_tables(then_tables(u_turn_tables(), ei), di) =~= y_literal());
}

/// y four times is the identity.
proof fn lemma_y_order_four()
    ensures
        fourth_power(y_rotation_tables()) == identity_tables(),
{
    lemma_y_literal();
    assert(fourth_power(y_literal()) =~= identity_tables());
}

/// z written out.
pub(crate) open spec fn z_literal() -> Tables {
    Tables {
        cp: seq![4u8, 0, 3, 7, 5, 1, 2, 6],
        co: seq![1u8, 2, 1, 2, 2, 1, 2, 1],
        ep: seq![4u8, 8, 0, 11, 6, 9, 2, 10, 5, 1, 3, 7],
        eo: seq![1u8, 1, 1, 1, 1, 1, 1, 1, 1, 1, 1, 1],
    }
}

pub(crate) proof fn lemma_z_literal()
    ensures
        z_rotation_tables() == z_literal(),
{
    lemma_basic_moves_valid();
    let b = b_turn_tables();
    let bi = Tables {
        cp: seq![0u8, 1, 3, 7, 4, 5, 2, 6],
        co: seq![0u8, 0, 1, 2, 0, 0, 2, 1],
        ep: seq![0u8, 1, 2, 11, 4, 5, 6, 10, 8, 9, 3, 7],
        eo: seq![0u8, 0, 0, 1, 0, 0, 0, 1, 0, 0, 1, 1],
    };
    assert(inverse_tables(b) == bi) by {
        law_face_turn_order_four(b);
        lemma_inverse_of_order_four(b);
        assert(then_tables(then_tables(b, b), b) =~= bi);
    }
    assert(then_tables(then_tables(f_turn_tables(), s_slice_tables()), bi) =~= z_literal());
}

/// z four times is the identity.
proof fn lemma_z_order_four()
    ensures
        fourth_power(z_rotation_tables()) == identity_tables(),
{
    lemma_z_literal();
    assert(fourth_power(z_literal()) =~= identity_tables());
}

/// Each whole-cube rotation done four times is the identity.
pub proof fn law_rotation_order_four(q: Tables)
    requires
        is_rotation_turn(q),
    ensures
        fourth_power(q) == identity_tables(),
{
    lemma_x_order_four();
    lemma_y_order_four();
    lemma_z_order_four();
}

/// A face turn, a slice turn or a whole-cube rotation.
pub open spec fn is_quarter_turn(q: Tables) -> bool {
    is_face_turn(q) || is_slice_turn(q) || is_rotation_turn(q)
}

/// Doing a face turn, a slice turn or a rotation four times leaves a cube
/// state unchanged.
pub proof fn law_apply_quarter_turn_four_times(s: Tables, q: Tables)
    requires
        orientations_bounded(s),
        is_quarter_turn(q),
    ensures
        apply_repeat(s, q, 4) == s,
{
    lemma_basic_moves_valid();
    lemma_rotations_valid();
    assert(valid(q));
    let q2 = then_tables(q, q);
    lemma_then_valid(q, q);
    lemma_then_valid(q2, q);
    law_apply_then(s, q, q);
    law_apply_then(s, q2, q);
    law_apply_then(s, then_tables(q2, q), q);
    law_then_assoc(q2, q, q);
    if is_face_turn(q) {
        law_face_turn_order_four(q);
    } else if is_slice_turn(q) {
        law_slice_turn_order_four(q);
    } else {
        law_rotation_order_four(q);
    }
    law_apply_identity(s);
    assert(apply_repeat(s, q, 0) == s);
    assert(apply_repeat(s, q, 1) == apply_tables(apply_repeat(s, q, 0), q));
    assert(apply_repeat(s, q, 2) == apply_tables(apply_repeat(s, q, 1), q));
    assert(apply_repeat(s, q, 3) == apply_tables(apply_repeat(s, q, 2), q));
    assert(apply_repeat(s, q, 4) == apply_tables(apply_repeat(s, q, 3), q));
}

} // verus!
