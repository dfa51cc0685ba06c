//! A pre-AUF, given as a move, does not change the ZBLL case of a
//! last-layer algorithm.
use vstd::prelude::*;

use crate::case_laws::{
    lemma_case_state_after_u, lemma_last_landing_range, lemma_least_candidate, lemma_repeat_add,
    lemma_repeat_in_range, lemma_repeat_mod4,
};
use crate::cube::{corner_home, edge_home, f2l_solved_spec, ll_edges_oriented_spec};
use crate::faces::{lemma_basic_moves_valid, u_turn_tables};
use crate::cube::tables_of;
use crate::laws::{law_apply_then, law_apply_valid, law_identity_then, law_then_identity};
use crate::case_laws::law_zbll_rotation_order;
use crate::rotations::{
    is_cube_rotation, lemma_closure_entries, lemma_landing_unique, lemma_rotation_keeping_f2l,
    lemma_standard_generators,
};
use crate::lemmas::{lemma_apply_at, lemma_apply_in_range, lemma_inverse_valid, lemma_onto};
use crate::lex::{lemma_lex_total, lex_less};
use crate::model::{
    apply_all, apply_repeat, apply_tables, identity_tables, in_range, inverted, iota, then_tables,
    valid, zeros, Tables,
};
use crate::moves::{closure_state, FaceMove, MoveSet};
use crate::normalize::{
    case_state, lands_f2l, last_landing, least_candidate, turned_fingerprint, zbll_candidate,
    zbll_spec,
};
use crate::parse::u_family_spec;

verus! {

/// A U turn keeps the first two layers solved and the last-layer edges
/// oriented.
proof fn lemma_u_keeps_layers(x: Tables)
    requires
        in_range(x),
    ensures
        f2l_solved_spec(x) ==> f2l_solved_spec(apply_tables(x, u_turn_tables())),
        ll_edges_oriented_spec(x) ==> ll_edges_oriented_spec(apply_tables(x, u_turn_tables())),
{
    let u = u_turn_tables();
    lemma_basic_moves_valid();
    lemma_apply_at(x, u);
    let y = apply_tables(x, u);
    assert forall|i: int| 4 <= i < 8 implies y.cp[i] == x.cp[i] && y.co[i] == x.co[i] % 3 by {
        assert(u.cp[i] == i && u.co[i] == 0);
        assert(y.cp[u.cp[i] as int] == x.cp[i]);
    }
    assert forall|i: int| 4 <= i < 12 implies y.ep[i] == x.ep[i] && y.eo[i] == x.eo[i] % 2 by {
        assert(u.ep[i] == i && u.eo[i] == 0);
        assert(y.ep[u.ep[i] as int] == x.ep[i]);
    }
    if f2l_solved_spec(x) {
        assert forall|i: int| 4 <= i < 8 implies #[trigger] corner_home(y, i) by {
            assert(corner_home(x, i));
        }
        assert forall|i: int| 4 <= i < 12 implies #[trigger] edge_home(y, i) by {
            assert(edge_home(x, i));
        }
    }
    if ll_edges_oriented_spec(x) {
        assert forall|j: int| 0 <= j < 4 implies #[trigger] y.eo[j] == 0 by {
            let i = if j == 0 { 3 } else { j - 1 };
            assert(u.ep[i] == j && u.eo[i] == 0);
            assert(y.ep[u.ep[i] as int] == x.ep[i]);
            assert(x.eo[i] == 0);
        }
    }
}

/// Any number of U turns keeps them too.
proof fn lemma_repeat_keeps_layers(x: Tables, n: nat)
    requires
        in_range(x),
    ensures
        f2l_solved_spec(x) ==> f2l_solved_spec(apply_repeat(x, u_turn_tables(), n)),
        ll_edges_oriented_spec(x) ==> ll_edges_oriented_spec(apply_repeat(x, u_turn_tables(), n)),
    decreases n,
{
    if n > 0 {
        lemma_repeat_keeps_layers(x, (n - 1) as nat);
        lemma_repeat_in_range(x, (n - 1) as nat);
        lemma_u_keeps_layers(apply_repeat(x, u_turn_tables(), (n - 1) as nat));
    }
}

/// A move that keeps every first-two-layer piece in its slot, unturned.
pub open spec fn fixes_f2l(g: Tables) -> bool {
    f2l_solved_spec(g)
}

/// A genuine move that takes a genuine state with the first two layers
/// solved to one with them solved leaves those pieces in place.
proof fn lemma_landing_fixes_f2l(st: Tables, g: Tables)
    requires
        valid(st),
        valid(g),
        f2l_solved_spec(st),
        f2l_solved_spec(apply_tables(st, g)),
    ensures
        fixes_f2l(g),
{
    let y = apply_tables(st, g);
    lemma_apply_at(st, g);
    assert forall|d: int| 4 <= d < 8 implies #[trigger] corner_home(g, d) by {
        assert forall|k: int| 0 <= k < g.cp.len() implies #[trigger] g.cp[k] < g.cp.len() by {
            assert(g.cp[k] < 8);
        }
        let i = lemma_onto(g.cp, d);
        assert(y.cp[g.cp[i] as int] == st.cp[i]);
        assert(corner_home(y, d));
        assert(corner_home(st, d));
        assert(st.cp[i] == st.cp[d]);
        assert(i == d);
        assert(g.co[d] < 3 && st.co[d] == 0);
    }
    assert forall|d: int| 4 <= d < 12 implies #[trigger] edge_home(g, d) by {
        assert forall|k: int| 0 <= k < g.ep.len() implies #[trigger] g.ep[k] < g.ep.len() by {
            assert(g.ep[k] < 12);
        }
        let i = lemma_onto(g.ep, d);
        assert(y.ep[g.ep[i] as int] == st.ep[i]);
        assert(edge_home(y, d));
        assert(edge_home(st, d));
        assert(st.ep[i] == st.ep[d]);
        assert(i == d);
        assert(g.eo[d] < 2 && st.eo[d] == 0);
    }
}

/// A move that commutes with U can be done before or after U turns.
proof fn lemma_repeat_commute(x: Tables, g: Tables, n: nat)
    requires
        in_range(x),
        valid(g),
        then_tables(u_turn_tables(), g) == then_tables(g, u_turn_tables()),
    ensures
        apply_tables(apply_repeat(x, u_turn_tables(), n), g) == apply_repeat(
            apply_tables(x, g),
            u_turn_tables(),
            n,
        ),
    decreases n,
{
    if n > 0 {
        let u = u_turn_tables();
        lemma_basic_moves_valid();
        let p = apply_repeat(x, u, (n - 1) as nat);
        lemma_repeat_in_range(x, (n - 1) as nat);
        law_apply_then(p, u, g);
        law_apply_then(p, g, u);
        lemma_repeat_commute(x, g, (n - 1) as nat);
    }
}

proof fn lemma_repeat_valid(x: Tables, n: nat)
    requires
        valid(x),
    ensures
        valid(apply_repeat(x, u_turn_tables(), n)),
    decreases n,
{
    if n > 0 {
        lemma_basic_moves_valid();
        lemma_repeat_valid(x, (n - 1) as nat);
        law_apply_valid(apply_repeat(x, u_turn_tables(), (n - 1) as nat), u_turn_tables());
    }
}

proof fn lemma_apply_all_valid(s: Tables, ms: Seq<Tables>)
    requires
        valid(s),
        forall|i: int| 0 <= i < ms.len() ==> #[trigger] valid(ms[i]),
    ensures
        valid(apply_all(s, ms)),
    decreases ms.len(),
{
    if ms.len() > 0 {
        assert forall|i: int| 0 <= i < ms.drop_last().len() implies #[trigger] valid(
            ms.drop_last()[i],
        ) by {
            assert(valid(ms[i]));
        }
        lemma_apply_all_valid(s, ms.drop_last());
        assert(valid(ms[ms.len() - 1]));
        law_apply_valid(apply_all(s, ms.drop_last()), ms.last());
    }
}

proof fn lemma_case_state_valid(core: Seq<Tables>)
    requires
        forall|i: int| 0 <= i < core.len() ==> #[trigger] valid(core[i]),
    ensures
        valid(case_state(core)),
{
    let inv = inverted(core);
    assert forall|i: int| 0 <= i < inv.len() implies #[trigger] valid(inv[i]) by {
        assert(valid(core[core.len() - 1 - i]));
        lemma_inverse_valid(core[core.len() - 1 - i]);
    }
    assert(iota(8).no_duplicates());
    assert(iota(12).no_duplicates());
    assert(valid(identity_tables()));
    lemma_apply_all_valid(identity_tables(), inv);
}

proof fn lemma_last_landing_same(st: Tables, st2: Tables, rots: Seq<Tables>, n: int)
    requires
        0 <= n <= rots.len(),
        forall|i: int| 0 <= i < rots.len() ==> lands_f2l(st, #[trigger] rots[i]) == lands_f2l(
            st2,
            rots[i],
        ),
    ensures
        last_landing(st, rots, n) == last_landing(st2, rots, n),
    decreases n,
{
    if n > 0 {
        assert(lands_f2l(st, rots[n - 1]) == lands_f2l(st2, rots[n - 1]));
        lemma_last_landing_same(st, st2, rots, n - 1);
    }
}

/// One rotation `g`, tried on a state with the first two layers solved and
/// on the same state turned `j` times by U: it lands on both or neither,
/// and after it the two differ by the same `j` U turns.
proof fn lemma_landing_shift(st: Tables, j: nat, g: Tables)
    requires
        valid(st),
        f2l_solved_spec(st),
        1 <= j <= 3,
        valid(g),
        fixes_f2l(g) ==> then_tables(u_turn_tables(), g) == then_tables(g, u_turn_tables()),
    ensures
        lands_f2l(st, g) == lands_f2l(apply_repeat(st, u_turn_tables(), j), g),
        lands_f2l(st, g) ==> apply_tables(apply_repeat(st, u_turn_tables(), j), g) == apply_repeat(
            apply_tables(st, g),
            u_turn_tables(),
            j,
        ),
        lands_f2l(st, g) ==> ll_edges_oriented_spec(apply_tables(st, g)) == ll_edges_oriented_spec(
            apply_tables(apply_repeat(st, u_turn_tables(), j), g),
        ),
{
    let u = u_turn_tables();
    let st2 = apply_repeat(st, u, j);
    lemma_repeat_valid(st, j);
    lemma_repeat_keeps_layers(st, j);
    if lands_f2l(st, g) || lands_f2l(st2, g) {
        if lands_f2l(st, g) {
            lemma_landing_fixes_f2l(st, g);
        } else {
            lemma_landing_fixes_f2l(st2, g);
        }
        lemma_repeat_commute(st, g, j);
        let y = apply_tables(st, g);
        lemma_apply_in_range(st, g);
        lemma_repeat_keeps_layers(y, j);
        lemma_repeat_add(y, u, j, (4 - j) as nat);
        lemma_repeat_mod4(y, 0);
        lemma_repeat_in_range(y, j);
        lemma_repeat_keeps_layers(apply_repeat(y, u, j), (4 - j) as nat);
    }
}

/// The two states have the same candidate fingerprints.
proof fn lemma_candidates_shift(st: Tables, j: nat, rots: Seq<Tables>)
    requires
        in_range(st),
        1 <= j <= 3,
        forall|i: int|
            0 <= i < rots.len() ==> #[trigger] lands_f2l(st, rots[i]) == lands_f2l(
                apply_repeat(st, u_turn_tables(), j),
                rots[i],
            ) && (lands_f2l(st, rots[i]) ==> apply_tables(
                apply_repeat(st, u_turn_tables(), j),
                rots[i],
            ) == apply_repeat(apply_tables(st, rots[i]), u_turn_tables(), j)),
        forall|i: int| 0 <= i < rots.len() ==> #[trigger] in_range(rots[i]),
    ensures
        forall|c: Seq<u8>|
            zbll_candidate(apply_repeat(st, u_turn_tables(), j), rots, c) <==> zbll_candidate(
                st,
                rots,
                c,
            ),
{
    let u = u_turn_tables();
    let st2 = apply_repeat(st, u, j);
    assert forall|c: Seq<u8>| zbll_candidate(st2, rots, c) <==> zbll_candidate(st, rots, c) by {
        if zbll_candidate(st2, rots, c) {
            let (i, k) = choose|i: int, k: int|
                0 <= i < rots.len() && 0 <= k < 4 && lands_f2l(st2, rots[i]) && c
                    == turned_fingerprint(st2, rots[i], k);
            assert(lands_f2l(st, rots[i]));
            let y = apply_tables(st, rots[i]);
            lemma_apply_in_range(st, rots[i]);
            lemma_repeat_add(y, u, j, k as nat);
            if j + k >= 4 {
                lemma_repeat_mod4(y, (j + k - 4) as nat);
                assert(c == turned_fingerprint(st, rots[i], j + k - 4));
            } else {
                assert(c == turned_fingerprint(st, rots[i], j + k));
            }
        }
        if zbll_candidate(st, rots, c) {
            let (i, k) = choose|i: int, k: int|
                0 <= i < rots.len() && 0 <= k < 4 && lands_f2l(st, rots[i]) && c
                    == turned_fingerprint(st, rots[i], k);
            assert(lands_f2l(st, rots[i]));
            let y = apply_tables(st, rots[i]);
            lemma_apply_in_range(st, rots[i]);
            let k3: int = if k >= j {
                k - j
            } else {
                k + 4 - j
            };
            lemma_repeat_add(y, u, j, k3 as nat);
            if j + k3 >= 4 {
                lemma_repeat_mod4(y, (j + k3 - 4) as nat);
            }
            assert(c == turned_fingerprint(st2, rots[i], k3));
        }
    }
}

/// A pre-AUF does not change the ZBLL case of a last-layer algorithm: for
/// a U-family turn `t` and an algorithm whose case has the first two layers
/// solved, `t` followed by the algorithm classifies exactly as the
/// algorithm, provided each rotation tried that keeps the first two layers
/// in place commutes with U (among the cube rotations only the identity
/// keeps them in place).
pub proof fn law_zbll_leading_u_turn(core: Seq<Tables>, t: Tables, ms: MoveSet, rots: Seq<Tables>)
    requires
        ms.standard(),
        u_family_spec(t, ms),
        forall|i: int| 0 <= i < core.len() ==> #[trigger] valid(core[i]),
        f2l_solved_spec(case_state(core)),
        forall|i: int| 0 <= i < rots.len() ==> #[trigger] valid(rots[i]),
        forall|i: int|
            0 <= i < rots.len() && fixes_f2l(#[trigger] rots[i]) ==> then_tables(
                u_turn_tables(),
                rots[i],
            ) == then_tables(rots[i], u_turn_tables()),
    ensures
        zbll_spec(seq![t] + core, rots) == zbll_spec(core, rots),
{
    let u = u_turn_tables();
    assert forall|i: int| 0 <= i < core.len() implies #[trigger] in_range(core[i]) by {
        assert(valid(core[i]));
    }
    let j = lemma_case_state_after_u(core, t, ms);
    let st = case_state(core);
    let st2 = case_state(seq![t] + core);
    lemma_case_state_valid(core);
    assert forall|i: int| 0 <= i < rots.len() implies #[trigger] lands_f2l(st, rots[i]) == lands_f2l(
        apply_repeat(st, u, j),
        rots[i],
    ) && (lands_f2l(st, rots[i]) ==> apply_tables(apply_repeat(st, u, j), rots[i]) == apply_repeat(
        apply_tables(st, rots[i]),
        u,
        j,
    )) && (lands_f2l(st, rots[i]) ==> ll_edges_oriented_spec(apply_tables(st, rots[i]))
        == ll_edges_oriented_spec(apply_tables(apply_repeat(st, u, j), rots[i]))) by {
        assert(valid(rots[i]));
        lemma_landing_shift(st, j, rots[i]);
    }
    assert forall|i: int| 0 <= i < rots.len() implies #[trigger] in_range(rots[i]) by {
        assert(valid(rots[i]));
    }
    lemma_candidates_shift(st, j, rots);
    assert forall|i: int| 0 <= i < rots.len() implies lands_f2l(st, #[trigger] rots[i]) == lands_f2l(
        st2,
        rots[i],
    ) by {
        assert(lands_f2l(st, rots[i]) == lands_f2l(apply_repeat(st, u, j), rots[i]));
    }
    lemma_last_landing_same(st, st2, rots, rots.len() as int);
    lemma_last_landing_range(st, rots, rots.len() as int);
    let last = last_landing(st, rots, rots.len() as int);
    if last >= 0 {
        assert(lands_f2l(st, rots[last]));
        lemma_least_candidate(st, rots);
        lemma_least_candidate(st2, rots);
        let a = least_candidate(st, rots);
        let b = least_candidate(st2, rots);
        assert(zbll_candidate(st, rots, b));
        assert(zbll_candidate(st2, rots, a));
        if a != b {
            lemma_lex_total(a, b);
        }
    }
}

/// A pre-AUF does not change the ZBLL case, over the rotations that
/// `cube_rotations` finds for the standard move set: for a U-family turn `t`
/// and an algorithm whose case has the first two layers solved, `t`
/// followed by the algorithm classifies exactly as the algorithm.
pub proof fn law_zbll_leading_u_turn_cube_rotations(
    core: Seq<Tables>,
    t: Tables,
    ms: MoveSet,
    rots: Seq<FaceMove>,
)
    requires
        ms.standard(),
        u_family_spec(t, ms),
        forall|i: int| 0 <= i < core.len() ==> #[trigger] valid(core[i]),
        f2l_solved_spec(case_state(core)),
        closure_state(rots, ms.rotation_gens()),
    ensures
        zbll_spec(seq![t] + core, tables_of(rots)) == zbll_spec(core, tables_of(rots)),
{
    let u = u_turn_tables();
    let ts = tables_of(rots);
    lemma_standard_generators(ms);
    lemma_basic_moves_valid();
    assert forall|i: int| 0 <= i < ts.len() implies #[trigger] valid(ts[i]) by {
        lemma_closure_entries(rots, i);
    }
    assert forall|i: int| 0 <= i < ts.len() && fixes_f2l(#[trigger] ts[i]) implies then_tables(
        u,
        ts[i],
    ) == then_tables(ts[i], u) by {
        lemma_closure_entries(rots, i);
        lemma_rotation_keeping_f2l(ts[i]);
        law_identity_then(u);
        law_then_identity(u);
    }
    law_zbll_leading_u_turn(core, t, ms, ts);
}

/// Over whole-cube rotations the whole ZBLL result, the case found and
/// whether the last-layer edges are oriented, does not depend on the order
/// in which they are tried: two lists holding the same rotations give the
/// same result for a genuine algorithm.
pub proof fn law_zbll_rotation_order_cube_rotations(
    core: Seq<Tables>,
    rots: Seq<Tables>,
    rots2: Seq<Tables>,
)
    requires
        forall|g: Tables| rots.contains(g) <==> rots2.contains(g),
        forall|i: int| 0 <= i < rots.len() ==> #[trigger] is_cube_rotation(rots[i]),
        forall|i: int| 0 <= i < core.len() ==> #[trigger] valid(core[i]),
    ensures
        zbll_spec(core, rots2) == zbll_spec(core, rots),
{
    law_zbll_rotation_order(core, rots, rots2);
    let st = case_state(core);
    lemma_case_state_valid(core);
    lemma_last_landing_range(st, rots, rots.len() as int);
    lemma_last_landing_range(st, rots2, rots2.len() as int);
    let l1 = last_landing(st, rots, rots.len() as int);
    let l2 = last_landing(st, rots2, rots2.len() as int);
    if l1 >= 0 && l2 >= 0 {
        assert(rots2.contains(rots2[l2]));
        let i = choose|i: int| 0 <= i < rots.len() && rots[i] == rots2[l2];
        assert(is_cube_rotation(rots[i]));
        assert(is_cube_rotation(rots[l1]));
        lemma_landing_unique(st, rots[l1], rots2[l2]);
    }
}

} // verus!
