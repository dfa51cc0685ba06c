//! Stripping AUF and rotations, and reading canonical case fingerprints.
use vstd::prelude::*;

use crate::cube::{f2l_solved_spec, ll_edges_oriented_spec, tables_of, CubeState};
use crate::faces::{u_turn, u_turn_tables};
use crate::lemmas::{lemma_apply_all_in_range, lemma_apply_in_range, lemma_inverse_in_range};
use crate::lex::{
    bytes_equal, lemma_lex_irreflexive, lemma_lex_total, lemma_lex_transitive, lex_less, lex_less_vec,
};
use crate::model::{
    apply_all, apply_ok, apply_repeat, apply_tables, identity_tables, in_range, inverted, shaped,
    Tables,
};
use crate::moves::{FaceMove, MoveSet};
use crate::parse::{
    ParseError, ParseFailure, auf_spec, invert_alg, is_auf, is_u_family, parse_alg, parse_spec, parse_tables_in_range,
    u_family_spec,
};

verus! {

/// Canonical fingerprint for a ZBLL case.
/// Derived from the U-layer corner and edge state, normalized over 4 AUF.
#[derive(Clone, Debug, PartialEq, Eq, PartialOrd, Ord, Hash)]
pub struct ZbllCase(pub Vec<u8>);

/// Canonical fingerprint for a ZBLS case.
/// Derived from LL edge orientations + DFR corner + FR edge, normalized
/// over 4 pre-AUF rotations of the U layer.
#[derive(Clone, Debug, PartialEq, Eq, PartialOrd, Ord, Hash)]
pub struct ZblsCase(pub Vec<u8>);

// ── stripping ───────────────────────────────────────────────────────────

/// The number of AUF turns and rotations at the start of `s`.
pub open spec fn leading_aufs(s: Seq<Tables>, ms: MoveSet) -> nat
    decreases s.len(),
{
    if s.len() > 0 && auf_spec(s[0], ms) {
        1 + leading_aufs(s.drop_first(), ms)
    } else {
        0
    }
}

/// The number of U-family turns at the end of `s`.
pub open spec fn trailing_u_turns(s: Seq<Tables>, ms: MoveSet) -> nat
    decreases s.len(),
{
    if s.len() > 0 && u_family_spec(s.last(), ms) {
        1 + trailing_u_turns(s.drop_last(), ms)
    } else {
        0
    }
}

/// Where the stripped moves start: after the leading AUF turns and rotations.
pub open spec fn strip_start(s: Seq<Tables>, ms: MoveSet) -> int {
    leading_aufs(s, ms) as int
}

/// Where the stripped moves end: before the trailing U-family turns of what
/// follows the start.
pub open spec fn strip_end(s: Seq<Tables>, ms: MoveSet) -> int {
    s.len() - trailing_u_turns(s.skip(strip_start(s, ms)), ms)
}

/// The moves of `s` without leading AUF turns and rotations and without
/// trailing U-family turns.
pub open spec fn strip_auf_spec(s: Seq<Tables>, ms: MoveSet) -> Seq<
    Tables,
> {
    s.subrange(strip_start(s, ms), strip_end(s, ms))
}

proof fn lemma_leading_aufs(s: Seq<Tables>, ms: MoveSet, k: int)
    requires
        0 <= k <= s.len(),
        forall|i: int| 0 <= i < k ==> auf_spec(#[trigger] s[i], ms),
        k == s.len() || !auf_spec(s[k], ms),
    ensures
        leading_aufs(s, ms) == k,
    decreases k,
{
    if k > 0 {
        assert(auf_spec(s[0], ms));
        let d = s.drop_first();
        assert forall|i: int| 0 <= i < k - 1 implies auf_spec(#[trigger] d[i], ms) by {
            assert(d[i] == s[i + 1]);
        }
        if k < s.len() {
            assert(d[k - 1] == s[k]);
        }
        lemma_leading_aufs(d, ms, k - 1);
    }
}

proof fn lemma_trailing_u_turns(s: Seq<Tables>, ms: MoveSet, k: int)
    requires
        0 <= k <= s.len(),
        forall|i: int| k <= i < s.len() ==> u_family_spec(#[trigger] s[i], ms),
        k == 0 || !u_family_spec(s[k - 1], ms),
    ensures
        trailing_u_turns(s, ms) == s.len() - k,
    decreases s.len() - k,
{
    if k < s.len() {
        assert(u_family_spec(s[s.len() - 1], ms));
        let d = s.drop_last();
        assert forall|i: int| k <= i < d.len() implies u_family_spec(#[trigger] d[i], ms) by {
            assert(d[i] == s[i]);
        }
        if k > 0 {
            assert(d[k - 1] == s[k - 1]);
        }
        lemma_trailing_u_turns(d, ms, k);
    }
}

/// Strip leading AUF (U/U'/U2) and whole-cube rotations (x/y/z) from the
/// start, and trailing U/U'/U2 from the end.
pub fn strip_auf<'a>(moves: &'a [FaceMove], ms: &MoveSet) -> (r: &'a [FaceMove])
    ensures
        0 <= strip_start(tables_of(moves@), *ms) <= strip_end(tables_of(moves@), *ms)
            <= moves@.len(),
        r@ == moves@.subrange(strip_start(tables_of(moves@), *ms), strip_end(tables_of(moves@), *ms)),
        tables_of(r@) == strip_auf_spec(tables_of(moves@), *ms),
{
    let ghost ts = tables_of(moves@);
    let n = moves.len();
    let mut start: usize = 0;
    while start < n && is_auf(&moves[start], ms)
        invariant
            n == moves@.len(),
            ts == tables_of(moves@),
            start <= n,
            forall|i: int| 0 <= i < start ==> auf_spec(#[trigger] ts[i], *ms),
        decreases n - start,
    {
        start = start + 1;
    }
    proof {
        lemma_leading_aufs(ts, *ms, start as int);
    }
    let rest = &moves[start..n];
    let ghost rs = ts.skip(start as int);
    assert(tables_of(rest@) =~= rs);
    let mut end: usize = rest.len();
    while end > 0 && is_u_family(&rest[end - 1], ms)
        invariant
            rs == tables_of(rest@),
            end <= rest@.len(),
            forall|i: int| end <= i < rest@.len() ==> u_family_spec(#[trigger] rs[i], *ms),
        decreases end,
    {
        end = end - 1;
    }
    proof {
        lemma_trailing_u_turns(rs, *ms, end as int);
    }
    let r = &rest[0..end];
    assert(r@ =~= moves@.subrange(start as int, start + end));
    assert(tables_of(r@) =~= strip_auf_spec(ts, *ms));
    r
}

/// Like strip_auf but only strips from the start (for ZBLS pre-AUF).
pub fn strip_auf_start<'a>(moves: &'a [FaceMove], ms: &MoveSet) -> (r: &'a [FaceMove])
    ensures
        0 <= strip_start(tables_of(moves@), *ms) <= moves@.len(),
        r@ == moves@.skip(strip_start(tables_of(moves@), *ms)),
{
    let ghost ts = tables_of(moves@);
    let n = moves.len();
    let mut start: usize = 0;
    while start < n && is_auf(&moves[start], ms)
        invariant
            n == moves@.len(),
            ts == tables_of(moves@),
            start <= n,
            forall|i: int| 0 <= i < start ==> auf_spec(#[trigger] ts[i], *ms),
        decreases n - start,
    {
        start = start + 1;
    }
    proof {
        lemma_leading_aufs(ts, *ms, start as int);
    }
    let r = &moves[start..n];
    assert(r@ =~= moves@.skip(start as int));
    r
}

// ── fingerprints ────────────────────────────────────────────────────────

/// U turns add no orientation and index within the tables, so they apply
/// to every state of the cube's shape.
proof fn lemma_u_turn_applies(t: Tables)
    requires
        shaped(t),
    ensures
        apply_ok(t, u_turn_tables()),
{
    let u = u_turn_tables();
    assert(u.cp =~= seq![1u8, 2, 3, 0, 4, 5, 6, 7]);
    assert forall|i: int| 0 <= i < 8 implies #[trigger] u.cp[i] < 8 && t.co[i] + u.co[i] < 256 by {}
    assert forall|i: int| 0 <= i < 12 implies #[trigger] u.ep[i] < 12 && t.eo[i] + u.eo[i] < 256 by {}
}

/// `state` with the U face turned `k` times.
fn apply_u_k(state: &CubeState, k: usize) -> (r: CubeState)
    ensures
        r@ == apply_repeat(state@, u_turn_tables(), k as nat),
{
    let u_move = u_turn();
    let mut s = *state;
    for i in 0..k
        invariant
            u_move@ == u_turn_tables(),
            s@ == apply_repeat(state@, u_turn_tables(), i as nat),
    {
        proof {
            lemma_u_turn_applies(s@);
        }
        s = s.apply(&u_move);
    }
    s
}

/// The last-layer fingerprint: piece and orientation of the four U-layer
/// corner slots (0–3), then of the four U-layer edge slots (0–3).
pub open spec fn ll_fingerprint(t: Tables) -> Seq<u8> {
    seq![
        t.cp[0], t.co[0], t.cp[1], t.co[1], t.cp[2], t.co[2], t.cp[3], t.co[3],
        t.ep[0], t.eo[0], t.ep[1], t.eo[1], t.ep[2], t.eo[2], t.ep[3], t.eo[3],
    ]
}

fn extract_ll_fingerprint(state: &CubeState) -> (v: Vec<u8>)
    ensures
        v@ == ll_fingerprint(state@),
{
    // U-layer corners (slots 0–3): (piece_id, orientation)
    // U-layer edges (slots 0–3): (piece_id, orientation)
    let mut v: Vec<u8> = Vec::with_capacity(16);
    for i in 0..4
        invariant
            v@.len() == 2 * i,
            forall|k: int| 0 <= k < i ==> v@[2 * k] == state.cp@[k] && v@[2 * k + 1] == state.co@[k],
    {
        v.push(state.cp[i]);
        v.push(state.co[i]);
    }
    for i in 0..4
        invariant
            v@.len() == 8 + 2 * i,
            forall|k: int| 0 <= k < 4 ==> v@[2 * k] == state.cp@[k] && v@[2 * k + 1] == state.co@[k],
            forall|k: int|
                0 <= k < i ==> v@[8 + 2 * k] == state.ep@[k] && v@[8 + 2 * k + 1] == state.eo@[k],
    {
        v.push(state.ep[i]);
        v.push(state.eo[i]);
    }
    assert(v@ =~= ll_fingerprint(state@));
    v
}

/// The state an algorithm solves: its inverse applied to the solved cube.
pub open spec fn case_state(core: Seq<Tables>) -> Tables {
    apply_all(identity_tables(), inverted(core))
}

/// After rotation `g`, the state has its first two layers solved.
pub open spec fn lands_f2l(st: Tables, g: Tables) -> bool {
    f2l_solved_spec(apply_tables(st, g))
}

/// The fingerprint read after rotation `g` and `k` U turns.
pub open spec fn turned_fingerprint(st: Tables, g: Tables, k: int) -> Seq<u8> {
    ll_fingerprint(apply_repeat(apply_tables(st, g), u_turn_tables(), k as nat))
}

/// A fingerprint read from a rotation of `rots` that lands the first two
/// layers solved, after 0 to 3 U turns.
pub open spec fn zbll_candidate(st: Tables, rots: Seq<Tables>, fp: Seq<u8>) -> bool {
    exists|i: int, k: int|
        0 <= i < rots.len() && 0 <= k < 4 && lands_f2l(st, rots[i]) && fp == turned_fingerprint(
            st,
            rots[i],
            k,
        )
}

/// The lexicographically least candidate fingerprint.
pub open spec fn least_candidate(st: Tables, rots: Seq<Tables>) -> Seq<u8> {
    choose|fp: Seq<u8>|
        zbll_candidate(st, rots, fp) && forall|c: Seq<u8>| zbll_candidate(st, rots, c) ==> !lex_less(c, fp)
}

/// The last of the first `n` rotations that lands the first two layers
/// solved, or -1.
pub open spec fn last_landing(st: Tables, rots: Seq<Tables>, n: int) -> int
    decreases n,
{
    if n <= 0 {
        -1
    } else if lands_f2l(st, rots[n - 1]) {
        n - 1
    } else {
        last_landing(st, rots, n - 1)
    }
}

/// The ZBLL case of an algorithm: none when no rotation lands the first two
/// layers solved; otherwise the least candidate fingerprint, and whether the
/// last-layer edges are oriented after the last rotation that lands.
pub open spec fn zbll_spec(core: Seq<Tables>, rots: Seq<Tables>) -> Option<(Seq<u8>, bool)> {
    let st = case_state(core);
    let last = last_landing(st, rots, rots.len() as int);
    if last >= 0 {
        Some((least_candidate(st, rots), ll_edges_oriented_spec(apply_tables(st, rots[last]))))
    } else {
        None
    }
}

/// A candidate among rotations before `n`, or rotation `n` with fewer than
/// `kk` U turns.
spec fn seen_candidate(st: Tables, rots: Seq<Tables>, n: int, kk: int, fp: Seq<u8>) -> bool {
    exists|i: int, k: int|
        0 <= i < rots.len() && 0 <= k < 4 && (i < n || (i == n && k < kk)) && lands_f2l(st, rots[i])
            && fp == turned_fingerprint(st, rots[i], k)
}

/// `b` is a seen candidate and no seen candidate comes before it.
spec fn least_seen(st: Tables, rots: Seq<Tables>, n: int, kk: int, b: Seq<u8>) -> bool {
    &&& seen_candidate(st, rots, n, kk, b)
    &&& forall|c: Seq<u8>| seen_candidate(st, rots, n, kk, c) ==> !lex_less(c, b)
}

proof fn lemma_last_landing(st: Tables, rots: Seq<Tables>, n: int)
    requires
        0 <= n <= rots.len(),
    ensures
        -1 <= last_landing(st, rots, n) < n,
        last_landing(st, rots, n) >= 0 ==> lands_f2l(st, rots[last_landing(st, rots, n)]),
        last_landing(st, rots, n) < 0 ==> forall|i: int| 0 <= i < n ==> !lands_f2l(st, rots[i]),
    decreases n,
{
    if n > 0 {
        lemma_last_landing(st, rots, n - 1);
    }
}

/// Classify an alg (already stripped of AUF) as a ZBLL case.
///
/// Applies the inverse alg to a solved cube, then tries every whole-cube
/// rotation in `rots` (pass `MoveSet::cube_rotations()`). The rotations that
/// land F2L solved are exactly the alg's AUF variants — possibly composed with
/// a net cube rotation left behind by wide/slice moves. We read the LL
/// fingerprint from each, after each of the four U turns, and take the
/// lexicographic minimum as the canonical case.
///
/// Returns `None` if no rotation solves F2L (the alg is not a genuine
/// last-layer alg). The bool is whether the LL edges are oriented, read
/// after the last rotation that lands F2L solved.
pub fn zbll_canonical(core: &[FaceMove], rots: &[FaceMove]) -> (r: Option<(ZbllCase, bool)>)
    requires
        forall|i: int| 0 <= i < core@.len() ==> #[trigger] in_range(core@[i]@),
        forall|i: int| 0 <= i < rots@.len() ==> #[trigger] in_range(rots@[i]@),
    ensures
        match zbll_spec(tables_of(core@), tables_of(rots@)) {
            None => r is None,
            Some((fp, oriented)) => r is Some && r->Some_0.0.0@ == fp && r->Some_0.1 == oriented,
        },
{
    let ghost cs = tables_of(core@);
    let ghost rs = tables_of(rots@);
    proof {
        assert forall|i: int| 0 <= i < core@.len() implies #[trigger] crate::model::inverse_ok(core@[i]@) by {
            lemma_inverse_in_range(core@[i]@);
        }
    }
    let inv = invert_alg(core);
    let ghost invs = inverted(cs);
    proof {
        assert forall|i: int| 0 <= i < invs.len() implies #[trigger] in_range(invs[i]) by {
            assert(in_range(cs[cs.len() - 1 - i]));
            lemma_inverse_in_range(cs[cs.len() - 1 - i]);
        }
        lemma_apply_all_in_range(identity_tables(), invs);
    }
    let state = CubeState::solved().apply_alg(&inv);
    let ghost st = case_state(cs);
    assert(state@ == st);
    let u_move = u_turn();

    let mut best: Option<Vec<u8>> = None;
    let mut edges_oriented = false;
    let n = rots.len();
    let mut gi: usize = 0;
    while gi < n
        invariant
            n == rots@.len() == rs.len(),
            rs == tables_of(rots@),
            forall|i: int| 0 <= i < rots@.len() ==> #[trigger] in_range(rots@[i]@),
            state@ == st,
            in_range(st),
            u_move@ == u_turn_tables(),
            gi <= n,
            best is None <==> last_landing(st, rs, gi as int) < 0,
            best is Some ==> edges_oriented == ll_edges_oriented_spec(
                apply_tables(st, rs[last_landing(st, rs, gi as int)]),
            ),
            best is Some ==> least_seen(st, rs, gi as int, 0, best->Some_0@),
            best is None ==> forall|c: Seq<u8>| !seen_candidate(st, rs, gi as int, 0, c),
        decreases n - gi,
    {
        proof {
            assert(in_range(rots@[gi as int]@));
            lemma_apply_in_range(st, rs[gi as int]);
            lemma_last_landing(st, rs, gi as int);
        }
        let s = state.apply(&rots[gi]);
        let landed = s.f2l_solved();
        if !landed {
            proof {
                assert forall|c: Seq<u8>| seen_candidate(st, rs, gi + 1, 0, c) implies seen_candidate(
                    st,
                    rs,
                    gi as int,
                    0,
                    c,
                ) by {
                    let (i, k) = choose|i: int, k: int|
                        0 <= i < rs.len() && 0 <= k < 4 && (i < gi + 1 || (i == gi + 1 && k < 0))
                            && lands_f2l(st, rs[i]) && c == turned_fingerprint(st, rs[i], k);
                    assert(i != gi);
                }
            }
            gi = gi + 1;
            continue;
        }
        edges_oriented = s.ll_edges_oriented();
        // The rotation fixed the frame (F2L back on the bottom). AUF is a
        // separate freedom — a U-face turn of the last layer — so normalize
        // over the 4 U turns here.
        let mut t = s;
        let mut k: usize = 0;
        while k < 4
            invariant
                n == rots@.len() == rs.len(),
                gi < n,
                u_move@ == u_turn_tables(),
                in_range(st),
                s@ == apply_tables(st, rs[gi as int]),
                lands_f2l(st, rs[gi as int]),
                in_range(s@),
                k <= 4,
                t@ == apply_repeat(s@, u_turn_tables(), k as nat),
                in_range(t@),
                k > 0 ==> best is Some,
                best is Some ==> least_seen(st, rs, gi as int, k as int, best->Some_0@),
                best is None ==> forall|c: Seq<u8>| !seen_candidate(st, rs, gi as int, k as int, c),
            decreases 4 - k,
        {
            let fp = extract_ll_fingerprint(&t);
            let ghost old_best = best;
            assert(fp@ == turned_fingerprint(st, rs[gi as int], k as int));
            let better = match &best {
                None => true,
                Some(b) => lex_less_vec(&fp, b),
            };
            if better {
                best = Some(fp);
            }
            proof {
                let nb = best->Some_0@;
                assert(seen_candidate(st, rs, gi as int, k + 1, fp@));
                assert(seen_candidate(st, rs, gi as int, k + 1, nb)) by {
                    if !better {
                        let ob = old_best->Some_0@;
                        let (i, kq) = choose|i: int, kq: int|
                            0 <= i < rs.len() && 0 <= kq < 4 && (i < gi || (i == gi && kq < k))
                                && lands_f2l(st, rs[i]) && ob == turned_fingerprint(st, rs[i], kq);
                        assert(i < gi || (i == gi && kq < k + 1));
                    }
                }
                assert forall|c: Seq<u8>| seen_candidate(st, rs, gi as int, k + 1, c) implies !lex_less(
                    c,
                    nb,
                ) by {
                    let (i, kq) = choose|i: int, kq: int|
                        0 <= i < rs.len() && 0 <= kq < 4 && (i < gi || (i == gi && kq < k + 1))
                            && lands_f2l(st, rs[i]) && c == turned_fingerprint(st, rs[i], kq);
                    if i == gi && kq == k {
                        assert(c == fp@);
                        if better {
                            lemma_lex_irreflexive(fp@);
                        }
                    } else {
                        assert(seen_candidate(st, rs, gi as int, k as int, c));
                        if better && old_best is Some {
                            let ob = old_best->Some_0@;
                            if lex_less(c, nb) {
                                lemma_lex_transitive(c, nb, ob);
                            }
                        }
                    }
                }
            }
            proof {
                lemma_u_turn_applies(t@);
                lemma_apply_in_range(t@, u_turn_tables());
                crate::faces::lemma_basic_moves_valid();
            }
            t = t.apply(&u_move);
            k = k + 1;
        }
        proof {
            assert forall|c: Seq<u8>| seen_candidate(st, rs, gi + 1, 0, c) implies seen_candidate(
                st,
                rs,
                gi as int,
                4,
                c,
            ) by {
                let (i, kq) = choose|i: int, kq: int|
                    0 <= i < rs.len() && 0 <= kq < 4 && (i < gi + 1 || (i == gi + 1 && kq < 0))
                        && lands_f2l(st, rs[i]) && c == turned_fingerprint(st, rs[i], kq);
                assert(i < gi || (i == gi && kq < 4));
            }
            assert forall|c: Seq<u8>| seen_candidate(st, rs, gi as int, 4, c) implies seen_candidate(
                st,
                rs,
                gi + 1,
                0,
                c,
            ) by {
                let (i, kq) = choose|i: int, kq: int|
                    0 <= i < rs.len() && 0 <= kq < 4 && (i < gi || (i == gi && kq < 4))
                        && lands_f2l(st, rs[i]) && c == turned_fingerprint(st, rs[i], kq);
                assert(i < gi + 1);
            }
            assert(landed);
            assert(last_landing(st, rs, gi + 1) == gi);
        }
        gi = gi + 1;
    }
    proof {
        lemma_last_landing(st, rs, n as int);
        assert forall|c: Seq<u8>| zbll_candidate(st, rs, c) <==> seen_candidate(st, rs, n as int, 0, c) by {
            if zbll_candidate(st, rs, c) {
                let (i, kq) = choose|i: int, kq: int|
                    0 <= i < rs.len() && 0 <= kq < 4 && lands_f2l(st, rs[i]) && c == turned_fingerprint(
                        st,
                        rs[i],
                        kq,
                    );
                assert(i < n);
            }
            if seen_candidate(st, rs, n as int, 0, c) {
                let (i, kq) = choose|i: int, kq: int|
                    0 <= i < rs.len() && 0 <= kq < 4 && (i < n || (i == n && kq < 0)) && lands_f2l(
                        st,
                        rs[i],
                    ) && c == turned_fingerprint(st, rs[i], kq);
                assert(zbll_candidate(st, rs, c));
            }
        }
        if best is Some {
            let b = best->Some_0@;
            assert(zbll_candidate(st, rs, b));
            assert(forall|c: Seq<u8>| zbll_candidate(st, rs, c) ==> !lex_less(c, b));
            let l = least_candidate(st, rs);
            assert(zbll_candidate(st, rs, l) && forall|c: Seq<u8>|
                zbll_candidate(st, rs, c) ==> !lex_less(c, l));
            if l != b {
                lemma_lex_total(l, b);
            }
        }
    }
    match best {
        Some(b) => Some((ZbllCase(b), edges_oriented)),
        None => None,
    }
}

// ── ZBLS ────────────────────────────────────────────────────────────────

/// The first position of `s` that holds `x`, or -1.
pub open spec fn first_pos(s: Seq<u8>, x: u8) -> int
    decreases s.len(),
{
    if s.len() == 0 {
        -1
    } else if s[0] == x {
        0
    } else {
        let r = first_pos(s.drop_first(), x);
        if r < 0 {
            -1
        } else {
            r + 1
        }
    }
}

/// The slot holding piece `x`, or 99 when no slot holds it.
pub open spec fn slot_of(s: Seq<u8>, x: u8) -> int {
    let p = first_pos(s, x);
    if p >= 0 {
        p
    } else {
        99
    }
}

/// The ZBLS fingerprint: the orientations of the four last-layer edge slots,
/// then the slot and orientation of the DFR corner (piece 4), then the slot
/// and orientation of the FR edge (piece 8); a missing piece reads as slot
/// 99 with orientation 0.
pub open spec fn zbls_fingerprint(t: Tables) -> Seq<u8> {
    let dfr = slot_of(t.cp, 4);
    let fr = slot_of(t.ep, 8);
    seq![
        t.eo[0],
        t.eo[1],
        t.eo[2],
        t.eo[3],
        dfr as u8,
        if dfr < 8 {
            t.co[dfr]
        } else {
            0
        },
        fr as u8,
        if fr < 12 {
            t.eo[fr]
        } else {
            0
        },
    ]
}

pub(crate) proof fn lemma_first_pos(s: Seq<u8>, x: u8, k: int)
    requires
        0 <= k <= s.len(),
        forall|i: int| 0 <= i < k ==> #[trigger] s[i] != x,
        k == s.len() || s[k] == x,
    ensures
        first_pos(s, x) == if k < s.len() {
            k
        } else {
            -1
        },
    decreases k,
{
    if k > 0 {
        let d = s.drop_first();
        assert(s[0] != x);
        assert forall|i: int| 0 <= i < k - 1 implies #[trigger] d[i] != x by {
            assert(d[i] == s[i + 1]);
        }
        if k < s.len() {
            assert(d[k - 1] == s[k]);
        }
        lemma_first_pos(d, x, k - 1);
    }
}

/// The first slot of `s` that holds `x`, or 99.
fn find_slot(s: &[u8], x: u8) -> (r: u8)
    requires
        s@.len() < 99,
    ensures
        r == slot_of(s@, x),
{
    let mut i: usize = 0;
    while i < s.len() && s[i] != x
        invariant
            i <= s@.len(),
            forall|j: int| 0 <= j < i ==> #[trigger] s@[j] != x,
        decreases s@.len() - i,
    {
        i = i + 1;
    }
    proof {
        lemma_first_pos(s@, x, i as int);
    }
    if i < s.len() {
        i as u8
    } else {
        99
    }
}

fn extract_zbls_fingerprint(state: &CubeState) -> (v: Vec<u8>)
    ensures
        v@ == zbls_fingerprint(state@),
{
    // LL edge orientations in their current slots.
    let mut v: Vec<u8> = Vec::with_capacity(8);
    for i in 0..4
        invariant
            v@ == state.eo@.take(i as int),
    {
        v.push(state.eo[i]);
        assert(v@ =~= state.eo@.take(i + 1));
    }
    // Position + orientation of the DFR corner piece (piece 4).
    let dfr_slot = find_slot(state.cp.as_slice(), 4);
    let dfr_ori = if dfr_slot < 8 {
        state.co[dfr_slot as usize]
    } else {
        0
    };
    v.push(dfr_slot);
    v.push(dfr_ori);
    // Position + orientation of the FR edge piece (piece 8).
    let fr_slot = find_slot(state.ep.as_slice(), 8);
    let fr_ori = if fr_slot < 12 {
        state.eo[fr_slot as usize]
    } else {
        0
    };
    v.push(fr_slot);
    v.push(fr_ori);
    assert(v@ =~= zbls_fingerprint(state@));
    v
}

/// The ZBLS fingerprint of the case state after `k` U turns.
pub open spec fn zbls_turned(st: Tables, k: int) -> Seq<u8> {
    zbls_fingerprint(apply_repeat(st, u_turn_tables(), k as nat))
}

/// `fp` is the least of the ZBLS fingerprints of `st` over 0 to 3 U turns.
pub open spec fn zbls_least(st: Tables, fp: Seq<u8>) -> bool {
    &&& exists|k: int| 0 <= k < 4 && fp == zbls_turned(st, k)
    &&& forall|k: int| 0 <= k < 4 ==> !lex_less(#[trigger] zbls_turned(st, k), fp)
}

/// Compute the canonical ZBLS case for an alg (leading AUF stripped): the
/// least fingerprint of the case state over the four pre-AUF U turns.
pub fn zbls_canonical(core: &[FaceMove]) -> (r: ZblsCase)
    requires
        forall|i: int| 0 <= i < core@.len() ==> #[trigger] in_range(core@[i]@),
    ensures
        zbls_least(case_state(tables_of(core@)), r.0@),
{
    let ghost cs = tables_of(core@);
    proof {
        assert forall|i: int| 0 <= i < core@.len() implies #[trigger] crate::model::inverse_ok(core@[i]@) by {
            lemma_inverse_in_range(core@[i]@);
        }
    }
    let inv = invert_alg(core);
    let ghost invs = inverted(cs);
    proof {
        assert forall|i: int| 0 <= i < invs.len() implies #[trigger] in_range(invs[i]) by {
            assert(in_range(cs[cs.len() - 1 - i]));
            lemma_inverse_in_range(cs[cs.len() - 1 - i]);
        }
        lemma_apply_all_in_range(identity_tables(), invs);
    }
    let state = CubeState::solved().apply_alg(&inv);
    let ghost st = case_state(cs);
    let mut best = extract_zbls_fingerprint(&apply_u_k(&state, 0));
    assert(state@ == st);
    assert(best@ == zbls_turned(st, 0));
    proof {
        lemma_lex_irreflexive(best@);
    }
    let mut k: usize = 1;
    while k < 4
        invariant
            state@ == st,
            1 <= k <= 4,
            exists|j: int| 0 <= j < k && best@ == zbls_turned(st, j),
            forall|j: int| 0 <= j < k ==> !lex_less(#[trigger] zbls_turned(st, j), best@),
        decreases 4 - k,
    {
        let fp = extract_zbls_fingerprint(&apply_u_k(&state, k));
        assert(fp@ == zbls_turned(st, k as int));
        let ghost old_best = best@;
        if lex_less_vec(&fp, &best) {
            best = fp;
            proof {
                lemma_lex_irreflexive(fp@);
                assert forall|j: int| 0 <= j < k + 1 implies !lex_less(
                    #[trigger] zbls_turned(st, j),
                    best@,
                ) by {
                    if j < k && lex_less(zbls_turned(st, j), best@) {
                        lemma_lex_transitive(zbls_turned(st, j), best@, old_best);
                    }
                }
            }
        }
        k = k + 1;
    }
    ZblsCase(best)
}

// ── classifying an algorithm string ─────────────────────────────────────

/// The ZBLL case of an algorithm string: none when it does not parse, when
/// nothing is left after stripping AUF and rotations, or when no rotation
/// lands the first two layers solved.
pub open spec fn canon_spec(alg: Seq<char>, ms: MoveSet, rots: Seq<Tables>) -> Option<Seq<u8>> {
    match parse_spec(alg, ms) {
        Err(_) => None,
        Ok(v) => {
            let core = strip_auf_spec(v, ms);
            if core.len() == 0 {
                None
            } else {
                match zbll_spec(core, rots) {
                    None => None,
                    Some((fp, _)) => Some(fp),
                }
            }
        },
    }
}

/// Parse an algorithm string, strip AUF and rotations, and classify it as a
/// ZBLL case.
pub fn parse_and_canon(ms: &MoveSet, rots: &[FaceMove], alg: &str) -> (r: Option<ZbllCase>)
    requires
        parse_tables_in_range(*ms),
        forall|i: int| 0 <= i < rots@.len() ==> #[trigger] in_range(rots@[i]@),
    ensures
        match canon_spec(alg@, *ms, tables_of(rots@)) {
            None => r is None,
            Some(fp) => r is Some && r->Some_0.0@ == fp,
        },
{
    let moves = match parse_alg(alg, ms) {
        Ok(m) => m,
        Err(_) => {
            return None;
        },
    };
    let core = strip_auf(moves.as_slice(), ms);
    if core.len() == 0 {
        return None;
    }
    proof {
        let a = strip_start(tables_of(moves@), *ms);
        assert forall|i: int| 0 <= i < core@.len() implies #[trigger] in_range(core@[i]@) by {
            assert(core@[i] == moves@[a + i]);
        }
    }
    match zbll_canonical(core, rots) {
        Some((case, _)) => Some(case),
        None => None,
    }
}

/// True if the two algorithm strings classify as the same ZBLL case, where
/// "no case" on both sides also counts as the same.
pub fn same_case(ms: &MoveSet, rots: &[FaceMove], a: &str, b: &str) -> (r: bool)
    requires
        parse_tables_in_range(*ms),
        forall|i: int| 0 <= i < rots@.len() ==> #[trigger] in_range(rots@[i]@),
    ensures
        r == (canon_spec(a@, *ms, tables_of(rots@)) == canon_spec(b@, *ms, tables_of(rots@))),
{
    let ca = parse_and_canon(ms, rots, a);
    let cb = parse_and_canon(ms, rots, b);
    match (ca, cb) {
        (None, None) => true,
        (Some(x), Some(y)) => bytes_equal(&x.0, &y.0),
        _ => false,
    }
}

// ── what becomes of one algorithm ───────────────────────────────────────

/// What classifying one ZBLL algorithm string gives.
pub enum ZbllOutcome {
    /// A token is big-cube notation.
    BigCube,
    /// A token is not a known move; the message names it.
    Unknown(String),
    /// Nothing is left after stripping AUF and rotations, or no rotation
    /// lands the first two layers solved.
    NotLastLayer,
    /// The case, and whether the last-layer edges are oriented.
    Case(ZbllCase, bool),
}

/// Classify one ZBLL algorithm string: parse it, strip AUF and rotations,
/// and read its case.
pub fn zbll_outcome(ms: &MoveSet, rots: &[FaceMove], alg: &str) -> (r: ZbllOutcome)
    requires
        parse_tables_in_range(*ms),
        forall|i: int| 0 <= i < rots@.len() ==> #[trigger] in_range(rots@[i]@),
    ensures
        match parse_spec(alg@, *ms) {
            Err(ParseFailure::BigCube) => r is BigCube,
            Err(ParseFailure::Unknown(m)) => r is Unknown && r->Unknown_0@ == m,
            Ok(v) => {
                let core = strip_auf_spec(v, *ms);
                if core.len() == 0 {
                    r is NotLastLayer
                } else {
                    match zbll_spec(core, tables_of(rots@)) {
                        None => r is NotLastLayer,
                        Some((fp, oriented)) => r is Case && r->Case_0.0@ == fp && r->Case_1
                            == oriented,
                    }
                }
            },
        },
{
    let moves = match parse_alg(alg, ms) {
        Ok(m) => m,
        Err(ParseError::BigCube) => {
            return ZbllOutcome::BigCube;
        },
        Err(ParseError::Unknown(t)) => {
            return ZbllOutcome::Unknown(t);
        },
    };
    let core = strip_auf(moves.as_slice(), ms);
    if core.len() == 0 {
        return ZbllOutcome::NotLastLayer;
    }
    proof {
        let a = strip_start(tables_of(moves@), *ms);
        assert forall|i: int| 0 <= i < core@.len() implies #[trigger] in_range(core@[i]@) by {
            assert(core@[i] == moves@[a + i]);
        }
    }
    match zbll_canonical(core, rots) {
        Some((case, oriented)) => ZbllOutcome::Case(case, oriented),
        None => ZbllOutcome::NotLastLayer,
    }
}

/// How a known case stands against the cases found in the data.
pub enum KnownStatus {
    /// Its algorithm classifies as one of the cases found.
    Covered,
    /// Its algorithm classifies as a case not found.
    Missed,
    /// Its algorithm has no case: it does not parse or is no last-layer
    /// algorithm.
    NoCase,
}

/// Whether the case of a known algorithm is among `seen`.
pub fn known_status(ms: &MoveSet, rots: &[FaceMove], alg: &str, seen: &[ZbllCase]) -> (r: KnownStatus)
    requires
        parse_tables_in_range(*ms),
        forall|i: int| 0 <= i < rots@.len() ==> #[trigger] in_range(rots@[i]@),
    ensures
        match canon_spec(alg@, *ms, tables_of(rots@)) {
            None => r is NoCase,
            Some(fp) => if exists|i: int| 0 <= i < seen@.len() && #[trigger] seen@[i].0@ == fp {
                r is Covered
            } else {
                r is Missed
            },
        },
{
    match parse_and_canon(ms, rots, alg) {
        None => KnownStatus::NoCase,
        Some(case) => {
            let mut i: usize = 0;
            while i < seen.len()
                invariant
                    i <= seen@.len(),
                    canon_spec(alg@, *ms, tables_of(rots@)) == Some(case.0@),
                    forall|j: int| 0 <= j < i ==> #[trigger] seen@[j].0@ != case.0@,
                decreases seen@.len() - i,
            {
                if bytes_equal(&seen[i].0, &case.0) {
                    return KnownStatus::Covered;
                }
                i = i + 1;
            }
            KnownStatus::Missed
        },
    }
}

/// Classify one ZBLS algorithm string: none when it does not parse or
/// nothing is left after stripping leading AUF and rotations; otherwise the
/// least ZBLS fingerprint of the rest over the four pre-AUF turns.
pub fn zbls_outcome(ms: &MoveSet, alg: &str) -> (r: Option<ZblsCase>)
    requires
        parse_tables_in_range(*ms),
    ensures
        match parse_spec(alg@, *ms) {
            Err(_) => r is None,
            Ok(v) => {
                let core = v.skip(strip_start(v, *ms));
                if core.len() == 0 {
                    r is None
                } else {
                    r is Some && zbls_least(case_state(core), r->Some_0.0@)
                }
            },
        },
{
    let moves = match parse_alg(alg, ms) {
        Ok(m) => m,
        Err(_) => {
            return None;
        },
    };
    let core = strip_auf_start(moves.as_slice(), ms);
    let ghost v = tables_of(moves@);
    let ghost a = strip_start(v, *ms);
    proof {
        assert(tables_of(core@) =~= v.skip(a));
    }
    if core.len() == 0 {
        return None;
    }
    proof {
        assert forall|i: int| 0 <= i < core@.len() implies #[trigger] in_range(core@[i]@) by {
            assert(core@[i] == moves@[a + i]);
        }
    }
    Some(zbls_canonical(core))
}

} // verus!
