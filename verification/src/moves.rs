//! Move tables: the face turns, their composition and inverse, and the
//! catalog of face turns and whole-cube rotations.
use vstd::prelude::*;

use crate::counting::{lemma_distinct_tables_bound, table_count};
use crate::faces::{
    b_turn, b_turn_tables, d_turn, d_turn_tables, e_slice, e_slice_tables, f_turn, f_turn_tables,
    l_turn, l_turn_tables, lemma_basic_moves_valid, m_slice, m_slice_tables, r_turn, r_turn_tables,
    s_slice, s_slice_tables, u_turn, u_turn_tables,
};
use crate::lemmas::{lemma_inverse_valid, lemma_then_in_range, lemma_then_valid};
use crate::model::{
    identity_tables, in_range, shaped, valid, inverse_ok, inverse_tables, iota, scatter, scatter_upto, then_ok, then_tables,
    undo_co, zeros, Tables,
};

verus! {

/// Complete permutation table for one move.
/// `cp[i] = j` means the piece currently in slot `i` moves to slot `j`.
/// `co[i]` is the orientation delta added to the piece moving from slot `i`
/// (mod 3). `ep`/`eo`: the same for edges (`eo` mod 2).
#[derive(Clone, Copy, Debug)]
pub struct FaceMove {
    pub cp: [u8; 8],
    pub co: [u8; 8],
    pub ep: [u8; 12],
    pub eo: [u8; 12],
}

impl View for FaceMove {
    type V = Tables;

    open spec fn view(&self) -> Tables {
        Tables { cp: self.cp@, co: self.co@, ep: self.ep@, eo: self.eo@ }
    }
}

impl FaceMove {
    /// The move that moves nothing.
    pub fn identity() -> (m: FaceMove)
        ensures
            m@ == identity_tables(),
    {
        let m = FaceMove {
            cp: [0, 1, 2, 3, 4, 5, 6, 7],
            co: [0;8],
            ep: [0, 1, 2, 3, 4, 5, 6, 7, 8, 9, 10, 11],
            eo: [0;12],
        };
        assert(m@ =~= identity_tables());
        m
    }

    /// Compose: apply `self`, then `other`.
    pub fn then_move(&self, other: &FaceMove) -> (r: FaceMove)
        requires
            then_ok(self@, other@),
        ensures
            r@ == then_tables(self@, other@),
    {
        let mut r = FaceMove::identity();
        let ghost want = then_tables(self@, other@);
        for i in 0..8
            invariant
                then_ok(self@, other@),
                want == then_tables(self@, other@),
                r.ep@ == iota(12),
                forall|k: int| 0 <= k < i ==> r.cp@[k] == want.cp[k] && r.co@[k] == want.co[k],
        {
            let mid = self.cp[i] as usize;
            r.cp[i] = other.cp[mid];
            r.co[i] = (self.co[i] + other.co[mid]) % 3;
        }
        for i in 0..12
            invariant
                then_ok(self@, other@),
                want == then_tables(self@, other@),
                forall|k: int| 0 <= k < 8 ==> r.cp@[k] == want.cp[k] && r.co@[k] == want.co[k],
                forall|k: int| 0 <= k < i ==> r.ep@[k] == want.ep[k] && r.eo@[k] == want.eo[k],
        {
            let mid = self.ep[i] as usize;
            r.ep[i] = other.ep[mid];
            r.eo[i] = (self.eo[i] + other.eo[mid]) % 2;
        }
        assert(r@ =~= want);
        r
    }

    /// The move that undoes `self`.
    pub fn inverse(&self) -> (r: FaceMove)
        requires
            inverse_ok(self@),
        ensures
            r@ == inverse_tables(self@),
    {
        let mut r = FaceMove::identity();
        for i in 0..8
            invariant
                inverse_ok(self@),
                r.cp@ == scatter_upto(self.cp@, iota(8), iota(8), i as int),
                r.co@ == scatter_upto(self.cp@, undo_co(self@), zeros(8), i as int),
                r.ep@ == iota(12),
                r.eo@ == zeros(12),
        {
            let dst = self.cp[i] as usize;
            r.cp[dst] = i as u8;
            // If self adds co[i] when moving from i to dst,
            // the inverse adds (3 - co[i]) % 3 when moving from dst to i.
            r.co[dst] = (3 - self.co[i]) % 3;
            assert(r.cp@ =~= scatter_upto(self.cp@, iota(8), iota(8), i + 1));
            assert(r.co@ =~= scatter_upto(self.cp@, undo_co(self@), zeros(8), i + 1));
        }
        for i in 0..12
            invariant
                inverse_ok(self@),
                r.cp@ == scatter(self.cp@, iota(8), iota(8)),
                r.co@ == scatter(self.cp@, undo_co(self@), zeros(8)),
                r.ep@ == scatter_upto(self.ep@, iota(12), iota(12), i as int),
                r.eo@ == scatter_upto(self.ep@, self.eo@, zeros(12), i as int),
        {
            let dst = self.ep[i] as usize;
            r.ep[dst] = i as u8;
            // Flipping is its own inverse.
            r.eo[dst] = self.eo[i];
            assert(r.ep@ =~= scatter_upto(self.ep@, iota(12), iota(12), i + 1));
            assert(r.eo@ =~= scatter_upto(self.ep@, self.eo@, zeros(12), i + 1));
        }
        assert(r@ =~= inverse_tables(self@));
        r
    }

    /// The move applied twice.
    pub fn pow2(&self) -> (r: FaceMove)
        requires
            then_ok(self@, self@),
        ensures
            r@ == then_tables(self@, self@),
    {
        self.then_move(self)
    }
}


/// The whole-cube rotation x (turning like R): x = R M' L'.
pub open spec fn x_rotation_tables() -> Tables {
    then_tables(then_tables(r_turn_tables(), inverse_tables(m_slice_tables())), inverse_tables(l_turn_tables()))
}

/// The whole-cube rotation y (turning like U): y = U E' D'.
pub open spec fn y_rotation_tables() -> Tables {
    then_tables(then_tables(u_turn_tables(), inverse_tables(e_slice_tables())), inverse_tables(d_turn_tables()))
}

/// The whole-cube rotation z (turning like F): z = F S B'.
pub open spec fn z_rotation_tables() -> Tables {
    then_tables(then_tables(f_turn_tables(), s_slice_tables()), inverse_tables(b_turn_tables()))
}

/// The three rotations are genuine moves.
pub proof fn lemma_rotations_valid()
    ensures
        valid(x_rotation_tables()),
        valid(y_rotation_tables()),
        valid(z_rotation_tables()),
{
    lemma_basic_moves_valid();
    lemma_inverse_valid(m_slice_tables());
    lemma_inverse_valid(l_turn_tables());
    lemma_inverse_valid(e_slice_tables());
    lemma_inverse_valid(d_turn_tables());
    lemma_inverse_valid(b_turn_tables());
    lemma_then_valid(r_turn_tables(), inverse_tables(m_slice_tables()));
    lemma_then_valid(
        then_tables(r_turn_tables(), inverse_tables(m_slice_tables())),
        inverse_tables(l_turn_tables()),
    );
    lemma_then_valid(u_turn_tables(), inverse_tables(e_slice_tables()));
    lemma_then_valid(
        then_tables(u_turn_tables(), inverse_tables(e_slice_tables())),
        inverse_tables(d_turn_tables()),
    );
    lemma_then_valid(f_turn_tables(), s_slice_tables());
    lemma_then_valid(then_tables(f_turn_tables(), s_slice_tables()), inverse_tables(b_turn_tables()));
}

/// Each basic move together with its inverse and its square is genuine.
proof fn lemma_family_valid(t: Tables)
    requires
        valid(t),
    ensures
        valid(inverse_tables(t)),
        valid(then_tables(t, t)),
        inverse_ok(t),
        then_ok(t, t),
{
    lemma_inverse_valid(t);
    lemma_then_valid(t, t);
}

/// Some entry of `rots` has the tables `t`.
pub open spec fn holds_tables(rots: Seq<FaceMove>, t: Tables) -> bool {
    exists|j: int| 0 <= j < rots.len() && rots[j]@ == t
}

/// Entry `k` of `rots` is an earlier entry followed by one of `gens`.
pub open spec fn derived_from_earlier(rots: Seq<FaceMove>, gens: Seq<Tables>, k: int) -> bool {
    exists|j: int, g: int|
        0 <= j < k && 0 <= g < gens.len() && rots[k]@ == then_tables(rots[j]@, gens[g])
}

/// The search state of the rotation closure: starts at the identity, holds no
/// table twice, keeps entries in range, and derives every later entry from an
/// earlier one.
pub open spec fn closure_state(rots: Seq<FaceMove>, gens: Seq<Tables>) -> bool {
    &&& rots.len() >= 1
    &&& rots[0]@ == identity_tables()
    &&& forall|i: int, j: int| 0 <= i < j < rots.len() ==> rots[i]@ != rots[j]@
    &&& forall|i: int| 0 <= i < rots.len() ==> #[trigger] in_range(rots[i]@)
    &&& forall|k: int| 1 <= k < rots.len() ==> #[trigger] derived_from_earlier(rots, gens, k)
}

proof fn lemma_holds_push(rots: Seq<FaceMove>, t: Tables, x: FaceMove)
    requires
        holds_tables(rots, t),
    ensures
        holds_tables(rots.push(x), t),
{
    let j = choose|j: int| 0 <= j < rots.len() && rots[j]@ == t;
    assert(rots.push(x)[j] == rots[j]);
}

proof fn lemma_derived_push(rots: Seq<FaceMove>, gens: Seq<Tables>, x: FaceMove, k: int)
    requires
        1 <= k < rots.len(),
        derived_from_earlier(rots, gens, k),
    ensures
        derived_from_earlier(rots.push(x), gens, k),
{
    let (j, g) = choose|j: int, g: int|
        0 <= j < k && 0 <= g < gens.len() && rots[k]@ == then_tables(rots[j]@, gens[g]);
    assert(rots.push(x)[j] == rots[j]);
    assert(rots.push(x)[k] == rots[k]);
}

proof fn lemma_closure_state_bounded(rots: Seq<FaceMove>, gens: Seq<Tables>)
    requires
        closure_state(rots, gens),
    ensures
        rots.len() <= table_count(),
{
    let ts = rots.map_values(|m: FaceMove| m@);
    assert forall|i: int| 0 <= i < ts.len() implies #[trigger] shaped(ts[i]) by {
        assert(in_range(rots[i]@));
    }
    lemma_distinct_tables_bound(ts);
}

/// The move table the parser draws from: the six faces and three whole-cube
/// rotations, each with its prime and double.
pub struct MoveSet {
    pub u: FaceMove,
    pub up: FaceMove,
    pub u2: FaceMove,
    pub d: FaceMove,
    pub dp: FaceMove,
    pub d2: FaceMove,
    pub r: FaceMove,
    pub rp: FaceMove,
    pub r2: FaceMove,
    pub l: FaceMove,
    pub lp: FaceMove,
    pub l2: FaceMove,
    pub f: FaceMove,
    pub fp: FaceMove,
    pub f2: FaceMove,
    pub b: FaceMove,
    pub bp: FaceMove,
    pub b2: FaceMove,
    pub x: FaceMove,
    pub xp: FaceMove,
    pub x2: FaceMove,
    pub y: FaceMove,
    pub yp: FaceMove,
    pub y2: FaceMove,
    pub z: FaceMove,
    pub zp: FaceMove,
    pub z2: FaceMove,
}

impl MoveSet {
    /// Each field holds its face turn or rotation, the inverse of it (the
    /// primed fields) or its square (the fields ending in 2).
    pub open spec fn standard(&self) -> bool {
        &&& self.u@ == u_turn_tables()
        &&& self.up@ == inverse_tables(u_turn_tables())
        &&& self.u2@ == then_tables(u_turn_tables(), u_turn_tables())
        &&& self.d@ == d_turn_tables()
        &&& self.dp@ == inverse_tables(d_turn_tables())
        &&& self.d2@ == then_tables(d_turn_tables(), d_turn_tables())
        &&& self.r@ == r_turn_tables()
        &&& self.rp@ == inverse_tables(r_turn_tables())
        &&& self.r2@ == then_tables(r_turn_tables(), r_turn_tables())
        &&& self.l@ == l_turn_tables()
        &&& self.lp@ == inverse_tables(l_turn_tables())
        &&& self.l2@ == then_tables(l_turn_tables(), l_turn_tables())
        &&& self.f@ == f_turn_tables()
        &&& self.fp@ == inverse_tables(f_turn_tables())
        &&& self.f2@ == then_tables(f_turn_tables(), f_turn_tables())
        &&& self.b@ == b_turn_tables()
        &&& self.bp@ == inverse_tables(b_turn_tables())
        &&& self.b2@ == then_tables(b_turn_tables(), b_turn_tables())
        &&& self.x@ == x_rotation_tables()
        &&& self.xp@ == inverse_tables(x_rotation_tables())
        &&& self.x2@ == then_tables(x_rotation_tables(), x_rotation_tables())
        &&& self.y@ == y_rotation_tables()
        &&& self.yp@ == inverse_tables(y_rotation_tables())
        &&& self.y2@ == then_tables(y_rotation_tables(), y_rotation_tables())
        &&& self.z@ == z_rotation_tables()
        &&& self.zp@ == inverse_tables(z_rotation_tables())
        &&& self.z2@ == then_tables(z_rotation_tables(), z_rotation_tables())
    }

    /// Every table of the set is a genuine move.
    pub open spec fn all_valid(&self) -> bool {
        &&& valid(self.u@)
        &&& valid(self.up@)
        &&& valid(self.u2@)
        &&& valid(self.d@)
        &&& valid(self.dp@)
        &&& valid(self.d2@)
        &&& valid(self.r@)
        &&& valid(self.rp@)
        &&& valid(self.r2@)
        &&& valid(self.l@)
        &&& valid(self.lp@)
        &&& valid(self.l2@)
        &&& valid(self.f@)
        &&& valid(self.fp@)
        &&& valid(self.f2@)
        &&& valid(self.b@)
        &&& valid(self.bp@)
        &&& valid(self.b2@)
        &&& valid(self.x@)
        &&& valid(self.xp@)
        &&& valid(self.x2@)
        &&& valid(self.y@)
        &&& valid(self.yp@)
        &&& valid(self.y2@)
        &&& valid(self.z@)
        &&& valid(self.zp@)
        &&& valid(self.z2@)
    }

    /// The generators of the cube rotations: x, x', y, y', z, z'.
    pub open spec fn rotation_gens(&self) -> Seq<Tables> {
        seq![self.x@, self.xp@, self.y@, self.yp@, self.z@, self.zp@]
    }

    /// The generators of the cube rotations have their entries in range.
    pub open spec fn rotation_gens_in_range(&self) -> bool {
        forall|g: int| 0 <= g < 6 ==> #[trigger] in_range(self.rotation_gens()[g])
    }

    /// The 24 whole-cube orientations, each as a composed `FaceMove`: the
    /// closure of the identity under x, x', y, y', z, z'.
    ///
    /// Wide moves and slice moves rotate the cube's centers, so an algorithm
    /// can finish in a net-rotated frame. Callers reorient by trying every
    /// rotation here and keeping the ones that land F2L solved.
    pub fn cube_rotations(&self) -> (rots: Vec<FaceMove>)
        requires
            self.rotation_gens_in_range(),
        ensures
            closure_state(rots@, self.rotation_gens()),
            forall|i: int, g: int|
                0 <= i < rots@.len() && 0 <= g < 6 ==> holds_tables(
                    rots@,
                    then_tables(#[trigger] rots@[i]@, #[trigger] self.rotation_gens()[g]),
                ),
    {
        let gens = [self.x, self.xp, self.y, self.yp, self.z, self.zp];
        let ghost gs = self.rotation_gens();
        assert(forall|g: int| 0 <= g < 6 ==> #[trigger] gens@[g]@ == gs[g]);
        let mut set = vec![FaceMove::identity()];
        loop
            invariant
                self.rotation_gens_in_range(),
                gs == self.rotation_gens(),
                forall|g: int| 0 <= g < 6 ==> #[trigger] gens@[g]@ == gs[g],
                closure_state(set@, gs),
            ensures
                closure_state(set@, gs),
                forall|i: int, g: int|
                    0 <= i < set@.len() && 0 <= g < 6 ==> holds_tables(
                        set@,
                        then_tables(#[trigger] set@[i]@, #[trigger] gs[g]),
                    ),
            decreases table_count() - set@.len(),
        {
            proof {
                lemma_closure_state_bounded(set@, gs);
            }
            let mut added = false;
            let n = set.len();
            let mut k: usize = 0;
            while k < n
                invariant
                    self.rotation_gens_in_range(),
                    gs == self.rotation_gens(),
                    forall|g: int| 0 <= g < 6 ==> #[trigger] gens@[g]@ == gs[g],
                    closure_state(set@, gs),
                    0 <= k <= n <= set@.len(),
                    !added ==> set@.len() == n,
                    added ==> set@.len() > n,
                    forall|i: int, g: int|
                        0 <= i < k && 0 <= g < 6 ==> holds_tables(
                            set@,
                            then_tables(#[trigger] set@[i]@, #[trigger] gs[g]),
                        ),
                decreases n - k,
            {
                let r = set[k];
                let mut gi: usize = 0;
                while gi < 6
                    invariant
                        self.rotation_gens_in_range(),
                        gs == self.rotation_gens(),
                        forall|g: int| 0 <= g < 6 ==> #[trigger] gens@[g]@ == gs[g],
                        closure_state(set@, gs),
                        0 <= k < n <= set@.len(),
                        r == set@[k as int],
                        gi <= 6,
                        !added ==> set@.len() == n,
                        added ==> set@.len() > n,
                        forall|i: int, g: int|
                            0 <= i < k && 0 <= g < 6 ==> holds_tables(
                                set@,
                                then_tables(#[trigger] set@[i]@, #[trigger] gs[g]),
                            ),
                        forall|g: int|
                            0 <= g < gi ==> holds_tables(set@, then_tables(r@, #[trigger] gs[g])),
                    decreases 6 - gi,
                {
                    proof {
                        assert(in_range(set@[k as int]@));
                        assert(in_range(gs[gi as int]));
                        lemma_then_in_range(r@, gs[gi as int]);
                    }
                    let c = r.then_move(&gens[gi]);
                    let mut dup = false;
                    let mut e: usize = 0;
                    while e < set.len()
                        invariant_except_break
                            !dup,
                        invariant
                            e <= set@.len(),
                            forall|x: int| 0 <= x < e ==> set@[x]@ != c@,
                        ensures
                            dup ==> e < set@.len() && set@[e as int]@ == c@,
                            !dup ==> forall|x: int| 0 <= x < set@.len() ==> set@[x]@ != c@,
                        decreases set@.len() - e,
                    {
                        if moves_eq(&set[e], &c) {
                            dup = true;
                            break;
                        }
                        e = e + 1;
                    }
                    let ghost before = set@;
                    if !dup {
                        set.push(c);
                        added = true;
                        proof {
                            assert(forall|x: int| 0 <= x < before.len() ==> before[x]@ != c@);
                            assert(set@ == before.push(c));
                            assert(set@[before.len() as int] == c);
                            assert forall|q: int| 1 <= q < set@.len() implies #[trigger] derived_from_earlier(
                                set@,
                                gs,
                                q,
                            ) by {
                                if q < before.len() {
                                    lemma_derived_push(before, gs, c, q);
                                } else {
                                    assert(set@[k as int] == r);
                                    assert(set@[q]@ == then_tables(set@[k as int]@, gs[gi as int]));
                                }
                            }
                            assert forall|i: int| 0 <= i < set@.len() implies #[trigger] in_range(set@[i]@) by {
                                if i < before.len() {
                                    assert(in_range(before[i]@));
                                }
                            }
                            assert forall|i: int, g: int|
                                0 <= i < k && 0 <= g < 6 implies holds_tables(
                                set@,
                                then_tables(#[trigger] set@[i]@, #[trigger] gs[g]),
                            ) by {
                                assert(set@[i] == before[i]);
                                assert(holds_tables(before, then_tables(before[i]@, gs[g])));
                                lemma_holds_push(before, then_tables(before[i]@, gs[g]), c);
                            }
                            assert forall|g: int| 0 <= g < gi implies holds_tables(
                                set@,
                                then_tables(r@, #[trigger] gs[g]),
                            ) by {
                                lemma_holds_push(before, then_tables(r@, gs[g]), c);
                            }
                            assert(holds_tables(set@, then_tables(r@, gs[gi as int])));
                        }
                    } else {
                        assert(set@[e as int]@ == c@);
                        assert(holds_tables(set@, then_tables(r@, gs[gi as int])));
                    }
                    gi = gi + 1;
                }
                k = k + 1;
            }
            if !added {
                break;
            }
            proof {
                lemma_closure_state_bounded(set@, gs);
            }
        }
        set
    }

    /// The move set: each face turn and rotation, its inverse and its
    /// square.
    pub fn build() -> (ms: MoveSet)
        ensures
            ms.standard(),
            ms.all_valid(),
    {
        proof {
            lemma_basic_moves_valid();
            lemma_rotations_valid();
            lemma_inverse_valid(m_slice_tables());
            lemma_inverse_valid(e_slice_tables());
            lemma_inverse_valid(l_turn_tables());
            lemma_inverse_valid(d_turn_tables());
            lemma_inverse_valid(b_turn_tables());
        }
        let (u, up, u2) = family(u_turn());
        let (d, dp, d2) = family(d_turn());
        let (r, rp, r2) = family(r_turn());
        let (l, lp, l2) = family(l_turn());
        let (f, fp, f2) = family(f_turn());
        let (b, bp, b2) = family(b_turn());
        // Slice inverses are only needed to derive the rotations below.
        let mp = m_slice().inverse();
        let ep_move = e_slice().inverse();
        // x = R M' L', y = U E' D', z = F S B'  (whole-cube rotations).
        let (x, xp, x2) = family(compose3(&r, &mp, &lp));
        let (y, yp, y2) = family(compose3(&u, &ep_move, &dp));
        let (z, zp, z2) = family(compose3(&f, &s_slice(), &bp));
        let ms = MoveSet {
            u,
            up,
            u2,
            d,
            dp,
            d2,
            r,
            rp,
            r2,
            l,
            lp,
            l2,
            f,
            fp,
            f2,
            b,
            bp,
            b2,
            x,
            xp,
            x2,
            y,
            yp,
            y2,
            z,
            zp,
            z2,
        };
        assert(ms.standard());
        proof {
            lemma_standard_valid(ms);
        }
        ms
    }
}

/// A genuine move, its inverse and its square.
fn family(m: FaceMove) -> (r: (FaceMove, FaceMove, FaceMove))
    requires
        valid(m@),
    ensures
        r.0@ == m@,
        r.1@ == inverse_tables(m@),
        r.2@ == then_tables(m@, m@),
{
    proof {
        lemma_family_valid(m@);
    }
    (m, m.inverse(), m.pow2())
}

/// Three genuine moves composed: `a`, then `b`, then `c`.
fn compose3(a: &FaceMove, b: &FaceMove, c: &FaceMove) -> (r: FaceMove)
    requires
        valid(a@),
        valid(b@),
        valid(c@),
    ensures
        r@ == then_tables(then_tables(a@, b@), c@),
{
    proof {
        lemma_then_valid(a@, b@);
        lemma_then_valid(then_tables(a@, b@), c@);
    }
    a.then_move(b).then_move(c)
}

/// The standard move set holds genuine moves only.
pub proof fn lemma_standard_valid(ms: MoveSet)
    requires
        ms.standard(),
    ensures
        ms.all_valid(),
{
    lemma_basic_moves_valid();
    lemma_rotations_valid();
    lemma_family_valid(u_turn_tables());
    lemma_family_valid(d_turn_tables());
    lemma_family_valid(r_turn_tables());
    lemma_family_valid(l_turn_tables());
    lemma_family_valid(f_turn_tables());
    lemma_family_valid(b_turn_tables());
    lemma_family_valid(x_rotation_tables());
    lemma_family_valid(y_rotation_tables());
    lemma_family_valid(z_rotation_tables());
}

/// True if `a` and `b` are the same move table.
pub fn moves_eq(a: &FaceMove, b: &FaceMove) -> (r: bool)
    ensures
        r == (a@ == b@),
{
    let mut i: usize = 0;
    while i < 8
        invariant
            i <= 8,
            forall|k: int| 0 <= k < i ==> a.cp@[k] == b.cp@[k] && a.co@[k] == b.co@[k],
        decreases 8 - i,
    {
        if a.cp[i] != b.cp[i] || a.co[i] != b.co[i] {
            assert(a@.cp[i as int] != b@.cp[i as int] || a@.co[i as int] != b@.co[i as int]);
            return false;
        }
        i = i + 1;
    }
    let mut i: usize = 0;
    while i < 12
        invariant
            i <= 12,
            forall|k: int| 0 <= k < 8 ==> a.cp@[k] == b.cp@[k] && a.co@[k] == b.co@[k],
            forall|k: int| 0 <= k < i ==> a.ep@[k] == b.ep@[k] && a.eo@[k] == b.eo@[k],
        decreases 12 - i,
    {
        if a.ep[i] != b.ep[i] || a.eo[i] != b.eo[i] {
            assert(a@.ep[i as int] != b@.ep[i as int] || a@.eo[i as int] != b@.eo[i as int]);
            return false;
        }
        i = i + 1;
    }
    assert(a@ =~= b@);
    true
}

} // verus!
