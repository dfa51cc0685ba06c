//! The cube state in the cubie model.
use vstd::prelude::*;

use crate::model::{
    apply_all, apply_all_ok, apply_ok, apply_tables, identity_tables, moved_co, moved_eo, scatter,
    scatter_upto, zeros, Tables,
};
use crate::moves::FaceMove;

verus! {

/// A cube state: which piece sits in each slot, and how it is twisted.
#[derive(Clone, Copy, Debug, PartialEq, Eq)]
pub struct CubeState {
    /// cp[i] = which piece is currently in slot i.
    pub cp: [u8; 8],
    /// co[i] = orientation of the piece in slot i (0–2).
    pub co: [u8; 8],
    pub ep: [u8; 12],
    pub eo: [u8; 12],
}

impl View for CubeState {
    type V = Tables;

    open spec fn view(&self) -> Tables {
        Tables { cp: self.cp@, co: self.co@, ep: self.ep@, eo: self.eo@ }
    }
}

/// The moves of a slice, as tables.
pub open spec fn tables_of(moves: Seq<FaceMove>) -> Seq<Tables> {
    moves.map_values(|m: FaceMove| m@)
}

/// Every D-layer corner (slots 4–7), D-layer edge (slots 4–7) and E-layer
/// edge (slots 8–11) holds its own piece, unturned.
pub open spec fn f2l_solved_spec(t: Tables) -> bool {
    &&& forall|i: int| 4 <= i < 8 ==> #[trigger] corner_home(t, i)
    &&& forall|i: int| 4 <= i < 12 ==> #[trigger] edge_home(t, i)
}

/// Corner slot `i` holds its own piece, unturned.
pub open spec fn corner_home(t: Tables, i: int) -> bool {
    t.cp[i] == i && t.co[i] == 0
}

/// Edge slot `i` holds its own piece, unflipped.
pub open spec fn edge_home(t: Tables, i: int) -> bool {
    t.ep[i] == i && t.eo[i] == 0
}

/// The four last-layer edges (slots 0–3) are oriented.
pub open spec fn ll_edges_oriented_spec(t: Tables) -> bool {
    forall|i: int| 0 <= i < 4 ==> #[trigger] t.eo[i] == 0
}

impl CubeState {
    /// The solved cube: every piece in its own slot, unturned.
    pub fn solved() -> (s: CubeState)
        ensures
            s@ == identity_tables(),
    {
        let s = CubeState {
            cp: [0, 1, 2, 3, 4, 5, 6, 7],
            co: [0;8],
            ep: [0, 1, 2, 3, 4, 5, 6, 7, 8, 9, 10, 11],
            eo: [0;12],
        };
        assert(s@ =~= identity_tables());
        s
    }

    /// The state after move `m`.
    pub fn apply(&self, m: &FaceMove) -> (new: CubeState)
        requires
            apply_ok(self@, m@),
        ensures
            new@ == apply_tables(self@, m@),
    {
        let mut new = CubeState { cp: [0;8], co: [0;8], ep: [0;12], eo: [0;12] };
        assert(new.cp@ =~= zeros(8));
        assert(new.co@ =~= zeros(8));
        assert(new.ep@ =~= zeros(12));
        assert(new.eo@ =~= zeros(12));
        // Piece at slot i moves to slot m.cp[i].
        for i in 0..8
            invariant
                apply_ok(self@, m@),
                new.cp@ == scatter_upto(m.cp@, self.cp@, zeros(8), i as int),
                new.co@ == scatter_upto(m.cp@, moved_co(self@, m@), zeros(8), i as int),
                new.ep@ == zeros(12),
                new.eo@ == zeros(12),
        {
            let dst = m.cp[i] as usize;
            new.cp[dst] = self.cp[i];
            new.co[dst] = (self.co[i] + m.co[i]) % 3;
            assert(new.cp@ =~= scatter_upto(m.cp@, self.cp@, zeros(8), i + 1));
            assert(new.co@ =~= scatter_upto(m.cp@, moved_co(self@, m@), zeros(8), i + 1));
        }
        for i in 0..12
            invariant
                apply_ok(self@, m@),
                new.cp@ == scatter(m.cp@, self.cp@, zeros(8)),
                new.co@ == scatter(m.cp@, moved_co(self@, m@), zeros(8)),
                new.ep@ == scatter_upto(m.ep@, self.ep@, zeros(12), i as int),
                new.eo@ == scatter_upto(m.ep@, moved_eo(self@, m@), zeros(12), i as int),
        {
            let dst = m.ep[i] as usize;
            new.ep[dst] = self.ep[i];
            new.eo[dst] = (self.eo[i] + m.eo[i]) % 2;
            assert(new.ep@ =~= scatter_upto(m.ep@, self.ep@, zeros(12), i + 1));
            assert(new.eo@ =~= scatter_upto(m.ep@, moved_eo(self@, m@), zeros(12), i + 1));
        }
        assert(new@ =~= apply_tables(self@, m@));
        new
    }

    /// The state after every move of `moves`, first to last.
    pub fn apply_alg(&self, moves: &[FaceMove]) -> (r: CubeState)
        requires
            apply_all_ok(self@, tables_of(moves@)),
        ensures
            r@ == apply_all(self@, tables_of(moves@)),
    {
        let mut s = *self;
        for i in 0..moves.len()
            invariant
                apply_all_ok(self@, tables_of(moves@)),
                s@ == apply_all(self@, tables_of(moves@.take(i as int))),
        {
            proof {
                lemma_apply_all_ok_prefix(self@, tables_of(moves@), i + 1);
                assert(tables_of(moves@.take(i + 1)).drop_last() =~= tables_of(moves@.take(i as int)));
                assert(tables_of(moves@.take(i + 1)).last() == moves@[i as int]@);
                let pre = tables_of(moves@.take(i + 1));
                assert(tables_of(moves@).take(i + 1) =~= pre);
                assert(apply_all_ok(self@, pre));
                assert(apply_ok(apply_all(self@, pre.drop_last()), pre.last()));
            }
            s = s.apply(&moves[i]);
        }
        assert(moves@.take(moves@.len() as int) =~= moves@);
        s
    }

    /// True if every D-layer corner, E-layer edge, and D-layer edge is solved.
    /// Used to verify an alg is a genuine LL alg.
    pub fn f2l_solved(&self) -> (r: bool)
        ensures
            r == f2l_solved_spec(self@),
    {
        // D-layer corners: slots 4–7, each must hold its own piece, oriented 0
        let mut i: usize = 4;
        while i < 8
            invariant
                4 <= i <= 8,
                forall|k: int| 4 <= k < i ==> #[trigger] corner_home(self@, k),
            decreases 8 - i,
        {
            if self.cp[i] as usize != i || self.co[i] != 0 {
                assert(!corner_home(self@, i as int));
                return false;
            }
            i = i + 1;
        }
        // D-layer edges (slots 4–7), then E-layer edges (slots 8–11)
        let mut i: usize = 4;
        while i < 12
            invariant
                4 <= i <= 12,
                forall|k: int| 4 <= k < 8 ==> #[trigger] corner_home(self@, k),
                forall|k: int| 4 <= k < i ==> #[trigger] edge_home(self@, k),
            decreases 12 - i,
        {
            if self.ep[i] as usize != i || self.eo[i] != 0 {
                assert(!edge_home(self@, i as int));
                return false;
            }
            i = i + 1;
        }
        true
    }

    /// True if all LL edges (slots 0–3) are oriented (eo == 0).
    pub fn ll_edges_oriented(&self) -> (r: bool)
        ensures
            r == ll_edges_oriented_spec(self@),
    {
        let mut i: usize = 0;
        while i < 4
            invariant
                i <= 4,
                forall|k: int| 0 <= k < i ==> #[trigger] self.eo@[k] == 0,
            decreases 4 - i,
        {
            if self.eo[i] != 0 {
                assert(self@.eo[i as int] != 0);
                return false;
            }
            i = i + 1;
        }
        true
    }
}

/// A prefix of moves that can be applied in turn can itself be applied.
pub proof fn lemma_apply_all_ok_prefix(s: Tables, ms: Seq<Tables>, n: int)
    requires
        apply_all_ok(s, ms),
        0 <= n <= ms.len(),
    ensures
        apply_all_ok(s, ms.take(n)),
    decreases ms.len(),
{
    if n < ms.len() {
        assert(ms.drop_last().take(n) =~= ms.take(n));
        lemma_apply_all_ok_prefix(s, ms.drop_last(), n);
    } else {
        assert(ms.take(n) =~= ms);
    }
}

} // verus!
