//! The basic move tables: the six face turns and the three slice turns.
//!
//! Corner slots: 0=URF 1=UFL 2=ULB 3=UBR 4=DFR 5=DLF 6=DBL 7=DRB.
//! Edge slots: 0=UR 1=UF 2=UL 3=UB 4=DR 5=DF 6=DL 7=DB 8=FR 9=FL 10=BL 11=BR.
use vstd::prelude::*;

use crate::model::{valid, Tables};
use crate::moves::FaceMove;

verus! {

/// The tables of U  (clockwise seen from the top: UBR→URF→UFL→ULB, UB→UR→UF→UL).
pub open spec fn u_turn_tables() -> Tables {
    Tables {
        cp: seq![1u8, 2, 3, 0, 4, 5, 6, 7],
        co: seq![0u8, 0, 0, 0, 0, 0, 0, 0],
        ep: seq![1u8, 2, 3, 0, 4, 5, 6, 7, 8, 9, 10, 11],
        eo: seq![0u8, 0, 0, 0, 0, 0, 0, 0, 0, 0, 0, 0],
    }
}

/// U  (clockwise seen from the top: UBR→URF→UFL→ULB, UB→UR→UF→UL)
pub fn u_turn() -> (m: FaceMove)
    ensures
        m@ == u_turn_tables(),
{
    let m = FaceMove {
        cp: [1, 2, 3, 0, 4, 5, 6, 7],
        co: [0;8],
        ep: [1, 2, 3, 0, 4, 5, 6, 7, 8, 9, 10, 11],
        eo: [0;12],
    };
    assert(m@ =~= u_turn_tables());
    m
}

/// The tables of D  (clockwise seen from the bottom: DFR→DRB→DBL→DLF, DF→DR→DB→DL).
pub open spec fn d_turn_tables() -> Tables {
    Tables {
        cp: seq![0u8, 1, 2, 3, 7, 4, 5, 6],
        co: seq![0u8, 0, 0, 0, 0, 0, 0, 0],
        ep: seq![0u8, 1, 2, 3, 7, 4, 5, 6, 8, 9, 10, 11],
        eo: seq![0u8, 0, 0, 0, 0, 0, 0, 0, 0, 0, 0, 0],
    }
}

/// D  (clockwise seen from the bottom: DFR→DRB→DBL→DLF, DF→DR→DB→DL)
pub fn d_turn() -> (m: FaceMove)
    ensures
        m@ == d_turn_tables(),
{
    let m = FaceMove {
        cp: [0, 1, 2, 3, 7, 4, 5, 6],
        co: [0;8],
        ep: [0, 1, 2, 3, 7, 4, 5, 6, 8, 9, 10, 11],
        eo: [0;12],
    };
    assert(m@ =~= d_turn_tables());
    m
}

/// The tables of R  (clockwise seen from the right: URF→UBR→DRB→DFR, UR→BR→DR→FR).
pub open spec fn r_turn_tables() -> Tables {
    Tables {
        cp: seq![3u8, 1, 2, 7, 0, 5, 6, 4],
        co: seq![2u8, 0, 0, 1, 1, 0, 0, 2],
        ep: seq![11u8, 1, 2, 3, 8, 5, 6, 7, 0, 9, 10, 4],
        eo: seq![0u8, 0, 0, 0, 0, 0, 0, 0, 0, 0, 0, 0],
    }
}

/// R  (clockwise seen from the right: URF→UBR→DRB→DFR, UR→BR→DR→FR)
pub fn r_turn() -> (m: FaceMove)
    ensures
        m@ == r_turn_tables(),
{
    let m = FaceMove {
        cp: [3, 1, 2, 7, 0, 5, 6, 4],
        co: [2, 0, 0, 1, 1, 0, 0, 2],
        ep: [11, 1, 2, 3, 8, 5, 6, 7, 0, 9, 10, 4],
        eo: [0;12],
    };
    assert(m@ =~= r_turn_tables());
    m
}

/// The tables of L  (clockwise seen from the left: UFL→DLF→DBL→ULB, UL→FL→DL→BL).
pub open spec fn l_turn_tables() -> Tables {
    Tables {
        cp: seq![0u8, 5, 1, 3, 4, 6, 2, 7],
        co: seq![0u8, 1, 2, 0, 0, 2, 1, 0],
        ep: seq![0u8, 1, 9, 3, 4, 5, 10, 7, 8, 6, 2, 11],
        eo: seq![0u8, 0, 0, 0, 0, 0, 0, 0, 0, 0, 0, 0],
    }
}

/// L  (clockwise seen from the left: UFL→DLF→DBL→ULB, UL→FL→DL→BL)
pub fn l_turn() -> (m: FaceMove)
    ensures
        m@ == l_turn_tables(),
{
    let m = FaceMove {
        cp: [0, 5, 1, 3, 4, 6, 2, 7],
        co: [0, 1, 2, 0, 0, 2, 1, 0],
        ep: [0, 1, 9, 3, 4, 5, 10, 7, 8, 6, 2, 11],
        eo: [0;12],
    };
    assert(m@ =~= l_turn_tables());
    m
}

/// The tables of F  (clockwise seen from the front: UFL→URF→DFR→DLF, UF→FR→DF→FL).
pub open spec fn f_turn_tables() -> Tables {
    Tables {
        cp: seq![4u8, 0, 2, 3, 5, 1, 6, 7],
        co: seq![1u8, 2, 0, 0, 2, 1, 0, 0],
        ep: seq![0u8, 8, 2, 3, 4, 9, 6, 7, 5, 1, 10, 11],
        eo: seq![0u8, 1, 0, 0, 0, 1, 0, 0, 1, 1, 0, 0],
    }
}

/// F  (clockwise seen from the front: UFL→URF→DFR→DLF, UF→FR→DF→FL)
pub fn f_turn() -> (m: FaceMove)
    ensures
        m@ == f_turn_tables(),
{
    let m = FaceMove {
        cp: [4, 0, 2, 3, 5, 1, 6, 7],
        co: [1, 2, 0, 0, 2, 1, 0, 0],
        ep: [0, 8, 2, 3, 4, 9, 6, 7, 5, 1, 10, 11],
        eo: [0, 1, 0, 0, 0, 1, 0, 0, 1, 1, 0, 0],
    };
    assert(m@ =~= f_turn_tables());
    m
}

/// The tables of B  (clockwise seen from the back: ULB→DBL→DRB→UBR, UB→BL→DB→BR).
pub open spec fn b_turn_tables() -> Tables {
    Tables {
        cp: seq![0u8, 1, 6, 2, 4, 5, 7, 3],
        co: seq![0u8, 0, 1, 2, 0, 0, 2, 1],
        ep: seq![0u8, 1, 2, 10, 4, 5, 6, 11, 8, 9, 7, 3],
        eo: seq![0u8, 0, 0, 1, 0, 0, 0, 1, 0, 0, 1, 1],
    }
}

/// B  (clockwise seen from the back: ULB→DBL→DRB→UBR, UB→BL→DB→BR)
pub fn b_turn() -> (m: FaceMove)
    ensures
        m@ == b_turn_tables(),
{
    let m = FaceMove {
        cp: [0, 1, 6, 2, 4, 5, 7, 3],
        co: [0, 0, 1, 2, 0, 0, 2, 1],
        ep: [0, 1, 2, 10, 4, 5, 6, 11, 8, 9, 7, 3],
        eo: [0, 0, 0, 1, 0, 0, 0, 1, 0, 0, 1, 1],
    };
    assert(m@ =~= b_turn_tables());
    m
}

/// The tables of M  (middle slice, turning like L: UF→DF→DB→UB, flipping the edges it moves).
pub open spec fn m_slice_tables() -> Tables {
    Tables {
        cp: seq![0u8, 1, 2, 3, 4, 5, 6, 7],
        co: seq![0u8, 0, 0, 0, 0, 0, 0, 0],
        ep: seq![0u8, 5, 2, 1, 4, 7, 6, 3, 8, 9, 10, 11],
        eo: seq![0u8, 1, 0, 1, 0, 1, 0, 1, 0, 0, 0, 0],
    }
}

/// M  (middle slice, turning like L: UF→DF→DB→UB, flipping the edges it moves)
pub fn m_slice() -> (m: FaceMove)
    ensures
        m@ == m_slice_tables(),
{
    let m = FaceMove {
        cp: [0, 1, 2, 3, 4, 5, 6, 7],
        co: [0;8],
        ep: [0, 5, 2, 1, 4, 7, 6, 3, 8, 9, 10, 11],
        eo: [0, 1, 0, 1, 0, 1, 0, 1, 0, 0, 0, 0],
    };
    assert(m@ =~= m_slice_tables());
    m
}

/// The tables of E  (equatorial slice, turning like D: FR→BR→BL→FL, flipping the edges it moves).
pub open spec fn e_slice_tables() -> Tables {
    Tables {
        cp: seq![0u8, 1, 2, 3, 4, 5, 6, 7],
        co: seq![0u8, 0, 0, 0, 0, 0, 0, 0],
        ep: seq![0u8, 1, 2, 3, 4, 5, 6, 7, 11, 8, 9, 10],
        eo: seq![0u8, 0, 0, 0, 0, 0, 0, 0, 1, 1, 1, 1],
    }
}

/// E  (equatorial slice, turning like D: FR→BR→BL→FL, flipping the edges it moves)
pub fn e_slice() -> (m: FaceMove)
    ensures
        m@ == e_slice_tables(),
{
    let m = FaceMove {
        cp: [0, 1, 2, 3, 4, 5, 6, 7],
        co: [0;8],
        ep: [0, 1, 2, 3, 4, 5, 6, 7, 11, 8, 9, 10],
        eo: [0, 0, 0, 0, 0, 0, 0, 0, 1, 1, 1, 1],
    };
    assert(m@ =~= e_slice_tables());
    m
}

/// The tables of S  (standing slice, turning like F: UL→UR→DR→DL, flipping the edges it moves).
pub open spec fn s_slice_tables() -> Tables {
    Tables {
        cp: seq![0u8, 1, 2, 3, 4, 5, 6, 7],
        co: seq![0u8, 0, 0, 0, 0, 0, 0, 0],
        ep: seq![4u8, 1, 0, 3, 6, 5, 2, 7, 8, 9, 10, 11],
        eo: seq![1u8, 0, 1, 0, 1, 0, 1, 0, 0, 0, 0, 0],
    }
}

/// S  (standing slice, turning like F: UL→UR→DR→DL, flipping the edges it moves)
pub fn s_slice() -> (m: FaceMove)
    ensures
        m@ == s_slice_tables(),
{
    let m = FaceMove {
        cp: [0, 1, 2, 3, 4, 5, 6, 7],
        co: [0;8],
        ep: [4, 1, 0, 3, 6, 5, 2, 7, 8, 9, 10, 11],
        eo: [1, 0, 1, 0, 1, 0, 1, 0, 0, 0, 0, 0],
    };
    assert(m@ =~= s_slice_tables());
    m
}

/// The nine basic tables are genuine moves.
pub proof fn lemma_basic_moves_valid()
    ensures
        valid(u_turn_tables()),
        valid(d_turn_tables()),
        valid(r_turn_tables()),
        valid(l_turn_tables()),
        valid(f_turn_tables()),
        valid(b_turn_tables()),
        valid(m_slice_tables()),
        valid(e_slice_tables()),
        valid(s_slice_tables()),
{
    {
        let t = u_turn_tables();
        assert(t.cp[0] == 1 && t.cp[1] == 2 && t.cp[2] == 3 && t.cp[3] == 0 && t.cp[4] == 4 && t.cp[5] == 5 && t.cp[6] == 6 && t.cp[7] == 7);
        assert(t.co[0] == 0 && t.co[1] == 0 && t.co[2] == 0 && t.co[3] == 0 && t.co[4] == 0 && t.co[5] == 0 && t.co[6] == 0 && t.co[7] == 0);
        assert(t.ep[0] == 1 && t.ep[1] == 2 && t.ep[2] == 3 && t.ep[3] == 0 && t.ep[4] == 4 && t.ep[5] == 5 && t.ep[6] == 6 && t.ep[7] == 7 && t.ep[8] == 8 && t.ep[9] == 9 && t.ep[10] == 10 && t.ep[11] == 11);
        assert(t.eo[0] == 0 && t.eo[1] == 0 && t.eo[2] == 0 && t.eo[3] == 0 && t.eo[4] == 0 && t.eo[5] == 0 && t.eo[6] == 0 && t.eo[7] == 0 && t.eo[8] == 0 && t.eo[9] == 0 && t.eo[10] == 0 && t.eo[11] == 0);
        assert(valid(t));
    }
    {
        let t = d_turn_tables();
        assert(t.cp[0] == 0 && t.cp[1] == 1 && t.cp[2] == 2 && t.cp[3] == 3 && t.cp[4] == 7 && t.cp[5] == 4 && t.cp[6] == 5 && t.cp[7] == 6);
        assert(t.co[0] == 0 && t.co[1] == 0 && t.co[2] == 0 && t.co[3] == 0 && t.co[4] == 0 && t.co[5] == 0 && t.co[6] == 0 && t.co[7] == 0);
        assert(t.ep[0] == 0 && t.ep[1] == 1 && t.ep[2] == 2 && t.ep[3] == 3 && t.ep[4] == 7 && t.ep[5] == 4 && t.ep[6] == 5 && t.ep[7] == 6 && t.ep[8] == 8 && t.ep[9] == 9 && t.ep[10] == 10 && t.ep[11] == 11);
        assert(t.eo[0] == 0 && t.eo[1] == 0 && t.eo[2] == 0 && t.eo[3] == 0 && t.eo[4] == 0 && t.eo[5] == 0 && t.eo[6] == 0 && t.eo[7] == 0 && t.eo[8] == 0 && t.eo[9] == 0 && t.eo[10] == 0 && t.eo[11] == 0);
        assert(valid(t));
    }
    {
        let t = r_turn_tables();
        assert(t.cp[0] == 3 && t.cp[1] == 1 && t.cp[2] == 2 && t.cp[3] == 7 && t.cp[4] == 0 && t.cp[5] == 5 && t.cp[6] == 6 && t.cp[7] == 4);
        assert(t.co[0] == 2 && t.co[1] == 0 && t.co[2] == 0 && t.co[3] == 1 && t.co[4] == 1 && t.co[5] == 0 && t.co[6] == 0 && t.co[7] == 2);
        assert(t.ep[0] == 11 && t.ep[1] == 1 && t.ep[2] == 2 && t.ep[3] == 3 && t.ep[4] == 8 && t.ep[5] == 5 && t.ep[6] == 6 && t.ep[7] == 7 && t.ep[8] == 0 && t.ep[9] == 9 && t.ep[10] == 10 && t.ep[11] == 4);
        assert(t.eo[0] == 0 && t.eo[1] == 0 && t.eo[2] == 0 && t.eo[3] == 0 && t.eo[4] == 0 && t.eo[5] == 0 && t.eo[6] == 0 && t.eo[7] == 0 && t.eo[8] == 0 && t.eo[9] == 0 && t.eo[10] == 0 && t.eo[11] == 0);
        assert(valid(t));
    }
    {
        let t = l_turn_tables();
        assert(t.cp[0] == 0 && t.cp[1] == 5 && t.cp[2] == 1 && t.cp[3] == 3 && t.cp[4] == 4 && t.cp[5] == 6 && t.cp[6] == 2 && t.cp[7] == 7);
        assert(t.co[0] == 0 && t.co[1] == 1 && t.co[2] == 2 && t.co[3] == 0 && t.co[4] == 0 && t.co[5] == 2 && t.co[6] == 1 && t.co[7] == 0);
        assert(t.ep[0] == 0 && t.ep[1] == 1 && t.ep[2] == 9 && t.ep[3] == 3 && t.ep[4] == 4 && t.ep[5] == 5 && t.ep[6] == 10 && t.ep[7] == 7 && t.ep[8] == 8 && t.ep[9] == 6 && t.ep[10] == 2 && t.ep[11] == 11);
        assert(t.eo[0] == 0 && t.eo[1] == 0 && t.eo[2] == 0 && t.eo[3] == 0 && t.eo[4] == 0 && t.eo[5] == 0 && t.eo[6] == 0 && t.eo[7] == 0 && t.eo[8] == 0 && t.eo[9] == 0 && t.eo[10] == 0 && t.eo[11] == 0);
        assert(valid(t));
    }
    {
        let t = f_turn_tables();
        assert(t.cp[0] == 4 && t.cp[1] == 0 && t.cp[2] == 2 && t.cp[3] == 3 && t.cp[4] == 5 && t.cp[5] == 1 && t.cp[6] == 6 && t.cp[7] == 7);
        assert(t.co[0] == 1 && t.co[1] == 2 && t.co[2] == 0 && t.co[3] == 0 && t.co[4] == 2 && t.co[5] == 1 && t.co[6] == 0 && t.co[7] == 0);
        assert(t.ep[0] == 0 && t.ep[1] == 8 && t.ep[2] == 2 && t.ep[3] == 3 && t.ep[4] == 4 && t.ep[5] == 9 && t.ep[6] == 6 && t.ep[7] == 7 && t.ep[8] == 5 && t.ep[9] == 1 && t.ep[10] == 10 && t.ep[11] == 11);
        assert(t.eo[0] == 0 && t.eo[1] == 1 && t.eo[2] == 0 && t.eo[3] == 0 && t.eo[4] == 0 && t.eo[5] == 1 && t.eo[6] == 0 && t.eo[7] == 0 && t.eo[8] == 1 && t.eo[9] == 1 && t.eo[10] == 0 && t.eo[11] == 0);
        assert(valid(t));
    }
    {
        let t = b_turn_tables();
        assert(t.cp[0] == 0 && t.cp[1] == 1 && t.cp[2] == 6 && t.cp[3] == 2 && t.cp[4] == 4 && t.cp[5] == 5 && t.cp[6] == 7 && t.cp[7] == 3);
        assert(t.co[0] == 0 && t.co[1] == 0 && t.co[2] == 1 && t.co[3] == 2 && t.co[4] == 0 && t.co[5] == 0 && t.co[6] == 2 && t.co[7] == 1);
        assert(t.ep[0] == 0 && t.ep[1] == 1 && t.ep[2] == 2 && t.ep[3] == 10 && t.ep[4] == 4 && t.ep[5] == 5 && t.ep[6] == 6 && t.ep[7] == 11 && t.ep[8] == 8 && t.ep[9] == 9 && t.ep[10] == 7 && t.ep[11] == 3);
        assert(t.eo[0] == 0 && t.eo[1] == 0 && t.eo[2] == 0 && t.eo[3] == 1 && t.eo[4] == 0 && t.eo[5] == 0 && t.eo[6] == 0 && t.eo[7] == 1 && t.eo[8] == 0 && t.eo[9] == 0 && t.eo[10] == 1 && t.eo[11] == 1);
        assert(valid(t));
    }
    {
        let t = m_slice_tables();
        assert(t.cp[0] == 0 && t.cp[1] == 1 && t.cp[2] == 2 && t.cp[3] == 3 && t.cp[4] == 4 && t.cp[5] == 5 && t.cp[6] == 6 && t.cp[7] == 7);
        assert(t.co[0] == 0 && t.co[1] == 0 && t.co[2] == 0 && t.co[3] == 0 && t.co[4] == 0 && t.co[5] == 0 && t.co[6] == 0 && t.co[7] == 0);
        assert(t.ep[0] == 0 && t.ep[1] == 5 && t.ep[2] == 2 && t.ep[3] == 1 && t.ep[4] == 4 && t.ep[5] == 7 && t.ep[6] == 6 && t.ep[7] == 3 && t.ep[8] == 8 && t.ep[9] == 9 && t.ep[10] == 10 && t.ep[11] == 11);
        assert(t.eo[0] == 0 && t.eo[1] == 1 && t.eo[2] == 0 && t.eo[3] == 1 && t.eo[4] == 0 && t.eo[5] == 1 && t.eo[6] == 0 && t.eo[7] == 1 && t.eo[8] == 0 && t.eo[9] == 0 && t.eo[10] == 0 && t.eo[11] == 0);
        assert(valid(t));
    }
    {
        let t = e_slice_tables();
        assert(t.cp[0] == 0 && t.cp[1] == 1 && t.cp[2] == 2 && t.cp[3] == 3 && t.cp[4] == 4 && t.cp[5] == 5 && t.cp[6] == 6 && t.cp[7] == 7);
        assert(t.co[0] == 0 && t.co[1] == 0 && t.co[2] == 0 && t.co[3] == 0 && t.co[4] == 0 && t.co[5] == 0 && t.co[6] == 0 && t.co[7] == 0);
        assert(t.ep[0] == 0 && t.ep[1] == 1 && t.ep[2] == 2 && t.ep[3] == 3 && t.ep[4] == 4 && t.ep[5] == 5 && t.ep[6] == 6 && t.ep[7] == 7 && t.ep[8] == 11 && t.ep[9] == 8 && t.ep[10] == 9 && t.ep[11] == 10);
        assert(t.eo[0] == 0 && t.eo[1] == 0 && t.eo[2] == 0 && t.eo[3] == 0 && t.eo[4] == 0 && t.eo[5] == 0 && t.eo[6] == 0 && t.eo[7] == 0 && t.eo[8] == 1 && t.eo[9] == 1 && t.eo[10] == 1 && t.eo[11] == 1);
        assert(valid(t));
    }
    {
        let t = s_slice_tables();
        assert(t.cp[0] == 0 && t.cp[1] == 1 && t.cp[2] == 2 && t.cp[3] == 3 && t.cp[4] == 4 && t.cp[5] == 5 && t.cp[6] == 6 && t.cp[7] == 7);
        assert(t.co[0] == 0 && t.co[1] == 0 && t.co[2] == 0 && t.co[3] == 0 && t.co[4] == 0 && t.co[5] == 0 && t.co[6] == 0 && t.co[7] == 0);
        assert(t.ep[0] == 4 && t.ep[1] == 1 && t.ep[2] == 0 && t.ep[3] == 3 && t.ep[4] == 6 && t.ep[5] == 5 && t.ep[6] == 2 && t.ep[7] == 7 && t.ep[8] == 8 && t.ep[9] == 9 && t.ep[10] == 10 && t.ep[11] == 11);
        assert(t.eo[0] == 1 && t.eo[1] == 0 && t.eo[2] == 1 && t.eo[3] == 0 && t.eo[4] == 1 && t.eo[5] == 0 && t.eo[6] == 1 && t.eo[7] == 0 && t.eo[8] == 0 && t.eo[9] == 0 && t.eo[10] == 0 && t.eo[11] == 0);
        assert(valid(t));
    }
}

} // verus!
