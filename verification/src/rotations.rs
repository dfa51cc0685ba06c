//! The 24 whole-cube rotations written out, and the facts about them that
//! the classification laws need: the rotations `cube_rotations` finds are
//! exactly these, and only the identity among them keeps the first two
//! layers in place.
use vstd::prelude::*;

use crate::laws::{lemma_inverse_unique, lemma_x_literal, lemma_y_literal, lemma_z_literal, x_literal, y_literal, z_literal};
use crate::laws::law_apply_valid;
use crate::lemmas::{lemma_apply_at, lemma_inverse_at, lemma_onto, lemma_then_valid};
use crate::model::{apply_tables, identity_tables, inverse_tables, iota, then_tables, valid, Tables};
use crate::moves::{
    closure_state, derived_from_earlier, holds_tables, lemma_rotations_valid, x_rotation_tables,
    y_rotation_tables, z_rotation_tables, FaceMove,
};
use vstd::set_lib::{lemma_int_range, set_int_range};

verus! {

/// Rotation number `k` of the 24; number 0 is the identity, numbers 1 to 6
/// are x, x', y, y', z, z'.
#[verifier::opaque]
pub open spec fn rotation_table(k: int) -> Tables {
    if k == 0 {
        Tables { cp: seq![0u8, 1, 2, 3, 4, 5, 6, 7], co: seq![0u8, 0, 0, 0, 0, 0, 0, 0], ep: seq![0u8, 1, 2, 3, 4, 5, 6, 7, 8, 9, 10, 11], eo: seq![0u8, 0, 0, 0, 0, 0, 0, 0, 0, 0, 0, 0] }
    } else if k == 1 {
        Tables { cp: seq![3u8, 2, 6, 7, 0, 1, 5, 4], co: seq![2u8, 1, 2, 1, 1, 2, 1, 2], ep: seq![11u8, 3, 10, 7, 8, 1, 9, 5, 0, 2, 6, 4], eo: seq![0u8, 1, 0, 1, 0, 1, 0, 1, 0, 0, 0, 0] }
    } else if k == 2 {
        Tables { cp: seq![4u8, 5, 1, 0, 7, 6, 2, 3], co: seq![2u8, 1, 2, 1, 1, 2, 1, 2], ep: seq![8u8, 5, 9, 1, 11, 7, 10, 3, 4, 6, 2, 0], eo: seq![0u8, 1, 0, 1, 0, 1, 0, 1, 0, 0, 0, 0] }
    } else if k == 3 {
        Tables { cp: seq![1u8, 2, 3, 0, 5, 6, 7, 4], co: seq![0u8, 0, 0, 0, 0, 0, 0, 0], ep: seq![1u8, 2, 3, 0, 5, 6, 7, 4, 9, 10, 11, 8], eo: seq![0u8, 0, 0, 0, 0, 0, 0, 0, 1, 1, 1, 1] }
    } else if k == 4 {
        Tables { cp: seq![3u8, 0, 1, 2, 7, 4, 5, 6], co: seq![0u8, 0, 0, 0, 0, 0, 0, 0], ep: seq![3u8, 0, 1, 2, 7, 4, 5, 6, 11, 8, 9, 10], eo: seq![0u8, 0, 0, 0, 0, 0, 0, 0, 1, 1, 1, 1] }
    } else if k == 5 {
        Tables { cp: seq![4u8, 0, 3, 7, 5, 1, 2, 6], co: seq![1u8, 2, 1, 2, 2, 1, 2, 1], ep: seq![4u8, 8, 0, 11, 6, 9, 2, 10, 5, 1, 3, 7], eo: seq![1u8, 1, 1, 1, 1, 1, 1, 1, 1, 1, 1, 1] }
    } else if k == 6 {
        Tables { cp: seq![1u8, 5, 6, 2, 0, 4, 7, 3], co: seq![1u8, 2, 1, 2, 2, 1, 2, 1], ep: seq![2u8, 9, 6, 10, 0, 8, 4, 11, 1, 5, 7, 3], eo: seq![1u8, 1, 1, 1, 1, 1, 1, 1, 1, 1, 1, 1] }
    } else if k == 7 {
        Tables { cp: seq![7u8, 6, 5, 4, 3, 2, 1, 0], co: seq![0u8, 0, 0, 0, 0, 0, 0, 0], ep: seq![4u8, 7, 6, 5, 0, 3, 2, 1, 11, 10, 9, 8], eo: seq![0u8, 0, 0, 0, 0, 0, 0, 0, 0, 0, 0, 0] }
    } else if k == 8 {
        Tables { cp: seq![0u8, 3, 7, 4, 1, 2, 6, 5], co: seq![2u8, 1, 2, 1, 1, 2, 1, 2], ep: seq![8u8, 0, 11, 4, 9, 2, 10, 6, 1, 3, 7, 5], eo: seq![1u8, 1, 1, 1, 1, 1, 1, 1, 0, 0, 0, 0] }
    } else if k == 9 {
        Tables { cp: seq![2u8, 1, 5, 6, 3, 0, 4, 7], co: seq![2u8, 1, 2, 1, 1, 2, 1, 2], ep: seq![10u8, 2, 9, 6, 11, 0, 8, 4, 3, 1, 5, 7], eo: seq![1u8, 1, 1, 1, 1, 1, 1, 1, 0, 0, 0, 0] }
    } else if k == 10 {
        Tables { cp: seq![7u8, 3, 2, 6, 4, 0, 1, 5], co: seq![1u8, 2, 1, 2, 2, 1, 2, 1], ep: seq![7u8, 11, 3, 10, 5, 8, 1, 9, 4, 0, 2, 6], eo: seq![1u8, 0, 1, 0, 1, 0, 1, 0, 1, 1, 1, 1] }
    } else if k == 11 {
        Tables { cp: seq![2u8, 6, 7, 3, 1, 5, 4, 0], co: seq![1u8, 2, 1, 2, 2, 1, 2, 1], ep: seq![3u8, 10, 7, 11, 1, 9, 5, 8, 2, 6, 4, 0], eo: seq![1u8, 0, 1, 0, 1, 0, 1, 0, 1, 1, 1, 1] }
    } else if k == 12 {
        Tables { cp: seq![5u8, 6, 2, 1, 4, 7, 3, 0], co: seq![2u8, 1, 2, 1, 1, 2, 1, 2], ep: seq![9u8, 6, 10, 2, 8, 4, 11, 0, 5, 7, 3, 1], eo: seq![1u8, 1, 1, 1, 1, 1, 1, 1, 0, 0, 0, 0] }
    } else if k == 13 {
        Tables { cp: seq![7u8, 4, 0, 3, 6, 5, 1, 2], co: seq![2u8, 1, 2, 1, 1, 2, 1, 2], ep: seq![11u8, 4, 8, 0, 10, 6, 9, 2, 7, 5, 1, 3], eo: seq![1u8, 1, 1, 1, 1, 1, 1, 1, 0, 0, 0, 0] }
    } else if k == 14 {
        Tables { cp: seq![5u8, 1, 0, 4, 6, 2, 3, 7], co: seq![1u8, 2, 1, 2, 2, 1, 2, 1], ep: seq![5u8, 9, 1, 8, 7, 10, 3, 11, 6, 2, 0, 4], eo: seq![1u8, 0, 1, 0, 1, 0, 1, 0, 1, 1, 1, 1] }
    } else if k == 15 {
        Tables { cp: seq![0u8, 4, 5, 1, 3, 7, 6, 2], co: seq![1u8, 2, 1, 2, 2, 1, 2, 1], ep: seq![1u8, 8, 5, 9, 3, 11, 7, 10, 0, 4, 6, 2], eo: seq![1u8, 0, 1, 0, 1, 0, 1, 0, 1, 1, 1, 1] }
    } else if k == 16 {
        Tables { cp: seq![2u8, 3, 0, 1, 6, 7, 4, 5], co: seq![0u8, 0, 0, 0, 0, 0, 0, 0], ep: seq![2u8, 3, 0, 1, 6, 7, 4, 5, 10, 11, 8, 9], eo: seq![0u8, 0, 0, 0, 0, 0, 0, 0, 0, 0, 0, 0] }
    } else if k == 17 {
        Tables { cp: seq![5u8, 4, 7, 6, 1, 0, 3, 2], co: seq![0u8, 0, 0, 0, 0, 0, 0, 0], ep: seq![6u8, 5, 4, 7, 2, 1, 0, 3, 9, 8, 11, 10], eo: seq![0u8, 0, 0, 0, 0, 0, 0, 0, 0, 0, 0, 0] }
    } else if k == 18 {
        Tables { cp: seq![4u8, 7, 6, 5, 0, 3, 2, 1], co: seq![0u8, 0, 0, 0, 0, 0, 0, 0], ep: seq![5u8, 4, 7, 6, 1, 0, 3, 2, 8, 11, 10, 9], eo: seq![0u8, 0, 0, 0, 0, 0, 0, 0, 1, 1, 1, 1] }
    } else if k == 19 {
        Tables { cp: seq![6u8, 5, 4, 7, 2, 1, 0, 3], co: seq![0u8, 0, 0, 0, 0, 0, 0, 0], ep: seq![7u8, 6, 5, 4, 3, 2, 1, 0, 10, 9, 8, 11], eo: seq![0u8, 0, 0, 0, 0, 0, 0, 0, 1, 1, 1, 1] }
    } else if k == 20 {
        Tables { cp: seq![6u8, 2, 1, 5, 7, 3, 0, 4], co: seq![1u8, 2, 1, 2, 2, 1, 2, 1], ep: seq![6u8, 10, 2, 9, 4, 11, 0, 8, 7, 3, 1, 5], eo: seq![1u8, 1, 1, 1, 1, 1, 1, 1, 1, 1, 1, 1] }
    } else if k == 21 {
        Tables { cp: seq![3u8, 7, 4, 0, 2, 6, 5, 1], co: seq![1u8, 2, 1, 2, 2, 1, 2, 1], ep: seq![0u8, 11, 4, 8, 2, 10, 6, 9, 3, 7, 5, 1], eo: seq![1u8, 1, 1, 1, 1, 1, 1, 1, 1, 1, 1, 1] }
    } else if k == 22 {
        Tables { cp: seq![1u8, 0, 4, 5, 2, 3, 7, 6], co: seq![2u8, 1, 2, 1, 1, 2, 1, 2], ep: seq![9u8, 1, 8, 5, 10, 3, 11, 7, 2, 0, 4, 6], eo: seq![0u8, 1, 0, 1, 0, 1, 0, 1, 0, 0, 0, 0] }
    } else {
        Tables { cp: seq![6u8, 7, 3, 2, 5, 4, 0, 1], co: seq![2u8, 1, 2, 1, 1, 2, 1, 2], ep: seq![10u8, 7, 11, 3, 9, 5, 8, 1, 6, 4, 0, 2], eo: seq![0u8, 1, 0, 1, 0, 1, 0, 1, 0, 0, 0, 0] }
    }
}

/// Generator `g`: x, x', y, y', z, z' for `g` from 0 to 5.
pub open spec fn gen_table(g: int) -> Tables {
    rotation_table(g + 1)
}

/// `t` is one of the 24 whole-cube rotations.
pub open spec fn is_cube_rotation(t: Tables) -> bool {
    exists|k: int| 0 <= k < 24 && #[trigger] rotation_table(k) == t
}

/// `succ_table()[k][g]`: rotation `k` followed by generator `g` (x, x', y,
/// y', z, z' in turn) is rotation `succ_table()[k][g]`.
spec fn succ_table() -> Seq<Seq<int>> {
    seq![seq![1, 2, 3, 4, 5, 6], seq![7, 0, 8, 9, 10, 11], seq![0, 7, 12, 13, 14, 15], seq![11, 14, 16, 0, 8, 12], seq![10, 15, 0, 16, 13, 9], seq![8, 13, 14, 10, 17, 0], seq![9, 12, 11, 15, 0, 17], seq![2, 1, 18, 19, 20, 21], seq![21, 5, 22, 1, 18, 3], seq![20, 6, 1, 22, 4, 19], seq![18, 4, 5, 20, 23, 1], seq![19, 3, 21, 6, 1, 23], seq![6, 20, 23, 2, 3, 18], seq![5, 21, 2, 23, 19, 4], seq![3, 19, 20, 5, 22, 2], seq![4, 18, 6, 21, 2, 22], seq![23, 22, 4, 3, 21, 20], seq![22, 23, 19, 18, 6, 5], seq![15, 10, 17, 7, 12, 8], seq![14, 11, 7, 17, 9, 13], seq![12, 9, 10, 14, 16, 7], seq![13, 8, 15, 11, 7, 16], seq![16, 17, 9, 8, 15, 14], seq![17, 16, 13, 12, 11, 10]]
}

/// The rotation that undoes rotation `k`.
spec fn inverse_index() -> Seq<int> {
    seq![0, 2, 1, 4, 3, 6, 5, 7, 15, 14, 12, 13, 10, 11, 9, 8, 16, 17, 18, 19, 20, 21, 22, 23]
}

/// Where rotation `k` was first reached from: rotation `parent_index()[k]`
/// followed by generator `parent_gen()[k]`.
spec fn parent_index() -> Seq<int> {
    seq![0, 0, 0, 0, 0, 0, 0, 1, 1, 1, 1, 1, 2, 2, 2, 2, 3, 5, 7, 7, 7, 7, 8, 10]
}

spec fn parent_gen() -> Seq<int> {
    seq![0, 0, 1, 2, 3, 4, 5, 0, 2, 3, 4, 5, 2, 3, 4, 5, 2, 4, 2, 3, 4, 5, 2, 4]
}

/// The rotation with `cp[0] * 8 + cp[1] == c`, or -1.
spec fn index_by_front() -> Seq<int> {
    seq![-1, 0, -1, 8, 15, -1, -1, -1, 22, -1, 3, -1, -1, 6, -1, -1, -1, 9, -1, 16, -1, -1, 11, -1, 4, -1, 1, -1, -1, -1, -1, 21, 5, -1, -1, -1, -1, 2, -1, 18, -1, 14, -1, -1, 17, -1, 12, -1, -1, -1, 20, -1, -1, 19, -1, 23, -1, -1, -1, 10, 13, -1, 7, -1]
}

/// The rotation whose inverse has `cp[4] * 8 + cp[5] == c`, or -1.
spec fn index_by_bottom() -> Seq<int> {
    seq![-1, 2, -1, 18, 5, -1, -1, -1, 17, -1, 15, -1, -1, 13, -1, -1, -1, 19, -1, 22, -1, -1, 21, -1, 14, -1, 7, -1, -1, -1, -1, 8, 12, -1, -1, -1, -1, 0, -1, 10, -1, 6, -1, -1, 23, -1, 4, -1, -1, -1, 9, -1, -1, 11, -1, 16, -1, -1, -1, 20, 3, -1, 1, -1]
}

#[verifier::spinoff_prover]
proof fn lemma_rotation_0()
    ensures
        forall|g: int|
            0 <= g < 6 ==> #[trigger] then_tables(rotation_table(0), gen_table(g)) == rotation_table(
                succ_table()[0][g],
            ),
        then_tables(rotation_table(0), rotation_table(inverse_index()[0])) == identity_tables(),
        index_by_front()[rotation_table(0).cp[0] * 8 + rotation_table(0).cp[1]] == 0,
        index_by_bottom()[rotation_table(inverse_index()[0]).cp[4] * 8 + rotation_table(
            inverse_index()[0],
        ).cp[5]] == 0,
        crate::cube::f2l_solved_spec(rotation_table(0)) ==> rotation_table(0) == identity_tables(),
{
    reveal(rotation_table);
    assert forall|g: int|
        0 <= g < 6 implies #[trigger] then_tables(rotation_table(0), gen_table(g)) == rotation_table(
        succ_table()[0][g],
    ) by {
        if g == 0 {
            assert(then_tables(rotation_table(0), gen_table(0)) =~= rotation_table(1));
        } else if g == 1 {
            assert(then_tables(rotation_table(0), gen_table(1)) =~= rotation_table(2));
        } else if g == 2 {
            assert(then_tables(rotation_table(0), gen_table(2)) =~= rotation_table(3));
        } else if g == 3 {
            assert(then_tables(rotation_table(0), gen_table(3)) =~= rotation_table(4));
        } else if g == 4 {
            assert(then_tables(rotation_table(0), gen_table(4)) =~= rotation_table(5));
        } else if g == 5 {
            assert(then_tables(rotation_table(0), gen_table(5)) =~= rotation_table(6));
        }
    }
    assert(then_tables(rotation_table(0), rotation_table(0)) =~= identity_tables());
    if crate::cube::f2l_solved_spec(rotation_table(0)) {
        assert(rotation_table(0) =~= identity_tables());
    }
}

#[verifier::spinoff_prover]
proof fn lemma_rotation_1()
    ensures
        forall|g: int|
            0 <= g < 6 ==> #[trigger] then_tables(rotation_table(1), gen_table(g)) == rotation_table(
                succ_table()[1][g],
            ),
        then_tables(rotation_table(1), rotation_table(inverse_index()[1])) == identity_tables(),
        index_by_front()[rotation_table(1).cp[0] * 8 + rotation_table(1).cp[1]] == 1,
        index_by_bottom()[rotation_table(inverse_index()[1]).cp[4] * 8 + rotation_table(
            inverse_index()[1],
        ).cp[5]] == 1,
        crate::cube::f2l_solved_spec(rotation_table(1)) ==> rotation_table(1) == identity_tables(),
{
    reveal(rotation_table);
    assert forall|g: int|
        0 <= g < 6 implies #[trigger] then_tables(rotation_table(1), gen_table(g)) == rotation_table(
        succ_table()[1][g],
    ) by {
        if g == 0 {
            assert(then_tables(rotation_table(1), gen_table(0)) =~= rotation_table(7));
        } else if g == 1 {
            assert(then_tables(rotation_table(1), gen_table(1)) =~= rotation_table(0));
        } else if g == 2 {
            assert(then_tables(rotation_table(1), gen_table(2)) =~= rotation_table(8));
        } else if g == 3 {
            assert(then_tables(rotation_table(1), gen_table(3)) =~= rotation_table(9));
        } else if g == 4 {
            assert(then_tables(rotation_table(1), gen_table(4)) =~= rotation_table(10));
        } else if g == 5 {
            assert(then_tables(rotation_table(1), gen_table(5)) =~= rotation_table(11));
        }
    }
    assert(then_tables(rotation_table(1), rotation_table(2)) =~= identity_tables());
    if crate::cube::f2l_solved_spec(rotation_table(1)) {
        assert(!crate::cube::corner_home(rotation_table(1), 4));
    }
}

#[verifier::spinoff_prover]
proof fn lemma_rotation_2()
    ensures
        forall|g: int|
            0 <= g < 6 ==> #[trigger] then_tables(rotation_table(2), gen_table(g)) == rotation_table(
                succ_table()[2][g],
            ),
        then_tables(rotation_table(2), rotation_table(inverse_index()[2])) == identity_tables(),
        index_by_front()[rotation_table(2).cp[0] * 8 + rotation_table(2).cp[1]] == 2,
        index_by_bottom()[rotation_table(inverse_index()[2]).cp[4] * 8 + rotation_table(
            inverse_index()[2],
        ).cp[5]] == 2,
        crate::cube::f2l_solved_spec(rotation_table(2)) ==> rotation_table(2) == identity_tables(),
{
    reveal(rotation_table);
    assert forall|g: int|
        0 <= g < 6 implies #[trigger] then_tables(rotation_table(2), gen_table(g)) == rotation_table(
        succ_table()[2][g],
    ) by {
        if g == 0 {
            assert(then_tables(rotation_table(2), gen_table(0)) =~= rotation_table(0));
        } else if g == 1 {
            assert(then_tables(rotation_table(2), gen_table(1)) =~= rotation_table(7));
        } else if g == 2 {
            assert(then_tables(rotation_table(2), gen_table(2)) =~= rotation_table(12));
        } else if g == 3 {
            assert(then_tables(rotation_table(2), gen_table(3)) =~= rotation_table(13));
        } else if g == 4 {
            assert(then_tables(rotation_table(2), gen_table(4)) =~= rotation_table(14));
        } else if g == 5 {
            assert(then_tables(rotation_table(2), gen_table(5)) =~= rotation_table(15));
        }
    }
    assert(then_tables(rotation_table(2), rotation_table(1)) =~= identity_tables());
    if crate::cube::f2l_solved_spec(rotation_table(2)) {
        assert(!crate::cube::corner_home(rotation_table(2), 4));
    }
}

#[verifier::spinoff_prover]
proof fn lemma_rotation_3()
    ensures
        forall|g: int|
            0 <= g < 6 ==> #[trigger] then_tables(rotation_table(3), gen_table(g)) == rotation_table(
                succ_table()[3][g],
            ),
        then_tables(rotation_table(3), rotation_table(inverse_index()[3])) == identity_tables(),
        index_by_front()[rotation_table(3).cp[0] * 8 + rotation_table(3).cp[1]] == 3,
        index_by_bottom()[rotation_table(inverse_index()[3]).cp[4] * 8 + rotation_table(
            inverse_index()[3],
        ).cp[5]] == 3,
        crate::cube::f2l_solved_spec(rotation_table(3)) ==> rotation_table(3) == identity_tables(),
{
    reveal(rotation_table);
    assert forall|g: int|
        0 <= g < 6 implies #[trigger] then_tables(rotation_table(3), gen_table(g)) == rotation_table(
        succ_table()[3][g],
    ) by {
        if g == 0 {
            assert(then_tables(rotation_table(3), gen_table(0)) =~= rotation_table(11));
        } else if g == 1 {
            assert(then_tables(rotation_table(3), gen_table(1)) =~= rotation_table(14));
        } else if g == 2 {
            assert(then_tables(rotation_table(3), gen_table(2)) =~= rotation_table(16));
        } else if g == 3 {
            assert(then_tables(rotation_table(3), gen_table(3)) =~= rotation_table(0));
        } else if g == 4 {
            assert(then_tables(rotation_table(3), gen_table(4)) =~= rotation_table(8));
        } else if g == 5 {
            assert(then_tables(rotation_table(3), gen_table(5)) =~= rotation_table(12));
        }
    }
    assert(then_tables(rotation_table(3), rotation_table(4)) =~= identity_tables());
    if crate::cube::f2l_solved_spec(rotation_table(3)) {
        assert(!crate::cube::corner_home(rotation_table(3), 4));
    }
}

#[verifier::spinoff_prover]
proof fn lemma_rotation_4()
    ensures
        forall|g: int|
            0 <= g < 6 ==> #[trigger] then_tables(rotation_table(4), gen_table(g)) == rotation_table(
                succ_table()[4][g],
            ),
        then_tables(rotation_table(4), rotation_table(inverse_index()[4])) == identity_tables(),
        index_by_front()[rotation_table(4).cp[0] * 8 + rotation_table(4).cp[1]] == 4,
        index_by_bottom()[rotation_table(inverse_index()[4]).cp[4] * 8 + rotation_table(
            inverse_index()[4],
        ).cp[5]] == 4,
        crate::cube::f2l_solved_spec(rotation_table(4)) ==> rotation_table(4) == identity_tables(),
{
    reveal(rotation_table);
    assert forall|g: int|
        0 <= g < 6 implies #[trigger] then_tables(rotation_table(4), gen_table(g)) == rotation_table(
        succ_table()[4][g],
    ) by {
        if g == 0 {
            assert(then_tables(rotation_table(4), gen_table(0)) =~= rotation_table(10));
        } else if g == 1 {
            assert(then_tables(rotation_table(4), gen_table(1)) =~= rotation_table(15));
        } else if g == 2 {
            assert(then_tables(rotation_table(4), gen_table(2)) =~= rotation_table(0));
        } else if g == 3 {
            assert(then_tables(rotation_table(4), gen_table(3)) =~= rotation_table(16));
        } else if g == 4 {
            assert(then_tables(rotation_table(4), gen_table(4)) =~= rotation_table(13));
        } else if g == 5 {
            assert(then_tables(rotation_table(4), gen_table(5)) =~= rotation_table(9));
        }
    }
    assert(then_tables(rotation_table(4), rotation_table(3)) =~= identity_tables());
    if crate::cube::f2l_solved_spec(rotation_table(4)) {
        assert(!crate::cube::corner_home(rotation_table(4), 4));
    }
}

#[verifier::spinoff_prover]
proof fn lemma_rotation_5()
    ensures
        forall|g: int|
            0 <= g < 6 ==> #[trigger] then_tables(rotation_table(5), gen_table(g)) == rotation_table(
                succ_table()[5][g],
            ),
        then_tables(rotation_table(5), rotation_table(inverse_index()[5])) == identity_tables(),
        index_by_front()[rotation_table(5).cp[0] * 8 + rotation_table(5).cp[1]] == 5,
        index_by_bottom()[rotation_table(inverse_index()[5]).cp[4] * 8 + rotation_table(
            inverse_index()[5],
        ).cp[5]] == 5,
        crate::cube::f2l_solved_spec(rotation_table(5)) ==> rotation_table(5) == identity_tables(),
{
    reveal(rotation_table);
    assert forall|g: int|
        0 <= g < 6 implies #[trigger] then_tables(rotation_table(5), gen_table(g)) == rotation_table(
        succ_table()[5][g],
    ) by {
        if g == 0 {
            assert(then_tables(rotation_table(5), gen_table(0)) =~= rotation_table(8));
        } else if g == 1 {
            assert(then_tables(rotation_table(5), gen_table(1)) =~= rotation_table(13));
        } else if g == 2 {
            assert(then_tables(rotation_table(5), gen_table(2)) =~= rotation_table(14));
        } else if g == 3 {
            assert(then_tables(rotation_table(5), gen_table(3)) =~= rotation_table(10));
        } else if g == 4 {
            assert(then_tables(rotation_table(5), gen_table(4)) =~= rotation_table(17));
        } else if g == 5 {
            assert(then_tables(rotation_table(5), gen_table(5)) =~= rotation_table(0));
        }
    }
    assert(then_tables(rotation_table(5), rotation_table(6)) =~= identity_tables());
    if crate::cube::f2l_solved_spec(rotation_table(5)) {
        assert(!crate::cube::corner_home(rotation_table(5), 4));
    }
}

#[verifier::spinoff_prover]
proof fn lemma_rotation_6()
    ensures
        forall|g: int|
            0 <= g < 6 ==> #[trigger] then_tables(rotation_table(6), gen_table(g)) == rotation_table(
                succ_table()[6][g],
            ),
        then_tables(rotation_table(6), rotation_table(inverse_index()[6])) == identity_tables(),
        index_by_front()[rotation_table(6).cp[0] * 8 + rotation_table(6).cp[1]] == 6,
        index_by_bottom()[rotation_table(inverse_index()[6]).cp[4] * 8 + rotation_table(
            inverse_index()[6],
        ).cp[5]] == 6,
        crate::cube::f2l_solved_spec(rotation_table(6)) ==> rotation_table(6) == identity_tables(),
{
    reveal(rotation_table);
    assert forall|g: int|
        0 <= g < 6 implies #[trigger] then_tables(rotation_table(6), gen_table(g)) == rotation_table(
        succ_table()[6][g],
    ) by {
        if g == 0 {
            assert(then_tables(rotation_table(6), gen_table(0)) =~= rotation_table(9));
        } else if g == 1 {
            assert(then_tables(rotation_table(6), gen_table(1)) =~= rotation_table(12));
        } else if g == 2 {
            assert(then_tables(rotation_table(6), gen_table(2)) =~= rotation_table(11));
        } else if g == 3 {
            assert(then_tables(rotation_table(6), gen_table(3)) =~= rotation_table(15));
        } else if g == 4 {
            assert(then_tables(rotation_table(6), gen_table(4)) =~= rotation_table(0));
        } else if g == 5 {
            assert(then_tables(rotation_table(6), gen_table(5)) =~= rotation_table(17));
        }
    }
    assert(then_tables(rotation_table(6), rotation_table(5)) =~= identity_tables());
    if crate::cube::f2l_solved_spec(rotation_table(6)) {
        assert(!crate::cube::corner_home(rotation_table(6), 4));
    }
}

#[verifier::spinoff_prover]
proof fn lemma_rotation_7()
    ensures
        forall|g: int|
            0 <= g < 6 ==> #[trigger] then_tables(rotation_table(7), gen_table(g)) == rotation_table(
                succ_table()[7][g],
            ),
        then_tables(rotation_table(7), rotation_table(inverse_index()[7])) == identity_tables(),
        index_by_front()[rotation_table(7).cp[0] * 8 + rotation_table(7).cp[1]] == 7,
        index_by_bottom()[rotation_table(inverse_index()[7]).cp[4] * 8 + rotation_table(
            inverse_index()[7],
        ).cp[5]] == 7,
        crate::cube::f2l_solved_spec(rotation_table(7)) ==> rotation_table(7) == identity_tables(),
{
    reveal(rotation_table);
    assert forall|g: int|
        0 <= g < 6 implies #[trigger] then_tables(rotation_table(7), gen_table(g)) == rotation_table(
        succ_table()[7][g],
    ) by {
        if g == 0 {
            assert(then_tables(rotation_table(7), gen_table(0)) =~= rotation_table(2));
        } else if g == 1 {
            assert(then_tables(rotation_table(7), gen_table(1)) =~= rotation_table(1));
        } else if g == 2 {
            assert(then_tables(rotation_table(7), gen_table(2)) =~= rotation_table(18));
        } else if g == 3 {
            assert(then_tables(rotation_table(7), gen_table(3)) =~= rotation_table(19));
        } else if g == 4 {
            assert(then_tables(rotation_table(7), gen_table(4)) =~= rotation_table(20));
        } else if g == 5 {
            assert(then_tables(rotation_table(7), gen_table(5)) =~= rotation_table(21));
        }
    }
    assert(then_tables(rotation_table(7), rotation_table(7)) =~= identity_tables());
    if crate::cube::f2l_solved_spec(rotation_table(7)) {
        assert(!crate::cube::corner_home(rotation_table(7), 4));
    }
}

#[verifier::spinoff_prover]
proof fn lemma_rotation_8()
    ensures
        forall|g: int|
            0 <= g < 6 ==> #[trigger] then_tables(rotation_table(8), gen_table(g)) == rotation_table(
                succ_table()[8][g],
            ),
        then_tables(rotation_table(8), rotation_table(inverse_index()[8])) == identity_tables(),
        index_by_front()[rotation_table(8).cp[0] * 8 + rotation_table(8).cp[1]] == 8,
        index_by_bottom()[rotation_table(inverse_index()[8]).cp[4] * 8 + rotation_table(
            inverse_index()[8],
        ).cp[5]] == 8,
        crate::cube::f2l_solved_spec(rotation_table(8)) ==> rotation_table(8) == identity_tables(),
{
    reveal(rotation_table);
    assert forall|g: int|
        0 <= g < 6 implies #[trigger] then_tables(rotation_table(8), gen_table(g)) == rotation_table(
        succ_table()[8][g],
    ) by {
        if g == 0 {
            assert(then_tables(rotation_table(8), gen_table(0)) =~= rotation_table(21));
        } else if g == 1 {
            assert(then_tables(rotation_table(8), gen_table(1)) =~= rotation_table(5));
        } else if g == 2 {
            assert(then_tables(rotation_table(8), gen_table(2)) =~= rotation_table(22));
        } else if g == 3 {
            assert(then_tables(rotation_table(8), gen_table(3)) =~= rotation_table(1));
        } else if g == 4 {
            assert(then_tables(rotation_table(8), gen_table(4)) =~= rotation_table(18));
        } else if g == 5 {
            assert(then_tables(rotation_table(8), gen_table(5)) =~= rotation_table(3));
        }
    }
    assert(then_tables(rotation_table(8), rotation_table(15)) =~= identity_tables());
    if crate::cube::f2l_solved_spec(rotation_table(8)) {
        assert(!crate::cube::corner_home(rotation_table(8), 4));
    }
}

#[verifier::spinoff_prover]
proof fn lemma_rotation_9()
    ensures
        forall|g: int|
            0 <= g < 6 ==> #[trigger] then_tables(rotation_table(9), gen_table(g)) == rotation_table(
                succ_table()[9][g],
            ),
        then_tables(rotation_table(9), rotation_table(inverse_index()[9])) == identity_tables(),
        index_by_front()[rotation_table(9).cp[0] * 8 + rotation_table(9).cp[1]] == 9,
        index_by_bottom()[rotation_table(inverse_index()[9]).cp[4] * 8 + rotation_table(
            inverse_index()[9],
        ).cp[5]] == 9,
        crate::cube::f2l_solved_spec(rotation_table(9)) ==> rotation_table(9) == identity_tables(),
{
    reveal(rotation_table);
    assert forall|g: int|
        0 <= g < 6 implies #[trigger] then_tables(rotation_table(9), gen_table(g)) == rotation_table(
        succ_table()[9][g],
    ) by {
        if g == 0 {
            assert(then_tables(rotation_table(9), gen_table(0)) =~= rotation_table(20));
        } else if g == 1 {
            assert(then_tables(rotation_table(9), gen_table(1)) =~= rotation_table(6));
        } else if g == 2 {
            assert(then_tables(rotation_table(9), gen_table(2)) =~= rotation_table(1));
        } else if g == 3 {
            assert(then_tables(rotation_table(9), gen_table(3)) =~= rotation_table(22));
        } else if g == 4 {
            assert(then_tables(rotation_table(9), gen_table(4)) =~= rotation_table(4));
        } else if g == 5 {
            assert(then_tables(rotation_table(9), gen_table(5)) =~= rotation_table(19));
        }
    }
    assert(then_tables(rotation_table(9), rotation_table(14)) =~= identity_tables());
    if crate::cube::f2l_solved_spec(rotation_table(9)) {
        assert(!crate::cube::corner_home(rotation_table(9), 4));
    }
}

#[verifier::spinoff_prover]
proof fn lemma_rotation_10()
    ensures
        forall|g: int|
            0 <= g < 6 ==> #[trigger] then_tables(rotation_table(10), gen_table(g)) == rotation_table(
                succ_table()[10][g],
            ),
        then_tables(rotation_table(10), rotation_table(inverse_index()[10])) == identity_tables(),
        index_by_front()[rotation_table(10).cp[0] * 8 + rotation_table(10).cp[1]] == 10,
        index_by_bottom()[rotation_table(inverse_index()[10]).cp[4] * 8 + rotation_table(
            inverse_index()[10],
        ).cp[5]] == 10,
        crate::cube::f2l_solved_spec(rotation_table(10)) ==> rotation_table(10) == identity_tables(),
{
    reveal(rotation_table);
    assert forall|g: int|
        0 <= g < 6 implies #[trigger] then_tables(rotation_table(10), gen_table(g)) == rotation_table(
        succ_table()[10][g],
    ) by {
        if g == 0 {
            assert(then_tables(rotation_table(10), gen_table(0)) =~= rotation_table(18));
        } else if g == 1 {
            assert(then_tables(rotation_table(10), gen_table(1)) =~= rotation_table(4));
        } else if g == 2 {
            assert(then_tables(rotation_table(10), gen_table(2)) =~= rotation_table(5));
        } else if g == 3 {
            assert(then_tables(rotation_table(10), gen_table(3)) =~= rotation_table(20));
        } else if g == 4 {
            assert(then_tables(rotation_table(10), gen_table(4)) =~= rotation_table(23));
        } else if g == 5 {
            assert(then_tables(rotation_table(10), gen_table(5)) =~= rotation_table(1));
        }
    }
    assert(then_tables(rotation_table(10), rotation_table(12)) =~= identity_tables());
    if crate::cube::f2l_solved_spec(rotation_table(10)) {
        assert(!crate::cube::corner_home(rotation_table(10), 4));
    }
}

#[verifier::spinoff_prover]
proof fn lemma_rotation_11()
    ensures
        forall|g: int|
            0 <= g < 6 ==> #[trigger] then_tables(rotation_table(11), gen_table(g)) == rotation_table(
                succ_table()[11][g],
            ),
        then_tables(rotation_table(11), rotation_table(inverse_index()[11])) == identity_tables(),
        index_by_front()[rotation_table(11).cp[0] * 8 + rotation_table(11).cp[1]] == 11,
        index_by_bottom()[rotation_table(inverse_index()[11]).cp[4] * 8 + rotation_table(
            inverse_index()[11],
        ).cp[5]] == 11,
        crate::cube::f2l_solved_spec(rotation_table(11)) ==> rotation_table(11) == identity_tables(),
{
    reveal(rotation_table);
    assert forall|g: int|
        0 <= g < 6 implies #[trigger] then_tables(rotation_table(11), gen_table(g)) == rotation_table(
        succ_table()[11][g],
    ) by {
        if g == 0 {
            assert(then_tables(rotation_table(11), gen_table(0)) =~= rotation_table(19));
        } else if g == 1 {
            assert(then_tables(rotation_table(11), gen_table(1)) =~= rotation_table(3));
        } else if g == 2 {
            assert(then_tables(rotation_table(11), gen_table(2)) =~= rotation_table(21));
        } else if g == 3 {
            assert(then_tables(rotation_table(11), gen_table(3)) =~= rotation_table(6));
        } else if g == 4 {
            assert(then_tables(rotation_table(11), gen_table(4)) =~= rotation_table(1));
        } else if g == 5 {
            assert(then_tables(rotation_table(11), gen_table(5)) =~= rotation_table(23));
        }
    }
    assert(then_tables(rotation_table(11), rotation_table(13)) =~= identity_tables());
    if crate::cube::f2l_solved_spec(rotation_table(11)) {
        assert(!crate::cube::corner_home(rotation_table(11), 4));
    }
}

#[verifier::spinoff_prover]
proof fn lemma_rotation_12()
    ensures
        forall|g: int|
            0 <= g < 6 ==> #[trigger] then_tables(rotation_table(12), gen_table(g)) == rotation_table(
                succ_table()[12][g],
            ),
        then_tables(rotation_table(12), rotation_table(inverse_index()[12])) == identity_tables(),
        index_by_front()[rotation_table(12).cp[0] * 8 + rotation_table(12).cp[1]] == 12,
        index_by_bottom()[rotation_table(inverse_index()[12]).cp[4] * 8 + rotation_table(
            inverse_index()[12],
        ).cp[5]] == 12,
        crate::cube::f2l_solved_spec(rotation_table(12)) ==> rotation_table(12) == identity_tables(),
{
    reveal(rotation_table);
    assert forall|g: int|
        0 <= g < 6 implies #[trigger] then_tables(rotation_table(12), gen_table(g)) == rotation_table(
        succ_table()[12][g],
    ) by {
        if g == 0 {
            assert(then_tables(rotation_table(12), gen_table(0)) =~= rotation_table(6));
        } else if g == 1 {
            assert(then_tables(rotation_table(12), gen_table(1)) =~= rotation_table(20));
        } else if g == 2 {
            assert(then_tables(rotation_table(12), gen_table(2)) =~= rotation_table(23));
        } else if g == 3 {
            assert(then_tables(rotation_table(12), gen_table(3)) =~= rotation_table(2));
        } else if g == 4 {
            assert(then_tables(rotation_table(12), gen_table(4)) =~= rotation_table(3));
        } else if g == 5 {
            assert(then_tables(rotation_table(12), gen_table(5)) =~= rotation_table(18));
        }
    }
    assert(then_tables(rotation_table(12), rotation_table(10)) =~= identity_tables());
    if crate::cube::f2l_solved_spec(rotation_table(12)) {
        assert(!crate::cube::corner_home(rotation_table(12), 4));
    }
}

#[verifier::spinoff_prover]
proof fn lemma_rotation_13()
    ensures
        forall|g: int|
            0 <= g < 6 ==> #[trigger] then_tables(rotation_table(13), gen_table(g)) == rotation_table(
                succ_table()[13][g],
            ),
        then_tables(rotation_table(13), rotation_table(inverse_index()[13])) == identity_tables(),
        index_by_front()[rotation_table(13).cp[0] * 8 + rotation_table(13).cp[1]] == 13,
        index_by_bottom()[rotation_table(inverse_index()[13]).cp[4] * 8 + rotation_table(
            inverse_index()[13],
        ).cp[5]] == 13,
        crate::cube::f2l_solved_spec(rotation_table(13)) ==> rotation_table(13) == identity_tables(),
{
    reveal(rotation_table);
    assert forall|g: int|
        0 <= g < 6 implies #[trigger] then_tables(rotation_table(13), gen_table(g)) == rotation_table(
        succ_table()[13][g],
    ) by {
        if g == 0 {
            assert(then_tables(rotation_table(13), gen_table(0)) =~= rotation_table(5));
        } else if g == 1 {
            assert(then_tables(rotation_table(13), gen_table(1)) =~= rotation_table(21));
        } else if g == 2 {
            assert(then_tables(rotation_table(13), gen_table(2)) =~= rotation_table(2));
        } else if g == 3 {
            assert(then_tables(rotation_table(13), gen_table(3)) =~= rotation_table(23));
        } else if g == 4 {
            assert(then_tables(rotation_table(13), gen_table(4)) =~= rotation_table(19));
        } else if g == 5 {
            assert(then_tables(rotation_table(13), gen_table(5)) =~= rotation_table(4));
        }
    }
    assert(then_tables(rotation_table(13), rotation_table(11)) =~= identity_tables());
    if crate::cube::f2l_solved_spec(rotation_table(13)) {
        assert(!crate::cube::corner_home(rotation_table(13), 4));
    }
}

#[verifier::spinoff_prover]
proof fn lemma_rotation_14()
    ensures
        forall|g: int|
            0 <= g < 6 ==> #[trigger] then_tables(rotation_table(14), gen_table(g)) == rotation_table(
                succ_table()[14][g],
            ),
        then_tables(rotation_table(14), rotation_table(inverse_index()[14])) == identity_tables(),
        index_by_front()[rotation_table(14).cp[0] * 8 + rotation_table(14).cp[1]] == 14,
        index_by_bottom()[rotation_table(inverse_index()[14]).cp[4] * 8 + rotation_table(
            inverse_index()[14],
        ).cp[5]] == 14,
        crate::cube::f2l_solved_spec(rotation_table(14)) ==> rotation_table(14) == identity_tables(),
{
    reveal(rotation_table);
    assert forall|g: int|
        0 <= g < 6 implies #[trigger] then_tables(rotation_table(14), gen_table(g)) == rotation_table(
        succ_table()[14][g],
    ) by {
        if g == 0 {
            assert(then_tables(rotation_table(14), gen_table(0)) =~= rotation_table(3));
        } else if g == 1 {
            assert(then_tables(rotation_table(14), gen_table(1)) =~= rotation_table(19));
        } else if g == 2 {
            assert(then_tables(rotation_table(14), gen_table(2)) =~= rotation_table(20));
        } else if g == 3 {
            assert(then_tables(rotation_table(14), gen_table(3)) =~= rotation_table(5));
        } else if g == 4 {
            assert(then_tables(rotation_table(14), gen_table(4)) =~= rotation_table(22));
        } else if g == 5 {
            assert(then_tables(rotation_table(14), gen_table(5)) =~= rotation_table(2));
        }
    }
    assert(then_tables(rotation_table(14), rotation_table(9)) =~= identity_tables());
    if crate::cube::f2l_solved_spec(rotation_table(14)) {
        assert(!crate::cube::corner_home(rotation_table(14), 4));
    }
}

#[verifier::spinoff_prover]
proof fn lemma_rotation_15()
    ensures
        forall|g: int|
            0 <= g < 6 ==> #[trigger] then_tables(rotation_table(15), gen_table(g)) == rotation_table(
                succ_table()[15][g],
            ),
        then_tables(rotation_table(15), rotation_table(inverse_index()[15])) == identity_tables(),
        index_by_front()[rotation_table(15).cp[0] * 8 + rotation_table(15).cp[1]] == 15,
        index_by_bottom()[rotation_table(inverse_index()[15]).cp[4] * 8 + rotation_table(
            inverse_index()[15],
        ).cp[5]] == 15,
        crate::cube::f2l_solved_spec(rotation_table(15)) ==> rotation_table(15) == identity_tables(),
{
    reveal(rotation_table);
    assert forall|g: int|
        0 <= g < 6 implies #[trigger] then_tables(rotation_table(15), gen_table(g)) == rotation_table(
        succ_table()[15][g],
    ) by {
        if g == 0 {
            assert(then_tables(rotation_table(15), gen_table(0)) =~= rotation_table(4));
        } else if g == 1 {
            assert(then_tables(rotation_table(15), gen_table(1)) =~= rotation_table(18));
        } else if g == 2 {
            assert(then_tables(rotation_table(15), gen_table(2)) =~= rotation_table(6));
        } else if g == 3 {
            assert(then_tables(rotation_table(15), gen_table(3)) =~= rotation_table(21));
        } else if g == 4 {
            assert(then_tables(rotation_table(15), gen_table(4)) =~= rotation_table(2));
        } else if g == 5 {
            assert(then_tables(rotation_table(15), gen_table(5)) =~= rotation_table(22));
        }
    }
    assert(then_tables(rotation_table(15), rotation_table(8)) =~= identity_tables());
    if crate::cube::f2l_solved_spec(rotation_table(15)) {
        assert(!crate::cube::corner_home(rotation_table(15), 4));
    }
}

#[verifier::spinoff_prover]
proof fn lemma_rotation_16()
    ensures
        forall|g: int|
            0 <= g < 6 ==> #[trigger] then_tables(rotation_table(16), gen_table(g)) == rotation_table(
                succ_table()[16][g],
            ),
        then_tables(rotation_table(16), rotation_table(inverse_index()[16])) == identity_tables(),
        index_by_front()[rotation_table(16).cp[0] * 8 + rotation_table(16).cp[1]] == 16,
        index_by_bottom()[rotation_table(inverse_index()[16]).cp[4] * 8 + rotation_table(
            inverse_index()[16],
        ).cp[5]] == 16,
        crate::cube::f2l_solved_spec(rotation_table(16)) ==> rotation_table(16) == identity_tables(),
{
    reveal(rotation_table);
    assert forall|g: int|
        0 <= g < 6 implies #[trigger] then_tables(rotation_table(16), gen_table(g)) == rotation_table(
        succ_table()[16][g],
    ) by {
        if g == 0 {
            assert(then_tables(rotation_table(16), gen_table(0)) =~= rotation_table(23));
        } else if g == 1 {
            assert(then_tables(rotation_table(16), gen_table(1)) =~= rotation_table(22));
        } else if g == 2 {
            assert(then_tables(rotation_table(16), gen_table(2)) =~= rotation_table(4));
        } else if g == 3 {
            assert(then_tables(rotation_table(16), gen_table(3)) =~= rotation_table(3));
        } else if g == 4 {
            assert(then_tables(rotation_table(16), gen_table(4)) =~= rotation_table(21));
        } else if g == 5 {
            assert(then_tables(rotation_table(16), gen_table(5)) =~= rotation_table(20));
        }
    }
    assert(then_tables(rotation_table(16), rotation_table(16)) =~= identity_tables());
    if crate::cube::f2l_solved_spec(rotation_table(16)) {
        assert(!crate::cube::corner_home(rotation_table(16), 4));
    }
}

#[verifier::spinoff_prover]
proof fn lemma_rotation_17()
    ensures
        forall|g: int|
            0 <= g < 6 ==> #[trigger] then_tables(rotation_table(17), gen_table(g)) == rotation_table(
                succ_table()[17][g],
            ),
        then_tables(rotation_table(17), rotation_table(inverse_index()[17])) == identity_tables(),
        index_by_front()[rotation_table(17).cp[0] * 8 + rotation_table(17).cp[1]] == 17,
        index_by_bottom()[rotation_table(inverse_index()[17]).cp[4] * 8 + rotation_table(
            inverse_index()[17],
        ).cp[5]] == 17,
        crate::cube::f2l_solved_spec(rotation_table(17)) ==> rotation_table(17) == identity_tables(),
{
    reveal(rotation_table);
    assert forall|g: int|
        0 <= g < 6 implies #[trigger] then_tables(rotation_table(17), gen_table(g)) == rotation_table(
        succ_table()[17][g],
    ) by {
        if g == 0 {
            assert(then_tables(rotation_table(17), gen_table(0)) =~= rotation_table(22));
        } else if g == 1 {
            assert(then_tables(rotation_table(17), gen_table(1)) =~= rotation_table(23));
        } else if g == 2 {
            assert(then_tables(rotation_table(17), gen_table(2)) =~= rotation_table(19));
        } else if g == 3 {
            assert(then_tables(rotation_table(17), gen_table(3)) =~= rotation_table(18));
        } else if g == 4 {
            assert(then_tables(rotation_table(17), gen_table(4)) =~= rotation_table(6));
        } else if g == 5 {
            assert(then_tables(rotation_table(17), gen_table(5)) =~= rotation_table(5));
        }
    }
    assert(then_tables(rotation_table(17), rotation_table(17)) =~= identity_tables());
    if crate::cube::f2l_solved_spec(rotation_table(17)) {
        assert(!crate::cube::corner_home(rotation_table(17), 4));
    }
}

#[verifier::spinoff_prover]
proof fn lemma_rotation_18()
    ensures
        forall|g: int|
            0 <= g < 6 ==> #[trigger] then_tables(rotation_table(18), gen_table(g)) == rotation_table(
                succ_table()[18][g],
            ),
        then_tables(rotation_table(18), rotation_table(inverse_index()[18])) == identity_tables(),
        index_by_front()[rotation_table(18).cp[0] * 8 + rotation_table(18).cp[1]] == 18,
        index_by_bottom()[rotation_table(inverse_index()[18]).cp[4] * 8 + rotation_table(
            inverse_index()[18],
        ).cp[5]] == 18,
        crate::cube::f2l_solved_spec(rotation_table(18)) ==> rotation_table(18) == identity_tables(),
{
    reveal(rotation_table);
    assert forall|g: int|
        0 <= g < 6 implies #[trigger] then_tables(rotation_table(18), gen_table(g)) == rotation_table(
        succ_table()[18][g],
    ) by {
        if g == 0 {
            assert(then_tables(rotation_table(18), gen_table(0)) =~= rotation_table(15));
        } else if g == 1 {
            assert(then_tables(rotation_table(18), gen_table(1)) =~= rotation_table(10));
        } else if g == 2 {
            assert(then_tables(rotation_table(18), gen_table(2)) =~= rotation_table(17));
        } else if g == 3 {
            assert(then_tables(rotation_table(18), gen_table(3)) =~= rotation_table(7));
        } else if g == 4 {
            assert(then_tables(rotation_table(18), gen_table(4)) =~= rotation_table(12));
        } else if g == 5 {
            assert(then_tables(rotation_table(18), gen_table(5)) =~= rotation_table(8));
        }
    }
    assert(then_tables(rotation_table(18), rotation_table(18)) =~= identity_tables());
    if crate::cube::f2l_solved_spec(rotation_table(18)) {
        assert(!crate::cube::corner_home(rotation_table(18), 4));
    }
}

#[verifier::spinoff_prover]
proof fn lemma_rotation_19()
    ensures
        forall|g: int|
            0 <= g < 6 ==> #[trigger] then_tables(rotation_table(19), gen_table(g)) == rotation_table(
                succ_table()[19][g],
            ),
        then_tables(rotation_table(19), rotation_table(inverse_index()[19])) == identity_tables(),
        index_by_front()[rotation_table(19).cp[0] * 8 + rotation_table(19).cp[1]] == 19,
        index_by_bottom()[rotation_table(inverse_index()[19]).cp[4] * 8 + rotation_table(
            inverse_index()[19],
        ).cp[5]] == 19,
        crate::cube::f2l_solved_spec(rotation_table(19)) ==> rotation_table(19) == identity_tables(),
{
    reveal(rotation_table);
    assert forall|g: int|
        0 <= g < 6 implies #[trigger] then_tables(rotation_table(19), gen_table(g)) == rotation_table(
        succ_table()[19][g],
    ) by {
        if g == 0 {
            assert(then_tables(rotation_table(19), gen_table(0)) =~= rotation_table(14));
        } else if g == 1 {
            assert(then_tables(rotation_table(19), gen_table(1)) =~= rotation_table(11));
        } else if g == 2 {
            assert(then_tables(rotation_table(19), gen_table(2)) =~= rotation_table(7));
        } else if g == 3 {
            assert(then_tables(rotation_table(19), gen_table(3)) =~= rotation_table(17));
        } else if g == 4 {
            assert(then_tables(rotation_table(19), gen_table(4)) =~= rotation_table(9));
        } else if g == 5 {
            assert(then_tables(rotation_table(19), gen_table(5)) =~= rotation_table(13));
        }
    }
    assert(then_tables(rotation_table(19), rotation_table(19)) =~= identity_tables());
    if crate::cube::f2l_solved_spec(rotation_table(19)) {
        assert(!crate::cube::corner_home(rotation_table(19), 4));
    }
}

#[verifier::spinoff_prover]
proof fn lemma_rotation_20()
    ensures
        forall|g: int|
            0 <= g < 6 ==> #[trigger] then_tables(rotation_table(20), gen_table(g)) == rotation_table(
                succ_table()[20][g],
            ),
        then_tables(rotation_table(20), rotation_table(inverse_index()[20])) == identity_tables(),
        index_by_front()[rotation_table(20).cp[0] * 8 + rotation_table(20).cp[1]] == 20,
        index_by_bottom()[rotation_table(inverse_index()[20]).cp[4] * 8 + rotation_table(
            inverse_index()[20],
        ).cp[5]] == 20,
        crate::cube::f2l_solved_spec(rotation_table(20)) ==> rotation_table(20) == identity_tables(),
{
    reveal(rotation_table);
    assert forall|g: int|
        0 <= g < 6 implies #[trigger] then_tables(rotation_table(20), gen_table(g)) == rotation_table(
        succ_table()[20][g],
    ) by {
        if g == 0 {
            assert(then_tables(rotation_table(20), gen_table(0)) =~= rotation_table(12));
        } else if g == 1 {
            assert(then_tables(rotation_table(20), gen_table(1)) =~= rotation_table(9));
        } else if g == 2 {
            assert(then_tables(rotation_table(20), gen_table(2)) =~= rotation_table(10));
        } else if g == 3 {
            assert(then_tables(rotation_table(20), gen_table(3)) =~= rotation_table(14));
        } else if g == 4 {
            assert(then_tables(rotation_table(20), gen_table(4)) =~= rotation_table(16));
        } else if g == 5 {
            assert(then_tables(rotation_table(20), gen_table(5)) =~= rotation_table(7));
        }
    }
    assert(then_tables(rotation_table(20), rotation_table(20)) =~= identity_tables());
    if crate::cube::f2l_solved_spec(rotation_table(20)) {
        assert(!crate::cube::corner_home(rotation_table(20), 4));
    }
}

#[verifier::spinoff_prover]
proof fn lemma_rotation_21()
    ensures
        forall|g: int|
            0 <= g < 6 ==> #[trigger] then_tables(rotation_table(21), gen_table(g)) == rotation_table(
                succ_table()[21][g],
            ),
        then_tables(rotation_table(21), rotation_table(inverse_index()[21])) == identity_tables(),
        index_by_front()[rotation_table(21).cp[0] * 8 + rotation_table(21).cp[1]] == 21,
        index_by_bottom()[rotation_table(inverse_index()[21]).cp[4] * 8 + rotation_table(
            inverse_index()[21],
        ).cp[5]] == 21,
        crate::cube::f2l_solved_spec(rotation_table(21)) ==> rotation_table(21) == identity_tables(),
{
    reveal(rotation_table);
    assert forall|g: int|
        0 <= g < 6 implies #[trigger] then_tables(rotation_table(21), gen_table(g)) == rotation_table(
        succ_table()[21][g],
    ) by {
        if g == 0 {
            assert(then_tables(rotation_table(21), gen_table(0)) =~= rotation_table(13));
        } else if g == 1 {
            assert(then_tables(rotation_table(21), gen_table(1)) =~= rotation_table(8));
        } else if g == 2 {
            assert(then_tables(rotation_table(21), gen_table(2)) =~= rotation_table(15));
        } else if g == 3 {
            assert(then_tables(rotation_table(21), gen_table(3)) =~= rotation_table(11));
        } else if g == 4 {
            assert(then_tables(rotation_table(21), gen_table(4)) =~= rotation_table(7));
        } else if g == 5 {
            assert(then_tables(rotation_table(21), gen_table(5)) =~= rotation_table(16));
        }
    }
    assert(then_tables(rotation_table(21), rotation_table(21)) =~= identity_tables());
    if crate::cube::f2l_solved_spec(rotation_table(21)) {
        assert(!crate::cube::corner_home(rotation_table(21), 4));
    }
}

#[verifier::spinoff_prover]
proof fn lemma_rotation_22()
    ensures
        forall|g: int|
            0 <= g < 6 ==> #[trigger] then_tables(rotation_table(22), gen_table(g)) == rotation_table(
                succ_table()[22][g],
            ),
        then_tables(rotation_table(22), rotation_table(inverse_index()[22])) == identity_tables(),
        index_by_front()[rotation_table(22).cp[0] * 8 + rotation_table(22).cp[1]] == 22,
        index_by_bottom()[rotation_table(inverse_index()[22]).cp[4] * 8 + rotation_table(
            inverse_index()[22],
        ).cp[5]] == 22,
        crate::cube::f2l_solved_spec(rotation_table(22)) ==> rotation_table(22) == identity_tables(),
{
    reveal(rotation_table);
    assert forall|g: int|
        0 <= g < 6 implies #[trigger] then_tables(rotation_table(22), gen_table(g)) == rotation_table(
        succ_table()[22][g],
    ) by {
        if g == 0 {
            assert(then_tables(rotation_table(22), gen_table(0)) =~= rotation_table(16));
        } else if g == 1 {
            assert(then_tables(rotation_table(22), gen_table(1)) =~= rotation_table(17));
        } else if g == 2 {
            assert(then_tables(rotation_table(22), gen_table(2)) =~= rotation_table(9));
        } else if g == 3 {
            assert(then_tables(rotation_table(22), gen_table(3)) =~= rotation_table(8));
        } else if g == 4 {
            assert(then_tables(rotation_table(22), gen_table(4)) =~= rotation_table(15));
        } else if g == 5 {
            assert(then_tables(rotation_table(22), gen_table(5)) =~= rotation_table(14));
        }
    }
    assert(then_tables(rotation_table(22), rotation_table(22)) =~= identity_tables());
    if crate::cube::f2l_solved_spec(rotation_table(22)) {
        assert(!crate::cube::corner_home(rotation_table(22), 4));
    }
}

#[verifier::spinoff_prover]
proof fn lemma_rotation_23()
    ensures
        forall|g: int|
            0 <= g < 6 ==> #[trigger] then_tables(rotation_table(23), gen_table(g)) == rotation_table(
                succ_table()[23][g],
            ),
        then_tables(rotation_table(23), rotation_table(inverse_index()[23])) == identity_tables(),
        index_by_front()[rotation_table(23).cp[0] * 8 + rotation_table(23).cp[1]] == 23,
        index_by_bottom()[rotation_table(inverse_index()[23]).cp[4] * 8 + rotation_table(
            inverse_index()[23],
        ).cp[5]] == 23,
        crate::cube::f2l_solved_spec(rotation_table(23)) ==> rotation_table(23) == identity_tables(),
{
    reveal(rotation_table);
    assert forall|g: int|
        0 <= g < 6 implies #[trigger] then_tables(rotation_table(23), gen_table(g)) == rotation_table(
        succ_table()[23][g],
    ) by {
        if g == 0 {
            assert(then_tables(rotation_table(23), gen_table(0)) =~= rotation_table(17));
        } else if g == 1 {
            assert(then_tables(rotation_table(23), gen_table(1)) =~= rotation_table(16));
        } else if g == 2 {
            assert(then_tables(rotation_table(23), gen_table(2)) =~= rotation_table(13));
        } else if g == 3 {
            assert(then_tables(rotation_table(23), gen_table(3)) =~= rotation_table(12));
        } else if g == 4 {
            assert(then_tables(rotation_table(23), gen_table(4)) =~= rotation_table(11));
        } else if g == 5 {
            assert(then_tables(rotation_table(23), gen_table(5)) =~= rotation_table(10));
        }
    }
    assert(then_tables(rotation_table(23), rotation_table(23)) =~= identity_tables());
    if crate::cube::f2l_solved_spec(rotation_table(23)) {
        assert(!crate::cube::corner_home(rotation_table(23), 4));
    }
}

/// The facts about rotation `k`, for each `k` below 24.
proof fn lemma_rotation(k: int)
    requires
        0 <= k < 24,
    ensures
        forall|g: int|
            0 <= g < 6 ==> #[trigger] then_tables(rotation_table(k), gen_table(g)) == rotation_table(
                succ_table()[k][g],
            ),
        then_tables(rotation_table(k), rotation_table(inverse_index()[k])) == identity_tables(),
        index_by_front()[rotation_table(k).cp[0] * 8 + rotation_table(k).cp[1]] == k,
        index_by_bottom()[rotation_table(inverse_index()[k]).cp[4] * 8 + rotation_table(
            inverse_index()[k],
        ).cp[5]] == k,
        crate::cube::f2l_solved_spec(rotation_table(k)) ==> rotation_table(k) == identity_tables(),
        0 <= parent_index()[k] < 24,
        k > 0 ==> parent_index()[k] < k && 0 <= parent_gen()[k] < 6 && succ_table()[parent_index()[k]][parent_gen()[k]] == k,
        0 <= inverse_index()[k] < 24,
        forall|g: int| 0 <= g < 6 ==> 0 <= #[trigger] succ_table()[k][g] < 24,
{
    if k == 0 {
        lemma_rotation_0();
    } else if k == 1 {
        lemma_rotation_1();
    } else if k == 2 {
        lemma_rotation_2();
    } else if k == 3 {
        lemma_rotation_3();
    } else if k == 4 {
        lemma_rotation_4();
    } else if k == 5 {
        lemma_rotation_5();
    } else if k == 6 {
        lemma_rotation_6();
    } else if k == 7 {
        lemma_rotation_7();
    } else if k == 8 {
        lemma_rotation_8();
    } else if k == 9 {
        lemma_rotation_9();
    } else if k == 10 {
        lemma_rotation_10();
    } else if k == 11 {
        lemma_rotation_11();
    } else if k == 12 {
        lemma_rotation_12();
    } else if k == 13 {
        lemma_rotation_13();
    } else if k == 14 {
        lemma_rotation_14();
    } else if k == 15 {
        lemma_rotation_15();
    } else if k == 16 {
        lemma_rotation_16();
    } else if k == 17 {
        lemma_rotation_17();
    } else if k == 18 {
        lemma_rotation_18();
    } else if k == 19 {
        lemma_rotation_19();
    } else if k == 20 {
        lemma_rotation_20();
    } else if k == 21 {
        lemma_rotation_21();
    } else if k == 22 {
        lemma_rotation_22();
    } else if k == 23 {
        lemma_rotation_23();
    }
}

/// Rotation 0 is the identity.
pub proof fn lemma_rotation_zero()
    ensures
        rotation_table(0) == identity_tables(),
{
    reveal(rotation_table);
    assert(rotation_table(0) =~= identity_tables());
}

#[verifier::spinoff_prover]
#[verifier::rlimit(50)]
proof fn lemma_generator_x()
    ensures
        rotation_table(1) == x_rotation_tables(),
        rotation_table(2) == inverse_tables(x_rotation_tables()),
        valid(rotation_table(1)),
        valid(rotation_table(2)),
{
    lemma_x_literal();
    assert(rotation_table(1) == x_literal()) by {
        reveal(rotation_table);
        assert(rotation_table(1) =~= x_literal());
    }
    lemma_rotations_valid();
    lemma_rotation(1);
    lemma_rotation(7);
    assert(succ_table()[1][0] == 7);
    assert(succ_table()[7][0] == 2);
    assert(gen_table(0) == rotation_table(1));
    assert(then_tables(rotation_table(1), gen_table(0)) == rotation_table(succ_table()[1][0]));
    assert(then_tables(rotation_table(7), gen_table(0)) == rotation_table(succ_table()[7][0]));
    assert(then_tables(rotation_table(1), rotation_table(1)) == rotation_table(7));
    assert(then_tables(rotation_table(7), rotation_table(1)) == rotation_table(2));
    lemma_then_valid(rotation_table(1), rotation_table(1));
    lemma_then_valid(rotation_table(7), rotation_table(1));
    assert(inverse_index()[1] == 2);
    lemma_inverse_unique(rotation_table(1), rotation_table(2));
}

#[verifier::spinoff_prover]
#[verifier::rlimit(50)]
proof fn lemma_generator_y()
    ensures
        rotation_table(3) == y_rotation_tables(),
        rotation_table(4) == inverse_tables(y_rotation_tables()),
        valid(rotation_table(3)),
        valid(rotation_table(4)),
{
    lemma_y_literal();
    assert(rotation_table(3) == y_literal()) by {
        reveal(rotation_table);
        assert(rotation_table(3) =~= y_literal());
    }
    lemma_rotations_valid();
    lemma_rotation(3);
    lemma_rotation(16);
    assert(succ_table()[3][2] == 16);
    assert(succ_table()[16][2] == 4);
    assert(gen_table(2) == rotation_table(3));
    assert(then_tables(rotation_table(3), gen_table(2)) == rotation_table(succ_table()[3][2]));
    assert(then_tables(rotation_table(16), gen_table(2)) == rotation_table(succ_table()[16][2]));
    assert(then_tables(rotation_table(3), rotation_table(3)) == rotation_table(16));
    assert(then_tables(rotation_table(16), rotation_table(3)) == rotation_table(4));
    lemma_then_valid(rotation_table(3), rotation_table(3));
    lemma_then_valid(rotation_table(16), rotation_table(3));
    assert(inverse_index()[3] == 4);
    lemma_inverse_unique(rotation_table(3), rotation_table(4));
}

#[verifier::spinoff_prover]
#[verifier::rlimit(50)]
proof fn lemma_generator_z()
    ensures
        rotation_table(5) == z_rotation_tables(),
        rotation_table(6) == inverse_tables(z_rotation_tables()),
        valid(rotation_table(5)),
        valid(rotation_table(6)),
{
    lemma_z_literal();
    assert(rotation_table(5) == z_literal()) by {
        reveal(rotation_table);
        assert(rotation_table(5) =~= z_literal());
    }
    lemma_rotations_valid();
    lemma_rotation(5);
    lemma_rotation(17);
    assert(succ_table()[5][4] == 17);
    assert(succ_table()[17][4] == 6);
    assert(gen_table(4) == rotation_table(5));
    assert(then_tables(rotation_table(5), gen_table(4)) == rotation_table(succ_table()[5][4]));
    assert(then_tables(rotation_table(17), gen_table(4)) == rotation_table(succ_table()[17][4]));
    assert(then_tables(rotation_table(5), rotation_table(5)) == rotation_table(17));
    assert(then_tables(rotation_table(17), rotation_table(5)) == rotation_table(6));
    lemma_then_valid(rotation_table(5), rotation_table(5));
    lemma_then_valid(rotation_table(17), rotation_table(5));
    assert(inverse_index()[5] == 6);
    lemma_inverse_unique(rotation_table(5), rotation_table(6));
}

/// Rotations 1 to 6 are x, x', y, y', z, z'.
pub proof fn lemma_generator_tables()
    ensures
        rotation_table(1) == x_rotation_tables(),
        rotation_table(2) == inverse_tables(x_rotation_tables()),
        rotation_table(3) == y_rotation_tables(),
        rotation_table(4) == inverse_tables(y_rotation_tables()),
        rotation_table(5) == z_rotation_tables(),
        rotation_table(6) == inverse_tables(z_rotation_tables()),
        forall|g: int| 0 <= g < 6 ==> #[trigger] valid(gen_table(g)),
{
    lemma_generator_x();
    lemma_generator_y();
    lemma_generator_z();
    assert forall|g: int| 0 <= g < 6 implies #[trigger] valid(gen_table(g)) by {
        assert(gen_table(g) == rotation_table(g + 1));
        if g == 0 {} else if g == 1 {} else if g == 2 {} else if g == 3 {} else if g == 4 {} else {}
    }
}

/// Every one of the 24 is a genuine move.
pub proof fn lemma_rotation_valid(k: int)
    requires
        0 <= k < 24,
    ensures
        valid(rotation_table(k)),
    decreases k,
{
    lemma_rotation(k);
    if k == 0 {
        lemma_rotation_zero();
        assert(iota(8).no_duplicates());
        assert(iota(12).no_duplicates());
    } else {
        let p = parent_index()[k];
        let g = parent_gen()[k];
        lemma_rotation_valid(p);
        lemma_rotation(p);
        lemma_generator_tables();
        assert(valid(gen_table(g)));
        assert(then_tables(rotation_table(p), gen_table(g)) == rotation_table(k));
        lemma_then_valid(rotation_table(p), gen_table(g));
    }
}

/// The 24 are distinct.
pub proof fn lemma_rotation_distinct(i: int, j: int)
    requires
        0 <= i < 24,
        0 <= j < 24,
        rotation_table(i) == rotation_table(j),
    ensures
        i == j,
{
    lemma_rotation(i);
    lemma_rotation(j);
}

/// Only the identity among the 24 keeps the first two layers in place.
pub proof fn lemma_rotation_keeping_f2l(t: Tables)
    requires
        is_cube_rotation(t),
        crate::cube::f2l_solved_spec(t),
    ensures
        t == identity_tables(),
{
    let k = choose|k: int| 0 <= k < 24 && #[trigger] rotation_table(k) == t;
    lemma_rotation(k);
}

/// The generators as the closure search sees them.
pub open spec fn rotation_generators() -> Seq<Tables> {
    Seq::new(6, |g: int| gen_table(g))
}

/// Every entry of a closure search over x, x', y, y', z, z' is one of the
/// 24, and a genuine move.
pub proof fn lemma_closure_entries(rots: Seq<FaceMove>, n: int)
    requires
        closure_state(rots, rotation_generators()),
        0 <= n < rots.len(),
    ensures
        is_cube_rotation(rots[n]@),
        valid(rots[n]@),
    decreases n,
{
    if n == 0 {
        lemma_rotation_zero();
        assert(rotation_table(0) == rots[0]@);
        lemma_rotation_valid(0);
    } else {
        assert(derived_from_earlier(rots, rotation_generators(), n));
        let (j, g) = choose|j: int, g: int|
            0 <= j < n && 0 <= g < rotation_generators().len() && rots[n]@ == then_tables(
                rots[j]@,
                rotation_generators()[g],
            );
        lemma_closure_entries(rots, j);
        let k = choose|k: int| 0 <= k < 24 && #[trigger] rotation_table(k) == rots[j]@;
        lemma_rotation(k);
        assert(rotation_generators()[g] == gen_table(g));
        let k2 = succ_table()[k][g];
        assert(rots[n]@ == rotation_table(k2));
        lemma_rotation_valid(k2);
    }
}

/// A closed closure search holds each of the 24.
#[verifier::spinoff_prover]
pub proof fn lemma_closure_holds_all(rots: Seq<FaceMove>, k: int)
    requires
        closure_state(rots, rotation_generators()),
        forall|i: int, g: int|
            0 <= i < rots.len() && 0 <= g < 6 ==> holds_tables(
                rots,
                then_tables(#[trigger] rots[i]@, #[trigger] rotation_generators()[g]),
            ),
        0 <= k < 24,
    ensures
        holds_tables(rots, rotation_table(k)),
    decreases k,
{
    lemma_rotation(k);
    if k == 0 {
        lemma_rotation_zero();
        assert(rots[0]@ == rotation_table(0));
    } else {
        let p = parent_index()[k];
        let g = parent_gen()[k];
        lemma_closure_holds_all(rots, p);
        lemma_rotation(p);
        let j = choose|j: int| 0 <= j < rots.len() && rots[j]@ == rotation_table(p);
        assert(rotation_generators()[g] == gen_table(g));
        assert(then_tables(rotation_table(p), gen_table(g)) == rotation_table(
            succ_table()[p][g],
        ));
        assert(then_tables(rots[j]@, rotation_generators()[g]) == rotation_table(k));
        assert(holds_tables(rots, then_tables(rots[j]@, rotation_generators()[g])));
    }
}

/// A closed closure search over x, x', y, y', z, z' finds exactly the 24
/// rotations, each once.
pub proof fn lemma_closure_is_the_24(rots: Seq<FaceMove>)
    requires
        closure_state(rots, rotation_generators()),
        forall|i: int, g: int|
            0 <= i < rots.len() && 0 <= g < 6 ==> holds_tables(
                rots,
                then_tables(#[trigger] rots[i]@, #[trigger] rotation_generators()[g]),
            ),
    ensures
        rots.len() == 24,
        forall|i: int| 0 <= i < rots.len() ==> #[trigger] is_cube_rotation(rots[i]@),
        forall|k: int| 0 <= k < 24 ==> #[trigger] holds_tables(rots, rotation_table(k)),
{
    assert forall|i: int| 0 <= i < rots.len() implies #[trigger] is_cube_rotation(rots[i]@) by {
        lemma_closure_entries(rots, i);
    }
    assert forall|k: int| 0 <= k < 24 implies #[trigger] holds_tables(rots, rotation_table(k)) by {
        lemma_closure_holds_all(rots, k);
    }
    let ids = Seq::new(
        rots.len(),
        |n: int| choose|k: int| 0 <= k < 24 && #[trigger] rotation_table(k) == rots[n]@,
    );
    assert forall|n: int| 0 <= n < ids.len() implies 0 <= #[trigger] ids[n] < 24 && rotation_table(ids[n])
        == rots[n]@ by {
        assert(is_cube_rotation(rots[n]@));
    }
    assert(ids.no_duplicates()) by {
        assert forall|a: int, b: int| 0 <= a < ids.len() && 0 <= b < ids.len() && a != b implies ids[a]
            != ids[b] by {
            assert(0 <= ids[a] < 24 && rotation_table(ids[a]) == rots[a]@);
            assert(0 <= ids[b] < 24 && rotation_table(ids[b]) == rots[b]@);
            if a < b {
                assert(rots[a]@ != rots[b]@);
            } else {
                assert(rots[b]@ != rots[a]@);
            }
        }
    }
    ids.unique_seq_to_set();
    assert(ids.to_set() =~= set_int_range(0, 24)) by {
        assert forall|k: int| #[trigger] set_int_range(0, 24).contains(k) implies ids.to_set().contains(k) by {
            assert(holds_tables(rots, rotation_table(k)));
            let n = choose|n: int| 0 <= n < rots.len() && rots[n]@ == rotation_table(k);
            assert(0 <= ids[n] < 24 && rotation_table(ids[n]) == rots[n]@);
            lemma_rotation_distinct(ids[n], k);
            assert(ids.contains(k));
        }
        assert forall|k: int| #[trigger] ids.to_set().contains(k) implies set_int_range(0, 24).contains(k) by {
            assert(ids.contains(k));
        }
    }
    lemma_int_range(0, 24);
}

/// In the standard move set the rotation generators are x, x', y, y', z, z'.
pub proof fn lemma_standard_generators(ms: crate::moves::MoveSet)
    requires
        ms.standard(),
    ensures
        ms.rotation_gens() == rotation_generators(),
{
    lemma_generator_tables();
    assert forall|g: int| 0 <= g < 6 implies ms.rotation_gens()[g] == rotation_generators()[g] by {
        if g == 0 {
        } else if g == 1 {
        } else if g == 2 {
        } else if g == 3 {
        } else if g == 4 {
        } else {
        }
    }
    assert(ms.rotation_gens() =~= rotation_generators());
}

/// `cube_rotations` of the standard move set finds exactly the 24 whole-cube
/// rotations, each once: what its `ensures` states of a standard move set
/// gives 24 entries, each one of the 24, and every one of the 24 among them.
pub proof fn law_cube_rotations_are_the_24(ms: crate::moves::MoveSet, rots: Seq<FaceMove>)
    requires
        ms.standard(),
        closure_state(rots, ms.rotation_gens()),
        forall|i: int, g: int|
            0 <= i < rots.len() && 0 <= g < 6 ==> holds_tables(
                rots,
                then_tables(#[trigger] rots[i]@, #[trigger] ms.rotation_gens()[g]),
            ),
    ensures
        rots.len() == 24,
        forall|i: int| 0 <= i < rots.len() ==> #[trigger] is_cube_rotation(rots[i]@),
        forall|k: int| 0 <= k < 24 ==> #[trigger] holds_tables(rots, rotation_table(k)),
{
    lemma_standard_generators(ms);
    lemma_closure_is_the_24(rots);
}

/// Of the 24, at most one lands a genuine state with its first two layers
/// solved: which slots the bottom-front corners come from fixes the rotation.
pub proof fn lemma_landing_unique(st: Tables, g1: Tables, g2: Tables)
    requires
        valid(st),
        is_cube_rotation(g1),
        is_cube_rotation(g2),
        crate::normalize::lands_f2l(st, g1),
        crate::normalize::lands_f2l(st, g2),
    ensures
        g1 == g2,
{
    let k1 = choose|k: int| 0 <= k < 24 && #[trigger] rotation_table(k) == g1;
    let k2 = choose|k: int| 0 <= k < 24 && #[trigger] rotation_table(k) == g2;
    assert forall|k: int| 0 <= k < st.cp.len() implies #[trigger] st.cp[k] < st.cp.len() by {
        assert(st.cp[k] < 8);
    }
    let a = lemma_onto(st.cp, 4);
    let b = lemma_onto(st.cp, 5);
    lemma_bottom_preimage(st, k1, a, b);
    lemma_bottom_preimage(st, k2, a, b);
    lemma_rotation(k1);
    lemma_rotation(k2);
}

/// For rotation `k` landing `st`, the inverse of the rotation sends slots
/// 4 and 5 to the slots `a` and `b` where `st` holds pieces 4 and 5.
proof fn lemma_bottom_preimage(st: Tables, k: int, a: int, b: int)
    requires
        valid(st),
        0 <= k < 24,
        crate::normalize::lands_f2l(st, rotation_table(k)),
        0 <= a < 8,
        0 <= b < 8,
        st.cp[a] == 4,
        st.cp[b] == 5,
    ensures
        rotation_table(inverse_index()[k]).cp[4] == a,
        rotation_table(inverse_index()[k]).cp[5] == b,
{
    let g = rotation_table(k);
    lemma_rotation(k);
    let ki = inverse_index()[k];
    lemma_rotation_valid(k);
    lemma_rotation_valid(ki);
    lemma_inverse_unique(g, rotation_table(ki));
    lemma_inverse_at(g);
    let y = apply_tables(st, g);
    lemma_apply_at(st, g);
    law_apply_valid(st, g);
    assert(crate::cube::corner_home(y, 4));
    assert(crate::cube::corner_home(y, 5));
    assert(y.cp[g.cp[a] as int] == 4);
    assert(y.cp[g.cp[b] as int] == 5);
    assert(g.cp[a] < 8 && g.cp[b] < 8);
    assert(g.cp[a] == 4);
    assert(g.cp[b] == 5);
}

} // verus!
