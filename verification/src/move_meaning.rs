//! What each base move of the notation does to the whole cube, written with
//! the face and slice turns alone: the steps the parser expands a base move
//! into compose to exactly that.
use vstd::prelude::*;

use crate::faces::{
    b_turn_tables, d_turn_tables, e_slice_tables, f_turn_tables, l_turn_tables,
    lemma_basic_moves_valid, m_slice_tables, r_turn_tables, s_slice_tables, u_turn_tables,
};
use crate::laws::{
    compose_all, law_identity_then, law_inverse_inverse, law_inverse_of_then, law_inverse_then,
    law_then_assoc, law_then_identity, literal_tables,
};
use crate::lemmas::{lemma_inverse_valid, lemma_then_valid};
use crate::model::{inverse_tables, then_tables, valid, Tables};
use crate::moves::{x_rotation_tables, y_rotation_tables, z_rotation_tables, MoveSet};
use crate::parse::{prim_tables, quarter_spec, PrimModel};

verus! {

/// "First `a`, then `b`, then `c`".
pub open spec fn then3(a: Tables, b: Tables, c: Tables) -> Tables {
    then_tables(then_tables(a, b), c)
}

/// The whole-cube meaning of a base move (no suffix), in face and slice
/// turns: a face letter turns that face; a wide move turns the face and the
/// slice next to it (`r = R M'`, `l = L M`, `u = U E'`, `d = D E`,
/// `f = F S`, `b = B S'`); a slice letter turns that slice; a rotation turns
/// the two outer faces and the slice between them (`x = R M' L'`,
/// `y = U E' D'`, `z = F S B'`). A trailing `w` marks a wide move.
pub open spec fn base_meaning(base: Seq<char>) -> Tables {
    let wide = base.len() > 0 && base.last() == 'w';
    let core = if wide {
        base.drop_last()
    } else {
        base
    };
    let c = if core.len() == 1 {
        core[0]
    } else {
        ' '
    };
    let mi = inverse_tables(m_slice_tables());
    let ei = inverse_tables(e_slice_tables());
    let si = inverse_tables(s_slice_tables());
    if !wide && c == 'U' {
        u_turn_tables()
    } else if !wide && c == 'D' {
        d_turn_tables()
    } else if !wide && c == 'R' {
        r_turn_tables()
    } else if !wide && c == 'L' {
        l_turn_tables()
    } else if !wide && c == 'F' {
        f_turn_tables()
    } else if !wide && c == 'B' {
        b_turn_tables()
    } else if c == 'u' || c == 'U' {
        then_tables(u_turn_tables(), ei)
    } else if c == 'd' || c == 'D' {
        then_tables(d_turn_tables(), e_slice_tables())
    } else if c == 'r' || c == 'R' {
        then_tables(r_turn_tables(), mi)
    } else if c == 'l' || c == 'L' {
        then_tables(l_turn_tables(), m_slice_tables())
    } else if c == 'f' || c == 'F' {
        then_tables(f_turn_tables(), s_slice_tables())
    } else if c == 'b' || c == 'B' {
        then_tables(b_turn_tables(), si)
    } else if c == 'M' {
        m_slice_tables()
    } else if c == 'E' {
        e_slice_tables()
    } else if c == 'S' {
        s_slice_tables()
    } else if c == 'x' {
        then3(r_turn_tables(), mi, inverse_tables(l_turn_tables()))
    } else if c == 'y' {
        then3(u_turn_tables(), ei, inverse_tables(d_turn_tables()))
    } else {
        then3(f_turn_tables(), s_slice_tables(), inverse_tables(b_turn_tables()))
    }
}

proof fn lemma_compose_one(a: Tables)
    requires
        valid(a),
    ensures
        compose_all(seq![a]) == a,
{
    assert(seq![a].drop_last() =~= Seq::<Tables>::empty());
    assert(seq![a].last() == a);
    assert(compose_all(Seq::<Tables>::empty()) == crate::model::identity_tables());
    law_identity_then(a);
}

proof fn lemma_compose_two(a: Tables, b: Tables)
    requires
        valid(a),
    ensures
        compose_all(seq![a, b]) == then_tables(a, b),
{
    assert(seq![a, b].drop_last() =~= seq![a]);
    assert(seq![a, b].last() == b);
    lemma_compose_one(a);
}

proof fn lemma_compose_three(a: Tables, b: Tables, c: Tables)
    requires
        valid(a),
    ensures
        compose_all(seq![a, b, c]) == then3(a, b, c),
{
    assert(seq![a, b, c].drop_last() =~= seq![a, b]);
    assert(seq![a, b, c].last() == c);
    lemma_compose_two(a, b);
}

/// Undoing `b` after doing it changes nothing: `a b' b = a`.
proof fn lemma_cancel(a: Tables, b: Tables)
    requires
        valid(a),
        valid(b),
    ensures
        then_tables(then_tables(a, inverse_tables(b)), b) == a,
{
    lemma_inverse_valid(b);
    law_then_assoc(a, inverse_tables(b), b);
    law_inverse_then(b);
    law_then_identity(a);
}

/// `(a b' c')' = c b a'`.
proof fn lemma_inverse_three(a: Tables, b: Tables, c: Tables)
    requires
        valid(a),
        valid(b),
        valid(c),
    ensures
        inverse_tables(then3(a, inverse_tables(b), inverse_tables(c))) == then3(
            c,
            b,
            inverse_tables(a),
        ),
{
    let bi = inverse_tables(b);
    let ci = inverse_tables(c);
    lemma_inverse_valid(a);
    lemma_inverse_valid(b);
    lemma_inverse_valid(c);
    lemma_then_valid(a, bi);
    law_inverse_of_then(then_tables(a, bi), ci);
    law_inverse_of_then(a, bi);
    law_inverse_inverse(b);
    law_inverse_inverse(c);
    law_then_assoc(c, b, inverse_tables(a));
}

/// `a' (a b) = b`.
proof fn lemma_cancel_left(a: Tables, b: Tables)
    requires
        valid(a),
        valid(b),
    ensures
        then_tables(inverse_tables(a), then_tables(a, b)) == b,
{
    lemma_inverse_valid(a);
    law_then_assoc(inverse_tables(a), a, b);
    law_inverse_then(a);
    law_identity_then(b);
}

/// A slice between two faces, conjugated: `a' (a s c') c = s`.
proof fn lemma_slice_between(a: Tables, s: Tables, c: Tables)
    requires
        valid(a),
        valid(s),
        valid(c),
    ensures
        then3(inverse_tables(a), then3(a, s, inverse_tables(c)), c) == s,
{
    lemma_inverse_valid(a);
    lemma_inverse_valid(c);
    lemma_then_valid(a, s);
    let as_ = then_tables(a, s);
    // a' ((a s) c') = (a' (a s)) c' = s c'
    law_then_assoc(inverse_tables(a), as_, inverse_tables(c));
    lemma_cancel_left(a, s);
    lemma_cancel(s, c);
}

proof fn lemma_literal_one(p: PrimModel)
    ensures
        literal_tables(seq![p]) == seq![prim_tables(p)],
{
    assert(literal_tables(seq![p]) =~= seq![prim_tables(p)]);
}

proof fn lemma_literal_two(p: PrimModel, q: PrimModel)
    ensures
        literal_tables(seq![p, q]) == seq![prim_tables(p), prim_tables(q)],
{
    assert(literal_tables(seq![p, q]) =~= seq![prim_tables(p), prim_tables(q)]);
}

proof fn lemma_literal_three(p: PrimModel, q: PrimModel, o: PrimModel)
    ensures
        literal_tables(seq![p, q, o]) == seq![prim_tables(p), prim_tables(q), prim_tables(o)],
{
    assert(literal_tables(seq![p, q, o]) =~= seq![prim_tables(p), prim_tables(q), prim_tables(o)]);
}

/// Single steps: the face turns and the rotations.
#[verifier::spinoff_prover]
proof fn lemma_single_meanings(ms: MoveSet)
    requires
        ms.standard(),
    ensures
        compose_all(literal_tables(seq![PrimModel::Face(ms.u@)])) == u_turn_tables(),
        compose_all(literal_tables(seq![PrimModel::Face(ms.d@)])) == d_turn_tables(),
        compose_all(literal_tables(seq![PrimModel::Face(ms.r@)])) == r_turn_tables(),
        compose_all(literal_tables(seq![PrimModel::Face(ms.l@)])) == l_turn_tables(),
        compose_all(literal_tables(seq![PrimModel::Face(ms.f@)])) == f_turn_tables(),
        compose_all(literal_tables(seq![PrimModel::Face(ms.b@)])) == b_turn_tables(),
        compose_all(literal_tables(seq![PrimModel::Rot(ms.x@)])) == then3(
            r_turn_tables(),
            inverse_tables(m_slice_tables()),
            inverse_tables(l_turn_tables()),
        ),
        compose_all(literal_tables(seq![PrimModel::Rot(ms.y@)])) == then3(
            u_turn_tables(),
            inverse_tables(e_slice_tables()),
            inverse_tables(d_turn_tables()),
        ),
        compose_all(literal_tables(seq![PrimModel::Rot(ms.z@)])) == then3(
            f_turn_tables(),
            s_slice_tables(),
            inverse_tables(b_turn_tables()),
        ),
{
    lemma_basic_moves_valid();
    crate::moves::lemma_rotations_valid();
    let ps = seq![
        PrimModel::Face(ms.u@),
        PrimModel::Face(ms.d@),
        PrimModel::Face(ms.r@),
        PrimModel::Face(ms.l@),
        PrimModel::Face(ms.f@),
        PrimModel::Face(ms.b@),
        PrimModel::Rot(ms.x@),
        PrimModel::Rot(ms.y@),
        PrimModel::Rot(ms.z@),
    ];
    assert forall|i: int| 0 <= i < 9 implies compose_all(literal_tables(seq![#[trigger] ps[i]]))
        == prim_tables(ps[i]) by {
        lemma_literal_one(ps[i]);
        lemma_compose_one(prim_tables(ps[i]));
    }
    assert(ps[0] == PrimModel::Face(ms.u@));
    assert(ps[1] == PrimModel::Face(ms.d@));
    assert(ps[2] == PrimModel::Face(ms.r@));
    assert(ps[3] == PrimModel::Face(ms.l@));
    assert(ps[4] == PrimModel::Face(ms.f@));
    assert(ps[5] == PrimModel::Face(ms.b@));
    assert(ps[6] == PrimModel::Rot(ms.x@));
    assert(ps[7] == PrimModel::Rot(ms.y@));
    assert(ps[8] == PrimModel::Rot(ms.z@));
}

/// A rotation `a b' c'` followed by the face `c` it ends with composes to
/// `a b'`.
#[verifier::spinoff_prover]
proof fn lemma_rotation_then_face(a: Tables, b: Tables, c: Tables)
    requires
        valid(a),
        valid(b),
        valid(c),
    ensures
        compose_all(
            literal_tables(
                seq![
                    PrimModel::Rot(then3(a, inverse_tables(b), inverse_tables(c))),
                    PrimModel::Face(c),
                ],
            ),
        ) == then_tables(a, inverse_tables(b)),
{
    let g = then3(a, inverse_tables(b), inverse_tables(c));
    lemma_literal_two(PrimModel::Rot(g), PrimModel::Face(c));
    lemma_inverse_valid(b);
    lemma_inverse_valid(c);
    lemma_then_valid(a, inverse_tables(b));
    lemma_then_valid(then_tables(a, inverse_tables(b)), inverse_tables(c));
    lemma_compose_two(g, c);
    lemma_cancel(then_tables(a, inverse_tables(b)), c);
}

/// The inverse of a rotation `a b' c'`, followed by the face `a`, composes
/// to `c b`.
#[verifier::spinoff_prover]
proof fn lemma_inverse_rotation_then_face(a: Tables, b: Tables, c: Tables)
    requires
        valid(a),
        valid(b),
        valid(c),
    ensures
        compose_all(
            literal_tables(
                seq![
                    PrimModel::Rot(inverse_tables(then3(a, inverse_tables(b), inverse_tables(c)))),
                    PrimModel::Face(a),
                ],
            ),
        ) == then_tables(c, b),
{
    let g = inverse_tables(then3(a, inverse_tables(b), inverse_tables(c)));
    lemma_literal_two(PrimModel::Rot(g), PrimModel::Face(a));
    lemma_inverse_three(a, b, c);
    lemma_inverse_valid(a);
    lemma_then_valid(c, b);
    lemma_then_valid(then_tables(c, b), inverse_tables(a));
    lemma_compose_two(g, a);
    lemma_cancel(then_tables(c, b), a);
}

/// The face `c'`, the inverse of a rotation `a b' c'`, then the face `a`
/// compose to `b`.
#[verifier::spinoff_prover]
proof fn lemma_face_rotation_face(a: Tables, b: Tables, c: Tables)
    requires
        valid(a),
        valid(b),
        valid(c),
    ensures
        compose_all(
            literal_tables(
                seq![
                    PrimModel::Face(inverse_tables(c)),
                    PrimModel::Rot(inverse_tables(then3(a, inverse_tables(b), inverse_tables(c)))),
                    PrimModel::Face(a),
                ],
            ),
        ) == b,
{
    let g = inverse_tables(then3(a, inverse_tables(b), inverse_tables(c)));
    lemma_literal_three(PrimModel::Face(inverse_tables(c)), PrimModel::Rot(g), PrimModel::Face(a));
    lemma_inverse_valid(c);
    lemma_compose_three(inverse_tables(c), g, a);
    lemma_inverse_three(a, b, c);
    lemma_slice_between(c, b, a);
}

/// A rotation `a b c'`: the face `a'`, the rotation, then the face `c`
/// compose to `b`.
#[verifier::spinoff_prover]
proof fn lemma_face_rotation_face_plain(a: Tables, b: Tables, c: Tables)
    requires
        valid(a),
        valid(b),
        valid(c),
    ensures
        compose_all(
            literal_tables(
                seq![
                    PrimModel::Face(inverse_tables(a)),
                    PrimModel::Rot(then3(a, b, inverse_tables(c))),
                    PrimModel::Face(c),
                ],
            ),
        ) == b,
{
    let g = then3(a, b, inverse_tables(c));
    lemma_literal_three(PrimModel::Face(inverse_tables(a)), PrimModel::Rot(g), PrimModel::Face(c));
    lemma_inverse_valid(a);
    lemma_compose_three(inverse_tables(a), g, c);
    lemma_slice_between(a, b, c);
}

/// A rotation `a b c'` followed by the face `c` composes to `a b`.
#[verifier::spinoff_prover]
proof fn lemma_rotation_then_face_plain(a: Tables, b: Tables, c: Tables)
    requires
        valid(a),
        valid(b),
        valid(c),
    ensures
        compose_all(literal_tables(seq![PrimModel::Rot(then3(a, b, inverse_tables(c))), PrimModel::Face(c)]))
            == then_tables(a, b),
{
    let g = then3(a, b, inverse_tables(c));
    lemma_literal_two(PrimModel::Rot(g), PrimModel::Face(c));
    lemma_then_valid(a, b);
    lemma_inverse_valid(c);
    lemma_then_valid(then_tables(a, b), inverse_tables(c));
    lemma_compose_two(g, c);
    lemma_cancel(then_tables(a, b), c);
}

/// The inverse of a rotation `a b c'`, followed by the face `a`, composes
/// to `c b'`.
#[verifier::spinoff_prover]
proof fn lemma_inverse_rotation_then_face_plain(a: Tables, b: Tables, c: Tables)
    requires
        valid(a),
        valid(b),
        valid(c),
    ensures
        compose_all(
            literal_tables(
                seq![PrimModel::Rot(inverse_tables(then3(a, b, inverse_tables(c)))), PrimModel::Face(a)],
            ),
        ) == then_tables(c, inverse_tables(b)),
{
    let bi = inverse_tables(b);
    lemma_inverse_valid(b);
    law_inverse_inverse(b);
    lemma_inverse_rotation_then_face(a, bi, c);
}

/// A rotation followed by a face: the wide moves.
proof fn lemma_wide_meanings(ms: MoveSet)
    requires
        ms.standard(),
    ensures
        compose_all(literal_tables(seq![PrimModel::Rot(ms.y@), PrimModel::Face(ms.d@)]))
            == then_tables(u_turn_tables(), inverse_tables(e_slice_tables())),
        compose_all(literal_tables(seq![PrimModel::Rot(ms.yp@), PrimModel::Face(ms.u@)]))
            == then_tables(d_turn_tables(), e_slice_tables()),
        compose_all(literal_tables(seq![PrimModel::Rot(ms.x@), PrimModel::Face(ms.l@)]))
            == then_tables(r_turn_tables(), inverse_tables(m_slice_tables())),
        compose_all(literal_tables(seq![PrimModel::Rot(ms.xp@), PrimModel::Face(ms.r@)]))
            == then_tables(l_turn_tables(), m_slice_tables()),
        compose_all(literal_tables(seq![PrimModel::Rot(ms.z@), PrimModel::Face(ms.b@)]))
            == then_tables(f_turn_tables(), s_slice_tables()),
        compose_all(literal_tables(seq![PrimModel::Rot(ms.zp@), PrimModel::Face(ms.f@)]))
            == then_tables(b_turn_tables(), inverse_tables(s_slice_tables())),
{
    lemma_basic_moves_valid();
    lemma_rotation_then_face(u_turn_tables(), e_slice_tables(), d_turn_tables());
    lemma_inverse_rotation_then_face(u_turn_tables(), e_slice_tables(), d_turn_tables());
    lemma_rotation_then_face(r_turn_tables(), m_slice_tables(), l_turn_tables());
    lemma_inverse_rotation_then_face(r_turn_tables(), m_slice_tables(), l_turn_tables());
    lemma_rotation_then_face_plain(f_turn_tables(), s_slice_tables(), b_turn_tables());
    lemma_inverse_rotation_then_face_plain(f_turn_tables(), s_slice_tables(), b_turn_tables());
}

/// A face, a rotation and a face: the slices.
proof fn lemma_slice_meanings(ms: MoveSet)
    requires
        ms.standard(),
    ensures
        compose_all(
            literal_tables(seq![PrimModel::Face(ms.lp@), PrimModel::Rot(ms.xp@), PrimModel::Face(ms.r@)]),
        ) == m_slice_tables(),
        compose_all(
            literal_tables(seq![PrimModel::Face(ms.dp@), PrimModel::Rot(ms.yp@), PrimModel::Face(ms.u@)]),
        ) == e_slice_tables(),
        compose_all(
            literal_tables(seq![PrimModel::Face(ms.fp@), PrimModel::Rot(ms.z@), PrimModel::Face(ms.b@)]),
        ) == s_slice_tables(),
{
    lemma_basic_moves_valid();
    lemma_face_rotation_face(r_turn_tables(), m_slice_tables(), l_turn_tables());
    lemma_face_rotation_face(u_turn_tables(), e_slice_tables(), d_turn_tables());
    lemma_face_rotation_face_plain(f_turn_tables(), s_slice_tables(), b_turn_tables());
}

/// The steps the parser expands a base move into compose to the base
/// move's whole-cube meaning.
pub proof fn law_base_move_meaning(base: Seq<char>, ms: MoveSet)
    requires
        ms.standard(),
        quarter_spec(base, ms) is Ok,
    ensures
        compose_all(literal_tables(quarter_spec(base, ms)->Ok_0)) == base_meaning(base),
{
    lemma_single_meanings(ms);
    lemma_wide_meanings(ms);
    lemma_slice_meanings(ms);
}

} // verus!
