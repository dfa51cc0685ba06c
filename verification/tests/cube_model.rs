use zb_trainer::cube::CubeState;
use zb_trainer::moves::{moves_eq, MoveSet};
use zb_trainer::normalize::{parse_and_canon, strip_auf, zbll_canonical, zbls_canonical};
use zb_trainer::parse::{invert_alg, parse_alg};

/// Verify every stored move: quarter^4 = identity, quarter·prime = identity,
/// and double = quarter². Covers all six faces and three rotations.
#[test]
fn test_move_identity() {
    let ms = MoveSet::build();
    let id = CubeState::solved();
    for (name, q, p, d) in [
        ("U", ms.u, ms.up, ms.u2),
        ("D", ms.d, ms.dp, ms.d2),
        ("R", ms.r, ms.rp, ms.r2),
        ("L", ms.l, ms.lp, ms.l2),
        ("F", ms.f, ms.fp, ms.f2),
        ("B", ms.b, ms.bp, ms.b2),
        ("x", ms.x, ms.xp, ms.x2),
        ("y", ms.y, ms.yp, ms.y2),
        ("z", ms.z, ms.zp, ms.z2),
    ] {
        assert_eq!(
            id.apply(&q).apply(&q).apply(&q).apply(&q),
            id,
            "{name}^4 != identity"
        );
        assert_eq!(id.apply(&q).apply(&p), id, "{name}·{name}' != identity");
        assert_eq!(id.apply(&d), id.apply(&q).apply(&q), "{name}2 != {name}²");
    }
}

/// AUF-stripped algs that differ only by pre/post U moves must share a fingerprint.
#[test]
fn test_auf_normalization() {
    let ms = MoveSet::build();
    let rots = ms.cube_rotations();
    let a = parse_and_canon(&ms, &rots, "F R' F' r U R U' r'").unwrap();
    let b = parse_and_canon(&ms, &rots, "U' F R' F' r U R U' r'").unwrap();
    let c = parse_and_canon(&ms, &rots, "U2 F R' F' r U R U' r' U'").unwrap();
    assert_eq!(a, b, "pre-AUF changed fingerprint");
    assert_eq!(a, c, "pre+post AUF changed fingerprint");
}

/// The rotations x/y/z must form exactly the 24-element cube-orientation
/// group.
#[test]
fn test_rotation_group_is_24() {
    let ms = MoveSet::build();
    assert_eq!(ms.cube_rotations().len(), 24);
}

/// Every genuine last-layer alg must, when its inverse is applied to a
/// solved cube, leave F2L intact and keep all LL edges oriented.
#[test]
fn test_ll_algs_preserve_f2l() {
    let ms = MoveSet::build();
    let id = CubeState::solved();
    for (name, alg) in [
        ("Sune", "R U R' U R U2 R'"),
        ("AntiSune", "R U2 R' U' R U' R'"),
        ("T-perm", "R U R' U' R' F R2 U' R' U' R U R' F'"),
        ("Y-perm", "F R U' R' U' R U R' F' R U R' U' R' F R F'"),
        ("H-perm", "M2 U M2 U2 M2 U M2"),
        ("Ua-perm", "M2 U M U2 M' U M2"),
        ("Ub-perm", "M2 U' M U2 M' U' M2"),
    ] {
        let moves = parse_alg(alg, &ms).unwrap();
        let inv = invert_alg(&moves);
        let state = id.apply_alg(&inv);
        assert!(state.f2l_solved(), "{name}: inverse broke F2L");
        assert!(
            state.ll_edges_oriented(),
            "{name}: inverse mis-oriented LL edges"
        );
    }
}

#[test]
fn solved_cube_has_the_identity_tables() {
    let s = CubeState::solved();
    assert_eq!(s.cp, [0, 1, 2, 3, 4, 5, 6, 7]);
    assert_eq!(s.co, [0; 8]);
    assert_eq!(s.ep, [0, 1, 2, 3, 4, 5, 6, 7, 8, 9, 10, 11]);
    assert_eq!(s.eo, [0; 12]);
    assert!(s.f2l_solved());
    assert!(s.ll_edges_oriented());
}

#[test]
fn apply_moves_pieces_to_their_destination() {
    let ms = MoveSet::build();
    // R sends the piece in slot URF (0) to slot UBR (3), twisting it by 2.
    let s = CubeState::solved().apply(&ms.r);
    assert_eq!(s.cp, [4, 1, 2, 0, 7, 5, 6, 3]);
    assert_eq!(s.co, [1, 0, 0, 2, 2, 0, 0, 1]);
    assert_eq!(s.ep, [8, 1, 2, 3, 11, 5, 6, 7, 4, 9, 10, 0]);
    assert!(!s.f2l_solved());
    // F flips edges, so the last-layer edge UF is no longer oriented.
    let f = CubeState::solved().apply(&ms.f);
    assert!(!f.ll_edges_oriented());
}

#[test]
fn apply_alg_is_apply_in_turn() {
    let ms = MoveSet::build();
    let s = CubeState::solved();
    let moves = vec![ms.r, ms.u, ms.rp, ms.up];
    assert_eq!(
        s.apply_alg(&moves),
        s.apply(&ms.r).apply(&ms.u).apply(&ms.rp).apply(&ms.up)
    );
    assert_eq!(s.apply_alg(&[]), s);
}

#[test]
fn then_move_composes_and_inverse_undoes() {
    let ms = MoveSet::build();
    let s = CubeState::solved().apply(&ms.f).apply(&ms.l);
    let ru = ms.r.then_move(&ms.u);
    assert_eq!(s.apply(&ru), s.apply(&ms.r).apply(&ms.u));
    let back = ru.then_move(&ru.inverse());
    assert_eq!(s.apply(&back), s);
    let twice = ru.inverse().inverse();
    assert_eq!(twice.cp, ru.cp);
    assert_eq!(twice.co, ru.co);
    assert_eq!(twice.ep, ru.ep);
    assert_eq!(twice.eo, ru.eo);
    let sq = ms.f.pow2();
    assert_eq!(sq.cp, ms.f2.cp);
    assert_eq!(sq.co, ms.f2.co);
    assert_eq!(sq.ep, ms.f2.ep);
    assert_eq!(sq.eo, ms.f2.eo);
}

#[test]
fn invert_alg_undoes_an_alg() {
    let ms = MoveSet::build();
    let start = CubeState::solved().apply(&ms.b).apply(&ms.d);
    let moves = parse_alg("R U R' F' x r2 D'", &ms).unwrap();
    let inv = invert_alg(&moves);
    assert_eq!(inv.len(), moves.len());
    assert_eq!(start.apply_alg(&moves).apply_alg(&inv), start);
}

#[test]
fn rotations_start_at_identity_and_are_distinct() {
    let ms = MoveSet::build();
    let rots = ms.cube_rotations();
    let id = CubeState::solved();
    assert_eq!(id.apply(&rots[0]), id);
    for i in 0..rots.len() {
        for j in 0..rots.len() {
            if i != j {
                assert_ne!(id.apply(&rots[i]), id.apply(&rots[j]));
            }
        }
    }
}

#[test]
fn composition_is_associative_and_has_an_identity() {
    let ms = MoveSet::build();
    let s = CubeState::solved().apply(&ms.b).apply(&ms.r);
    let a = ms.f;
    let b = ms.y;
    let c = ms.lp;
    let left = a.then_move(&b).then_move(&c);
    let right = a.then_move(&b.then_move(&c));
    assert_eq!(left.cp, right.cp);
    assert_eq!(left.co, right.co);
    assert_eq!(left.ep, right.ep);
    assert_eq!(left.eo, right.eo);
    let id = zb_trainer::moves::FaceMove::identity();
    let l = id.then_move(&a);
    assert_eq!((l.cp, l.co, l.ep, l.eo), (a.cp, a.co, a.ep, a.eo));
    let r = a.then_move(&id);
    assert_eq!((r.cp, r.co, r.ep, r.eo), (a.cp, a.co, a.ep, a.eo));
    assert_eq!(s.apply(&id), s);
}

#[test]
fn apply_alg_of_a_concatenation() {
    let ms = MoveSet::build();
    let s = CubeState::solved();
    let a = vec![ms.r, ms.u];
    let b = vec![ms.fp, ms.d2];
    let ab: Vec<_> = a.iter().chain(b.iter()).copied().collect();
    assert_eq!(s.apply_alg(&ab), s.apply_alg(&a).apply_alg(&b));
}

#[test]
fn orientation_sums_stay_multiples() {
    let ms = MoveSet::build();
    let alg = parse_alg("R U R' F' r U2 M' S E2 x y' D B L'", &ms).unwrap();
    let s = CubeState::solved().apply_alg(&alg);
    let twist: u32 = s.co.iter().map(|&c| c as u32).sum();
    let flip: u32 = s.eo.iter().map(|&e| e as u32).sum();
    assert_eq!(twist % 3, 0);
    assert_eq!(flip % 2, 0);
    // Some pieces really are twisted and flipped.
    assert!(twist > 0);
    assert!(flip > 0);
}

#[test]
fn inverse_of_a_composition_reverses_the_order() {
    let ms = MoveSet::build();
    for (a, b) in [(ms.r, ms.u), (ms.f, ms.x), (ms.l, ms.d)] {
        let lhs = a.then_move(&b).inverse();
        let rhs = b.inverse().then_move(&a.inverse());
        assert!(moves_eq(&lhs, &rhs));
        assert!(moves_eq(&a.inverse().inverse(), &a));
    }
}

#[test]
fn inverse_alg_then_alg_restores_the_state() {
    let ms = MoveSet::build();
    let alg = parse_alg("R U2 R' F R F' U' L", &ms).unwrap();
    let s = CubeState::solved().apply(&ms.b).apply(&ms.dp);
    assert_eq!(s.apply_alg(&invert_alg(&alg)).apply_alg(&alg), s);
    assert_eq!(s.apply_alg(&alg).apply_alg(&invert_alg(&alg)), s);
}

#[test]
fn stripping_twice_is_stripping_once() {
    let ms = MoveSet::build();
    let alg = vec![ms.u, ms.y, ms.r, ms.u, ms.rp, ms.u2, ms.up];
    let once = strip_auf(&alg, &ms);
    assert_eq!(once.len(), 3);
    let twice = strip_auf(once, &ms);
    assert_eq!(twice.len(), once.len());
    assert!(moves_eq(&twice[0], &ms.r));
    assert!(moves_eq(&twice[1], &ms.u));
    assert!(moves_eq(&twice[2], &ms.rp));
}

#[test]
fn zbls_ignores_a_leading_u_turn_on_moves() {
    let ms = MoveSet::build();
    let core = parse_alg("R U' R' U R U R'", &ms).unwrap();
    let base = zbls_canonical(&core);
    for u in [ms.u, ms.up, ms.u2] {
        let mut with_u = vec![u];
        with_u.extend_from_slice(&core);
        assert_eq!(zbls_canonical(&with_u), base);
    }
}

#[test]
fn zbll_does_not_depend_on_rotation_order() {
    let ms = MoveSet::build();
    let rots = ms.cube_rotations();
    let mut reversed = rots.clone();
    reversed.reverse();
    for alg in ["R U R' U R U2 R'", "R U R'", "F R' F' r U R U' r'"] {
        let core = parse_alg(alg, &ms).unwrap();
        let a = zbll_canonical(&core, &rots).map(|(c, _)| c);
        let b = zbll_canonical(&core, &reversed).map(|(c, _)| c);
        assert_eq!(a, b);
    }
}

#[test]
fn zbll_ignores_a_leading_u_turn_on_moves() {
    let ms = MoveSet::build();
    let rots = ms.cube_rotations();
    for alg in ["R U R' U R U2 R'", "F R' F' r U R U' r'", "R U R' U' R' F R2 U' R' U' R U R' F'"] {
        let core = parse_alg(alg, &ms).unwrap();
        let base = zbll_canonical(&core, &rots);
        assert!(base.is_some());
        for u in [ms.u, ms.up, ms.u2] {
            let mut with_u = vec![u];
            with_u.extend_from_slice(&core);
            assert_eq!(zbll_canonical(&with_u, &rots), base);
        }
    }
}

#[test]
fn rotations_keeping_f2l_commute_with_u() {
    let ms = MoveSet::build();
    let mut keeping = 0;
    for g in ms.cube_rotations() {
        let fixes = (4..8).all(|i| g.cp[i] as usize == i && g.co[i] == 0)
            && (4..12).all(|i| g.ep[i] as usize == i && g.eo[i] == 0);
        if fixes {
            keeping += 1;
            assert!(moves_eq(&ms.u.then_move(&g), &g.then_move(&ms.u)));
        }
    }
    assert_eq!(keeping, 1);
    assert_eq!(ms.cube_rotations().len(), 24);
}
